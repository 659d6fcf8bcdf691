use vstd::prelude::*;
use vstd::string::StringExecFns;

use crate::error::{Error, ErrorView};

verus! {

/// The character that reports a measured bit.
pub open spec fn bit_char(bit: bool) -> char {
    if bit {
        '1'
    } else {
        '0'
    }
}

/// The bit-string that reports `bits`: one character per bit, in order.
pub open spec fn bit_text(bits: Seq<bool>) -> Seq<char> {
    Seq::new(bits.len(), |i: int| bit_char(bits[i]))
}

/// Writes measured bits as a bit-string, the bit of the first qubit first.
pub fn bit_string(bits: &Vec<bool>) -> (text: String)
    ensures
        text@ == bit_text(bits@),
{
    let mut text = String::new();
    let mut i: usize = 0;
    proof {
        reveal_strlit("0");
        reveal_strlit("1");
    }
    while i < bits.len()
        invariant
            i <= bits.len(),
            text@ == bit_text(bits@.take(i as int)),
            "0"@ == seq!['0'],
            "1"@ == seq!['1'],
        decreases bits.len() - i,
    {
        if bits[i] {
            text.append("1");
        } else {
            text.append("0");
        }
        i += 1;
    }
    text
}

/// How often `sample` occurs in `log`.
pub open spec fn occurrences(log: Seq<Seq<char>>, sample: Seq<char>) -> nat
    decreases log.len(),
{
    if log.len() == 0 {
        0
    } else {
        occurrences(log.drop_last(), sample) + if log.last() == sample {
            1nat
        } else {
            0nat
        }
    }
}

/// The model of a list of counted bit-strings.
pub open spec fn counts_view(entries: Seq<(String, u64)>) -> Seq<(Seq<char>, u64)> {
    entries.map_values(|entry: (String, u64)| (entry.0@, entry.1))
}

/// The sum of the counts.
pub open spec fn total(entries: Seq<(Seq<char>, u64)>) -> nat
    decreases entries.len(),
{
    if entries.len() == 0 {
        0
    } else {
        total(entries.drop_last()) + entries.last().1 as nat
    }
}

/// Whether `entries` holds an entry for `sample`.
pub open spec fn has_entry(entries: Seq<(Seq<char>, u64)>, sample: Seq<char>) -> bool {
    exists|i: int| 0 <= i < entries.len() && (#[trigger] entries[i]).0 == sample
}

/// `entries` maps each bit-string that occurs in `log`, and no other, to the
/// number of its occurrences: no bit-string has two entries, every entry
/// counts the occurrences of its bit-string, of which there is at least one,
/// and every bit-string in `log` has an entry.
pub open spec fn histogram_of(entries: Seq<(Seq<char>, u64)>, log: Seq<Seq<char>>) -> bool {
    &&& forall|i: int, j: int|
        0 <= i < j < entries.len() ==> (#[trigger] entries[i]).0 != (#[trigger] entries[j]).0
    &&& forall|i: int|
        0 <= i < entries.len() ==> (#[trigger] entries[i]).1 >= 1 && entries[i].1 == occurrences(
            log,
            entries[i].0,
        )
    &&& forall|k: int| 0 <= k < log.len() ==> has_entry(entries, #[trigger] log[k])
}

/// What a measurement reports.
#[derive(Debug, PartialEq, Eq)]
pub enum MeasureOutput {
    /// The one bit-string of a measurement that samples once.
    Single(String),
    /// For a measurement that samples more than once: each bit-string that
    /// was observed, with the number of times it was.
    Counts(Vec<(String, u64)>),
}

/// The samples of one measurement, as they come in.
///
/// A measurement asks for a number of samples, at least one. The driver draws
/// them and records each; once all are in, the measurement reports either the
/// single bit-string or the counts.
pub struct Sampling {
    requested: u64,
    recorded: u64,
    entries: Vec<(String, u64)>,
    log: Ghost<Seq<Seq<char>>>,
}

impl Sampling {
    /// The number of samples asked for.
    pub closed spec fn wanted(&self) -> nat {
        self.requested as nat
    }

    /// The samples recorded so far, in the order they came.
    pub closed spec fn log(&self) -> Seq<Seq<char>> {
        self.log@
    }

    /// At least one sample is asked for, no more are recorded than asked for,
    /// and the counts kept agree with the samples recorded.
    pub closed spec fn wf(&self) -> bool {
        &&& self.requested >= 1
        &&& self.recorded <= self.requested
        &&& self.log@.len() == self.recorded
        &&& histogram_of(counts_view(self.entries@), self.log@)
        &&& total(counts_view(self.entries@)) == self.log@.len()
    }

    /// Starts a measurement of `count` samples.
    ///
    /// Fails when `count` is zero.
    pub fn new(count: u64) -> (r: Result<Sampling, Error>)
        ensures
            match r {
                Ok(sampling) => count >= 1 && sampling.wf() && sampling.wanted() == count
                    && sampling.log() == Seq::<Seq<char>>::empty(),
                Err(e) => count == 0 && e@ == (ErrorView::InvalidCount { text: "0"@ }),
            },
    {
        if count == 0 {
            return Err(Error::InvalidCount { text: String::from_str("0") });
        }
        let sampling = Sampling {
            requested: count,
            recorded: 0,
            entries: Vec::new(),
            log: Ghost(Seq::empty()),
        };
        Ok(sampling)
    }

    /// The number of samples asked for.
    pub fn requested(&self) -> (n: u64)
        ensures
            n == self.wanted(),
    {
        self.requested
    }

    /// The number of samples still to come.
    pub fn remaining(&self) -> (n: u64)
        requires
            self.wf(),
        ensures
            n == self.wanted() - self.log().len(),
    {
        self.requested - self.recorded
    }

    /// Records one more sample.
    #[verifier::loop_isolation(false)]
    pub fn record(&mut self, sample: String)
        requires
            old(self).wf(),
            old(self).log().len() < old(self).wanted(),
        ensures
            final(self).wf(),
            final(self).wanted() == old(self).wanted(),
            final(self).log() == old(self).log().push(sample@),
    {
        let ghost before = counts_view(self.entries@);
        let ghost log = self.log@;
        let ghost grown = log.push(sample@);
        proof {
            assert(grown.drop_last() == log);
            assert forall|s: Seq<char>| #[trigger]
                occurrences(grown, s) == occurrences(log, s) + if s == sample@ {
                    1nat
                } else {
                    0nat
                } by {}
        }
        let mut i: usize = 0;
        while i < self.entries.len()
            invariant
                i <= self.entries.len(),
                self.entries@ == old(self).entries@,
                self.requested == old(self).requested,
                self.recorded == old(self).recorded,
                self.log@ == log,
                forall|j: int| 0 <= j < i ==> (#[trigger] before[j]).0 != sample@,
            decreases self.entries.len() - i,
        {
            if self.entries[i].0 == sample {
                let seen = self.entries[i].1;
                proof {
                    lemma_total_bounds(before, i as int);
                    lemma_total_update(before, i as int, (sample@, (seen + 1) as u64));
                }
                self.entries.set(i, (sample, seen + 1));
                self.recorded = self.recorded + 1;
                self.log = Ghost(grown);
                proof {
                    let after = counts_view(self.entries@);
                    assert(after =~= before.update(i as int, (sample@, (seen + 1) as u64)));
                    assert forall|k: int| 0 <= k < grown.len() implies has_entry(
                        after,
                        #[trigger] grown[k],
                    ) by {
                        if k < log.len() {
                            let j = choose|j: int|
                                0 <= j < before.len() && (#[trigger] before[j]).0 == log[k];
                            assert(after[j].0 == grown[k]);
                        } else {
                            assert(after[i as int].0 == grown[k]);
                        }
                    }
                }
                return ;
            }
            i += 1;
        }
        self.entries.push((sample, 1));
        self.recorded = self.recorded + 1;
        self.log = Ghost(grown);
        proof {
            let after = counts_view(self.entries@);
            assert(after =~= before.push((sample@, 1u64)));
            assert(after.drop_last() == before);
            lemma_absent(log, sample@, before);
            assert forall|k: int| 0 <= k < grown.len() implies has_entry(
                after,
                #[trigger] grown[k],
            ) by {
                if k >= log.len() {
                    assert(after[before.len() as int].0 == grown[k]);
                }
            }
        }
    }

    /// Ends the measurement, once every sample asked for is recorded.
    ///
    /// A measurement of one sample reports that sample. A measurement of more
    /// reports, for each distinct bit-string among the samples and for no
    /// other, how often it was observed; the counts add up to the number of
    /// samples.
    pub fn finish(self) -> (output: MeasureOutput)
        requires
            self.wf(),
            self.log().len() == self.wanted(),
        ensures
            match output {
                MeasureOutput::Single(text) => self.wanted() == 1 && text@ == self.log()[0],
                MeasureOutput::Counts(counts) => self.wanted() > 1 && histogram_of(
                    counts_view(counts@),
                    self.log(),
                ) && total(counts_view(counts@)) == self.wanted(),
            },
    {
        if self.requested == 1 {
            proof {
                let kept = counts_view(self.entries@);
                let j = choose|j: int|
                    0 <= j < kept.len() && (#[trigger] kept[j]).0 == self.log@[0];
                lemma_total_bounds(kept, j);
                if kept.len() > 1 {
                    let other = if j == 0 {
                        1
                    } else {
                        0
                    };
                    lemma_total_pair(kept, j, other);
                }
            }
            let mut entries = self.entries;
            let entry = entries.remove(0);
            MeasureOutput::Single(entry.0)
        } else {
            MeasureOutput::Counts(self.entries)
        }
    }
}

/// No count is above the total.
proof fn lemma_total_bounds(entries: Seq<(Seq<char>, u64)>, i: int)
    requires
        0 <= i < entries.len(),
    ensures
        entries[i].1 <= total(entries),
    decreases entries.len(),
{
    if i < entries.len() - 1 {
        lemma_total_bounds(entries.drop_last(), i);
    }
}

/// Two counts at different places are together not above the total.
proof fn lemma_total_pair(entries: Seq<(Seq<char>, u64)>, i: int, j: int)
    requires
        0 <= i < entries.len(),
        0 <= j < entries.len(),
        i != j,
    ensures
        entries[i].1 + entries[j].1 <= total(entries),
    decreases entries.len(),
{
    let last = entries.len() - 1;
    if i == last {
        lemma_total_bounds(entries.drop_last(), j);
    } else if j == last {
        lemma_total_bounds(entries.drop_last(), i);
    } else {
        lemma_total_pair(entries.drop_last(), i, j);
    }
}

/// Replacing one entry changes the total by the difference of the counts.
proof fn lemma_total_update(entries: Seq<(Seq<char>, u64)>, i: int, entry: (Seq<char>, u64))
    requires
        0 <= i < entries.len(),
    ensures
        total(entries.update(i, entry)) == total(entries) - entries[i].1 + entry.1,
    decreases entries.len(),
{
    let updated = entries.update(i, entry);
    if i == entries.len() - 1 {
        assert(updated.drop_last() == entries.drop_last());
    } else {
        lemma_total_update(entries.drop_last(), i, entry);
        assert(updated.drop_last() == entries.drop_last().update(i, entry));
    }
}

/// A bit-string without an entry does not occur in a log whose every sample
/// has one.
proof fn lemma_absent(log: Seq<Seq<char>>, sample: Seq<char>, entries: Seq<(Seq<char>, u64)>)
    requires
        forall|k: int| 0 <= k < log.len() ==> has_entry(entries, #[trigger] log[k]),
        !has_entry(entries, sample),
    ensures
        occurrences(log, sample) == 0,
    decreases log.len(),
{
    if log.len() > 0 {
        let rest = log.drop_last();
        lemma_absent(rest, sample, entries);
    }
}

} // verus!
