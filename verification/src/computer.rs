use vstd::prelude::*;

use crate::error::{Error, ErrorView};

verus! {

/// Every target lies inside a register of `len` cells.
pub open spec fn in_range(len: nat, targets: Seq<usize>) -> bool {
    forall|p: int| 0 <= p < targets.len() ==> (#[trigger] targets[p]) < len
}

/// No register position is addressed twice.
pub open spec fn distinct(targets: Seq<usize>) -> bool {
    forall|p: int, q: int|
        0 <= p < q < targets.len() ==> #[trigger] targets[p] != #[trigger] targets[q]
}

/// A gate may address `targets` in a register of `len` cells: the register
/// has at least as many cells as there are targets, and the targets are in
/// range and distinct.
pub open spec fn admissible(len: nat, targets: Seq<usize>) -> bool {
    &&& targets.len() <= len
    &&& in_range(len, targets)
    &&& distinct(targets)
}

/// `p` is the first operand whose target lies outside the register.
pub open spec fn first_outside(len: nat, targets: Seq<usize>, p: int) -> bool {
    &&& 0 <= p < targets.len()
    &&& targets[p] >= len
    &&& in_range(len, targets.take(p))
}

/// `q` is the first operand whose target was already addressed by an earlier
/// operand.
pub open spec fn first_repeat(targets: Seq<usize>, q: int) -> bool {
    &&& 0 <= q < targets.len()
    &&& exists|p: int| 0 <= p < q && targets[p] == targets[q]
    &&& distinct(targets.take(q))
}

/// `e` is the error owed for targets that are not admissible. The size of the
/// register is judged first, then the range of each target in operand order,
/// then repetitions in operand order.
pub open spec fn rejection(len: nat, targets: Seq<usize>, e: ErrorView) -> bool {
    if len < targets.len() {
        e == (ErrorView::InsufficientQubits {
            needed: targets.len() as usize,
            available: len as usize,
        })
    } else if !in_range(len, targets) {
        exists|p: int|
            first_outside(len, targets, p) && e == (ErrorView::IndexRange { index: targets[p] })
    } else {
        exists|q: int|
            first_repeat(targets, q) && e == (ErrorView::IndexRange { index: targets[q] })
    }
}

/// The cells at `targets`, in operand order.
pub open spec fn gather<Q>(cells: Seq<Q>, targets: Seq<usize>) -> Seq<Q> {
    Seq::new(targets.len(), |p: int| cells[targets[p] as int])
}

/// `after` is `before` with the cell at each target replaced by the image of
/// the same operand, and every other cell as it was.
pub open spec fn scattered<Q>(
    before: Seq<Q>,
    targets: Seq<usize>,
    images: Seq<Q>,
    after: Seq<Q>,
) -> bool {
    &&& after.len() == before.len()
    &&& forall|p: int|
        0 <= p < targets.len() ==> after[(#[trigger] targets[p]) as int] == images[p]
    &&& forall|i: int|
        0 <= i < before.len() && !targets.contains(i as usize) ==> (#[trigger] after[i])
            == before[i]
}

/// A fixed-size register of qubits, addressed by position.
///
/// The register does not look inside a qubit. It decides which cells a gate
/// may read and write; computing the new amplitudes is the caller's work.
pub struct Computer<Q> {
    state: Vec<Q>,
}

impl<Q> View for Computer<Q> {
    type V = Seq<Q>;

    closed spec fn view(&self) -> Seq<Q> {
        self.state@
    }
}

impl<Q: Copy> Computer<Q> {
    /// A register holding `qubits`, in the given order.
    pub fn new(qubits: Vec<Q>) -> (computer: Self)
        ensures
            computer@ == qubits@,
    {
        Computer { state: qubits }
    }

    /// The number of qubits.
    pub fn len(&self) -> (n: usize)
        ensures
            n == self@.len(),
    {
        self.state.len()
    }

    /// The qubits, in register order.
    pub fn qubits(&self) -> (cells: &Vec<Q>)
        ensures
            cells@ == self@,
    {
        &self.state
    }

    /// Judges whether a gate may address `targets`.
    pub fn check(&self, targets: &Vec<usize>) -> (r: Result<(), Error>)
        ensures
            r is Ok <==> admissible(self@.len(), targets@),
            r is Err ==> rejection(self@.len(), targets@, r->Err_0@),
    {
        let k = targets.len();
        let n = self.state.len();
        if n < k {
            return Err(Error::InsufficientQubits { needed: k, available: n });
        }
        let mut p: usize = 0;
        while p < k
            invariant
                k == targets.len(),
                n == self@.len(),
                k <= n,
                p <= k,
                in_range(n as nat, targets@.take(p as int)),
            decreases k - p,
        {
            if targets[p] >= n {
                assert(first_outside(n as nat, targets@, p as int));
                return Err(Error::IndexRange { index: targets[p] });
            }
            p += 1;
        }
        assert(targets@.take(k as int) == targets@);
        let mut q: usize = 0;
        while q < k
            invariant
                k == targets.len(),
                n == self@.len(),
                k <= n,
                q <= k,
                in_range(n as nat, targets@),
                distinct(targets@.take(q as int)),
            decreases k - q,
        {
            let mut p: usize = 0;
            while p < q
                invariant
                    k == targets.len(),
                    q < k,
                    p <= q,
                    forall|j: int| 0 <= j < p ==> targets[j] != targets[q as int],
                    distinct(targets@.take(q as int)),
                    in_range(n as nat, targets@),
                    k <= n,
                    n == self@.len(),
                decreases q - p,
            {
                if targets[p] == targets[q] {
                    assert(first_repeat(targets@, q as int));
                    return Err(Error::IndexRange { index: targets[q] });
                }
                p += 1;
            }
            q += 1;
        }
        Ok(())
    }

    /// The qubits a gate on `targets` reads, in operand order.
    ///
    /// Fails, as [`Computer::check`] does, when a gate may not address
    /// `targets`.
    pub fn operands(&self, targets: &Vec<usize>) -> (r: Result<Vec<Q>, Error>)
        ensures
            match r {
                Ok(operands) => admissible(self@.len(), targets@) && operands@ == gather(
                    self@,
                    targets@,
                ),
                Err(e) => !admissible(self@.len(), targets@) && rejection(
                    self@.len(),
                    targets@,
                    e@,
                ),
            },
    {
        match self.check(targets) {
            Err(e) => Err(e),
            Ok(()) => {
                let mut operands: Vec<Q> = Vec::new();
                let mut p: usize = 0;
                while p < targets.len()
                    invariant
                        p <= targets.len(),
                        in_range(self@.len(), targets@),
                        operands@ == gather(self@, targets@.take(p as int)),
                    decreases targets.len() - p,
                {
                    operands.push(self.state[targets[p]]);
                    p += 1;
                }
                Ok(operands)
            },
        }
    }

    /// Writes the images of a gate's operands back to `targets`.
    ///
    /// On success exactly the addressed cells change. When a gate may not
    /// address `targets` the register is left as it was.
    pub fn replace(&mut self, targets: &Vec<usize>, images: &Vec<Q>) -> (r: Result<(), Error>)
        requires
            images.len() == targets.len(),
        ensures
            match r {
                Ok(()) => admissible(old(self)@.len(), targets@) && scattered(
                    old(self)@,
                    targets@,
                    images@,
                    final(self)@,
                ),
                Err(e) => !admissible(old(self)@.len(), targets@) && rejection(
                    old(self)@.len(),
                    targets@,
                    e@,
                ) && final(self)@ == old(self)@,
            },
    {
        match self.check(targets) {
            Err(e) => Err(e),
            Ok(()) => {
                let mut p: usize = 0;
                while p < targets.len()
                    invariant
                        p <= targets.len(),
                        images.len() == targets.len(),
                        admissible(old(self)@.len(), targets@),
                        scattered(
                            old(self)@,
                            targets@.take(p as int),
                            images@.take(p as int),
                            self@,
                        ),
                    decreases targets.len() - p,
                {
                    self.state.set(targets[p], images[p]);
                    proof {
                        let t0 = targets@.take(p as int);
                        let t1 = targets@.take(p + 1);
                        assert forall|i: int|
                            0 <= i < old(self)@.len() && !t1.contains(i as usize) implies (
                        #[trigger] self@[i]) == old(self)@[i] by {
                            assert(t1[p as int] == targets@[p as int]);
                        }
                    }
                    p += 1;
                }
                assert(targets@.take(targets.len() as int) == targets@);
                Ok(())
            },
        }
    }
}

/// Targets that are not admissible are refused with one error only.
pub proof fn lemma_rejection_unique(
    len: nat,
    targets: Seq<usize>,
    first: ErrorView,
    second: ErrorView,
)
    requires
        rejection(len, targets, first),
        rejection(len, targets, second),
    ensures
        first == second,
{
    if len < targets.len() {
    } else if !in_range(len, targets) {
        let p = choose|p: int|
            first_outside(len, targets, p) && first == (ErrorView::IndexRange {
                index: targets[p],
            });
        let q = choose|q: int|
            first_outside(len, targets, q) && second == (ErrorView::IndexRange {
                index: targets[q],
            });
        if p < q {
            assert(targets.take(q)[p] == targets[p]);
        } else if q < p {
            assert(targets.take(p)[q] == targets[q]);
        }
    } else {
        let p = choose|p: int|
            first_repeat(targets, p) && first == (ErrorView::IndexRange { index: targets[p] });
        let q = choose|q: int|
            first_repeat(targets, q) && second == (ErrorView::IndexRange { index: targets[q] });
        if p < q {
            let earlier = choose|e: int| 0 <= e < p && targets[e] == targets[p];
            assert(targets.take(q)[earlier] == targets.take(q)[p]);
        } else if q < p {
            let earlier = choose|e: int| 0 <= e < q && targets[e] == targets[q];
            assert(targets.take(p)[earlier] == targets.take(p)[q]);
        }
    }
}

/// A gate on two qubits that addresses one position twice is refused with an
/// index-range error that names the position. This holds of every position
/// and of every register of at least two qubits; a smaller register is too
/// small for such a gate, and is refused for that.
pub proof fn lemma_equal_targets_refused(len: nat, index: usize, e: ErrorView)
    requires
        len >= 2,
        rejection(len, seq![index, index], e),
    ensures
        !admissible(len, seq![index, index]),
        e == (ErrorView::IndexRange { index }),
{
    let targets = seq![index, index];
}

} // verus!
