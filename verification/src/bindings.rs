use vstd::prelude::*;

use crate::error::{Error, ErrorView};

verus! {

/// The character sequences of a list of strings.
pub open spec fn texts(names: Seq<String>) -> Seq<Seq<char>> {
    names.map_values(|name: String| name@)
}

/// `q` is the first position whose name is already declared at an earlier
/// position.
pub open spec fn first_redeclared(names: Seq<Seq<char>>, q: int) -> bool {
    &&& 0 <= q < names.len()
    &&& names.take(q).contains(names[q])
    &&& names.take(q).no_duplicates()
}

/// `p` is the first operand that names no declared qubit.
pub open spec fn first_undeclared(names: Seq<Seq<char>>, operands: Seq<Seq<char>>, p: int) -> bool {
    &&& 0 <= p < operands.len()
    &&& !names.contains(operands[p])
    &&& forall|j: int| 0 <= j < p ==> names.contains(#[trigger] operands[j])
}

/// `targets` are the register positions that `operands` name, in operand
/// order.
pub open spec fn resolves(
    names: Seq<Seq<char>>,
    operands: Seq<Seq<char>>,
    targets: Seq<usize>,
) -> bool {
    &&& targets.len() == operands.len()
    &&& forall|p: int|
        0 <= p < operands.len() ==> {
            &&& (#[trigger] targets[p]) < names.len()
            &&& names[targets[p] as int] == operands[p]
        }
}

/// The binding of declared names to register positions.
///
/// It is built once from the declarations, in their order, and never changes:
/// the name declared first is bound to position 0, the next to position 1,
/// and so on. No name is bound twice.
pub struct Bindings {
    names: Vec<String>,
}

impl View for Bindings {
    type V = Seq<Seq<char>>;

    closed spec fn view(&self) -> Seq<Seq<char>> {
        texts(self.names@)
    }
}

impl Bindings {
    /// No name is bound to two positions.
    pub open spec fn wf(&self) -> bool {
        self@.no_duplicates()
    }

    /// Binds each name to its position in `names`.
    ///
    /// Fails on the first name that repeats an earlier one.
    pub fn bind(names: Vec<String>) -> (r: Result<Bindings, Error>)
        ensures
            match r {
                Ok(bindings) => bindings.wf() && bindings@ == texts(names@),
                Err(e) => exists|q: int|
                    first_redeclared(texts(names@), q) && e@ == (ErrorView::DuplicateDeclaration {
                        name: #[trigger] texts(names@)[q],
                    }),
            },
    {
        let ghost all = texts(names@);
        let mut q: usize = 0;
        while q < names.len()
            invariant
                q <= names.len(),
                all == texts(names@),
                all.take(q as int).no_duplicates(),
            decreases names.len() - q,
        {
            let mut p: usize = 0;
            while p < q
                invariant
                    p <= q,
                    q < names.len(),
                    all == texts(names@),
                    all.take(q as int).no_duplicates(),
                    forall|j: int| 0 <= j < p ==> all[j] != all[q as int],
                decreases q - p,
            {
                if names[p] == names[q] {
                    proof {
                        assert(all.take(q as int)[p as int] == all[q as int]);
                    }
                    return Err(Error::DuplicateDeclaration { name: names[q].clone() });
                }
                p += 1;
            }
            q += 1;
        }
        assert(all.take(names.len() as int) == all);
        Ok(Bindings { names })
    }

    /// The number of bound names.
    pub fn len(&self) -> (n: usize)
        ensures
            n == self@.len(),
    {
        self.names.len()
    }

    /// The position that `name` is bound to, if it is bound.
    pub fn resolve(&self, name: &String) -> (r: Option<usize>)
        ensures
            match r {
                Some(position) => position < self@.len() && self@[position as int] == name@,
                None => !self@.contains(name@),
            },
    {
        let mut p: usize = 0;
        while p < self.names.len()
            invariant
                p <= self.names.len(),
                forall|j: int| 0 <= j < p ==> self@[j] != name@,
            decreases self.names.len() - p,
        {
            if self.names[p] == *name {
                return Some(p);
            }
            p += 1;
        }
        None
    }

    /// The positions that `operands` name, in operand order.
    ///
    /// Fails on the first operand that is not bound.
    pub fn resolve_all(&self, operands: &Vec<String>) -> (r: Result<Vec<usize>, Error>)
        ensures
            match r {
                Ok(targets) => resolves(self@, texts(operands@), targets@),
                Err(e) => exists|p: int|
                    first_undeclared(self@, texts(operands@), p) && e@ == (
                    ErrorView::UndeclaredVariable { name: #[trigger] texts(operands@)[p] }),
            },
    {
        let ghost wanted = texts(operands@);
        let mut targets: Vec<usize> = Vec::new();
        let mut p: usize = 0;
        while p < operands.len()
            invariant
                p <= operands.len(),
                wanted == texts(operands@),
                resolves(self@, wanted.take(p as int), targets@),
            decreases operands.len() - p,
        {
            match self.resolve(&operands[p]) {
                None => {
                    proof {
                        assert forall|j: int| 0 <= j < p implies self@.contains(
                            #[trigger] wanted[j],
                        ) by {
                            assert(self@[targets@[j] as int] == wanted[j]);
                        }
                        assert(first_undeclared(self@, wanted, p as int));
                    }
                    return Err(Error::UndeclaredVariable { name: operands[p].clone() });
                },
                Some(position) => {
                    targets.push(position);
                },
            }
            p += 1;
        }
        Ok(targets)
    }
}

/// A declared name is bound to one position only: two resolutions of the same
/// operands agree.
pub proof fn lemma_resolution_unique(
    names: Seq<Seq<char>>,
    operands: Seq<Seq<char>>,
    first: Seq<usize>,
    second: Seq<usize>,
)
    requires
        names.no_duplicates(),
        resolves(names, operands, first),
        resolves(names, operands, second),
    ensures
        first == second,
{
}

} // verus!
