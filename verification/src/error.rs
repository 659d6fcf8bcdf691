use vstd::prelude::*;

use crate::instruction::Instruction;

verus! {

/// Why an operation was refused.
#[derive(Debug, PartialEq, Eq)]
pub enum Error {
    /// The amplitudes computed for register position `index` are not of unit
    /// norm.
    Normalization { index: usize },
    /// `name` is declared more than once.
    DuplicateDeclaration { name: String },
    /// An instruction names `name`, which was never declared.
    UndeclaredVariable { name: String },
    /// A gate addresses position `index`, which lies outside the register or
    /// is addressed twice by the same gate.
    IndexRange { index: usize },
    /// A gate on `needed` qubits was applied to a register of `available`.
    InsufficientQubits { needed: usize, available: usize },
    /// `text` is not a repeat count: it is not a decimal number that fits in
    /// 64 bits, or it is zero.
    InvalidCount { text: String },
}

/// The model of an [`Error`]: the same variants, with strings by their
/// characters.
pub enum ErrorView {
    Normalization { index: usize },
    DuplicateDeclaration { name: Seq<char> },
    UndeclaredVariable { name: Seq<char> },
    IndexRange { index: usize },
    InsufficientQubits { needed: usize, available: usize },
    InvalidCount { text: Seq<char> },
}

impl View for Error {
    type V = ErrorView;

    open spec fn view(&self) -> ErrorView {
        match *self {
            Error::Normalization { index } => ErrorView::Normalization { index },
            Error::DuplicateDeclaration { name } => ErrorView::DuplicateDeclaration { name: name@ },
            Error::UndeclaredVariable { name } => ErrorView::UndeclaredVariable { name: name@ },
            Error::IndexRange { index } => ErrorView::IndexRange { index },
            Error::InsufficientQubits { needed, available } => ErrorView::InsufficientQubits {
                needed,
                available,
            },
            Error::InvalidCount { text } => ErrorView::InvalidCount { text: text@ },
        }
    }
}

impl Clone for Error {
    fn clone(&self) -> (copy: Error)
        ensures
            copy@ == self@,
    {
        match self {
            Error::Normalization { index } => Error::Normalization { index: *index },
            Error::DuplicateDeclaration { name } => Error::DuplicateDeclaration {
                name: name.clone(),
            },
            Error::UndeclaredVariable { name } => Error::UndeclaredVariable { name: name.clone() },
            Error::IndexRange { index } => Error::IndexRange { index: *index },
            Error::InsufficientQubits { needed, available } => Error::InsufficientQubits {
                needed: *needed,
                available: *available,
            },
            Error::InvalidCount { text } => Error::InvalidCount { text: text.clone() },
        }
    }
}

/// An [`Error`] together with the instruction that met it.
#[derive(Debug, PartialEq, Eq)]
pub struct Failure {
    /// The position of the instruction in the program.
    pub at: usize,
    /// Its opcode.
    pub opcode: Instruction,
    /// What went wrong.
    pub error: Error,
}

/// The model of a [`Failure`].
pub struct FailureView {
    pub at: usize,
    pub opcode: Instruction,
    pub error: ErrorView,
}

impl View for Failure {
    type V = FailureView;

    open spec fn view(&self) -> FailureView {
        FailureView { at: self.at, opcode: self.opcode, error: self.error@ }
    }
}

impl Clone for Failure {
    fn clone(&self) -> (copy: Failure)
        ensures
            copy@ == self@,
    {
        Failure { at: self.at, opcode: self.opcode, error: self.error.clone() }
    }
}

} // verus!
