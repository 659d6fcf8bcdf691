use vstd::prelude::*;

verus! {

/// The opcodes of the circuit language.
#[derive(Debug, Clone, Copy, PartialEq, Eq, Structural)]
pub enum Instruction {
    /// Sample the register; takes an optional repeat count.
    Measure,
    PauliX,
    PauliY,
    PauliZ,
    Hadamard,
    Phase,
    PiBy8,
    ControlledNot,
    ControlledZ,
    Swap,
    Toffoli,
}

impl Instruction {
    /// Whether the opcode is a gate, that is anything but `Measure`.
    pub open spec fn is_gate(self) -> bool {
        self != Instruction::Measure
    }

    /// How many qubits the opcode acts on: none for `Measure`, one for the
    /// Pauli, Hadamard and phase gates, two for the controlled gates and
    /// `Swap`, three for `Toffoli`.
    pub open spec fn qubits(self) -> nat {
        match self {
            Instruction::Measure => 0,
            Instruction::PauliX
            | Instruction::PauliY
            | Instruction::PauliZ
            | Instruction::Hadamard
            | Instruction::Phase
            | Instruction::PiBy8 => 1,
            Instruction::ControlledNot | Instruction::ControlledZ | Instruction::Swap => 2,
            Instruction::Toffoli => 3,
        }
    }

    /// The number of qubits the opcode acts on.
    pub fn arity(self) -> (k: usize)
        ensures
            k == self.qubits(),
            k <= 3,
            k == 0 <==> !self.is_gate(),
    {
        match self {
            Instruction::Measure => 0,
            Instruction::PauliX
            | Instruction::PauliY
            | Instruction::PauliZ
            | Instruction::Hadamard
            | Instruction::Phase
            | Instruction::PiBy8 => 1,
            Instruction::ControlledNot | Instruction::ControlledZ | Instruction::Swap => 2,
            Instruction::Toffoli => 3,
        }
    }
}

} // verus!
