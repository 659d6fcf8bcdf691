use vstd::arithmetic::power2::{lemma2_to64, pow2};
use vstd::prelude::*;

use crate::basis::bit_of;
use crate::instruction::Instruction;

verus! {

/// An entry of a gate's matrix, as an exact value.
#[derive(Debug, Clone, Copy, PartialEq, Eq, Structural)]
pub enum Entry {
    /// 0
    Zero,
    /// 1
    One,
    /// -1
    MinusOne,
    /// The imaginary unit i.
    Imag,
    /// -i
    MinusImag,
    /// The reciprocal of the square root of two.
    Root,
    /// The negated reciprocal of the square root of two.
    MinusRoot,
    /// The eighth root of unity e^(iπ/4).
    EighthTurn,
}

/// The number of rows, and of columns, of an opcode's matrix: two to the
/// power of the number of qubits it acts on.
pub open spec fn dimension(gate: Instruction) -> nat {
    pow2(gate.qubits())
}

/// Whether a gate only exchanges basis states: its matrix holds a single 1
/// in every row and column and 0 elsewhere.
pub open spec fn permutes(gate: Instruction) -> bool {
    match gate {
        Instruction::PauliX
        | Instruction::ControlledNot
        | Instruction::Swap
        | Instruction::Toffoli => true,
        _ => false,
    }
}

/// The basis state that a gate which exchanges basis states sends `basis`
/// to, basis states numbered in binary with the first operand as the most
/// significant bit. `PauliX` exchanges 0 and 1. `ControlledNot` exchanges 10
/// and 11, `Swap` exchanges 01 and 10, `Toffoli` exchanges 110 and 111, and
/// each leaves the other basis states where they are.
pub open spec fn image(gate: Instruction, basis: int) -> int {
    match gate {
        Instruction::PauliX => 1 - basis,
        Instruction::ControlledNot => if basis == 2 {
            3
        } else if basis == 3 {
            2
        } else {
            basis
        },
        Instruction::Swap => if basis == 1 {
            2
        } else if basis == 2 {
            1
        } else {
            basis
        },
        Instruction::Toffoli => if basis == 6 {
            7
        } else if basis == 7 {
            6
        } else {
            basis
        },
        _ => basis,
    }
}

/// The entry that a gate which only changes phases holds in row `basis` of
/// its diagonal. `PauliZ` negates 1, `Phase` turns 1 by a quarter and
/// `PiBy8` by an eighth, `ControlledZ` negates 11; every other entry of the
/// diagonal is 1.
pub open spec fn phase(gate: Instruction, basis: int) -> Entry {
    match gate {
        Instruction::PauliZ if basis == 1 => Entry::MinusOne,
        Instruction::Phase if basis == 1 => Entry::Imag,
        Instruction::PiBy8 if basis == 1 => Entry::EighthTurn,
        Instruction::ControlledZ if basis == 3 => Entry::MinusOne,
        _ => Entry::One,
    }
}

/// The entry in row `row` and column `col` of an opcode's matrix.
///
/// A gate that exchanges basis states holds 1 where the column is the image
/// of the row. `PauliY` is i times the exchange of 0 and 1 with the sign of
/// its first row turned. `Hadamard` holds the reciprocal of the square root
/// of two everywhere, negated in its last entry. Every other opcode has a
/// diagonal matrix; that of `Measure`, which acts on no qubit, is the single
/// entry 1.
pub open spec fn unitary(gate: Instruction, row: int, col: int) -> Entry {
    if permutes(gate) {
        if col == image(gate, row) {
            Entry::One
        } else {
            Entry::Zero
        }
    } else if gate == Instruction::PauliY {
        if row == col {
            Entry::Zero
        } else if row == 0 {
            Entry::MinusImag
        } else {
            Entry::Imag
        }
    } else if gate == Instruction::Hadamard {
        if row == 1 && col == 1 {
            Entry::MinusRoot
        } else {
            Entry::Root
        }
    } else if row == col {
        phase(gate, row)
    } else {
        Entry::Zero
    }
}

/// `matrix` is the matrix of `gate`, row by row.
pub open spec fn is_matrix_of(matrix: Seq<Seq<Entry>>, gate: Instruction) -> bool {
    &&& matrix.len() == dimension(gate)
    &&& forall|row: int|
        0 <= row < matrix.len() ==> (#[trigger] matrix[row]).len() == dimension(gate)
    &&& forall|row: int, col: int|
        0 <= row < dimension(gate) && 0 <= col < dimension(gate) ==> #[trigger] matrix[row][col]
            == unitary(gate, row, col)
}

/// The rows of a matrix, each by its entries.
pub open spec fn rows(matrix: Seq<Vec<Entry>>) -> Seq<Seq<Entry>> {
    matrix.map_values(|row: Vec<Entry>| row@)
}

impl Instruction {
    /// The matrix of the opcode, row by row.
    pub fn matrix(self) -> (matrix: Vec<Vec<Entry>>)
        ensures
            is_matrix_of(rows(matrix@), self),
    {
        let o = Entry::Zero;
        let l = Entry::One;
        let matrix = match self {
            Instruction::Measure => vec![vec![l]],
            Instruction::PauliX => vec![vec![o, l], vec![l, o]],
            Instruction::PauliY => vec![vec![o, Entry::MinusImag], vec![Entry::Imag, o]],
            Instruction::PauliZ => vec![vec![l, o], vec![o, Entry::MinusOne]],
            Instruction::Hadamard => vec![
                vec![Entry::Root, Entry::Root],
                vec![Entry::Root, Entry::MinusRoot],
            ],
            Instruction::Phase => vec![vec![l, o], vec![o, Entry::Imag]],
            Instruction::PiBy8 => vec![vec![l, o], vec![o, Entry::EighthTurn]],
            Instruction::ControlledNot => vec![
                vec![l, o, o, o],
                vec![o, l, o, o],
                vec![o, o, o, l],
                vec![o, o, l, o],
            ],
            Instruction::ControlledZ => vec![
                vec![l, o, o, o],
                vec![o, l, o, o],
                vec![o, o, l, o],
                vec![o, o, o, Entry::MinusOne],
            ],
            Instruction::Swap => vec![
                vec![l, o, o, o],
                vec![o, o, l, o],
                vec![o, l, o, o],
                vec![o, o, o, l],
            ],
            Instruction::Toffoli => vec![
                vec![l, o, o, o, o, o, o, o],
                vec![o, l, o, o, o, o, o, o],
                vec![o, o, l, o, o, o, o, o],
                vec![o, o, o, l, o, o, o, o],
                vec![o, o, o, o, l, o, o, o],
                vec![o, o, o, o, o, l, o, o],
                vec![o, o, o, o, o, o, o, l],
                vec![o, o, o, o, o, o, l, o],
            ],
        };
        proof {
            lemma2_to64();
            let table = rows(matrix@);
        }
        matrix
    }
}

/// A gate that exchanges basis states sends every basis state to a basis
/// state, and sends that one back: applied twice, it leaves every basis
/// state where it was. This holds of `PauliX`, `ControlledNot`, `Swap` and
/// `Toffoli`, and of each of their basis states.
pub proof fn lemma_exchange_is_its_own_inverse(gate: Instruction, basis: int)
    requires
        permutes(gate),
        0 <= basis < dimension(gate),
    ensures
        0 <= image(gate, basis) < dimension(gate),
        image(gate, image(gate, basis)) == basis,
{
    lemma2_to64();
}

/// The matrix of a gate that exchanges basis states, multiplied with itself,
/// is the identity. In the product of row `row` with column `col`, the term
/// for the basis state `mid` between them is a product of two ones exactly
/// on the diagonal, for the one state that the row is sent to; every other
/// term has a zero for a factor.
pub proof fn lemma_exchange_squares_to_identity(gate: Instruction, row: int, col: int, mid: int)
    requires
        permutes(gate),
        0 <= row < dimension(gate),
        0 <= col < dimension(gate),
        0 <= mid < dimension(gate),
    ensures
        unitary(gate, row, mid) == Entry::One && unitary(gate, mid, col) == Entry::One <==> row
            == col && mid == image(gate, row),
        unitary(gate, row, mid) == Entry::Zero || unitary(gate, mid, col) == Entry::Zero <==> !(
        row == col && mid == image(gate, row)),
{
    lemma2_to64();
}

/// What the gates that exchange basis states do to the bits of their
/// operands. `PauliX` flips its operand. `ControlledNot` flips its second
/// operand exactly where its first is 1. `Swap` exchanges the bits of its two
/// operands. `Toffoli` flips its third operand exactly where its first two
/// are both 1. Every other bit stays as it is.
pub proof fn lemma_exchange_in_bits(gate: Instruction, basis: nat)
    requires
        permutes(gate),
        basis < dimension(gate),
    ensures
        match gate {
            Instruction::PauliX => bit_of(1, 0, image(gate, basis as int) as nat) == !bit_of(
                1,
                0,
                basis,
            ),
            Instruction::ControlledNot => {
                let sent = image(gate, basis as int) as nat;
                &&& bit_of(2, 0, sent) == bit_of(2, 0, basis)
                &&& bit_of(2, 1, sent) == (bit_of(2, 1, basis) != bit_of(2, 0, basis))
            },
            Instruction::Swap => {
                let sent = image(gate, basis as int) as nat;
                &&& bit_of(2, 0, sent) == bit_of(2, 1, basis)
                &&& bit_of(2, 1, sent) == bit_of(2, 0, basis)
            },
            Instruction::Toffoli => {
                let sent = image(gate, basis as int) as nat;
                &&& bit_of(3, 0, sent) == bit_of(3, 0, basis)
                &&& bit_of(3, 1, sent) == bit_of(3, 1, basis)
                &&& bit_of(3, 2, sent) == (bit_of(3, 2, basis) != (bit_of(3, 0, basis) && bit_of(
                    3,
                    1,
                    basis,
                )))
            },
            _ => true,
        },
{
    lemma2_to64();
    let sent = image(gate, basis as int) as nat;
    assert forall|width: nat, operand: nat, state: nat|
        operand < width <= 3 implies #[trigger] bit_of(width, operand, state) == (if width - 1
        - operand == 0 {
        state % 2 == 1
    } else if width - 1 - operand == 1 {
        (state / 2) % 2 == 1
    } else {
        (state / 4) % 2 == 1
    }) by {
        let shift = (width - 1 - operand) as nat;
        if shift == 0 {
            assert(pow2(shift) == 1);
        } else if shift == 1 {
        } else {
            assert(pow2(shift) == 4);
        }
    }
    assert(basis == 0 || basis == 1 || basis == 2 || basis == 3 || basis == 4 || basis == 5
        || basis == 6 || basis == 7);
}

} // verus!
