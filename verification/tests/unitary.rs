use qcsim::{Entry, Instruction};

const O: Entry = Entry::Zero;
const L: Entry = Entry::One;

fn all_opcodes() -> Vec<Instruction> {
    vec![
        Instruction::Measure,
        Instruction::PauliX,
        Instruction::PauliY,
        Instruction::PauliZ,
        Instruction::Hadamard,
        Instruction::Phase,
        Instruction::PiBy8,
        Instruction::ControlledNot,
        Instruction::ControlledZ,
        Instruction::Swap,
        Instruction::Toffoli,
    ]
}

fn exchanged(gate: Instruction) -> Vec<usize> {
    let matrix = gate.matrix();
    let mut image = Vec::new();
    for row in &matrix {
        let ones: Vec<usize> = (0..row.len()).filter(|col| row[*col] == L).collect();
        assert_eq!(ones.len(), 1);
        assert_eq!(row.iter().filter(|entry| **entry == O).count(), row.len() - 1);
        image.push(ones[0]);
    }
    image
}

#[test]
fn matrix_has_two_to_the_arity_rows_and_columns() {
    for gate in all_opcodes() {
        let matrix = gate.matrix();
        assert_eq!(matrix.len(), 1 << gate.arity(), "{:?}", gate);
        for row in &matrix {
            assert_eq!(row.len(), 1 << gate.arity(), "{:?}", gate);
        }
    }
}

#[test]
fn measure_has_the_one_by_one_identity() {
    assert_eq!(Instruction::Measure.matrix(), vec![vec![L]]);
}

#[test]
fn pauli_matrices_are_as_defined() {
    assert_eq!(Instruction::PauliX.matrix(), vec![vec![O, L], vec![L, O]]);
    assert_eq!(
        Instruction::PauliY.matrix(),
        vec![vec![O, Entry::MinusImag], vec![Entry::Imag, O]]
    );
    assert_eq!(Instruction::PauliZ.matrix(), vec![vec![L, O], vec![O, Entry::MinusOne]]);
}

#[test]
fn hadamard_matrix_is_as_defined() {
    assert_eq!(
        Instruction::Hadamard.matrix(),
        vec![vec![Entry::Root, Entry::Root], vec![Entry::Root, Entry::MinusRoot]]
    );
}

#[test]
fn phase_matrices_are_as_defined() {
    assert_eq!(Instruction::Phase.matrix(), vec![vec![L, O], vec![O, Entry::Imag]]);
    assert_eq!(Instruction::PiBy8.matrix(), vec![vec![L, O], vec![O, Entry::EighthTurn]]);
}

#[test]
fn controlled_not_exchanges_the_last_two_basis_states() {
    assert_eq!(
        Instruction::ControlledNot.matrix(),
        vec![vec![L, O, O, O], vec![O, L, O, O], vec![O, O, O, L], vec![O, O, L, O]]
    );
    assert_eq!(exchanged(Instruction::ControlledNot), vec![0, 1, 3, 2]);
}

#[test]
fn controlled_z_negates_the_last_basis_state() {
    assert_eq!(
        Instruction::ControlledZ.matrix(),
        vec![
            vec![L, O, O, O],
            vec![O, L, O, O],
            vec![O, O, L, O],
            vec![O, O, O, Entry::MinusOne]
        ]
    );
}

#[test]
fn swap_exchanges_the_two_middle_basis_states() {
    assert_eq!(
        Instruction::Swap.matrix(),
        vec![vec![L, O, O, O], vec![O, O, L, O], vec![O, L, O, O], vec![O, O, O, L]]
    );
    assert_eq!(exchanged(Instruction::Swap), vec![0, 2, 1, 3]);
}

#[test]
fn toffoli_exchanges_the_last_two_basis_states() {
    let matrix = Instruction::Toffoli.matrix();
    for row in 0..8 {
        for col in 0..8 {
            let expected = match (row, col) {
                (6, 7) | (7, 6) => L,
                (6, 6) | (7, 7) => O,
                _ if row == col => L,
                _ => O,
            };
            assert_eq!(matrix[row][col], expected, "row {} column {}", row, col);
        }
    }
    assert_eq!(exchanged(Instruction::Toffoli), vec![0, 1, 2, 3, 4, 5, 7, 6]);
}

#[test]
fn gates_that_exchange_basis_states_undo_themselves() {
    let gates = [
        Instruction::PauliX,
        Instruction::ControlledNot,
        Instruction::Swap,
        Instruction::Toffoli,
    ];
    for gate in gates {
        let image = exchanged(gate);
        for basis in 0..image.len() {
            assert_eq!(image[image[basis]], basis, "{:?}", gate);
        }
    }
}

#[test]
fn matrix_of_an_exchange_times_itself_is_the_identity() {
    let gates = [
        Instruction::PauliX,
        Instruction::ControlledNot,
        Instruction::Swap,
        Instruction::Toffoli,
    ];
    for gate in gates {
        let matrix = gate.matrix();
        let size = matrix.len();
        for row in 0..size {
            for col in 0..size {
                let ones = (0..size)
                    .filter(|mid| matrix[row][*mid] == L && matrix[*mid][col] == L)
                    .count();
                assert_eq!(ones, if row == col { 1 } else { 0 }, "{:?}", gate);
            }
        }
    }
}
