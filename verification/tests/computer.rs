use qcsim::{Computer, Error};

#[test]
fn new_keeps_the_qubits_in_order() {
    let computer = Computer::new(vec![10u32, 20, 30]);
    assert_eq!(computer.len(), 3);
    assert_eq!(computer.qubits(), &vec![10, 20, 30]);
}

#[test]
fn empty_register_has_no_qubits() {
    let computer: Computer<u32> = Computer::new(Vec::new());
    assert_eq!(computer.len(), 0);
    assert!(computer.qubits().is_empty());
}

#[test]
fn operands_follow_operand_order() {
    let computer = Computer::new(vec![10u32, 20, 30]);
    assert_eq!(computer.operands(&vec![2, 0]), Ok(vec![30, 10]));
    assert_eq!(computer.operands(&vec![0, 2]), Ok(vec![10, 30]));
    assert_eq!(computer.operands(&vec![1]), Ok(vec![20]));
    assert_eq!(computer.operands(&vec![2, 1, 0]), Ok(vec![30, 20, 10]));
}

#[test]
fn no_targets_give_no_operands() {
    let computer = Computer::new(vec![10u32, 20, 30]);
    assert_eq!(computer.operands(&Vec::new()), Ok(Vec::new()));
    assert_eq!(computer.check(&Vec::new()), Ok(()));
}

#[test]
fn register_smaller_than_its_gate_is_insufficient() {
    let computer = Computer::new(vec![10u32]);
    assert_eq!(
        computer.operands(&vec![0, 1]),
        Err(Error::InsufficientQubits { needed: 2, available: 1 })
    );
    assert_eq!(
        computer.operands(&vec![0, 1, 2]),
        Err(Error::InsufficientQubits { needed: 3, available: 1 })
    );
}

#[test]
fn empty_register_is_insufficient_for_any_gate() {
    let computer: Computer<u32> = Computer::new(Vec::new());
    assert_eq!(
        computer.check(&vec![0]),
        Err(Error::InsufficientQubits { needed: 1, available: 0 })
    );
}

#[test]
fn size_is_judged_before_repetition() {
    let computer = Computer::new(vec![10u32]);
    assert_eq!(
        computer.check(&vec![0, 0]),
        Err(Error::InsufficientQubits { needed: 2, available: 1 })
    );
}

#[test]
fn target_outside_the_register_is_an_index_range_error() {
    let computer = Computer::new(vec![10u32, 20, 30]);
    assert_eq!(computer.check(&vec![3]), Err(Error::IndexRange { index: 3 }));
    assert_eq!(computer.check(&vec![0, 3]), Err(Error::IndexRange { index: 3 }));
    assert_eq!(computer.check(&vec![2]), Ok(()));
}

#[test]
fn first_target_outside_is_the_one_reported() {
    let computer = Computer::new(vec![10u32, 20, 30]);
    assert_eq!(computer.check(&vec![5, 4]), Err(Error::IndexRange { index: 5 }));
    assert_eq!(computer.check(&vec![1, 9, 7]), Err(Error::IndexRange { index: 9 }));
}

#[test]
fn range_is_judged_before_repetition() {
    let computer = Computer::new(vec![10u32, 20, 30]);
    assert_eq!(computer.check(&vec![1, 1, 7]), Err(Error::IndexRange { index: 7 }));
}

#[test]
fn repeated_target_is_an_index_range_error() {
    let computer = Computer::new(vec![10u32, 20, 30]);
    assert_eq!(computer.check(&vec![1, 1]), Err(Error::IndexRange { index: 1 }));
    assert_eq!(computer.check(&vec![0, 2, 0]), Err(Error::IndexRange { index: 0 }));
    assert_eq!(computer.check(&vec![2, 1, 1]), Err(Error::IndexRange { index: 1 }));
    assert_eq!(computer.check(&vec![2, 2, 2]), Err(Error::IndexRange { index: 2 }));
}

#[test]
fn equal_targets_leave_the_register_unchanged() {
    let mut computer = Computer::new(vec![10u32, 20, 30]);
    for index in 0..3 {
        assert_eq!(
            computer.replace(&vec![index, index], &vec![77, 88]),
            Err(Error::IndexRange { index })
        );
        assert_eq!(computer.qubits(), &vec![10, 20, 30]);
    }
    assert_eq!(
        computer.replace(&vec![3, 3], &vec![77, 88]),
        Err(Error::IndexRange { index: 3 })
    );
    assert_eq!(computer.qubits(), &vec![10, 20, 30]);
}

#[test]
fn replace_writes_exactly_the_targets() {
    let mut computer = Computer::new(vec![10u32, 20, 30, 40]);
    assert_eq!(computer.replace(&vec![3, 1], &vec![77, 88]), Ok(()));
    assert_eq!(computer.qubits(), &vec![10, 88, 30, 77]);
    assert_eq!(computer.replace(&vec![0], &vec![5]), Ok(()));
    assert_eq!(computer.qubits(), &vec![5, 88, 30, 77]);
    assert_eq!(computer.replace(&vec![2, 0, 3], &vec![1, 2, 3]), Ok(()));
    assert_eq!(computer.qubits(), &vec![2, 88, 1, 3]);
    assert_eq!(computer.len(), 4);
}

#[test]
fn replace_of_no_targets_changes_nothing() {
    let mut computer = Computer::new(vec![10u32, 20]);
    assert_eq!(computer.replace(&Vec::new(), &Vec::new()), Ok(()));
    assert_eq!(computer.qubits(), &vec![10, 20]);
}

#[test]
fn refused_replace_leaves_the_register_unchanged() {
    let mut computer = Computer::new(vec![10u32, 20]);
    assert_eq!(
        computer.replace(&vec![0, 1, 1], &vec![1, 2, 3]),
        Err(Error::InsufficientQubits { needed: 3, available: 2 })
    );
    assert_eq!(computer.qubits(), &vec![10, 20]);
    assert_eq!(computer.replace(&vec![0, 2], &vec![1, 2]), Err(Error::IndexRange { index: 2 }));
    assert_eq!(computer.qubits(), &vec![10, 20]);
}

#[test]
fn check_agrees_with_operands() {
    let computer = Computer::new(vec![10u32, 20, 30]);
    let cases: Vec<Vec<usize>> =
        vec![vec![], vec![0], vec![3], vec![0, 1], vec![1, 1], vec![0, 1, 2], vec![0, 1, 2, 2]];
    for targets in cases {
        assert_eq!(computer.check(&targets).err(), computer.operands(&targets).err());
    }
}
