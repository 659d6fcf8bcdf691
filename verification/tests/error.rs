use qcsim::{Error, Executor, Failure, Instruction, Status};

#[test]
fn error_clones_to_an_equal_error() {
    let errors = vec![
        Error::Normalization { index: 3 },
        Error::DuplicateDeclaration { name: "a".to_string() },
        Error::UndeclaredVariable { name: "b".to_string() },
        Error::IndexRange { index: 7 },
        Error::InsufficientQubits { needed: 3, available: 2 },
        Error::InvalidCount { text: "0".to_string() },
    ];
    for error in &errors {
        assert_eq!(&error.clone(), error);
    }
}

#[test]
fn errors_of_different_kinds_differ() {
    assert_ne!(Error::IndexRange { index: 1 }, Error::Normalization { index: 1 });
    assert_ne!(
        Error::DuplicateDeclaration { name: "a".to_string() },
        Error::UndeclaredVariable { name: "a".to_string() }
    );
    assert_ne!(Error::IndexRange { index: 1 }, Error::IndexRange { index: 2 });
}

#[test]
fn failure_clones_to_an_equal_failure() {
    let failure = Failure {
        at: 4,
        opcode: Instruction::Toffoli,
        error: Error::UndeclaredVariable { name: "carry".to_string() },
    };
    let copy = failure.clone();
    assert_eq!(copy, failure);
    assert_eq!(copy.at, 4);
    assert_eq!(copy.opcode, Instruction::Toffoli);
}

#[test]
fn executor_is_built_from_declarations_and_instructions() {
    let declarations = vec![("a".to_string(), 'x'), ("b".to_string(), 'y')];
    let instructions = vec![(Instruction::Swap, vec!["a".to_string(), "b".to_string()])];
    let executor = match Executor::new(declarations, instructions) {
        Ok(executor) => executor,
        Err(error) => panic!("{:?}", error),
    };
    assert_eq!(executor.status(), Status::Binding);
    assert_eq!(executor.cursor(), 0);
    assert_eq!(executor.computer().qubits(), &vec!['x', 'y']);
    assert!(executor.targets().is_empty());
    assert!(executor.at_gate());
}

#[test]
fn executor_is_not_built_from_a_name_declared_twice() {
    let declarations = vec![("a".to_string(), 'x'), ("a".to_string(), 'y')];
    match Executor::new(declarations, Vec::new()) {
        Err(error) => assert_eq!(error, Error::DuplicateDeclaration { name: "a".to_string() }),
        Ok(_) => panic!("a name declared twice was bound"),
    }
}
