use vstd::prelude::*;

use crate::bindings::{first_redeclared, texts};
use crate::error::{Error, ErrorView};
use crate::executor::{
    declared_names, declared_qubits, program_view, well_formed, well_formed_instruction, Executor,
    Run,
};
use crate::instruction::Instruction;

verus! {

/// A circuit program: its source text, the qubits it declares and the
/// instructions it runs, both in source order.
///
/// A declaration is a name with the qubit's initial value. An instruction is
/// an opcode with its operands: for a gate the names of the qubits it acts
/// on, for `Measure` an optional repeat count.
pub struct QCLang<Q> {
    pub input: String,
    pub variables: Vec<(String, Q)>,
    pub instructions: Vec<(Instruction, Vec<String>)>,
}

impl<Q: Copy> QCLang<Q> {
    /// Every instruction carries as many operands as its opcode takes.
    pub open spec fn wf(&self) -> bool {
        well_formed(program_view(self.instructions@))
    }

    /// A program with the source text `input`, and no declarations or
    /// instructions yet.
    pub fn new(input: String) -> (program: Self)
        ensures
            program.input == input,
            program.variables@.len() == 0,
            program.instructions@.len() == 0,
            program.wf(),
    {
        QCLang { input, variables: Vec::new(), instructions: Vec::new() }
    }

    /// Whether every instruction carries as many operands as its opcode
    /// takes.
    pub fn is_well_formed(&self) -> (b: bool)
        ensures
            b == self.wf(),
    {
        let ghost program = program_view(self.instructions@);
        let mut i: usize = 0;
        while i < self.instructions.len()
            invariant
                i <= self.instructions.len(),
                program == program_view(self.instructions@),
                well_formed(program.take(i as int)),
            decreases self.instructions.len() - i,
        {
            let arity = self.instructions[i].0.arity();
            let given = self.instructions[i].1.len();
            let fits = if arity == 0 {
                given <= 1
            } else {
                given == arity
            };
            assert(fits == well_formed_instruction(program[i as int].0, program[i as int].1));
            if !fits {
                return false;
            }
            i += 1;
        }
        assert(program.take(self.instructions.len() as int) == program);
        true
    }

    /// Starts a run of the program: binds the declared names to register
    /// positions, in declaration order, and returns the executor, which is
    /// about to bind the first instruction.
    ///
    /// Fails on the first name that repeats an earlier one.
    pub fn run(&self) -> (r: Result<Executor<Q>, Error>)
        requires
            self.wf(),
        ensures
            match r {
                Ok(executor) => executor@.wf() && executor@ == Run::start(
                    declared_names(self.variables@),
                    declared_qubits(self.variables@),
                    program_view(self.instructions@),
                ),
                Err(e) => exists|q: int|
                    first_redeclared(declared_names(self.variables@), q) && e@ == (
                    ErrorView::DuplicateDeclaration {
                        name: #[trigger] declared_names(self.variables@)[q],
                    }),
            },
    {
        let mut declarations: Vec<(String, Q)> = Vec::new();
        let mut i: usize = 0;
        while i < self.variables.len()
            invariant
                i <= self.variables.len(),
                declarations.len() == i,
                declared_names(declarations@) == declared_names(self.variables@.take(i as int)),
                declared_qubits(declarations@) == declared_qubits(self.variables@.take(i as int)),
            decreases self.variables.len() - i,
        {
            let ghost copied = declarations@;
            declarations.push((self.variables[i].0.clone(), self.variables[i].1));
            proof {
                let grown = self.variables@.take(i + 1);
                assert forall|j: int| 0 <= j < grown.len() implies declared_names(declarations@)[j]
                    == declared_names(grown)[j] by {
                    if j < i {
                        assert(declared_names(copied)[j] == declared_names(
                            self.variables@.take(i as int),
                        )[j]);
                    }
                }
                assert forall|j: int| 0 <= j < grown.len() implies declared_qubits(
                    declarations@,
                )[j] == declared_qubits(grown)[j] by {
                    if j < i {
                        assert(declared_qubits(copied)[j] == declared_qubits(
                            self.variables@.take(i as int),
                        )[j]);
                    }
                }
            }
            i += 1;
        }
        assert(self.variables@.take(self.variables.len() as int) == self.variables@);
        let mut instructions: Vec<(Instruction, Vec<String>)> = Vec::new();
        let mut i: usize = 0;
        while i < self.instructions.len()
            invariant
                i <= self.instructions.len(),
                instructions.len() == i,
                program_view(instructions@) == program_view(self.instructions@.take(i as int)),
            decreases self.instructions.len() - i,
        {
            let ghost copied = instructions@;
            let operands = copy_texts(&self.instructions[i].1);
            instructions.push((self.instructions[i].0, operands));
            proof {
                let grown = self.instructions@.take(i + 1);
                assert forall|j: int| 0 <= j < grown.len() implies program_view(instructions@)[j]
                    == program_view(grown)[j] by {
                    if j < i {
                        assert(program_view(copied)[j] == program_view(
                            self.instructions@.take(i as int),
                        )[j]);
                    }
                }
            }
            i += 1;
        }
        assert(self.instructions@.take(self.instructions.len() as int) == self.instructions@);
        Executor::new(declarations, instructions)
    }
}

/// A copy of a list of strings.
fn copy_texts(list: &Vec<String>) -> (copy: Vec<String>)
    ensures
        texts(copy@) == texts(list@),
{
    let mut copy: Vec<String> = Vec::new();
    let mut i: usize = 0;
    while i < list.len()
        invariant
            i <= list.len(),
            copy.len() == i,
            texts(copy@) == texts(list@.take(i as int)),
        decreases list.len() - i,
    {
        let ghost copied = copy@;
        copy.push(list[i].clone());
        proof {
            let grown = list@.take(i + 1);
            assert forall|j: int| 0 <= j < grown.len() implies texts(copy@)[j] == texts(
                grown,
            )[j] by {
                if j < i {
                    assert(texts(copied)[j] == texts(list@.take(i as int))[j]);
                }
            }
        }
        i += 1;
    }
    copy
}

} // verus!
