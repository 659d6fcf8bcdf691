use vstd::prelude::*;

use crate::bindings::{first_redeclared, first_undeclared, resolves, texts, Bindings};
use crate::computer::{admissible, gather, rejection, scattered, Computer};
use crate::count::{parse_count, repeat_count};
use crate::error::{Error, ErrorView, Failure, FailureView};
use crate::instruction::Instruction;

verus! {

/// The model of a program: each instruction with the characters of its
/// operands.
pub open spec fn program_view(instructions: Seq<(Instruction, Vec<String>)>) -> Seq<
    (Instruction, Seq<Seq<char>>),
> {
    instructions.map_values(|i: (Instruction, Vec<String>)| (i.0, texts(i.1@)))
}

/// An instruction carries as many operands as its opcode takes: a gate one
/// name for each qubit it acts on, `Measure` at most one repeat count.
pub open spec fn well_formed_instruction(opcode: Instruction, operands: Seq<Seq<char>>) -> bool {
    if opcode.is_gate() {
        operands.len() == opcode.qubits()
    } else {
        operands.len() <= 1
    }
}

/// Every instruction of the program is well formed.
pub open spec fn well_formed(program: Seq<(Instruction, Seq<Seq<char>>)>) -> bool {
    forall|i: int|
        0 <= i < program.len() ==> well_formed_instruction(
            (#[trigger] program[i]).0,
            program[i].1,
        )
}

/// Every operand names a declared qubit.
pub open spec fn all_declared(names: Seq<Seq<char>>, operands: Seq<Seq<char>>) -> bool {
    forall|p: int| 0 <= p < operands.len() ==> names.contains(#[trigger] operands[p])
}

/// What binding one instruction against the register yields.
pub enum Resolution {
    /// A gate on the register positions `targets`, in operand order.
    Gate { targets: Seq<usize> },
    /// A measurement of `count` samples.
    Measure { count: u64 },
    /// The instruction cannot run.
    Refused { error: ErrorView },
}

/// `resolution` is what binding the instruction `opcode operands` yields in a
/// register of `len` qubits named `names`.
///
/// A `Measure` resolves to its repeat count, or is refused for a count that
/// is invalid. A gate is refused for its first operand that names no declared
/// qubit. With every operand declared it resolves to the positions the
/// operands name, unless a gate may not address them.
pub open spec fn binds(
    names: Seq<Seq<char>>,
    len: nat,
    opcode: Instruction,
    operands: Seq<Seq<char>>,
    resolution: Resolution,
) -> bool {
    if !opcode.is_gate() {
        resolution == match repeat_count(operands) {
            Ok(count) => Resolution::Measure { count },
            Err(error) => Resolution::Refused { error },
        }
    } else if !all_declared(names, operands) {
        exists|p: int| #[trigger]
            first_undeclared(names, operands, p) && resolution == (Resolution::Refused {
                error: ErrorView::UndeclaredVariable { name: operands[p] },
            })
    } else {
        exists|targets: Seq<usize>| #[trigger]
            resolves(names, operands, targets) && if admissible(len, targets) {
                resolution == (Resolution::Gate { targets })
            } else {
                resolution matches Resolution::Refused { error } && rejection(len, targets, error)
            }
    }
}

/// The resolution that an answer to the driver reports, if it reports one:
/// for a gate its targets, for a measurement its count, for a failure its
/// reason.
pub open spec fn reported<Q>(answer: Result<Action<Q>, Failure>) -> Option<Resolution> {
    match answer {
        Ok(Action::Gate { gate, targets, operands }) => Some(
            Resolution::Gate { targets: targets@ },
        ),
        Ok(Action::Measure { count }) => Some(Resolution::Measure { count }),
        Ok(Action::Halt) => None,
        Err(failure) => Some(Resolution::Refused { error: failure@.error }),
    }
}

/// Where a run stands.
#[derive(Debug, Clone, Copy, PartialEq, Eq, Structural)]
pub enum Status {
    /// The next instruction is still to be bound to the register.
    Binding,
    /// An instruction was bound and handed to the driver, which has not yet
    /// reported back.
    Running,
    /// Every instruction has run.
    Succeeded,
    /// An instruction failed; no later instruction runs.
    Failed,
}

/// What the driver of a run is to do next.
#[derive(Debug, PartialEq, Eq)]
pub enum Action<Q> {
    /// Compute the images of `operands` under `gate` and report them with
    /// [`Executor::complete_gate`], or report with [`Executor::reject_gate`]
    /// that an image is not of unit norm. `operands` are the qubits at
    /// `targets`, in operand order.
    Gate { gate: Instruction, targets: Vec<usize>, operands: Vec<Q> },
    /// Draw `count` samples from the register, then report with
    /// [`Executor::complete_measure`].
    Measure { count: u64 },
    /// Nothing: every instruction has run.
    Halt,
}

/// The model of an [`Executor`].
#[verifier::ext_equal]
pub struct Run<Q> {
    /// The declared names, in register order.
    pub names: Seq<Seq<char>>,
    /// The qubits, in register order.
    pub register: Seq<Q>,
    /// The program.
    pub program: Seq<(Instruction, Seq<Seq<char>>)>,
    /// The position of the instruction that is bound next or that is running.
    pub cursor: nat,
    /// Where the run stands.
    pub status: Status,
    /// The register positions addressed by a gate that was bound last.
    pub targets: Seq<usize>,
    /// The failure that halted the run.
    pub failure: Option<FailureView>,
}

impl<Q> Run<Q> {
    /// The opcode of the instruction at the cursor.
    pub open spec fn opcode(self) -> Instruction
        recommends
            self.cursor < self.program.len(),
    {
        self.program[self.cursor as int].0
    }

    /// The operands of the instruction at the cursor.
    pub open spec fn operands(self) -> Seq<Seq<char>>
        recommends
            self.cursor < self.program.len(),
    {
        self.program[self.cursor as int].1
    }

    /// The run is consistent: every qubit has one name and no name is
    /// declared twice, the program is well formed, the cursor lies within
    /// the program and at its end after success, a running gate addresses
    /// admissible targets, and a failure is kept exactly in state `Failed`.
    pub open spec fn wf(self) -> bool {
        &&& self.names.no_duplicates()
        &&& self.names.len() == self.register.len()
        &&& well_formed(self.program)
        &&& self.cursor <= self.program.len()
        &&& self.status == Status::Succeeded ==> self.cursor == self.program.len()
        &&& self.status == Status::Failed <==> self.failure is Some
        &&& self.status == Status::Running ==> {
            &&& self.cursor < self.program.len()
            &&& self.opcode().is_gate() ==> admissible(self.register.len(), self.targets)
        }
    }

    /// The run at its start.
    pub open spec fn start(
        names: Seq<Seq<char>>,
        register: Seq<Q>,
        program: Seq<(Instruction, Seq<Seq<char>>)>,
    ) -> Run<Q> {
        Run {
            names,
            register,
            program,
            cursor: 0,
            status: Status::Binding,
            targets: Seq::empty(),
            failure: None,
        }
    }

    /// The run after its instruction at the cursor is bound as `resolution`:
    /// running, or failed with the instruction's position and opcode and the
    /// reason it was refused for. The register and the cursor stay.
    pub open spec fn bound(self, resolution: Resolution) -> Run<Q> {
        match resolution {
            Resolution::Gate { targets } => Run { status: Status::Running, targets, ..self },
            Resolution::Measure { count } => Run { status: Status::Running, ..self },
            Resolution::Refused { error } => Run {
                status: Status::Failed,
                failure: Some(
                    FailureView { at: self.cursor as usize, opcode: self.opcode(), error },
                ),
                ..self
            },
        }
    }

    /// The run after its running instruction is done and has left the
    /// register as `register`: the next instruction is to be bound.
    pub open spec fn passed(self, register: Seq<Q>) -> Run<Q> {
        Run { register, cursor: self.cursor + 1, status: Status::Binding, ..self }
    }

    /// The run after its last instruction is done.
    pub open spec fn halted(self) -> Run<Q> {
        Run { status: Status::Succeeded, ..self }
    }
}

/// One run of a program against a register of named qubits.
///
/// The executor owns the register for the run. It binds one instruction at a
/// time, in program order, and tells the driver what to compute; the driver
/// reports back before the next instruction is bound. The first failure halts
/// the run: what earlier instructions did to the register stays, the failing
/// instruction changes nothing, and no later instruction is bound.
pub struct Executor<Q> {
    bindings: Bindings,
    computer: Computer<Q>,
    instructions: Vec<(Instruction, Vec<String>)>,
    pc: usize,
    status: Status,
    pending: Vec<usize>,
    failure: Option<Failure>,
}

impl<Q> View for Executor<Q> {
    type V = Run<Q>;

    closed spec fn view(&self) -> Run<Q> {
        Run {
            names: self.bindings@,
            register: self.computer@,
            program: program_view(self.instructions@),
            cursor: self.pc as nat,
            status: self.status,
            targets: self.pending@,
            failure: match self.failure {
                Some(failure) => Some(failure@),
                None => None,
            },
        }
    }
}

impl<Q: Copy> Executor<Q> {
    /// Starts a run of `instructions` on the qubits that `declarations` name.
    ///
    /// Fails on the first name that repeats an earlier one.
    pub fn new(declarations: Vec<(String, Q)>, instructions: Vec<(Instruction, Vec<String>)>) -> (r:
        Result<Self, Error>)
        requires
            well_formed(program_view(instructions@)),
        ensures
            match r {
                Ok(executor) => executor@.wf() && executor@ == Run::start(
                    declared_names(declarations@),
                    declared_qubits(declarations@),
                    program_view(instructions@),
                ),
                Err(e) => exists|q: int|
                    first_redeclared(declared_names(declarations@), q) && e@ == (
                    ErrorView::DuplicateDeclaration {
                        name: #[trigger] declared_names(declarations@)[q],
                    }),
            },
    {
        let mut names: Vec<String> = Vec::new();
        let mut qubits: Vec<Q> = Vec::new();
        let mut i: usize = 0;
        while i < declarations.len()
            invariant
                i <= declarations.len(),
                names.len() == i,
                qubits.len() == i,
                texts(names@) == declared_names(declarations@.take(i as int)),
                qubits@ == declared_qubits(declarations@.take(i as int)),
            decreases declarations.len() - i,
        {
            let ghost bound = texts(names@);
            names.push(declarations[i].0.clone());
            qubits.push(declarations[i].1);
            proof {
                let grown = declarations@.take(i + 1);
                assert forall|j: int| 0 <= j < grown.len() implies texts(names@)[j]
                    == declared_names(grown)[j] by {
                    if j < i {
                        assert(bound[j] == declared_names(declarations@.take(i as int))[j]);
                    }
                }
            }
            i += 1;
        }
        assert(declarations@.take(declarations.len() as int) == declarations@);
        match Bindings::bind(names) {
            Err(e) => Err(e),
            Ok(bindings) => Ok(
                Executor {
                    bindings,
                    computer: Computer::new(qubits),
                    instructions,
                    pc: 0,
                    status: Status::Binding,
                    pending: Vec::new(),
                    failure: None,
                },
            ),
        }
    }

    /// Where the run stands.
    pub fn status(&self) -> (status: Status)
        ensures
            status == self@.status,
    {
        self.status
    }

    /// The position of the instruction that is bound next or that is running.
    pub fn cursor(&self) -> (cursor: usize)
        ensures
            cursor == self@.cursor,
    {
        self.pc
    }

    /// The register.
    pub fn computer(&self) -> (computer: &Computer<Q>)
        ensures
            computer@ == self@.register,
    {
        &self.computer
    }

    /// The register positions addressed by a gate that was bound last.
    pub fn targets(&self) -> (targets: &Vec<usize>)
        ensures
            targets@ == self@.targets,
    {
        &self.pending
    }

    /// Whether the instruction at the cursor is a gate.
    pub fn at_gate(&self) -> (b: bool)
        ensures
            b == (self@.cursor < self@.program.len() && self@.opcode().is_gate()),
    {
        if self.pc < self.instructions.len() {
            self.instructions[self.pc].0.arity() != 0
        } else {
            false
        }
    }

    /// Binds the instruction at the cursor and says what the driver is to do.
    ///
    /// After success the answer is `Halt`, and after a failure it is that
    /// failure again; neither changes anything. At the end of the program
    /// the run has succeeded. Otherwise the instruction at the cursor is
    /// bound as [`binds`] says, also when it was bound before and is still
    /// running. If it is refused the run has failed, with the instruction's
    /// position and opcode and the reason. If not, the instruction is now
    /// running, and the answer hands a gate the qubits at its targets. The
    /// register is never changed.
    pub fn advance(&mut self) -> (r: Result<Action<Q>, Failure>)
        requires
            old(self)@.wf(),
        ensures
            final(self)@.wf(),
            match old(self)@.status {
                Status::Succeeded => r matches Ok(Action::Halt) && final(self)@ == old(self)@,
                Status::Failed => r matches Err(f) && Some(f@) == old(self)@.failure
                    && final(self)@ == old(self)@,
                _ => if old(self)@.cursor == old(self)@.program.len() {
                    r matches Ok(Action::Halt) && final(self)@ == old(self)@.halted()
                } else {
                    &&& reported(r) matches Some(resolution) && binds(
                        old(self)@.names,
                        old(self)@.register.len(),
                        old(self)@.opcode(),
                        old(self)@.operands(),
                        resolution,
                    ) && final(self)@ == old(self)@.bound(resolution)
                    &&& r matches Ok(Action::Gate { gate, targets, operands }) ==> {
                        &&& gate == old(self)@.opcode()
                        &&& operands@ == gather(old(self)@.register, targets@)
                    }
                    &&& r matches Err(f) ==> Some(f@) == final(self)@.failure
                },
            },
    {
        match self.status {
            Status::Succeeded => {
                return Ok(Action::Halt);
            },
            Status::Failed => {
                match &self.failure {
                    Some(failure) => {
                        return Err(failure.clone());
                    },
                    None => {
                        return Ok(Action::Halt);
                    },
                }
            },
            _ => {},
        }
        if self.pc == self.instructions.len() {
            self.status = Status::Succeeded;
            return Ok(Action::Halt);
        }
        let opcode = self.instructions[self.pc].0;
        let ghost names = self.bindings@;
        let ghost operands = texts(self.instructions@[self.pc as int].1@);
        if opcode.arity() == 0 {
            match parse_count(&self.instructions[self.pc].1) {
                Ok(count) => {
                    self.status = Status::Running;
                    Ok(Action::Measure { count })
                },
                Err(error) => {
                    let failure = Failure { at: self.pc, opcode, error };
                    self.failure = Some(failure.clone());
                    self.status = Status::Failed;
                    Err(failure)
                },
            }
        } else {
            match self.bindings.resolve_all(&self.instructions[self.pc].1) {
                Err(error) => {
                    proof {
                        let p = choose|p: int|
                            first_undeclared(names, operands, p) && error@ == (
                            ErrorView::UndeclaredVariable { name: #[trigger] operands[p] });
                    }
                    let failure = Failure { at: self.pc, opcode, error };
                    self.failure = Some(failure.clone());
                    self.status = Status::Failed;
                    Err(failure)
                },
                Ok(targets) => {
                    proof {
                        assert forall|p: int| 0 <= p < operands.len() implies names.contains(
                            #[trigger] operands[p],
                        ) by {
                            assert(names[targets@[p] as int] == operands[p]);
                        }
                    }
                    match self.computer.operands(&targets) {
                        Err(error) => {
                            let failure = Failure { at: self.pc, opcode, error };
                            self.failure = Some(failure.clone());
                            self.status = Status::Failed;
                            Err(failure)
                        },
                        Ok(cells) => {
                            self.pending = copy_targets(&targets);
                            self.status = Status::Running;
                            Ok(Action::Gate { gate: opcode, targets, operands: cells })
                        },
                    }
                },
            }
        }
    }

    /// Takes the images of the running gate's operands and writes each to
    /// the position of its operand. Exactly the addressed qubits change. The
    /// next instruction is then to be bound.
    pub fn complete_gate(&mut self, images: &Vec<Q>)
        requires
            old(self)@.wf(),
            old(self)@.status == Status::Running,
            old(self)@.opcode().is_gate(),
            images.len() == old(self)@.targets.len(),
        ensures
            final(self)@.wf(),
            final(self)@ == old(self)@.passed(final(self)@.register),
            scattered(old(self)@.register, old(self)@.targets, images@, final(self)@.register),
    {
        let written = self.computer.replace(&self.pending, images);
        assert(self.pc < self.instructions.len());
        self.pc = self.pc + 1;
        self.status = Status::Binding;
    }

    /// Takes the report that the image of operand number `operand` of the
    /// running gate is not of unit norm. The run has failed, with the
    /// register position of that operand, and the register is as it was.
    pub fn reject_gate(&mut self, operand: usize) -> (failure: Failure)
        requires
            old(self)@.wf(),
            old(self)@.status == Status::Running,
            old(self)@.opcode().is_gate(),
            operand < old(self)@.targets.len(),
        ensures
            final(self)@.wf(),
            final(self)@ == old(self)@.bound(
                Resolution::Refused {
                    error: ErrorView::Normalization { index: old(self)@.targets[operand as int] },
                },
            ),
            Some(failure@) == final(self)@.failure,
    {
        let failure = Failure {
            at: self.pc,
            opcode: self.instructions[self.pc].0,
            error: Error::Normalization { index: self.pending[operand] },
        };
        self.failure = Some(failure.clone());
        self.status = Status::Failed;
        failure
    }

    /// Takes the report that the samples of the running measurement are
    /// drawn. The next instruction is then to be bound.
    pub fn complete_measure(&mut self)
        requires
            old(self)@.wf(),
            old(self)@.status == Status::Running,
            !old(self)@.opcode().is_gate(),
        ensures
            final(self)@.wf(),
            final(self)@ == old(self)@.passed(old(self)@.register),
    {
        assert(self.pc < self.instructions.len());
        self.pc = self.pc + 1;
        self.status = Status::Binding;
    }
}

/// The names that a list of declarations declares, in order.
pub open spec fn declared_names<Q>(declarations: Seq<(String, Q)>) -> Seq<Seq<char>> {
    declarations.map_values(|d: (String, Q)| d.0@)
}

/// The qubits that a list of declarations declares, in order.
pub open spec fn declared_qubits<Q>(declarations: Seq<(String, Q)>) -> Seq<Q> {
    declarations.map_values(|d: (String, Q)| d.1)
}

fn copy_targets(targets: &Vec<usize>) -> (copy: Vec<usize>)
    ensures
        copy@ == targets@,
{
    let mut copy: Vec<usize> = Vec::new();
    let mut i: usize = 0;
    while i < targets.len()
        invariant
            i <= targets.len(),
            copy@ == targets@.take(i as int),
        decreases targets.len() - i,
    {
        copy.push(targets[i]);
        i += 1;
    }
    copy
}

/// An instruction is bound in one way only, given that no name is declared
/// twice.
pub proof fn lemma_binding_unique(
    names: Seq<Seq<char>>,
    len: nat,
    opcode: Instruction,
    operands: Seq<Seq<char>>,
    first: Resolution,
    second: Resolution,
)
    requires
        names.no_duplicates(),
        binds(names, len, opcode, operands, first),
        binds(names, len, opcode, operands, second),
    ensures
        first == second,
{
    if opcode.is_gate() && all_declared(names, operands) {
        let s = choose|s: Seq<usize>| #[trigger]
            resolves(names, operands, s) && if admissible(len, s) {
                first == (Resolution::Gate { targets: s })
            } else {
                first matches Resolution::Refused { error } && rejection(len, s, error)
            };
        let t = choose|t: Seq<usize>| #[trigger]
            resolves(names, operands, t) && if admissible(len, t) {
                second == (Resolution::Gate { targets: t })
            } else {
                second matches Resolution::Refused { error } && rejection(len, t, error)
            };
        crate::bindings::lemma_resolution_unique(names, operands, s, t);
        if !admissible(len, s) {
            crate::computer::lemma_rejection_unique(
                len,
                s,
                first->Refused_error,
                second->Refused_error,
            );
        }
    }
}

/// A gate with an operand that names no declared qubit is refused for its
/// first such operand, whatever its other operands are: it never reaches the
/// register.
pub proof fn lemma_undeclared_operand_refused(
    names: Seq<Seq<char>>,
    len: nat,
    opcode: Instruction,
    operands: Seq<Seq<char>>,
    resolution: Resolution,
)
    requires
        opcode.is_gate(),
        !all_declared(names, operands),
        binds(names, len, opcode, operands, resolution),
    ensures
        resolution matches Resolution::Refused { error: ErrorView::UndeclaredVariable { name } }
            && !names.contains(name) && operands.contains(name),
{
}

/// A gate on two qubits whose two operands are the same declared name is
/// refused with an index-range error that names the position of that qubit,
/// in every register of at least two qubits.
pub proof fn lemma_repeated_operand_refused(
    names: Seq<Seq<char>>,
    len: nat,
    opcode: Instruction,
    operands: Seq<Seq<char>>,
    resolution: Resolution,
)
    requires
        len >= 2,
        opcode.qubits() == 2,
        operands.len() == 2,
        operands[0] == operands[1],
        names.contains(operands[0]),
        names.no_duplicates(),
        binds(names, len, opcode, operands, resolution),
    ensures
        resolution matches Resolution::Refused { error: ErrorView::IndexRange { index } } && index
            < names.len() && names[index as int] == operands[0],
{
    let targets = choose|targets: Seq<usize>| #[trigger]
        resolves(names, operands, targets) && if admissible(len, targets) {
            resolution == (Resolution::Gate { targets })
        } else {
            resolution matches Resolution::Refused { error } && rejection(len, targets, error)
        };
    assert(targets =~= seq![targets[0], targets[0]]);
    crate::computer::lemma_equal_targets_refused(len, targets[0], resolution->Refused_error);
}

} // verus!
