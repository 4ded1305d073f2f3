//! The execution engine: a program, an instruction pointer, a cell pointer
//! and a tape, advanced one command at a time.
//!
//! Two policies are fixed here. An output command emits the raw byte value
//! of the current cell. An input command that finds the input exhausted
//! fails; it never writes a substitute value.
//!
//! An error is fatal. The engine keeps the pointers and the tape of the
//! moment before the failed command, for inspection, and answers every
//! later request to go on with the same error.

use crate::parser::{
    commands, parse_with, rejection, rejection_under, resolved, resolved_at, Command, ParseError,
    Policy,
};
use crate::tape::{canonical, cell, wrapping_dec, wrapping_inc, written, Tape, TapeModel};
use std::collections::HashMap;
use vstd::prelude::*;

verus! {

/// Why a command could not be executed.
#[derive(Debug, Clone, Copy, PartialEq, Eq, Structural)]
pub enum RunError {
    /// The cell pointer was asked to move below cell zero.
    NegativeIndex,
    /// An input command found no byte to read.
    NoInputAvailable,
    /// The cell pointer was asked to move past the largest index that the
    /// machine can represent.
    IndexOverflow,
}

/// How a bounded run ended.
#[derive(Debug, Clone, Copy, PartialEq, Eq, Structural)]
pub enum Status {
    /// The instruction pointer moved past the last command.
    Halted,
    /// The step budget was used up before the program ended.
    OutOfSteps,
    /// A command failed, now or in an earlier run; the engine stays in the
    /// state before that command.
    Failed(RunError),
}

/// What a bounded run produced.
#[derive(Debug, PartialEq, Eq)]
pub struct RunReport {
    /// The bytes emitted, in order.
    pub output: Vec<u8>,
    /// How many bytes of the input were read.
    pub consumed: usize,
    /// How the run ended.
    pub status: Status,
}

/// The state of an engine as a mathematical value.
pub struct Machine {
    /// The position of the next command.
    pub inst_index: int,
    /// The current cell.
    pub tape_index: usize,
    /// The non-zero cells of the tape.
    pub tape: Map<usize, u8>,
}

/// The state of an engine together with what it has emitted and read.
pub struct Trace {
    pub state: Machine,
    pub output: Seq<u8>,
    pub consumed: nat,
    pub error: Option<RunError>,
}

/// The state in which every engine starts.
pub open spec fn initial() -> Machine {
    Machine { inst_index: 0, tape_index: 0, tape: Map::empty() }
}

/// The trace of an engine in state `s` that has not failed, at the start of
/// a run.
pub open spec fn fresh(s: Machine) -> Trace {
    Trace { state: s, output: Seq::empty(), consumed: 0, error: None }
}

/// The trace of an engine in state `s` at the start of a run, with the
/// error that ended an earlier run, if one did.
pub open spec fn resumed(s: Machine, failure: Option<RunError>) -> Trace {
    Trace { error: failure, ..fresh(s) }
}

/// Every jump of `prog` leads to a position inside `prog`.
pub open spec fn jumps_in_range(prog: Seq<Command>) -> bool {
    forall|k: int|
        0 <= k < prog.len() ==> match #[trigger] prog[k] {
            Command::JumpForward(j) => j.pair_index < prog.len(),
            Command::JumpBackward(j) => j.pair_index < prog.len(),
            _ => true,
        }
}

/// The effect of one command: the next state and the byte emitted, or the
/// error. `input` is the next unread byte of the input, if there is one; only
/// an input command looks at it. After every command, a taken jump included,
/// the instruction pointer moves on by one. A halted machine stays as it is.
pub open spec fn step_of(prog: Seq<Command>, s: Machine, input: Option<u8>) -> Result<
    (Machine, Option<u8>),
    RunError,
> {
    if !(0 <= s.inst_index < prog.len()) {
        Ok((s, None))
    } else {
        let next = s.inst_index + 1;
        let here = cell(s.tape, s.tape_index);
        match prog[s.inst_index] {
            Command::IncrementPtr => if s.tape_index == usize::MAX {
                Err(RunError::IndexOverflow)
            } else {
                Ok((Machine { inst_index: next, tape_index: (s.tape_index + 1) as usize, ..s }, None))
            },
            Command::DecrementPtr => if s.tape_index == 0 {
                Err(RunError::NegativeIndex)
            } else {
                Ok((Machine { inst_index: next, tape_index: (s.tape_index - 1) as usize, ..s }, None))
            },
            Command::IncrementValue => Ok(
                (
                    Machine {
                        inst_index: next,
                        tape: written(s.tape, s.tape_index, wrapping_inc(here)),
                        ..s
                    },
                    None,
                ),
            ),
            Command::DecrementValue => Ok(
                (
                    Machine {
                        inst_index: next,
                        tape: written(s.tape, s.tape_index, wrapping_dec(here)),
                        ..s
                    },
                    None,
                ),
            ),
            Command::Output => Ok((Machine { inst_index: next, ..s }, Some(here))),
            Command::Input => match input {
                Some(b) => Ok(
                    (Machine { inst_index: next, tape: written(s.tape, s.tape_index, b), ..s }, None),
                ),
                None => Err(RunError::NoInputAvailable),
            },
            Command::JumpForward(j) => if here == 0 {
                Ok((Machine { inst_index: j.pair_index + 1, ..s }, None))
            } else {
                Ok((Machine { inst_index: next, ..s }, None))
            },
            Command::JumpBackward(j) => if here != 0 {
                Ok((Machine { inst_index: j.pair_index + 1, ..s }, None))
            } else {
                Ok((Machine { inst_index: next, ..s }, None))
            },
        }
    }
}

/// The machine of trace `t` is at an input command.
pub open spec fn at_input(prog: Seq<Command>, t: Trace) -> bool {
    0 <= t.state.inst_index < prog.len() && prog[t.state.inst_index] == Command::Input
}

/// The trace after one more command, with `input` as the whole input stream.
pub open spec fn advance(prog: Seq<Command>, t: Trace, input: Seq<u8>) -> Trace {
    let next_byte = if t.consumed < input.len() {
        Some(input[t.consumed as int])
    } else {
        None
    };
    match step_of(prog, t.state, next_byte) {
        Err(e) => Trace { error: Some(e), ..t },
        Ok((s, out)) => Trace {
            state: s,
            output: match out {
                Some(b) => t.output.push(b),
                None => t.output,
            },
            consumed: if at_input(prog, t) {
                t.consumed + 1
            } else {
                t.consumed
            },
            error: None,
        },
    }
}

/// The trace has come to its end: a command failed or the program is over.
pub open spec fn finished(prog: Seq<Command>, t: Trace) -> bool {
    t.error.is_some() || !(0 <= t.state.inst_index < prog.len())
}

/// The trace after at most `fuel` more commands.
pub open spec fn run_of(prog: Seq<Command>, t: Trace, input: Seq<u8>, fuel: nat) -> Trace
    decreases fuel,
{
    if fuel == 0 || finished(prog, t) {
        t
    } else {
        run_of(prog, advance(prog, t, input), input, (fuel - 1) as nat)
    }
}

/// How a trace is reported.
pub open spec fn status_of(prog: Seq<Command>, t: Trace) -> Status {
    match t.error {
        Some(e) => Status::Failed(e),
        None => if 0 <= t.state.inst_index < prog.len() {
            Status::OutOfSteps
        } else {
            Status::Halted
        },
    }
}

/// An engine: a program with its instruction pointer, cell pointer and tape.
pub struct ProgramStack {
    program: Vec<Command>,
    inst_index: usize,
    tape: Tape,
    tape_index: usize,
    failure: Option<RunError>,
}

/// `after` and `report` are what a run of at most `max_steps` commands on
/// `input` makes of the engine `before`.
pub open spec fn ran(
    before: ProgramStack,
    after: ProgramStack,
    report: RunReport,
    input: Seq<u8>,
    max_steps: usize,
) -> bool {
    let t = run_of(
        before.program(),
        resumed(before.state(), before.failure()),
        input,
        max_steps as nat,
    );
    &&& after.program() == before.program()
    &&& after.model() == before.model()
    &&& after.state() == t.state
    &&& after.failure() == t.error
    &&& report.output@ == t.output
    &&& report.consumed == t.consumed
    &&& report.status == status_of(before.program(), t)
}

/// A program whose brackets are resolved jumps only to positions inside it.
pub proof fn lemma_resolved_jumps_in_range(code: Seq<u8>, prog: Seq<Command>)
    requires
        resolved(code, prog),
    ensures
        jumps_in_range(prog),
{
    assert forall|k: int| 0 <= k < prog.len() implies match #[trigger] prog[k] {
        Command::JumpForward(j) => j.pair_index < prog.len(),
        Command::JumpBackward(j) => j.pair_index < prog.len(),
        _ => true,
    } by {
        assert(resolved_at(code, prog, k));
    }
}

/// Two engines with the same program and in the same state, run on the same
/// input with the same budget, emit the same bytes, read the same number of
/// bytes, end in the same way and reach the same state, whichever storage
/// strategy the tape of each uses.
pub proof fn lemma_tape_model_unobservable(
    a: ProgramStack,
    b: ProgramStack,
    a_after: ProgramStack,
    b_after: ProgramStack,
    a_report: RunReport,
    b_report: RunReport,
    input: Seq<u8>,
    max_steps: usize,
)
    requires
        a.program() == b.program(),
        a.state() == b.state(),
        a.failure() == b.failure(),
        ran(a, a_after, a_report, input, max_steps),
        ran(b, b_after, b_report, input, max_steps),
    ensures
        a_report.output@ == b_report.output@,
        a_report.consumed == b_report.consumed,
        a_report.status == b_report.status,
        a_after.state() == b_after.state(),
        a_after.failure() == b_after.failure(),
{
}

/// Two fresh engines for the same source, run on the same input with the
/// same budget, emit the same bytes and end with the same tape contents.
pub proof fn lemma_run_deterministic(
    src: Seq<u8>,
    a: ProgramStack,
    b: ProgramStack,
    a_after: ProgramStack,
    b_after: ProgramStack,
    a_report: RunReport,
    b_report: RunReport,
    input: Seq<u8>,
    max_steps: usize,
)
    requires
        resolved(commands(src), a.program()),
        resolved(commands(src), b.program()),
        a.state() == initial(),
        b.state() == initial(),
        a.failure().is_none(),
        b.failure().is_none(),
        ran(a, a_after, a_report, input, max_steps),
        ran(b, b_after, b_report, input, max_steps),
    ensures
        a.program() == b.program(),
        a_report.output@ == b_report.output@,
        a_report.consumed == b_report.consumed,
        a_report.status == b_report.status,
        a_after.state().tape == b_after.state().tape,
        a_after.state() == b_after.state(),
{
    crate::parser::lemma_resolved_unique(commands(src), a.program(), b.program());
}

impl ProgramStack {
    /// The commands of the engine's program.
    pub closed spec fn program(&self) -> Seq<Command> {
        self.program@
    }

    /// The engine's pointers and tape contents.
    pub closed spec fn state(&self) -> Machine {
        Machine {
            inst_index: self.inst_index as int,
            tape_index: self.tape_index,
            tape: self.tape@,
        }
    }

    /// The storage strategy of the engine's tape.
    pub closed spec fn model(&self) -> TapeModel {
        self.tape.spec_model()
    }

    /// The error that ended the session, if one did.
    pub closed spec fn failure(&self) -> Option<RunError> {
        self.failure
    }

    /// The tape is well formed, every jump stays inside the program, and the
    /// instruction pointer is at most one past the last command.
    pub closed spec fn wf(&self) -> bool {
        &&& self.tape.wf()
        &&& jumps_in_range(self.program@)
        &&& self.inst_index <= self.program@.len()
    }

    /// The tape of a well-formed engine holds no zero entry, and its jumps
    /// stay inside the program.
    pub proof fn lemma_wf_state(&self)
        requires
            self.wf(),
        ensures
            canonical(self.state().tape),
            jumps_in_range(self.program()),
            0 <= self.state().inst_index <= self.program().len(),
    {
        self.tape.lemma_contents_canonical();
    }

    /// An engine for the program that `program` denotes, parsed under the
    /// permissive policy, with a sparse tape. Fails exactly as parsing does,
    /// and then no engine exists.
    pub fn from(program: Vec<u8>) -> (r: Result<ProgramStack, ParseError>)
        ensures
            match r {
                Ok(e) => {
                    &&& e.wf()
                    &&& rejection(program@).is_none()
                    &&& resolved(commands(program@), e.program())
                    &&& e.state() == initial()
                    &&& e.failure().is_none()
                    &&& e.model() == TapeModel::Sparse
                },
                Err(e) => rejection(program@) == Some(e),
            },
    {
        ProgramStack::with_options(program, Policy::Permissive, TapeModel::Sparse)
    }

    /// An engine for the program that `program` denotes under the given
    /// parsing policy, with a tape of the given storage strategy.
    pub fn with_options(program: Vec<u8>, policy: Policy, model: TapeModel) -> (r: Result<
        ProgramStack,
        ParseError,
    >)
        ensures
            match r {
                Ok(e) => {
                    &&& e.wf()
                    &&& rejection_under(policy, program@).is_none()
                    &&& resolved(commands(program@), e.program())
                    &&& e.state() == initial()
                    &&& e.failure().is_none()
                    &&& e.model() == model
                },
                Err(e) => rejection_under(policy, program@) == Some(e),
            },
    {
        let ghost src = program@;
        match parse_with(program, policy) {
            Ok(p) => {
                proof {
                    lemma_resolved_jumps_in_range(commands(src), p@);
                }
                Ok(
                    ProgramStack {
                        program: p,
                        inst_index: 0,
                        tape: Tape::new(model),
                        tape_index: 0,
                        failure: None,
                    },
                )
            },
            Err(e) => Err(e),
        }
    }

    /// Whether the program is over.
    pub fn halted(&self) -> (b: bool)
        ensures
            b == !(0 <= self.state().inst_index < self.program().len()),
    {
        self.inst_index >= self.program.len()
    }

    /// The error that ended the session, if one did.
    pub fn failed(&self) -> (e: Option<RunError>)
        ensures
            e == self.failure(),
    {
        self.failure
    }

    /// Whether the next command reads a byte of input.
    pub fn wants_input(&self) -> (b: bool)
        ensures
            b == at_input(self.program(), fresh(self.state())),
    {
        if self.inst_index < self.program.len() {
            match self.program[self.inst_index] {
                Command::Input => true,
                _ => false,
            }
        } else {
            false
        }
    }

    /// The position of the next command.
    pub fn inst_index(&self) -> (i: usize)
        ensures
            i == self.state().inst_index,
    {
        self.inst_index
    }

    /// The current cell.
    pub fn tape_index(&self) -> (i: usize)
        ensures
            i == self.state().tape_index,
    {
        self.tape_index
    }

    /// The value of cell `index` of the tape.
    pub fn cell(&self, index: usize) -> (value: u8)
        requires
            self.wf(),
        ensures
            value == cell(self.state().tape, index),
    {
        self.tape.read(index)
    }

    /// The non-zero cells of the tape as a map from index to value.
    pub fn show_tape(&self) -> (m: HashMap<usize, u8>)
        requires
            self.wf(),
        ensures
            m@ == self.state().tape,
    {
        self.tape.contents()
    }

    /// Executes one command. `input` is the next unread byte of the input,
    /// if there is one; it is read only if the command is an input command.
    /// Returns the byte that the command emitted, if it emitted one. On an
    /// error the engine stays in the state before the command and records
    /// the error; an engine that has recorded an error returns it again and
    /// does nothing else.
    pub fn step(&mut self, input: Option<u8>) -> (r: Result<Option<u8>, RunError>)
        requires
            old(self).wf(),
        ensures
            final(self).wf(),
            final(self).program() == old(self).program(),
            final(self).model() == old(self).model(),
            match old(self).failure() {
                Some(e) => {
                    &&& r == Err::<Option<u8>, RunError>(e)
                    &&& final(self).state() == old(self).state()
                    &&& final(self).failure() == Some(e)
                },
                None => match r {
                    Ok(out) => {
                        &&& step_of(old(self).program(), old(self).state(), input) == Ok::<
                            (Machine, Option<u8>),
                            RunError,
                        >((final(self).state(), out))
                        &&& final(self).failure().is_none()
                    },
                    Err(e) => {
                        &&& step_of(old(self).program(), old(self).state(), input) == Err::<
                            (Machine, Option<u8>),
                            RunError,
                        >(e)
                        &&& final(self).state() == old(self).state()
                        &&& final(self).failure() == Some(e)
                    },
                },
            },
    {
        match self.failure {
            Some(e) => {
                return Err(e);
            },
            None => {},
        }
        if self.inst_index >= self.program.len() {
            return Ok(None);
        }
        let mut emitted: Option<u8> = None;
        match self.program[self.inst_index] {
            Command::IncrementPtr => {
                if self.tape_index == usize::MAX {
                    self.failure = Some(RunError::IndexOverflow);
                    return Err(RunError::IndexOverflow);
                }
                self.tape_index += 1;
            },
            Command::DecrementPtr => {
                if self.tape_index == 0 {
                    self.failure = Some(RunError::NegativeIndex);
                    return Err(RunError::NegativeIndex);
                }
                self.tape_index -= 1;
            },
            Command::IncrementValue => {
                self.tape.increment(self.tape_index);
            },
            Command::DecrementValue => {
                self.tape.decrement(self.tape_index);
            },
            Command::Output => {
                emitted = Some(self.tape.read(self.tape_index));
            },
            Command::Input => {
                match input {
                    Some(b) => {
                        self.tape.write(self.tape_index, b);
                    },
                    None => {
                        self.failure = Some(RunError::NoInputAvailable);
                        return Err(RunError::NoInputAvailable);
                    },
                }
            },
            Command::JumpForward(j) => {
                if self.tape.read(self.tape_index) == 0 {
                    self.inst_index = j.pair_index;
                }
            },
            Command::JumpBackward(j) => {
                if self.tape.read(self.tape_index) != 0 {
                    self.inst_index = j.pair_index;
                }
            },
        }
        self.inst_index += 1;
        Ok(emitted)
    }

    /// Runs the program on `input` until it ends, a command fails, or
    /// `max_steps` commands have been executed, whichever comes first.
    /// The engine keeps the state it reached, so a run that was out of
    /// steps can be continued with the rest of the input. A run of an
    /// engine that has failed does nothing and reports the same error.
    pub fn run(&mut self, input: &Vec<u8>, max_steps: usize) -> (report: RunReport)
        requires
            old(self).wf(),
        ensures
            final(self).wf(),
            ran(*old(self), *final(self), report, input@, max_steps),
    {
        let mut output: Vec<u8> = Vec::new();
        let mut consumed: usize = 0;
        let mut steps: usize = 0;
        match self.failure {
            Some(e) => {
                return RunReport { output, consumed, status: Status::Failed(e) };
            },
            None => {},
        }
        let ghost prog = self.program();
        let ghost goal = run_of(prog, fresh(self.state()), input@, max_steps as nat);
        while steps < max_steps && self.inst_index < self.program.len()
            invariant
                self.wf(),
                self.failure().is_none(),
                old(self).failure().is_none(),
                self.program() == prog,
                prog == old(self).program(),
                self.model() == old(self).model(),
                goal == run_of(prog, fresh(old(self).state()), input@, max_steps as nat),
                steps <= max_steps,
                consumed <= input@.len(),
                goal == run_of(
                    prog,
                    Trace { state: self.state(), output: output@, consumed: consumed as nat, error: None },
                    input@,
                    (max_steps - steps) as nat,
                ),
            decreases max_steps - steps,
        {
            let ghost t = Trace {
                state: self.state(),
                output: output@,
                consumed: consumed as nat,
                error: None,
            };
            let wants = self.wants_input();
            let next_byte = if consumed < input.len() {
                Some(input[consumed])
            } else {
                None
            };
            match self.step(next_byte) {
                Ok(out) => {
                    if wants {
                        consumed += 1;
                    }
                    match out {
                        Some(b) => {
                            output.push(b);
                        },
                        None => {},
                    }
                },
                Err(e) => {
                    proof {
                        let a = advance(prog, t, input@);
                        assert(run_of(prog, a, input@, (max_steps - steps - 1) as nat) == a);
                    }
                    return RunReport { output, consumed, status: Status::Failed(e) };
                },
            }
            steps += 1;
        }
        let status = if self.inst_index < self.program.len() {
            Status::OutOfSteps
        } else {
            Status::Halted
        };
        RunReport { output, consumed, status }
    }
}

} // verus!
