//! The execution engine: the fetch, decode and execute loop over one
//! function's code.

pub mod arith;
pub mod opcode_handler;
pub mod opcodes;
pub mod stack;

use crate::engine::opcode_handler::{
    always_ready, answers, exec_instruction, handler_info, instruction_effect,
    instruction_request, spec_handler_info, whole_instruction, Effect, ExecutionError, FloatOp,
    FloatWidth, InstructionResult,
};
use crate::engine::stack::{FrameModel, Stack, StackFrame};
use crate::loader::constant_table::{ConstantModel, ConstantTable};
use crate::loader::runnable::RunnableModel;
use crate::loader::{entry_point, Loader};
use vstd::prelude::*;

verus! {

/// Why a run ended without a return.
#[derive(Clone, Copy, Debug, PartialEq, Eq, Structural)]
pub enum RunnerError {
    /// No function of the image is marked as the start.
    MissingEntryPoint,
    /// The stack cannot hold the first frame.
    StackOverflow,
    /// An instruction failed.
    ExecutionError(ExecutionError),
    /// The program counter left the code.
    ProgramCounterOverflow,
}

/// Where a run stands: the offset of the next instruction, and the frame.
pub struct Machine {
    pub pc: nat,
    pub frame: FrameModel,
}

/// How a run ended: with a return, which says whether a value is on top of the
/// operands, or with an error; and the frame it left.
pub struct Finish {
    pub outcome: Result<bool, RunnerError>,
    pub frame: FrameModel,
}

/// What one instruction makes of a run.
pub enum Step {
    /// The run goes on from here.
    Continue(Machine),
    /// The run is over.
    Finished(Finish),
}

/// Where the program counter goes after an instruction at `pc` that gave
/// `result`, if it stays inside the code: past the instruction and its operand
/// bytes, or to the target of a jump.
pub open spec fn next_pc(code: Seq<u8>, pc: nat, result: InstructionResult) -> Option<nat>
    recommends
        pc < code.len(),
{
    match result {
        InstructionResult::Next => {
            let next = pc + 1 + spec_handler_info(code[pc as int]).param_count;
            if next < code.len() {
                Some(next as nat)
            } else {
                None
            }
        },
        InstructionResult::Jump(target) => if target < code.len() {
            Some(target as nat)
        } else {
            None
        },
        InstructionResult::Return(_) => None,
    }
}

/// One turn of the loop: the instruction at the program counter is executed;
/// an error or a return ends the run, and so does a program counter that
/// would leave the code. `float_raw` is what the floating-point arithmetic
/// answered, where the instruction asks it.
pub open spec fn run_step(
    code: Seq<u8>,
    constants: Seq<ConstantModel>,
    state: Machine,
    float_raw: u64,
) -> Step
    recommends
        state.pc <= code.len(),
{
    let effect = instruction_effect(code.skip(state.pc as int), state.frame, constants, float_raw);
    match effect.outcome {
        Err(error) => Step::Finished(
            Finish { outcome: Err(RunnerError::ExecutionError(error)), frame: effect.frame },
        ),
        Ok(InstructionResult::Return(with_value)) => Step::Finished(
            Finish { outcome: Ok(with_value), frame: effect.frame },
        ),
        Ok(result) => match next_pc(code, state.pc, result) {
            Some(pc) => Step::Continue(Machine { pc, frame: effect.frame }),
            None => Step::Finished(
                Finish { outcome: Err(RunnerError::ProgramCounterOverflow), frame: effect.frame },
            ),
        },
    }
}

/// Where a run that begins in `start` stands after one instruction for each
/// word of `raws`, the words being what the floating-point arithmetic
/// `float_unit` answered to the instructions in turn (an instruction that asks
/// nothing goes with any word). There is no such state where the run is over
/// before, or where a word is no answer.
pub open spec fn state_after<F: Fn(FloatWidth, FloatOp, u64, u64) -> u64>(
    float_unit: &F,
    code: Seq<u8>,
    constants: Seq<ConstantModel>,
    start: Machine,
    raws: Seq<u64>,
) -> Option<Machine>
    decreases raws.len(),
{
    if raws.len() == 0 {
        Some(start)
    } else {
        match state_after(float_unit, code, constants, start, raws.drop_last()) {
            Some(state) => if answers(
                float_unit,
                instruction_request(code.skip(state.pc as int), state.frame),
                raws.last(),
            ) {
                match run_step(code, constants, state, raws.last()) {
                    Step::Continue(next) => Some(next),
                    Step::Finished(_) => None,
                }
            } else {
                None
            }
            ,
            None => None,
        }
    }
}

/// A run that begins in `start` ends in `end` with the instruction that the
/// last word of `raws` goes with.
pub open spec fn runs_to<F: Fn(FloatWidth, FloatOp, u64, u64) -> u64>(
    float_unit: &F,
    code: Seq<u8>,
    constants: Seq<ConstantModel>,
    start: Machine,
    raws: Seq<u64>,
    end: Finish,
) -> bool {
    &&& raws.len() > 0
    &&& match state_after(float_unit, code, constants, start, raws.drop_last()) {
        Some(state) => answers(
            float_unit,
            instruction_request(code.skip(state.pc as int), state.frame),
            raws.last(),
        ) && run_step(code, constants, state, raws.last()) == Step::Finished(end),
        None => false,
    }
}

/// No instruction asks for a jump.
pub proof fn lemma_never_jumps(
    code: Seq<u8>,
    frame: FrameModel,
    constants: Seq<ConstantModel>,
    float_raw: u64,
)
    ensures
        forall|target: usize|
            instruction_effect(code, frame, constants, float_raw).outcome != Ok::<
                InstructionResult,
                ExecutionError,
            >(InstructionResult::Jump(target)),
{
}

/// Where the program counter goes after an instruction at `pc` that gave
/// `result`: `None` after a return, `ProgramCounterOverflow` where it would
/// leave the code.
pub fn advance(code: &[u8], pc: usize, result: InstructionResult) -> (outcome: Result<
    Option<usize>,
    RunnerError,
>)
    requires
        pc < code@.len(),
    ensures
        match result {
            InstructionResult::Return(_) => outcome == Ok::<Option<usize>, RunnerError>(None),
            _ => match next_pc(code@, pc as nat, result) {
                Some(next) => next <= usize::MAX && outcome == Ok::<Option<usize>, RunnerError>(
                    Some(next as usize),
                ),
                None => outcome == Err::<Option<usize>, RunnerError>(
                    RunnerError::ProgramCounterOverflow,
                ),
            },
        },
{
    match result {
        InstructionResult::Next => {
            let width = 1 + handler_info(code[pc]).param_count as usize;
            if width < code.len() - pc {
                Ok(Some(pc + width))
            } else {
                Err(RunnerError::ProgramCounterOverflow)
            }
        },
        InstructionResult::Jump(target) => {
            if target < code.len() {
                Ok(Some(target))
            } else {
                Err(RunnerError::ProgramCounterOverflow)
            }
        },
        InstructionResult::Return(_) => Ok(None),
    }
}

/// Runs `code` in `frame` from its first byte until an instruction returns or
/// fails, or the program counter leaves the code. On a return the result says
/// whether the returned value is on top of the operands.
pub fn execute<'a, F: Fn(FloatWidth, FloatOp, u64, u64) -> u64>(
    code: &'a [u8],
    frame: &mut StackFrame,
    constants: &ConstantTable<'a>,
    float_unit: &F,
) -> (outcome: Result<bool, RunnerError>)
    requires
        old(frame).wf(),
        always_ready(float_unit),
    ensures
        final(frame).steps_from(old(frame)),
        *final(final(frame).origin) == *final(old(frame).origin),
        exists|raws: Seq<u64>| #[trigger]
            runs_to(
                float_unit,
                code@,
                constants@,
                Machine { pc: 0, frame: old(frame).model() },
                raws,
                Finish { outcome, frame: final(frame).model() },
            ),
{
    let ghost start = Machine { pc: 0, frame: frame.model() };
    let ghost raws: Seq<u64> = Seq::empty();
    let mut pc: usize = 0;
    loop
        invariant
            pc <= code@.len(),
            always_ready(float_unit),
            frame.steps_from(old(frame)),
            *final(frame.origin) == *final(old(frame).origin),
            start == (Machine { pc: 0, frame: old(frame).model() }),
            state_after(float_unit, code@, constants@, start, raws) == Some(
                Machine { pc: pc as nat, frame: frame.model() },
            ),
        decreases code@.len() - pc,
    {
        let ghost state = Machine { pc: pc as nat, frame: frame.model() };
        let (_, rest) = code.split_at(pc);
        assert(rest@ == code@.skip(pc as int));
        let exec_result = exec_instruction(rest, frame, constants, float_unit);
        let ghost raw = choose|raw: u64|
            answers(float_unit, instruction_request(rest@, state.frame), raw) && (Effect {
                outcome: exec_result,
                frame: frame.model(),
            }) == #[trigger] instruction_effect(rest@, state.frame, constants@, raw);
        let ghost longer = raws.push(raw);
        proof {
            assert(longer.drop_last() =~= raws);
            lemma_never_jumps(rest@, state.frame, constants@, raw);
        }
        let result = match exec_result {
            Ok(result) => result,
            Err(error) => {
                let outcome = Err(RunnerError::ExecutionError(error));
                assert(runs_to(
                    float_unit,
                    code@,
                    constants@,
                    start,
                    longer,
                    Finish { outcome, frame: frame.model() },
                ));
                return outcome;
            },
        };
        assert(pc < code@.len()) by {
            assert(rest@.len() == code@.len() - pc);
        }
        match advance(code, pc, result) {
            Ok(Some(next)) => {
                proof {
                    assert(result == InstructionResult::Next);
                    let effect = instruction_effect(
                        code@.skip(pc as int),
                        state.frame,
                        constants@,
                        raw,
                    );
                    assert(effect.outcome == Ok::<InstructionResult, ExecutionError>(result));
                    assert(effect.frame == frame.model());
                    assert(next_pc(code@, pc as nat, result) == Some(next as nat));
                    assert(run_step(code@, constants@, state, raw) == Step::Continue(
                        Machine { pc: next as nat, frame: frame.model() },
                    ));
                    raws = longer;
                }
                pc = next;
            },
            Ok(None) => {
                let outcome = Ok(result matches InstructionResult::Return(true));
                assert(runs_to(
                    float_unit,
                    code@,
                    constants@,
                    start,
                    longer,
                    Finish { outcome, frame: frame.model() },
                ));
                return outcome;
            },
            Err(error) => {
                let outcome = Err(error);
                assert(runs_to(
                    float_unit,
                    code@,
                    constants@,
                    start,
                    longer,
                    Finish { outcome, frame: frame.model() },
                ));
                return outcome;
            },
        }
    }
}

/// The frame in which `entry` starts on a stack that holds `stack`: the locals
/// are the first entries of the stack, and no operand is live.
pub open spec fn first_frame(stack: Seq<u64>, entry: RunnableModel) -> FrameModel {
    FrameModel {
        locals: stack.subrange(0, entry.max_locals as int),
        operands: Seq::empty(),
        capacity: entry.max_stack as nat,
    }
}

/// `constants` is a pool for the decoded table `entries`: entry by entry the
/// same constant.
pub open spec fn pool_of(
    constants: Seq<ConstantModel>,
    entries: Seq<crate::loader::parser::EntryModel>,
) -> bool {
    &&& constants.len() == entries.len()
    &&& forall|i: int| 0 <= i < entries.len() ==> (#[trigger] constants[i]).matches(entries[i])
}

/// What a run hands back to its caller: success on a return, the error
/// otherwise.
pub open spec fn verdict(outcome: Result<bool, RunnerError>) -> Result<(), RunnerError> {
    match outcome {
        Ok(_) => Ok(()),
        Err(error) => Err(error),
    }
}

/// What the stack holds after a run of `entry` that left `frame`, where it held
/// `before` at the start: the frame's locals at the bottom, its operands
/// above them, and above the frame's window what was there before.
pub open spec fn stack_after(
    before: Seq<u64>,
    entry: RunnableModel,
    frame: FrameModel,
    after: Seq<u64>,
) -> bool {
    &&& after.len() == before.len()
    &&& after.subrange(0, entry.max_locals as int) == frame.locals
    &&& after.subrange(entry.max_locals as int, entry.max_locals + frame.operands.len())
        == frame.operands
    &&& forall|i: int|
        entry.max_locals + entry.max_stack <= i < before.len() ==> after[i] == before[i]
}

/// Runs the entry point of a loaded image on a stack.
pub struct Runner<'a> {
    /// The stack the image runs on.
    pub stack: &'a mut Stack,
    /// The loaded image.
    pub loader: &'a Loader,
}

impl<'a> Runner<'a> {
    /// What the stack holds.
    pub open spec fn stack(&self) -> Seq<u64> {
        self.stack@
    }

    /// The image that is run.
    pub open spec fn image(&self) -> &Loader {
        self.loader
    }

    /// A runner for the image of `loader` on `stack`.
    pub fn new(stack: &'a mut Stack, loader: &'a Loader) -> (runner: Self)
        ensures
            runner.stack() == old(stack)@,
            runner.image() == loader,
            *final(stack) == *final(runner.stack),
    {
        Self { stack, loader }
    }

    /// Runs the image's entry point to its return or to the first error.
    ///
    /// Without an entry point the error is `MissingEntryPoint`; where the stack
    /// cannot hold the entry point's locals and operands it is `StackOverflow`.
    /// Otherwise the code runs from its first byte in a frame at the bottom of
    /// the stack.
    pub fn run<F: Fn(FloatWidth, FloatOp, u64, u64) -> u64>(&mut self, float_unit: &F) -> (outcome:
        Result<(), RunnerError>)
        requires
            always_ready(float_unit),
        ensures
            final(self).image() == old(self).image(),
            *final(final(self).stack) == *final(old(self).stack),
            match entry_point(old(self).image()@.functions) {
                None => outcome == Err::<(), RunnerError>(RunnerError::MissingEntryPoint)
                    && final(self).stack() == old(self).stack(),
                Some(entry) => if entry.max_locals + entry.max_stack > old(self).stack().len() {
                    outcome == Err::<(), RunnerError>(RunnerError::StackOverflow)
                        && final(self).stack() == old(self).stack()
                } else {
                    exists|constants: Seq<ConstantModel>, raws: Seq<u64>, end: Finish|
                        ({
                            &&& pool_of(constants, old(self).image()@.constants)
                            &&& #[trigger] runs_to(
                                float_unit,
                                entry.code,
                                constants,
                                Machine { pc: 0, frame: first_frame(old(self).stack(), entry) },
                                raws,
                                end,
                            )
                            &&& outcome == verdict(end.outcome)
                            &&& stack_after(old(self).stack(), entry, end.frame, final(self).stack())
                        })
                },
            },
    {
        let entry = match self.loader.get_entry_point() {
            Some(entry) => entry,
            None => {
                return Err(RunnerError::MissingEntryPoint);
            },
        };
        let (maxstack, maxlocals) = entry.setup_info();
        let mut initial_frame = match self.stack.initial_frame(maxlocals, maxstack) {
            Some(frame) => frame,
            None => {
                return Err(RunnerError::StackOverflow);
            },
        };
        let constant_table = self.loader.get_constant_table();
        let code = entry.code();
        let ghost start = Machine { pc: 0, frame: initial_frame.model() };
        assert(initial_frame.model() == first_frame(old(self).stack(), entry@)) by {
            assert(initial_frame.operands() =~= Seq::<u64>::empty());
        }
        let finished = execute(code, &mut initial_frame, &constant_table, float_unit);
        let ghost end = Finish { outcome: finished, frame: initial_frame.model() };
        let ghost left = initial_frame.storage();
        let ghost raws = choose|raws: Seq<u64>| #[trigger]
            runs_to(float_unit, code@, constant_table@, start, raws, end);
        proof {
            assert(pool_of(constant_table@, old(self).image()@.constants));
            assert(runs_to(
                float_unit,
                entry@.code,
                constant_table@,
                Machine { pc: 0, frame: first_frame(old(self).stack(), entry@) },
                raws,
                end,
            ));
            assert(stack_after(old(self).stack(), entry@, end.frame, left));
        }
        assert(self.stack() == left);
        match finished {
            Ok(_) => Ok(()),
            Err(error) => Err(error),
        }
    }
}

} // verus!
