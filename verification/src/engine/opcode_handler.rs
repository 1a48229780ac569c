//! Execution of one instruction.

use crate::engine::arith::{
    apply_int_binary, apply_int_unary, float_word, int_binary, int_unary, narrow_float,
    word_range,
};
use crate::engine::opcodes::Opcode;
use crate::engine::stack::{FrameModel, StackEntry, StackFrame, ENTRY_SIZE};
use crate::loader::bytes::le_u32;
use crate::loader::constant_table::{constant_word, ConstantModel, ConstantTable};
use vstd::prelude::*;

verus! {

/// What the runner does after an instruction.
#[derive(Clone, Copy, Debug, PartialEq, Eq, Structural)]
pub enum InstructionResult {
    /// Go on with the instruction that follows.
    Next,
    /// Go on at the given byte offset of the code.
    Jump(usize),
    /// Leave the function; `true` where the top operand is its value.
    Return(bool),
}

/// Why an instruction could not be executed.
#[derive(Clone, Copy, Debug, PartialEq, Eq, Structural)]
pub enum ExecutionError {
    /// There is no byte to read an opcode from.
    OpcodeNotFound,
    /// The opcode is assigned to no instruction.
    IllegalOpcode,
    /// The code ends before the instruction's operands do.
    MissingParams,
    /// An operand has a value the instruction cannot work with.
    IllegalParam,
    /// The instruction needs more operands than the stack holds.
    EmptyStack,
    /// The operand stack has no room for the result.
    StackOverflow,
    /// A local or a constant is asked for that does not exist.
    IndexOutOfBounds,
}


/// Bits of single-precision 0.0.
pub const SINGLE_ZERO_BITS: u64 = 0;

/// Bits of single-precision 1.0, widened with zeros.
pub const SINGLE_ONE_BITS: u64 = 0x3F80_0000;

/// Bits of double-precision 0.0.
pub const DOUBLE_ZERO_BITS: u64 = 0;

/// Bits of double-precision 1.0.
pub const DOUBLE_ONE_BITS: u64 = 0x3FF0_0000_0000_0000;

/// Precision of a floating-point instruction.
#[derive(Clone, Copy, Debug, PartialEq, Eq, Structural)]
pub enum FloatWidth {
    /// IEEE-754 binary32, in the low half of a stack word.
    Single,
    /// IEEE-754 binary64.
    Double,
}

/// What a floating-point instruction computes.
#[derive(Clone, Copy, Debug, PartialEq, Eq, Structural)]
pub enum FloatOp {
    Add,
    Sub,
    Mul,
    Div,
    Rem,
    Neg,
}

/// What an integer instruction with two operands computes.
#[derive(Clone, Copy, Debug, PartialEq, Eq, Structural)]
pub enum IntOp {
    Add,
    Sub,
    Mul,
    Div,
    Rem,
    Shl,
    Shr,
    AShr,
    And,
    Or,
    Xor,
}

/// What an integer instruction with one operand computes.
#[derive(Clone, Copy, Debug, PartialEq, Eq, Structural)]
pub enum IntUnaryOp {
    Neg,
    Not,
}

/// What the handler of an opcode does.
#[derive(Clone, Copy, Debug, PartialEq, Eq, Structural)]
pub enum Handler {
    /// Nothing.
    Nop,
    /// Pushes the given word.
    PushValue(u64),
    /// Pushes the operand bytes, read as a little-endian number.
    PushBytes,
    /// Pushes the constant whose index the operand bytes hold.
    PushConstant,
    /// Pushes the local at the given index.
    LoadLocal(u8),
    /// Pushes the local whose index the operand byte holds.
    LoadLocalAt,
    /// Pops into the local at the given index.
    StoreLocal(u8),
    /// Pops into the local whose index the operand byte holds.
    StoreLocalAt,
    /// Discards the top operand.
    Pop,
    /// Pushes a copy of the top operand.
    Dup,
    /// Exchanges the top two operands.
    Swap,
    /// Ends the function, with or without a value.
    Return(bool),
    /// Replaces the top two operands by an integer result.
    IntBinary(IntOp),
    /// Replaces the top operand by an integer result.
    IntUnary(IntUnaryOp),
    /// Replaces the top two operands by a floating-point result.
    FloatBinary(FloatWidth, FloatOp),
    /// Replaces the top operand by its floating-point negation.
    FloatUnary(FloatWidth),
    /// Refuses the opcode.
    Illegal,
}

/// One entry of the dispatch table.
#[derive(Clone, Copy, Debug, PartialEq, Eq, Structural)]
pub struct HandlerInfo {
    /// The opcode byte this entry is for.
    pub opcode: u8,
    /// Number of operand bytes that follow the opcode byte.
    pub param_count: u8,
    /// What the entry's handler does.
    pub handler: Handler,
}

/// The handler of each opcode.
pub open spec fn spec_handler_for(opcode: Opcode) -> Handler {
    match opcode {
        Opcode::Nop => Handler::Nop,
        Opcode::IConst0 => Handler::PushValue(0),
        Opcode::IConst1 => Handler::PushValue(1),
        Opcode::IConst2 => Handler::PushValue(2),
        Opcode::IConst3 => Handler::PushValue(3),
        Opcode::F4Const0 => Handler::PushValue(SINGLE_ZERO_BITS),
        Opcode::F4Const1 => Handler::PushValue(SINGLE_ONE_BITS),
        Opcode::F8Const0 => Handler::PushValue(DOUBLE_ZERO_BITS),
        Opcode::F8Const1 => Handler::PushValue(DOUBLE_ONE_BITS),
        Opcode::IConst => Handler::PushBytes,
        Opcode::IConstW => Handler::PushBytes,
        Opcode::Const => Handler::PushConstant,
        Opcode::LdArg0 => Handler::LoadLocal(0),
        Opcode::LdArg1 => Handler::LoadLocal(1),
        Opcode::LdArg2 => Handler::LoadLocal(2),
        Opcode::LdArg3 => Handler::LoadLocal(3),
        Opcode::LdArg => Handler::LoadLocalAt,
        Opcode::StArg0 => Handler::StoreLocal(0),
        Opcode::StArg1 => Handler::StoreLocal(1),
        Opcode::StArg2 => Handler::StoreLocal(2),
        Opcode::StArg3 => Handler::StoreLocal(3),
        Opcode::StArg => Handler::StoreLocalAt,
        Opcode::Pop => Handler::Pop,
        Opcode::Dup => Handler::Dup,
        Opcode::Swap => Handler::Swap,
        Opcode::Ret => Handler::Return(false),
        Opcode::RetVal => Handler::Return(true),
        Opcode::IAdd => Handler::IntBinary(IntOp::Add),
        Opcode::F4Add => Handler::FloatBinary(FloatWidth::Single, FloatOp::Add),
        Opcode::F8Add => Handler::FloatBinary(FloatWidth::Double, FloatOp::Add),
        Opcode::ISub => Handler::IntBinary(IntOp::Sub),
        Opcode::F4Sub => Handler::FloatBinary(FloatWidth::Single, FloatOp::Sub),
        Opcode::F8Sub => Handler::FloatBinary(FloatWidth::Double, FloatOp::Sub),
        Opcode::IMul => Handler::IntBinary(IntOp::Mul),
        Opcode::F4Mul => Handler::FloatBinary(FloatWidth::Single, FloatOp::Mul),
        Opcode::F8Mul => Handler::FloatBinary(FloatWidth::Double, FloatOp::Mul),
        Opcode::IDiv => Handler::IntBinary(IntOp::Div),
        Opcode::F4Div => Handler::FloatBinary(FloatWidth::Single, FloatOp::Div),
        Opcode::F8Div => Handler::FloatBinary(FloatWidth::Double, FloatOp::Div),
        Opcode::IRem => Handler::IntBinary(IntOp::Rem),
        Opcode::F4Rem => Handler::FloatBinary(FloatWidth::Single, FloatOp::Rem),
        Opcode::F8Rem => Handler::FloatBinary(FloatWidth::Double, FloatOp::Rem),
        Opcode::INeg => Handler::IntUnary(IntUnaryOp::Neg),
        Opcode::F4Neg => Handler::FloatUnary(FloatWidth::Single),
        Opcode::F8Neg => Handler::FloatUnary(FloatWidth::Double),
        Opcode::Shl => Handler::IntBinary(IntOp::Shl),
        Opcode::Shr => Handler::IntBinary(IntOp::Shr),
        Opcode::AShr => Handler::IntBinary(IntOp::AShr),
        Opcode::And => Handler::IntBinary(IntOp::And),
        Opcode::Or => Handler::IntBinary(IntOp::Or),
        Opcode::Xor => Handler::IntBinary(IntOp::Xor),
        Opcode::Not => Handler::IntUnary(IntUnaryOp::Not),
        Opcode::Directive => Handler::Illegal,
        Opcode::Unimplemented => Handler::Illegal,
    }
}

/// The dispatch table, entry by entry: the entry for `byte` carries `byte`
/// itself, the operand count of the opcode that `byte` encodes, and that
/// opcode's handler.
pub open spec fn spec_handler_info(byte: u8) -> HandlerInfo {
    HandlerInfo {
        opcode: byte,
        param_count: Opcode::spec_from_byte(byte).spec_operand_count(),
        handler: spec_handler_for(Opcode::spec_from_byte(byte)),
    }
}

/// Dispatch is by the opcode byte: the entry for a byte names that byte, and
/// its handler and operand count are those of the opcode that the byte encodes.
pub proof fn lemma_entry_names_its_opcode(byte: u8)
    ensures
        spec_handler_info(byte).opcode == byte,
        spec_handler_info(byte).handler == spec_handler_for(Opcode::spec_from_byte(byte)),
        spec_handler_info(byte).param_count == Opcode::spec_from_byte(byte).spec_operand_count(),
        spec_handler_info(byte).param_count <= 4,
{
}

/// The handler of `opcode`.
#[verifier::when_used_as_spec(spec_handler_for)]
pub fn handler_for(opcode: Opcode) -> (handler: Handler)
    ensures
        handler == spec_handler_for(opcode),
{
    match opcode {
        Opcode::Nop => Handler::Nop,
        Opcode::IConst0 => Handler::PushValue(0),
        Opcode::IConst1 => Handler::PushValue(1),
        Opcode::IConst2 => Handler::PushValue(2),
        Opcode::IConst3 => Handler::PushValue(3),
        Opcode::F4Const0 => Handler::PushValue(SINGLE_ZERO_BITS),
        Opcode::F4Const1 => Handler::PushValue(SINGLE_ONE_BITS),
        Opcode::F8Const0 => Handler::PushValue(DOUBLE_ZERO_BITS),
        Opcode::F8Const1 => Handler::PushValue(DOUBLE_ONE_BITS),
        Opcode::IConst => Handler::PushBytes,
        Opcode::IConstW => Handler::PushBytes,
        Opcode::Const => Handler::PushConstant,
        Opcode::LdArg0 => Handler::LoadLocal(0),
        Opcode::LdArg1 => Handler::LoadLocal(1),
        Opcode::LdArg2 => Handler::LoadLocal(2),
        Opcode::LdArg3 => Handler::LoadLocal(3),
        Opcode::LdArg => Handler::LoadLocalAt,
        Opcode::StArg0 => Handler::StoreLocal(0),
        Opcode::StArg1 => Handler::StoreLocal(1),
        Opcode::StArg2 => Handler::StoreLocal(2),
        Opcode::StArg3 => Handler::StoreLocal(3),
        Opcode::StArg => Handler::StoreLocalAt,
        Opcode::Pop => Handler::Pop,
        Opcode::Dup => Handler::Dup,
        Opcode::Swap => Handler::Swap,
        Opcode::Ret => Handler::Return(false),
        Opcode::RetVal => Handler::Return(true),
        Opcode::IAdd => Handler::IntBinary(IntOp::Add),
        Opcode::F4Add => Handler::FloatBinary(FloatWidth::Single, FloatOp::Add),
        Opcode::F8Add => Handler::FloatBinary(FloatWidth::Double, FloatOp::Add),
        Opcode::ISub => Handler::IntBinary(IntOp::Sub),
        Opcode::F4Sub => Handler::FloatBinary(FloatWidth::Single, FloatOp::Sub),
        Opcode::F8Sub => Handler::FloatBinary(FloatWidth::Double, FloatOp::Sub),
        Opcode::IMul => Handler::IntBinary(IntOp::Mul),
        Opcode::F4Mul => Handler::FloatBinary(FloatWidth::Single, FloatOp::Mul),
        Opcode::F8Mul => Handler::FloatBinary(FloatWidth::Double, FloatOp::Mul),
        Opcode::IDiv => Handler::IntBinary(IntOp::Div),
        Opcode::F4Div => Handler::FloatBinary(FloatWidth::Single, FloatOp::Div),
        Opcode::F8Div => Handler::FloatBinary(FloatWidth::Double, FloatOp::Div),
        Opcode::IRem => Handler::IntBinary(IntOp::Rem),
        Opcode::F4Rem => Handler::FloatBinary(FloatWidth::Single, FloatOp::Rem),
        Opcode::F8Rem => Handler::FloatBinary(FloatWidth::Double, FloatOp::Rem),
        Opcode::INeg => Handler::IntUnary(IntUnaryOp::Neg),
        Opcode::F4Neg => Handler::FloatUnary(FloatWidth::Single),
        Opcode::F8Neg => Handler::FloatUnary(FloatWidth::Double),
        Opcode::Shl => Handler::IntBinary(IntOp::Shl),
        Opcode::Shr => Handler::IntBinary(IntOp::Shr),
        Opcode::AShr => Handler::IntBinary(IntOp::AShr),
        Opcode::And => Handler::IntBinary(IntOp::And),
        Opcode::Or => Handler::IntBinary(IntOp::Or),
        Opcode::Xor => Handler::IntBinary(IntOp::Xor),
        Opcode::Not => Handler::IntUnary(IntUnaryOp::Not),
        Opcode::Directive => Handler::Illegal,
        Opcode::Unimplemented => Handler::Illegal,
    }
}

/// The dispatch table's entry for `byte`. Every byte has one, and the entry
/// names the byte it is for.
#[verifier::when_used_as_spec(spec_handler_info)]
pub fn handler_info(byte: u8) -> (info: HandlerInfo)
    ensures
        info == spec_handler_info(byte),
        info.opcode == byte,
{
    let opcode = Opcode::from_byte(byte);
    HandlerInfo { opcode: byte, param_count: opcode.operand_count(), handler: handler_for(opcode) }
}

/// The whole dispatch table: 256 entries, the one at index `o` being the entry
/// for opcode byte `o`.
pub fn handler_table() -> (table: Vec<HandlerInfo>)
    ensures
        table@.len() == 256,
        forall|o: int| 0 <= o < 256 ==> (#[trigger] table@[o]) == spec_handler_info(o as u8),
        forall|o: int| 0 <= o < 256 ==> (#[trigger] table@[o]).opcode == o,
{
    let mut table: Vec<HandlerInfo> = Vec::new();
    let mut at: usize = 0;
    while at < 256
        invariant
            at <= 256,
            table@.len() == at,
            forall|o: int| 0 <= o < at ==> (#[trigger] table@[o]) == spec_handler_info(o as u8),
        decreases 256 - at,
    {
        table.push(handler_info(at as u8));
        at += 1;
    }
    table
}

/// What an instruction yields together with the frame it leaves.
pub struct Effect {
    pub outcome: Result<InstructionResult, ExecutionError>,
    pub frame: FrameModel,
}

/// The number that `bytes` spell, least significant byte first.
pub open spec fn little_endian(bytes: Seq<u8>) -> int
    decreases bytes.len(),
{
    if bytes.len() == 0 {
        0
    } else {
        bytes[0] + 0x100 * little_endian(bytes.skip(1))
    }
}

/// Pushing `value`: fails on a full operand stack and leaves the frame alone.
pub open spec fn push_effect(frame: FrameModel, value: u64) -> Effect {
    if frame.full() {
        Effect { outcome: Err(ExecutionError::StackOverflow), frame }
    } else {
        Effect { outcome: Ok(InstructionResult::Next), frame: frame.pushed(value) }
    }
}

/// Pushing up to eight operand bytes as one number; more are refused.
pub open spec fn push_bytes_effect(params: Seq<u8>, frame: FrameModel) -> Effect {
    if params.len() > ENTRY_SIZE {
        Effect { outcome: Err(ExecutionError::IllegalParam), frame }
    } else {
        push_effect(frame, little_endian(params) as u64)
    }
}

/// Pushing the constant whose 32-bit index the operand bytes hold.
pub open spec fn push_constant_effect(
    params: Seq<u8>,
    frame: FrameModel,
    constants: Seq<ConstantModel>,
) -> Effect {
    if params.len() < 4 {
        Effect { outcome: Err(ExecutionError::MissingParams), frame }
    } else {
        match constant_word(constants, le_u32(params), frame.operands.len(), frame.capacity) {
            Ok(word) => Effect { outcome: Ok(InstructionResult::Next), frame: frame.pushed(word) },
            Err(error) => Effect { outcome: Err(error), frame },
        }
    }
}

/// Discarding the top operand.
pub open spec fn pop_effect(frame: FrameModel) -> Effect {
    if frame.operands.len() == 0 {
        Effect { outcome: Err(ExecutionError::EmptyStack), frame }
    } else {
        Effect { outcome: Ok(InstructionResult::Next), frame: frame.popped() }
    }
}

/// Pushing a copy of the top operand.
pub open spec fn dup_effect(frame: FrameModel) -> Effect {
    if frame.operands.len() == 0 {
        Effect { outcome: Err(ExecutionError::EmptyStack), frame }
    } else {
        push_effect(frame, frame.operands.last())
    }
}

/// Exchanging the top two operands. With a single operand, that one is gone
/// when the instruction fails.
pub open spec fn swap_effect(frame: FrameModel) -> Effect {
    if frame.operands.len() == 0 {
        Effect { outcome: Err(ExecutionError::EmptyStack), frame }
    } else if frame.operands.len() == 1 {
        Effect { outcome: Err(ExecutionError::EmptyStack), frame: frame.popped() }
    } else {
        let top = frame.operands.last();
        let below = frame.operands.drop_last().last();
        Effect {
            outcome: Ok(InstructionResult::Next),
            frame: frame.popped().popped().pushed(top).pushed(below),
        }
    }
}

/// Pushing the local at `index`.
pub open spec fn load_effect(frame: FrameModel, index: u8) -> Effect {
    if index >= frame.locals.len() {
        Effect { outcome: Err(ExecutionError::IndexOutOfBounds), frame }
    } else {
        push_effect(frame, frame.locals[index as int])
    }
}

/// Popping into the local at `index`. Without such a local the operand is gone
/// when the instruction fails.
pub open spec fn store_effect(frame: FrameModel, index: u8) -> Effect {
    if frame.operands.len() == 0 {
        Effect { outcome: Err(ExecutionError::EmptyStack), frame }
    } else if index >= frame.locals.len() {
        Effect { outcome: Err(ExecutionError::IndexOutOfBounds), frame: frame.popped() }
    } else {
        Effect {
            outcome: Ok(InstructionResult::Next),
            frame: frame.popped().with_local(index as int, frame.operands.last()),
        }
    }
}

/// Replacing the top two operands `a` and, above it, `b` by the result of `op`
/// on them. With a single operand, that one is gone when the instruction
/// fails; where `op` has no result, both are.
pub open spec fn int_binary_effect(op: IntOp, frame: FrameModel) -> Effect {
    if frame.operands.len() == 0 {
        Effect { outcome: Err(ExecutionError::EmptyStack), frame }
    } else if frame.operands.len() == 1 {
        Effect { outcome: Err(ExecutionError::EmptyStack), frame: frame.popped() }
    } else {
        let b = frame.operands.last();
        let a = frame.operands.drop_last().last();
        match int_binary(op, a, b) {
            Some(result) => Effect {
                outcome: Ok(InstructionResult::Next),
                frame: frame.popped().popped().pushed(result),
            },
            None => Effect {
                outcome: Err(ExecutionError::IllegalParam),
                frame: frame.popped().popped(),
            },
        }
    }
}

/// Replacing the top operand by the result of `op` on it.
pub open spec fn int_unary_effect(op: IntUnaryOp, frame: FrameModel) -> Effect {
    if frame.operands.len() == 0 {
        Effect { outcome: Err(ExecutionError::EmptyStack), frame }
    } else {
        Effect {
            outcome: Ok(InstructionResult::Next),
            frame: frame.popped().pushed(int_unary(op, frame.operands.last())),
        }
    }
}

/// Replacing the top two operands by `raw`, the word that the floating-point
/// arithmetic gave for them, narrowed to `width`.
pub open spec fn float_binary_effect(width: FloatWidth, frame: FrameModel, raw: u64) -> Effect {
    if frame.operands.len() == 0 {
        Effect { outcome: Err(ExecutionError::EmptyStack), frame }
    } else if frame.operands.len() == 1 {
        Effect { outcome: Err(ExecutionError::EmptyStack), frame: frame.popped() }
    } else {
        Effect {
            outcome: Ok(InstructionResult::Next),
            frame: frame.popped().popped().pushed(float_word(width, raw)),
        }
    }
}

/// Replacing the top operand by `raw`, the word that the floating-point
/// arithmetic gave for it, narrowed to `width`.
pub open spec fn float_unary_effect(width: FloatWidth, frame: FrameModel, raw: u64) -> Effect {
    if frame.operands.len() == 0 {
        Effect { outcome: Err(ExecutionError::EmptyStack), frame }
    } else {
        Effect {
            outcome: Ok(InstructionResult::Next),
            frame: frame.popped().pushed(float_word(width, raw)),
        }
    }
}

/// What the floating-point arithmetic is asked when `handler` runs on `frame`,
/// if it is asked at all: precision, operation, and the operands narrowed to
/// the precision, the one that lay deeper first. A negation has zero as its
/// second operand.
pub open spec fn float_request(handler: Handler, frame: FrameModel) -> Option<
    (FloatWidth, FloatOp, u64, u64),
> {
    match handler {
        Handler::FloatBinary(width, op) => if frame.operands.len() >= 2 {
            Some(
                (
                    width,
                    op,
                    float_word(width, frame.operands.drop_last().last()),
                    float_word(width, frame.operands.last()),
                ),
            )
        } else {
            None
        },
        Handler::FloatUnary(width) => if frame.operands.len() >= 1 {
            Some((width, FloatOp::Neg, float_word(width, frame.operands.last()), 0))
        } else {
            None
        },
        _ => None,
    }
}

/// What `handler` does with operand bytes `params` on `frame`. `float_raw` is
/// what the floating-point arithmetic answered, where the handler asks it.
pub open spec fn handler_effect(
    handler: Handler,
    params: Seq<u8>,
    frame: FrameModel,
    constants: Seq<ConstantModel>,
    float_raw: u64,
) -> Effect {
    match handler {
        Handler::Nop => Effect { outcome: Ok(InstructionResult::Next), frame },
        Handler::PushValue(value) => push_effect(frame, value),
        Handler::PushBytes => push_bytes_effect(params, frame),
        Handler::PushConstant => push_constant_effect(params, frame, constants),
        Handler::LoadLocal(index) => load_effect(frame, index),
        Handler::LoadLocalAt => if params.len() < 1 {
            Effect { outcome: Err(ExecutionError::MissingParams), frame }
        } else {
            load_effect(frame, params[0])
        },
        Handler::StoreLocal(index) => store_effect(frame, index),
        Handler::StoreLocalAt => if params.len() < 1 {
            Effect { outcome: Err(ExecutionError::MissingParams), frame }
        } else {
            store_effect(frame, params[0])
        },
        Handler::Pop => pop_effect(frame),
        Handler::Dup => dup_effect(frame),
        Handler::Swap => swap_effect(frame),
        Handler::Return(with_value) => Effect {
            outcome: Ok(InstructionResult::Return(with_value)),
            frame,
        },
        Handler::IntBinary(op) => int_binary_effect(op, frame),
        Handler::IntUnary(op) => int_unary_effect(op, frame),
        Handler::FloatBinary(width, _) => float_binary_effect(width, frame, float_raw),
        Handler::FloatUnary(width) => float_unary_effect(width, frame, float_raw),
        Handler::Illegal => Effect { outcome: Err(ExecutionError::IllegalOpcode), frame },
    }
}

/// Whether `code` begins with a whole instruction: an opcode byte and all of
/// its operand bytes.
pub open spec fn whole_instruction(code: Seq<u8>) -> bool {
    code.len() >= 1 && code.len() - 1 >= spec_handler_info(code[0]).param_count
}

/// The operand bytes of the instruction at the front of `code`.
pub open spec fn instruction_params(code: Seq<u8>) -> Seq<u8>
    recommends
        whole_instruction(code),
{
    code.subrange(1, 1 + spec_handler_info(code[0]).param_count)
}

/// What the instruction at the front of `code` asks the floating-point
/// arithmetic, if anything.
pub open spec fn instruction_request(code: Seq<u8>, frame: FrameModel) -> Option<
    (FloatWidth, FloatOp, u64, u64),
> {
    if whole_instruction(code) {
        float_request(spec_handler_info(code[0]).handler, frame)
    } else {
        None
    }
}

/// What executing the instruction at the front of `code` does on `frame`:
/// without a byte there is no opcode, without all operand bytes the operands
/// are missing, and otherwise the opcode's handler runs on exactly its operand
/// bytes.
pub open spec fn instruction_effect(
    code: Seq<u8>,
    frame: FrameModel,
    constants: Seq<ConstantModel>,
    float_raw: u64,
) -> Effect {
    if code.len() == 0 {
        Effect { outcome: Err(ExecutionError::OpcodeNotFound), frame }
    } else if !whole_instruction(code) {
        Effect { outcome: Err(ExecutionError::MissingParams), frame }
    } else {
        handler_effect(
            spec_handler_info(code[0]).handler,
            instruction_params(code),
            frame,
            constants,
            float_raw,
        )
    }
}

/// The result of a handler.
pub type ExecutionResult = Result<InstructionResult, ExecutionError>;

/// What a handler works on: the opcode that was read, its operand bytes, the
/// frame and the constant pool. A handler changes the frame and nothing else:
/// afterwards `frame` still refers to the frame it was given.
#[derive(Debug)]
pub struct HandlerInputInfo<'a, 'b, 'c> {
    /// The opcode byte of the instruction.
    pub opcode: u8,
    /// The operand bytes of the instruction.
    pub params: &'a [u8],
    /// The frame the instruction runs in.
    pub frame: &'b mut StackFrame<'c>,
    /// The constant pool of the image.
    pub constants: &'b ConstantTable<'a>,
}

impl<'a, 'b, 'c> HandlerInputInfo<'a, 'b, 'c> {
    /// The opcode, the operand bytes and the constants are those of `before`.
    pub open spec fn same_inputs(&self, before: &Self) -> bool {
        &&& self.opcode == before.opcode
        &&& self.params@ == before.params@
        &&& self.constants@ == before.constants@
    }

    /// Pops the top operand; `EmptyStack` where there is none.
    pub fn stack_pop(&mut self) -> (outcome: Result<StackEntry, ExecutionError>)
        requires
            old(self).frame.wf(),
        ensures
            final(self).same_inputs(old(self)),
            *final(final(self).frame) == *final(old(self).frame),
            *final(final(self).frame.origin) == *final(old(self).frame.origin),
            final(self).frame.steps_from(&*old(self).frame),
            match outcome {
                Ok(value) => old(self).frame.operands().len() > 0 && value == old(
                    self,
                ).frame.operands().last() && final(self).frame.model() == old(
                    self,
                ).frame.model().popped(),
                Err(error) => error == ExecutionError::EmptyStack && old(
                    self,
                ).frame.operands().len() == 0 && final(self).frame.model() == old(
                    self,
                ).frame.model(),
            },
    {
        match self.frame.pop() {
            Some(value) => Ok(value),
            None => Err(ExecutionError::EmptyStack),
        }
    }

    /// Pushes `val`; `StackOverflow` on a full operand stack.
    pub fn stack_push(&mut self, val: StackEntry) -> (outcome: Result<(), ExecutionError>)
        requires
            old(self).frame.wf(),
        ensures
            final(self).same_inputs(old(self)),
            *final(final(self).frame) == *final(old(self).frame),
            *final(final(self).frame.origin) == *final(old(self).frame.origin),
            final(self).frame.steps_from(&*old(self).frame),
            match outcome {
                Ok(_) => !old(self).frame.model().full() && final(self).frame.model() == old(
                    self,
                ).frame.model().pushed(val),
                Err(error) => error == ExecutionError::StackOverflow && old(
                    self,
                ).frame.model().full() && final(self).frame.model() == old(self).frame.model(),
            },
    {
        if self.frame.push(val) {
            Ok(())
        } else {
            Err(ExecutionError::StackOverflow)
        }
    }

    /// The local at `index`; `IndexOutOfBounds` where there is none.
    pub fn local_get(&mut self, index: u8) -> (outcome: Result<StackEntry, ExecutionError>)
        requires
            old(self).frame.wf(),
        ensures
            final(self).same_inputs(old(self)),
            *final(final(self).frame) == *final(old(self).frame),
            *final(final(self).frame.origin) == *final(old(self).frame.origin),
            final(self).frame.steps_from(&*old(self).frame),
            final(self).frame.model() == old(self).frame.model(),
            match outcome {
                Ok(value) => index < old(self).frame.locals().len() && value == old(
                    self,
                ).frame.locals()[index as int],
                Err(error) => error == ExecutionError::IndexOutOfBounds && index >= old(
                    self,
                ).frame.locals().len(),
            },
    {
        match self.frame.get_local(index as usize) {
            Some(value) => Ok(value),
            None => Err(ExecutionError::IndexOutOfBounds),
        }
    }

    /// Stores `value` in the local at `index` and hands back what it held;
    /// `IndexOutOfBounds` where there is no such local.
    pub fn local_set(&mut self, index: u8, value: StackEntry) -> (outcome: Result<
        StackEntry,
        ExecutionError,
    >)
        requires
            old(self).frame.wf(),
        ensures
            final(self).same_inputs(old(self)),
            *final(final(self).frame) == *final(old(self).frame),
            *final(final(self).frame.origin) == *final(old(self).frame.origin),
            final(self).frame.steps_from(&*old(self).frame),
            match outcome {
                Ok(previous) => index < old(self).frame.locals().len() && previous == old(
                    self,
                ).frame.locals()[index as int] && final(self).frame.model() == old(
                    self,
                ).frame.model().with_local(index as int, value),
                Err(error) => error == ExecutionError::IndexOutOfBounds && index >= old(
                    self,
                ).frame.locals().len() && final(self).frame.model() == old(self).frame.model(),
            },
    {
        match self.frame.set_local(index as usize, value) {
            Some(previous) => Ok(previous),
            None => Err(ExecutionError::IndexOutOfBounds),
        }
    }

    /// The first `count` operand bytes; `MissingParams` where there are fewer.
    pub fn pull_params(&self, count: usize) -> (outcome: Result<&[u8], ExecutionError>)
        ensures
            match outcome {
                Ok(taken) => count <= self.params@.len() && taken@ == self.params@.take(
                    count as int,
                ),
                Err(error) => error == ExecutionError::MissingParams && count > self.params@.len(),
            },
    {
        if self.params.len() < count {
            return Err(ExecutionError::MissingParams);
        }
        let (taken, _) = self.params.split_at(count);
        Ok(taken)
    }

    /// Pops two operands and hands them back, the top one first. With a single
    /// operand, that one is gone when this fails.
    pub fn stack_pop_pair(&mut self) -> (outcome: Result<(StackEntry, StackEntry), ExecutionError>)
        requires
            old(self).frame.wf(),
        ensures
            final(self).same_inputs(old(self)),
            *final(final(self).frame) == *final(old(self).frame),
            *final(final(self).frame.origin) == *final(old(self).frame.origin),
            final(self).frame.steps_from(&*old(self).frame),
            match outcome {
                Ok((top, below)) => old(self).frame.operands().len() >= 2 && top == old(
                    self,
                ).frame.operands().last() && below == old(
                    self,
                ).frame.operands().drop_last().last() && final(self).frame.model() == old(
                    self,
                ).frame.model().popped().popped(),
                Err(error) => error == ExecutionError::EmptyStack && if old(
                    self,
                ).frame.operands().len() == 0 {
                    final(self).frame.model() == old(self).frame.model()
                } else {
                    old(self).frame.operands().len() == 1 && final(self).frame.model() == old(
                        self,
                    ).frame.model().popped()
                },
            },
    {
        let top = self.stack_pop()?;
        let below = self.stack_pop()?;
        Ok((top, below))
    }
}

/// Pushes `value` and goes on.
pub fn push_numeric(input: &mut HandlerInputInfo, value: u64) -> (outcome: ExecutionResult)
    requires
        old(input).frame.wf(),
    ensures
        final(input).same_inputs(old(input)),
        *final(final(input).frame) == *final(old(input).frame),
        *final(final(input).frame.origin) == *final(old(input).frame.origin),
        final(input).frame.steps_from(&*old(input).frame),
        (Effect { outcome, frame: final(input).frame.model() }) == push_effect(
            old(input).frame.model(),
            value,
        ),
{
    match input.stack_push(value) {
        Ok(_) => Ok(InstructionResult::Next),
        Err(error) => Err(error),
    }
}

/// The number that up to eight bytes spell, least significant byte first.
fn word_from_bytes(bytes: &[u8]) -> (word: u64)
    requires
        bytes@.len() <= ENTRY_SIZE,
    ensures
        word == little_endian(bytes@),
{
    let mut word: u64 = 0;
    let mut left: usize = bytes.len();
    while left > 0
        invariant
            left <= bytes@.len() <= 8,
            word == little_endian(bytes@.skip(left as int)),
            word < pow256((bytes@.len() - left) as nat),
        decreases left,
    {
        left -= 1;
        proof {
            let tail = bytes@.skip(left as int);
            assert(tail.skip(1) =~= bytes@.skip(left + 1));
            lemma_pow256((bytes@.len() - left - 1) as nat);
        }
        word = word * 0x100 + bytes[left] as u64;
    }
    assert(bytes@.skip(0) =~= bytes@);
    word
}

/// 256 to the power `exponent`.
pub open spec fn pow256(exponent: nat) -> int
    decreases exponent,
{
    if exponent == 0 {
        1
    } else {
        0x100 * pow256((exponent - 1) as nat)
    }
}

/// Up to the eighth, the powers of 256 fit a stack word.
proof fn lemma_pow256(exponent: nat)
    requires
        exponent <= 8,
    ensures
        0 < pow256(exponent) <= word_range(),
        exponent < 8 ==> 0x100 * pow256(exponent) <= word_range(),
        pow256(exponent + 1) == 0x100 * pow256(exponent),
{
    reveal_with_fuel(pow256, 10);
}

/// Pushes the operand bytes as one little-endian number; more than eight
/// bytes are an `IllegalParam`.
pub fn push_bytes(input: &mut HandlerInputInfo) -> (outcome: ExecutionResult)
    requires
        old(input).frame.wf(),
    ensures
        final(input).same_inputs(old(input)),
        *final(final(input).frame) == *final(old(input).frame),
        *final(final(input).frame.origin) == *final(old(input).frame.origin),
        final(input).frame.steps_from(&*old(input).frame),
        (Effect { outcome, frame: final(input).frame.model() }) == push_bytes_effect(
            old(input).params@,
            old(input).frame.model(),
        ),
{
    if input.params.len() > ENTRY_SIZE {
        return Err(ExecutionError::IllegalParam);
    }
    let value = word_from_bytes(input.params);
    push_numeric(input, value)
}

/// Pushes the constant whose index the first four operand bytes hold.
pub fn push_constant(input: &mut HandlerInputInfo) -> (outcome: ExecutionResult)
    requires
        old(input).frame.wf(),
    ensures
        final(input).same_inputs(old(input)),
        *final(final(input).frame) == *final(old(input).frame),
        *final(final(input).frame.origin) == *final(old(input).frame.origin),
        final(input).frame.steps_from(&*old(input).frame),
        (Effect { outcome, frame: final(input).frame.model() }) == push_constant_effect(
            old(input).params@,
            old(input).frame.model(),
            old(input).constants@,
        ),
{
    let bytes = input.pull_params(4)?;
    let index: u32 = bytes[0] as u32 + 0x100 * (bytes[1] as u32) + 0x1_0000 * (bytes[2] as u32)
        + 0x100_0000 * (bytes[3] as u32);
    match input.constants.push_entry(input.frame, index) {
        Ok(_) => Ok(InstructionResult::Next),
        Err(error) => Err(error),
    }
}

/// Discards the top operand.
pub fn pop(input: &mut HandlerInputInfo) -> (outcome: ExecutionResult)
    requires
        old(input).frame.wf(),
    ensures
        final(input).same_inputs(old(input)),
        *final(final(input).frame) == *final(old(input).frame),
        *final(final(input).frame.origin) == *final(old(input).frame.origin),
        final(input).frame.steps_from(&*old(input).frame),
        (Effect { outcome, frame: final(input).frame.model() }) == pop_effect(
            old(input).frame.model(),
        ),
{
    match input.stack_pop() {
        Ok(_) => Ok(InstructionResult::Next),
        Err(error) => Err(error),
    }
}

/// Pushes a copy of the top operand.
pub fn dup(input: &mut HandlerInputInfo) -> (outcome: ExecutionResult)
    requires
        old(input).frame.wf(),
    ensures
        final(input).same_inputs(old(input)),
        *final(final(input).frame) == *final(old(input).frame),
        *final(final(input).frame.origin) == *final(old(input).frame.origin),
        final(input).frame.steps_from(&*old(input).frame),
        (Effect { outcome, frame: final(input).frame.model() }) == dup_effect(
            old(input).frame.model(),
        ),
{
    let value = match input.frame.peek() {
        Some(top) => *top,
        None => {
            return Err(ExecutionError::EmptyStack);
        },
    };
    push_numeric(input, value)
}

/// Exchanges the top two operands.
pub fn swap(input: &mut HandlerInputInfo) -> (outcome: ExecutionResult)
    requires
        old(input).frame.wf(),
    ensures
        final(input).same_inputs(old(input)),
        *final(final(input).frame) == *final(old(input).frame),
        *final(final(input).frame.origin) == *final(old(input).frame.origin),
        final(input).frame.steps_from(&*old(input).frame),
        (Effect { outcome, frame: final(input).frame.model() }) == swap_effect(
            old(input).frame.model(),
        ),
{
    let (top, below) = input.stack_pop_pair()?;
    input.stack_push(top)?;
    input.stack_push(below)?;
    Ok(InstructionResult::Next)
}

/// Pushes the local at `index`.
pub fn load_local(input: &mut HandlerInputInfo, index: u8) -> (outcome: ExecutionResult)
    requires
        old(input).frame.wf(),
    ensures
        final(input).same_inputs(old(input)),
        *final(final(input).frame) == *final(old(input).frame),
        *final(final(input).frame.origin) == *final(old(input).frame.origin),
        final(input).frame.steps_from(&*old(input).frame),
        (Effect { outcome, frame: final(input).frame.model() }) == load_effect(
            old(input).frame.model(),
            index,
        ),
{
    let value = input.local_get(index)?;
    push_numeric(input, value)
}

/// Pops the top operand into the local at `index`.
pub fn store_local(input: &mut HandlerInputInfo, index: u8) -> (outcome: ExecutionResult)
    requires
        old(input).frame.wf(),
    ensures
        final(input).same_inputs(old(input)),
        *final(final(input).frame) == *final(old(input).frame),
        *final(final(input).frame.origin) == *final(old(input).frame.origin),
        final(input).frame.steps_from(&*old(input).frame),
        (Effect { outcome, frame: final(input).frame.model() }) == store_effect(
            old(input).frame.model(),
            index,
        ),
{
    let value = input.stack_pop()?;
    input.local_set(index, value)?;
    Ok(InstructionResult::Next)
}

/// Replaces the top operand by the result of `op` on it.
pub fn unaryop(input: &mut HandlerInputInfo, op: IntUnaryOp) -> (outcome: ExecutionResult)
    requires
        old(input).frame.wf(),
    ensures
        final(input).same_inputs(old(input)),
        *final(final(input).frame) == *final(old(input).frame),
        *final(final(input).frame.origin) == *final(old(input).frame.origin),
        final(input).frame.steps_from(&*old(input).frame),
        (Effect { outcome, frame: final(input).frame.model() }) == int_unary_effect(
            op,
            old(input).frame.model(),
        ),
{
    let value = input.stack_pop()?;
    input.stack_push(apply_int_unary(op, value))?;
    Ok(InstructionResult::Next)
}

/// Replaces the top two operands by the result of `op` on them; the operand
/// that lay deeper is the left one. `IllegalParam` where `op` has no result.
pub fn binop(input: &mut HandlerInputInfo, op: IntOp) -> (outcome: ExecutionResult)
    requires
        old(input).frame.wf(),
    ensures
        final(input).same_inputs(old(input)),
        *final(final(input).frame) == *final(old(input).frame),
        *final(final(input).frame.origin) == *final(old(input).frame.origin),
        final(input).frame.steps_from(&*old(input).frame),
        (Effect { outcome, frame: final(input).frame.model() }) == int_binary_effect(
            op,
            old(input).frame.model(),
        ),
{
    let (b, a) = input.stack_pop_pair()?;
    match apply_int_binary(op, a, b) {
        Some(result) => {
            input.stack_push(result)?;
            Ok(InstructionResult::Next)
        },
        None => Err(ExecutionError::IllegalParam),
    }
}

/// Refuses the opcode.
pub fn unimplemented_handler(input: &mut HandlerInputInfo) -> (outcome: ExecutionResult)
    ensures
        *final(input) == *old(input),
        outcome == Err::<InstructionResult, ExecutionError>(ExecutionError::IllegalOpcode),
{
    Err(ExecutionError::IllegalOpcode)
}

/// `raw` is an answer of the floating-point arithmetic `float_unit` to
/// `request`. Where nothing is asked, any word will do.
pub open spec fn answers<F: Fn(FloatWidth, FloatOp, u64, u64) -> u64>(
    float_unit: &F,
    request: Option<(FloatWidth, FloatOp, u64, u64)>,
    raw: u64,
) -> bool {
    match request {
        Some(asked) => call_ensures(float_unit, asked, raw),
        None => true,
    }
}

/// `float_unit` can be asked anything.
pub open spec fn always_ready<F: Fn(FloatWidth, FloatOp, u64, u64) -> u64>(float_unit: &F) -> bool {
    forall|width: FloatWidth, op: FloatOp, a: u64, b: u64| #[trigger]
        call_requires(float_unit, (width, op, a, b))
}

/// Replaces the top two operands by what `float_unit` computes for them. The
/// operand that lay deeper is the left one; both are narrowed to `width` before
/// and the result after.
pub fn float_binop<F: Fn(FloatWidth, FloatOp, u64, u64) -> u64>(
    input: &mut HandlerInputInfo,
    width: FloatWidth,
    op: FloatOp,
    float_unit: &F,
) -> (outcome: ExecutionResult)
    requires
        old(input).frame.wf(),
        always_ready(float_unit),
    ensures
        final(input).same_inputs(old(input)),
        *final(final(input).frame) == *final(old(input).frame),
        *final(final(input).frame.origin) == *final(old(input).frame.origin),
        final(input).frame.steps_from(&*old(input).frame),
        exists|raw: u64|
            answers(
                float_unit,
                float_request(Handler::FloatBinary(width, op), old(input).frame.model()),
                raw,
            ) && (Effect { outcome, frame: final(input).frame.model() }) == #[trigger] float_binary_effect(
                width,
                old(input).frame.model(),
                raw,
            ),
{
    let ghost before = input.frame.model();
    match input.stack_pop_pair() {
        Ok((b, a)) => {
            let raw = float_unit(width, op, narrow_float(width, a), narrow_float(width, b));
            let pushed = input.stack_push(narrow_float(width, raw));
            assert(pushed is Ok);
            assert((Effect {
                outcome: Ok(InstructionResult::Next),
                frame: input.frame.model(),
            }) == float_binary_effect(width, before, raw));
            Ok(InstructionResult::Next)
        },
        Err(error) => {
            assert((Effect { outcome: Err(error), frame: input.frame.model() })
                == float_binary_effect(width, before, 0));
            Err(error)
        },
    }
}

/// Replaces the top operand by what `float_unit` computes as its negation.
pub fn float_unaryop<F: Fn(FloatWidth, FloatOp, u64, u64) -> u64>(
    input: &mut HandlerInputInfo,
    width: FloatWidth,
    float_unit: &F,
) -> (outcome: ExecutionResult)
    requires
        old(input).frame.wf(),
        always_ready(float_unit),
    ensures
        final(input).same_inputs(old(input)),
        *final(final(input).frame) == *final(old(input).frame),
        *final(final(input).frame.origin) == *final(old(input).frame.origin),
        final(input).frame.steps_from(&*old(input).frame),
        exists|raw: u64|
            answers(
                float_unit,
                float_request(Handler::FloatUnary(width), old(input).frame.model()),
                raw,
            ) && (Effect { outcome, frame: final(input).frame.model() }) == #[trigger] float_unary_effect(
                width,
                old(input).frame.model(),
                raw,
            ),
{
    let ghost before = input.frame.model();
    match input.stack_pop() {
        Ok(a) => {
            let raw = float_unit(width, FloatOp::Neg, narrow_float(width, a), 0);
            let pushed = input.stack_push(narrow_float(width, raw));
            assert(pushed is Ok);
            assert((Effect {
                outcome: Ok(InstructionResult::Next),
                frame: input.frame.model(),
            }) == float_unary_effect(width, before, raw));
            Ok(InstructionResult::Next)
        },
        Err(error) => {
            assert((Effect { outcome: Err(error), frame: input.frame.model() })
                == float_unary_effect(width, before, 0));
            Err(error)
        },
    }
}

/// Does what `handler` stands for.
pub fn run_handler<F: Fn(FloatWidth, FloatOp, u64, u64) -> u64>(
    handler: Handler,
    input: &mut HandlerInputInfo,
    float_unit: &F,
) -> (outcome: ExecutionResult)
    requires
        old(input).frame.wf(),
        always_ready(float_unit),
    ensures
        final(input).same_inputs(old(input)),
        *final(final(input).frame) == *final(old(input).frame),
        *final(final(input).frame.origin) == *final(old(input).frame.origin),
        final(input).frame.steps_from(&*old(input).frame),
        exists|raw: u64|
            answers(float_unit, float_request(handler, old(input).frame.model()), raw) && (Effect {
                outcome,
                frame: final(input).frame.model(),
            }) == #[trigger] handler_effect(
                handler,
                old(input).params@,
                old(input).frame.model(),
                old(input).constants@,
                raw,
            ),
{
    let ghost before = input.frame.model();
    let ghost params = input.params@;
    let ghost constants = input.constants@;
    match handler {
        Handler::FloatBinary(width, op) => {
            let outcome = float_binop(input, width, op, float_unit);
            proof {
                let raw = choose|raw: u64|
                    answers(float_unit, float_request(handler, before), raw) && (Effect {
                        outcome,
                        frame: input.frame.model(),
                    }) == #[trigger] float_binary_effect(width, before, raw);
                assert((Effect { outcome, frame: input.frame.model() }) == handler_effect(
                    handler,
                    params,
                    before,
                    constants,
                    raw,
                ));
            }
            outcome
        },
        Handler::FloatUnary(width) => {
            let outcome = float_unaryop(input, width, float_unit);
            proof {
                let raw = choose|raw: u64|
                    answers(float_unit, float_request(handler, before), raw) && (Effect {
                        outcome,
                        frame: input.frame.model(),
                    }) == #[trigger] float_unary_effect(width, before, raw);
                assert((Effect { outcome, frame: input.frame.model() }) == handler_effect(
                    handler,
                    params,
                    before,
                    constants,
                    raw,
                ));
            }
            outcome
        },
        other => {
            let outcome = match other {
                Handler::Nop => Ok(InstructionResult::Next),
                Handler::PushValue(value) => push_numeric(input, value),
                Handler::PushBytes => push_bytes(input),
                Handler::PushConstant => push_constant(input),
                Handler::LoadLocal(index) => load_local(input, index),
                Handler::LoadLocalAt => match input.pull_params(1) {
                    Ok(bytes) => load_local(input, bytes[0]),
                    Err(error) => Err(error),
                },
                Handler::StoreLocal(index) => store_local(input, index),
                Handler::StoreLocalAt => match input.pull_params(1) {
                    Ok(bytes) => store_local(input, bytes[0]),
                    Err(error) => Err(error),
                },
                Handler::Pop => pop(input),
                Handler::Dup => dup(input),
                Handler::Swap => swap(input),
                Handler::Return(with_value) => Ok(InstructionResult::Return(with_value)),
                Handler::IntBinary(op) => binop(input, op),
                Handler::IntUnary(op) => unaryop(input, op),
                _ => unimplemented_handler(input),
            };
            assert((Effect { outcome, frame: input.frame.model() }) == handler_effect(
                handler,
                params,
                before,
                constants,
                0,
            ));
            outcome
        },
    }
}

/// Executes the instruction at the front of `bytecode` on `frame`.
///
/// Floating-point instructions hand their operands to `float_unit` and push
/// the word it answers; everything else is decided here.
pub fn exec_instruction<'a, F: Fn(FloatWidth, FloatOp, u64, u64) -> u64>(
    bytecode: &'a [u8],
    frame: &mut StackFrame,
    constants: &ConstantTable<'a>,
    float_unit: &F,
) -> (outcome: ExecutionResult)
    requires
        old(frame).wf(),
        always_ready(float_unit),
    ensures
        final(frame).steps_from(old(frame)),
        *final(final(frame).origin) == *final(old(frame).origin),
        exists|raw: u64|
            answers(float_unit, instruction_request(bytecode@, old(frame).model()), raw) && (Effect {
                outcome,
                frame: final(frame).model(),
            }) == #[trigger] instruction_effect(bytecode@, old(frame).model(), constants@, raw),
{
    let ghost before = frame.model();
    if bytecode.len() == 0 {
        assert((Effect { outcome: Err(ExecutionError::OpcodeNotFound), frame: before })
            == instruction_effect(bytecode@, before, constants@, 0));
        return Err(ExecutionError::OpcodeNotFound);
    }
    let opcode = bytecode[0];
    let (_, operands) = bytecode.split_at(1);
    let handler_info = handler_info(opcode);
    if operands.len() < handler_info.param_count as usize {
        assert((Effect { outcome: Err(ExecutionError::MissingParams), frame: before })
            == instruction_effect(bytecode@, before, constants@, 0));
        return Err(ExecutionError::MissingParams);
    }
    assert(opcode == handler_info.opcode);
    let (params, _) = operands.split_at(handler_info.param_count as usize);
    assert(params@ =~= instruction_params(bytecode@));
    let mut input = HandlerInputInfo { opcode, params, frame, constants };
    let outcome = run_handler(handler_info.handler, &mut input, float_unit);
    proof {
        let raw = choose|raw: u64|
            answers(float_unit, float_request(handler_info.handler, before), raw) && (Effect {
                outcome,
                frame: input.frame.model(),
            }) == #[trigger] handler_effect(
                handler_info.handler,
                params@,
                before,
                constants@,
                raw,
            );
        assert((Effect { outcome, frame: input.frame.model() }) == instruction_effect(
            bytecode@,
            before,
            constants@,
            raw,
        ));
    }
    outcome
}

} // verus!
