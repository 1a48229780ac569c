use azimuth::engine::opcode_handler::{
    exec_instruction, handler_info, handler_table, push_bytes, run_handler, ExecutionError,
    FloatOp, FloatWidth, Handler, HandlerInputInfo, InstructionResult, IntOp,
};
use azimuth::engine::opcodes::Opcode;
use azimuth::engine::stack::Stack;
use azimuth::engine::{advance, execute, Runner, RunnerError};
use azimuth::loader::constant_table::{Constant, ConstantTable};
use azimuth::loader::parser::{Table, TableEntry};
use azimuth::loader::{Loader, LoaderError};

fn float_unit(width: FloatWidth, op: FloatOp, a: u64, b: u64) -> u64 {
    match width {
        FloatWidth::Single => {
            let (x, y) = (f32::from_bits(a as u32), f32::from_bits(b as u32));
            let result = match op {
                FloatOp::Add => x + y,
                FloatOp::Sub => x - y,
                FloatOp::Mul => x * y,
                FloatOp::Div => x / y,
                FloatOp::Rem => x % y,
                FloatOp::Neg => -x,
            };
            u64::from(result.to_bits())
        }
        FloatWidth::Double => {
            let (x, y) = (f64::from_bits(a), f64::from_bits(b));
            let result = match op {
                FloatOp::Add => x + y,
                FloatOp::Sub => x - y,
                FloatOp::Mul => x * y,
                FloatOp::Div => x / y,
                FloatOp::Rem => x % y,
                FloatOp::Neg => -x,
            };
            result.to_bits()
        }
    }
}

fn op(opcode: Opcode) -> u8 {
    opcode.to_byte()
}

struct Ran {
    outcome: Result<bool, RunnerError>,
    operands: Vec<u64>,
    locals: Vec<u64>,
}

fn run_with(max_stack: usize, max_locals: usize, code: &[u8], table: &Table) -> Ran {
    let mut stack = Stack::new(64);
    let mut frame = stack.initial_frame(max_locals, max_stack).unwrap();
    let constants = ConstantTable::from_parsed_table(table);
    let outcome = execute(code, &mut frame, &constants, &float_unit);
    let locals = (0..max_locals).map(|i| frame.get_local(i).unwrap()).collect();
    let mut operands = Vec::new();
    while let Some(top) = frame.pop() {
        operands.insert(0, top);
    }
    Ran { outcome, operands, locals }
}

fn run(max_stack: usize, max_locals: usize, code: &[u8]) -> Ran {
    run_with(max_stack, max_locals, code, &Table::from_entries(vec![]))
}

fn image(constants: &[&[u8]], functions: &[&[u8]]) -> Vec<u8> {
    let mut bytes = b"azimuth\0".to_vec();
    bytes.push(1);
    bytes.extend_from_slice(&(constants.len() as u32).to_le_bytes());
    for constant in constants {
        bytes.extend_from_slice(constant);
    }
    for function in functions {
        bytes.extend_from_slice(function);
    }
    bytes
}

fn string_entry(text: &str) -> Vec<u8> {
    let mut bytes = vec![4];
    bytes.extend_from_slice(&(text.len() as u32).to_le_bytes());
    bytes.extend_from_slice(text.as_bytes());
    bytes
}

fn function(start: bool, sizes: Option<(u16, u16)>, code: &[u8]) -> Vec<u8> {
    let mut bytes = vec![254, 0, 0, 0, 0, 0];
    bytes.extend_from_slice(&(code.len() as u32).to_le_bytes());
    if start {
        bytes.extend_from_slice(&[254, 1]);
    }
    if let Some((max_stack, max_locals)) = sizes {
        bytes.extend_from_slice(&[254, 2]);
        bytes.extend_from_slice(&max_stack.to_le_bytes());
        bytes.extend_from_slice(&[254, 3]);
        bytes.extend_from_slice(&max_locals.to_le_bytes());
    }
    bytes.extend_from_slice(code);
    bytes
}

fn run_image(bytes: &[u8], stack_size: usize) -> Result<(), RunnerError> {
    let loader = Loader::from_bytes(bytes).unwrap();
    let mut stack = Stack::new(stack_size);
    let mut runner = Runner::new(&mut stack, &loader);
    runner.run(&float_unit)
}

#[test]
fn noop_program() {
    let name = string_entry("main");
    let bytes = image(&[&name], &[&function(true, Some((0, 0)), &[op(Opcode::Ret)])]);
    assert_eq!(run_image(&bytes, 1024), Ok(()));
    let ran = run(0, 0, &[op(Opcode::Ret)]);
    assert_eq!(ran.outcome, Ok(false));
    assert!(ran.operands.is_empty());
}

#[test]
fn constant_push_and_return_value() {
    let ran = run(1, 0, &[op(Opcode::IConst3), op(Opcode::RetVal)]);
    assert_eq!(ran.outcome, Ok(true));
    assert_eq!(ran.operands, vec![3]);
}

#[test]
fn integer_arithmetic() {
    let code = [op(Opcode::IConst2), op(Opcode::IConst3), op(Opcode::IAdd), op(Opcode::RetVal)];
    let ran = run(2, 0, &code);
    assert_eq!(ran.outcome, Ok(true));
    assert_eq!(ran.operands, vec![5]);
    let name = string_entry("main");
    let bytes = image(&[&name], &[&function(true, Some((2, 0)), &code)]);
    assert_eq!(run_image(&bytes, 1024), Ok(()));
}

#[test]
fn float_arithmetic() {
    let code = [op(Opcode::F8Const1), op(Opcode::F8Const1), op(Opcode::F8Add), op(Opcode::RetVal)];
    let ran = run(2, 0, &code);
    assert_eq!(ran.outcome, Ok(true));
    assert_eq!(ran.operands, vec![(2.0f64).to_bits()]);
}

#[test]
fn locals_round_trip() {
    let code = [op(Opcode::IConst2), op(Opcode::StArg0), op(Opcode::LdArg0), op(Opcode::RetVal)];
    let ran = run(1, 1, &code);
    assert_eq!(ran.outcome, Ok(true));
    assert_eq!(ran.operands, vec![2]);
    assert_eq!(ran.locals, vec![2]);
}

#[test]
fn illegal_opcode() {
    let ran = run(1, 0, &[0xFE, 1, op(Opcode::Ret)]);
    assert_eq!(ran.outcome, Err(RunnerError::ExecutionError(ExecutionError::IllegalOpcode)));
    let unassigned = run(1, 0, &[200, op(Opcode::Ret)]);
    assert_eq!(unassigned.outcome, Err(RunnerError::ExecutionError(ExecutionError::IllegalOpcode)));
    let last = run(1, 0, &[255]);
    assert_eq!(last.outcome, Err(RunnerError::ExecutionError(ExecutionError::IllegalOpcode)));
}

#[test]
fn divide_by_zero() {
    let code = [op(Opcode::IConst3), op(Opcode::IConst0), op(Opcode::IDiv), op(Opcode::RetVal)];
    let ran = run(2, 0, &code);
    assert_eq!(ran.outcome, Err(RunnerError::ExecutionError(ExecutionError::IllegalParam)));
    assert!(ran.operands.is_empty());
    let rem = [op(Opcode::IConst3), op(Opcode::IConst0), op(Opcode::IRem), op(Opcode::RetVal)];
    assert_eq!(
        run(2, 0, &rem).outcome,
        Err(RunnerError::ExecutionError(ExecutionError::IllegalParam))
    );
    let fine = [op(Opcode::IConst0), op(Opcode::IConst3), op(Opcode::IDiv), op(Opcode::RetVal)];
    assert_eq!(run(2, 0, &fine).operands, vec![0]);
}

#[test]
fn constant_pool_string() {
    let table = Table::from_entries(vec![TableEntry::String(b"hello".to_vec())]);
    let code = [op(Opcode::Const), 0, 0, 0, 0, op(Opcode::RetVal)];
    let ran = run_with(1, 0, &code, &table);
    assert_eq!(ran.outcome, Ok(true));
    assert_eq!(ran.operands.len(), 1);
    assert_ne!(ran.operands[0], 0);
    let name = string_entry("hello");
    let bytes = image(&[&name], &[&function(true, Some((1, 0)), &code)]);
    assert_eq!(run_image(&bytes, 16), Ok(()));
}

#[test]
fn constants_keep_their_bits() {
    let table = Table::from_entries(vec![
        TableEntry::Integer(0xDEAD_BEEF),
        TableEntry::Long(0x0123_4567_89AB_CDEF),
        TableEntry::Float((-1.5f32).to_bits()),
        TableEntry::Double((-1.5f64).to_bits()),
    ]);
    let code = [
        op(Opcode::Const), 0, 0, 0, 0,
        op(Opcode::Const), 1, 0, 0, 0,
        op(Opcode::Const), 2, 0, 0, 0,
        op(Opcode::Const), 3, 0, 0, 0,
        op(Opcode::Ret),
    ];
    let ran = run_with(4, 0, &code, &table);
    assert_eq!(ran.outcome, Ok(false));
    assert_eq!(
        ran.operands,
        vec![
            0xDEAD_BEEF,
            0x0123_4567_89AB_CDEF,
            u64::from((-1.5f32).to_bits()),
            (-1.5f64).to_bits()
        ]
    );
}

#[test]
fn constant_index_equal_to_the_count_is_out_of_bounds() {
    let table = Table::from_entries(vec![TableEntry::Integer(1)]);
    let code = [op(Opcode::Const), 1, 0, 0, 0, op(Opcode::Ret)];
    let ran = run_with(1, 0, &code, &table);
    assert_eq!(ran.outcome, Err(RunnerError::ExecutionError(ExecutionError::IndexOutOfBounds)));
    let full = run_with(0, 0, &[op(Opcode::Const), 0, 0, 0, 0, op(Opcode::Ret)], &table);
    assert_eq!(full.outcome, Err(RunnerError::ExecutionError(ExecutionError::StackOverflow)));
    let constants = ConstantTable::from_constants(vec![Constant::Unsigned32(7)]);
    assert!(matches!(constants.get_entry(0), Some(Constant::Unsigned32(7))));
    assert!(constants.get_entry(1).is_none());
}

#[test]
fn code_ending_mid_instruction_misses_its_operands() {
    let ran = run(1, 0, &[op(Opcode::IConst1), op(Opcode::Pop), op(Opcode::Const), 0, 0, 0]);
    assert_eq!(ran.outcome, Err(RunnerError::ExecutionError(ExecutionError::MissingParams)));
    let wide = run(1, 0, &[op(Opcode::Nop), op(Opcode::IConstW), 1]);
    assert_eq!(wide.outcome, Err(RunnerError::ExecutionError(ExecutionError::MissingParams)));
}

#[test]
fn empty_code_has_no_opcode() {
    let ran = run(1, 0, &[]);
    assert_eq!(ran.outcome, Err(RunnerError::ExecutionError(ExecutionError::OpcodeNotFound)));
    assert!(ran.operands.is_empty());
}

#[test]
fn running_off_the_code_overflows_the_program_counter() {
    assert_eq!(run(1, 0, &[op(Opcode::Nop)]).outcome, Err(RunnerError::ProgramCounterOverflow));
    let pushed = run(1, 0, &[op(Opcode::IConst), 7]);
    assert_eq!(pushed.outcome, Err(RunnerError::ProgramCounterOverflow));
    assert_eq!(pushed.operands, vec![7]);
}

#[test]
fn jump_to_the_end_of_the_code_overflows() {
    let code = [0u8, 0, 25];
    assert_eq!(advance(&code, 0, InstructionResult::Jump(3)), Err(RunnerError::ProgramCounterOverflow));
    assert_eq!(advance(&code, 0, InstructionResult::Jump(2)), Ok(Some(2)));
    assert_eq!(advance(&code, 1, InstructionResult::Jump(0)), Ok(Some(0)));
    assert_eq!(advance(&code, 0, InstructionResult::Next), Ok(Some(1)));
    assert_eq!(advance(&code, 2, InstructionResult::Next), Err(RunnerError::ProgramCounterOverflow));
    assert_eq!(advance(&code, 2, InstructionResult::Return(true)), Ok(None));
    let wide = [op(Opcode::Const), 0, 0, 0, 0, 25];
    assert_eq!(advance(&wide, 0, InstructionResult::Next), Ok(Some(5)));
}

#[test]
fn every_table_entry_names_its_opcode() {
    let table = handler_table();
    assert_eq!(table.len(), 256);
    for byte in 0..=255u8 {
        assert_eq!(table[byte as usize].opcode, byte);
        assert_eq!(table[byte as usize], handler_info(byte));
        assert_eq!(handler_info(byte).param_count, Opcode::from_byte(byte).operand_count());
    }
    assert_eq!(handler_info(11).param_count, 4);
    assert_eq!(handler_info(9).param_count, 1);
    assert_eq!(handler_info(10).param_count, 2);
    assert_eq!(handler_info(16).param_count, 1);
    assert_eq!(handler_info(21).param_count, 1);
    assert_eq!(handler_info(254).handler, Handler::Illegal);
    assert_eq!(handler_info(52).handler, Handler::Illegal);
    assert_eq!(handler_info(51).handler, handler_info(op(Opcode::Not)).handler);
}

#[test]
fn opcode_bytes() {
    assert_eq!(op(Opcode::Nop), 0);
    assert_eq!(op(Opcode::Const), 11);
    assert_eq!(op(Opcode::Ret), 25);
    assert_eq!(op(Opcode::RetVal), 26);
    assert_eq!(op(Opcode::Not), 51);
    assert_eq!(op(Opcode::Directive), 254);
    assert_eq!(op(Opcode::Unimplemented), 255);
    for byte in 0..52u8 {
        assert_eq!(Opcode::from_byte(byte).to_byte(), byte);
    }
    assert_eq!(Opcode::from_byte(100), Opcode::Unimplemented);
    assert_eq!(Opcode::from_byte(254), Opcode::Directive);
}

#[test]
fn immediate_constants() {
    let code = [
        op(Opcode::IConst0),
        op(Opcode::IConst1),
        op(Opcode::IConst),
        0xAB,
        op(Opcode::IConstW),
        0x34,
        0x12,
        op(Opcode::F4Const0),
        op(Opcode::F4Const1),
        op(Opcode::F8Const0),
        op(Opcode::F8Const1),
        op(Opcode::Ret),
    ];
    let ran = run(8, 0, &code);
    assert_eq!(ran.outcome, Ok(false));
    assert_eq!(
        ran.operands,
        vec![
            0,
            1,
            0xAB,
            0x1234,
            u64::from(0.0f32.to_bits()),
            u64::from(1.0f32.to_bits()),
            0.0f64.to_bits(),
            1.0f64.to_bits()
        ]
    );
}

fn binary(opcode: Opcode, a: u64, b: u64) -> Ran {
    let table = Table::from_entries(vec![TableEntry::Long(a), TableEntry::Long(b)]);
    let code = [op(Opcode::Const), 0, 0, 0, 0, op(Opcode::Const), 1, 0, 0, 0, op(opcode), op(Opcode::RetVal)];
    run_with(2, 0, &code, &table)
}

fn unary(opcode: Opcode, a: u64) -> Ran {
    let table = Table::from_entries(vec![TableEntry::Long(a)]);
    let code = [op(Opcode::Const), 0, 0, 0, 0, op(opcode), op(Opcode::RetVal)];
    run_with(1, 0, &code, &table)
}

#[test]
fn integer_operations_wrap() {
    let cases: Vec<(i64, i64)> = vec![
        (7, 2),
        (-7, 2),
        (7, -2),
        (-7, -2),
        (i64::MAX, 1),
        (i64::MIN, -1),
        (i64::MIN, 1),
        (0, 5),
        (123456789, -987654321),
        (6, 3),
        (-6, 3),
    ];
    for (a, b) in cases {
        let (ua, ub) = (a as u64, b as u64);
        assert_eq!(binary(Opcode::IAdd, ua, ub).operands, vec![a.wrapping_add(b) as u64]);
        assert_eq!(binary(Opcode::ISub, ua, ub).operands, vec![a.wrapping_sub(b) as u64]);
        assert_eq!(binary(Opcode::IMul, ua, ub).operands, vec![a.wrapping_mul(b) as u64]);
        assert_eq!(binary(Opcode::IDiv, ua, ub).operands, vec![a.wrapping_div(b) as u64]);
        assert_eq!(binary(Opcode::IRem, ua, ub).operands, vec![a.wrapping_rem(b) as u64]);
        assert_eq!(binary(Opcode::And, ua, ub).operands, vec![ua & ub]);
        assert_eq!(binary(Opcode::Or, ua, ub).operands, vec![ua | ub]);
        assert_eq!(binary(Opcode::Xor, ua, ub).operands, vec![ua ^ ub]);
        assert_eq!(unary(Opcode::INeg, ua).operands, vec![a.wrapping_neg() as u64]);
        assert_eq!(unary(Opcode::Not, ua).operands, vec![!ua]);
    }
    assert_eq!(binary(Opcode::ISub, 2, 3).operands, vec![u64::MAX]);
    assert_eq!(binary(Opcode::IRem, 7, 3).operands, vec![1]);
    assert_eq!(binary(Opcode::IRem, (-7i64) as u64, 3).operands, vec![(-1i64) as u64]);
}

#[test]
fn shift_counts_are_taken_modulo_64() {
    for value in [1u64, 0x8000_0000_0000_0001, 0xF0F0_F0F0_0F0F_0F0F, u64::MAX, 0] {
        for count in [0u64, 1, 4, 63, 64, 65, 127, 1 << 40] {
            let by = (count % 64) as u32;
            assert_eq!(binary(Opcode::Shl, value, count).operands, vec![value << by]);
            assert_eq!(binary(Opcode::Shr, value, count).operands, vec![value >> by]);
            assert_eq!(
                binary(Opcode::AShr, value, count).operands,
                vec![((value as i64) >> by) as u64]
            );
        }
    }
}

#[test]
fn single_precision_results_are_zero_extended() {
    let one = u64::from(1.5f32.to_bits());
    let two = u64::from(2.25f32.to_bits());
    assert_eq!(binary(Opcode::F4Add, one, two).operands, vec![u64::from(3.75f32.to_bits())]);
    assert_eq!(binary(Opcode::F4Sub, one, two).operands, vec![u64::from((-0.75f32).to_bits())]);
    assert_eq!(binary(Opcode::F4Mul, one, two).operands, vec![u64::from(3.375f32.to_bits())]);
    assert_eq!(binary(Opcode::F4Div, two, one).operands, vec![u64::from(1.5f32.to_bits())]);
    assert_eq!(binary(Opcode::F4Rem, two, one).operands, vec![u64::from(0.75f32.to_bits())]);
    assert_eq!(unary(Opcode::F4Neg, one).operands, vec![u64::from((-1.5f32).to_bits())]);
    // what lies above the low half of an operand is not read
    let dirty = one | 0xFFFF_FFFF_0000_0000;
    assert_eq!(binary(Opcode::F4Add, dirty, two).operands, vec![u64::from(3.75f32.to_bits())]);
}

#[test]
fn double_precision_operations() {
    let a = 7.5f64.to_bits();
    let b = 2.0f64.to_bits();
    assert_eq!(binary(Opcode::F8Add, a, b).operands, vec![9.5f64.to_bits()]);
    assert_eq!(binary(Opcode::F8Sub, a, b).operands, vec![5.5f64.to_bits()]);
    assert_eq!(binary(Opcode::F8Mul, a, b).operands, vec![15.0f64.to_bits()]);
    assert_eq!(binary(Opcode::F8Div, a, b).operands, vec![3.75f64.to_bits()]);
    assert_eq!(binary(Opcode::F8Rem, a, b).operands, vec![1.5f64.to_bits()]);
    assert_eq!(unary(Opcode::F8Neg, a).operands, vec![(-7.5f64).to_bits()]);
    let nan = binary(Opcode::F8Div, 0.0f64.to_bits(), 0.0f64.to_bits()).operands;
    assert!(f64::from_bits(nan[0]).is_nan());
    let kept = binary(Opcode::F8Add, f64::NAN.to_bits(), b).operands;
    assert!(f64::from_bits(kept[0]).is_nan());
}

#[test]
fn stack_shape_instructions() {
    let code = [op(Opcode::IConst1), op(Opcode::IConst2), op(Opcode::Swap), op(Opcode::Dup), op(Opcode::Ret)];
    assert_eq!(run(3, 0, &code).operands, vec![2, 1, 1]);
    let popped = [op(Opcode::IConst1), op(Opcode::IConst2), op(Opcode::Pop), op(Opcode::Ret)];
    assert_eq!(run(2, 0, &popped).operands, vec![1]);
    let empty = |code: &[u8]| run(2, 0, code).outcome;
    let failed = Err(RunnerError::ExecutionError(ExecutionError::EmptyStack));
    assert_eq!(empty(&[op(Opcode::Pop), op(Opcode::Ret)]), failed);
    assert_eq!(empty(&[op(Opcode::Dup), op(Opcode::Ret)]), failed);
    assert_eq!(empty(&[op(Opcode::Swap), op(Opcode::Ret)]), failed);
    assert_eq!(empty(&[op(Opcode::IAdd), op(Opcode::Ret)]), failed);
    assert_eq!(empty(&[op(Opcode::INeg), op(Opcode::Ret)]), failed);
    assert_eq!(empty(&[op(Opcode::F8Add), op(Opcode::Ret)]), failed);
    assert_eq!(empty(&[op(Opcode::F4Neg), op(Opcode::Ret)]), failed);
    assert_eq!(empty(&[op(Opcode::StArg0), op(Opcode::Ret)]), failed);
    let one = run(2, 0, &[op(Opcode::IConst1), op(Opcode::Swap), op(Opcode::Ret)]);
    assert_eq!(one.outcome, failed);
    assert!(one.operands.is_empty());
    let full = run(1, 0, &[op(Opcode::IConst1), op(Opcode::Dup), op(Opcode::Ret)]);
    assert_eq!(full.outcome, Err(RunnerError::ExecutionError(ExecutionError::StackOverflow)));
    assert_eq!(full.operands, vec![1]);
    let over = run(1, 0, &[op(Opcode::IConst1), op(Opcode::IConst2), op(Opcode::Ret)]);
    assert_eq!(over.outcome, Err(RunnerError::ExecutionError(ExecutionError::StackOverflow)));
}

#[test]
fn locals_by_index() {
    let code = [
        op(Opcode::IConst3),
        op(Opcode::StArg),
        4,
        op(Opcode::IConst2),
        op(Opcode::StArg3),
        op(Opcode::LdArg),
        4,
        op(Opcode::LdArg3),
        op(Opcode::LdArg1),
        op(Opcode::Ret),
    ];
    let ran = run(3, 5, &code);
    assert_eq!(ran.outcome, Ok(false));
    assert_eq!(ran.operands, vec![3, 2, 0]);
    assert_eq!(ran.locals, vec![0, 0, 0, 2, 3]);
    let out = Err(RunnerError::ExecutionError(ExecutionError::IndexOutOfBounds));
    assert_eq!(run(1, 1, &[op(Opcode::LdArg1), op(Opcode::Ret)]).outcome, out);
    assert_eq!(run(1, 2, &[op(Opcode::LdArg), 2, op(Opcode::Ret)]).outcome, out);
    let stored = run(1, 1, &[op(Opcode::IConst1), op(Opcode::StArg2), op(Opcode::Ret)]);
    assert_eq!(stored.outcome, out);
    assert!(stored.operands.is_empty());
}

#[test]
fn single_instructions() {
    let mut stack = Stack::new(8);
    let mut frame = stack.initial_frame(0, 2).unwrap();
    let constants = ConstantTable::from_constants(vec![]);
    let step = |code: &[u8], frame: &mut _| exec_instruction(code, frame, &constants, &float_unit);
    assert_eq!(step(&[], &mut frame), Err(ExecutionError::OpcodeNotFound));
    assert_eq!(step(&[op(Opcode::Nop)], &mut frame), Ok(InstructionResult::Next));
    assert_eq!(step(&[op(Opcode::Ret), 1, 2], &mut frame), Ok(InstructionResult::Return(false)));
    assert_eq!(step(&[op(Opcode::RetVal)], &mut frame), Ok(InstructionResult::Return(true)));
    assert_eq!(step(&[op(Opcode::IConst)], &mut frame), Err(ExecutionError::MissingParams));
    assert_eq!(step(&[op(Opcode::IConst), 9, 8, 7], &mut frame), Ok(InstructionResult::Next));
    assert_eq!(frame.peek(), Some(&9));
    assert_eq!(frame.stack_pointer(), 1);
}

#[test]
fn runner_errors() {
    let name = string_entry("main");
    let no_start = image(&[&name], &[&function(false, Some((1, 1)), &[25])]);
    assert_eq!(run_image(&no_start, 16), Err(RunnerError::MissingEntryPoint));
    assert_eq!(run_image(&image(&[&name], &[]), 16), Err(RunnerError::MissingEntryPoint));
    let big = image(&[&name], &[&function(true, Some((9, 8)), &[25])]);
    assert_eq!(run_image(&big, 16), Err(RunnerError::StackOverflow));
    assert_eq!(run_image(&big, 17), Ok(()));
    let second = image(
        &[&name],
        &[&function(false, Some((0, 0)), &[0]), &function(true, Some((1, 0)), &[4, 26])],
    );
    assert_eq!(run_image(&second, 4), Ok(()));
    let failing = image(&[&name], &[&function(true, Some((1, 0)), &[22, 25])]);
    assert_eq!(
        run_image(&failing, 4),
        Err(RunnerError::ExecutionError(ExecutionError::EmptyStack))
    );
}

#[test]
fn loader_errors() {
    let name = string_entry("main");
    assert!(matches!(Loader::from_bytes(b"nothing"), Err(LoaderError::LayoutError(_))));
    let missing = image(&[&name], &[&function(true, None, &[25])]);
    assert!(matches!(Loader::from_bytes(&missing), Err(LoaderError::InvalidFunction)));
    let empty = image(&[&name], &[&function(true, Some((1, 1)), &[])]);
    assert!(matches!(Loader::from_bytes(&empty), Err(LoaderError::InvalidFunction)));
    let mut twice = function(true, Some((1, 1)), &[]);
    twice.extend_from_slice(&[254, 2, 1, 0, 25]);
    twice[6] = 1;
    assert!(matches!(Loader::from_bytes(&image(&[&name], &[&twice])), Err(LoaderError::InvalidFunction)));
    let good = image(&[&name, &[0, 5, 0, 0, 0]], &[&function(true, Some((1, 1)), &[25])]);
    let loader = Loader::from_bytes(&good).unwrap();
    let entry = loader.get_entry_point().unwrap();
    assert_eq!(entry.setup_info(), (1, 1));
    assert_eq!(entry.code(), &[25]);
    assert!(entry.is_entry_point());
    let constants = loader.get_constant_table();
    assert!(matches!(constants.get_entry(1), Some(Constant::Unsigned32(5))));
    assert!(matches!(constants.get_entry(0), Some(Constant::String(text, reference)) if *text == b"main" && *reference != 0));
}

#[test]
fn handlers_on_their_own() {
    let mut stack = Stack::new(8);
    let mut frame = stack.initial_frame(2, 3).unwrap();
    let constants = ConstantTable::from_constants(vec![Constant::Unsigned64(77)]);
    let long = [1u8, 2, 3, 4, 5, 6, 7, 8, 9];
    let mut input = HandlerInputInfo { opcode: 9, params: &long, frame: &mut frame, constants: &constants };
    assert_eq!(push_bytes(&mut input), Err(ExecutionError::IllegalParam));
    assert_eq!(input.pull_params(9).map(|bytes| bytes.len()), Ok(9));
    assert_eq!(input.pull_params(10), Err(ExecutionError::MissingParams));
    assert_eq!(input.stack_pop(), Err(ExecutionError::EmptyStack));
    input.params = &long[..8];
    assert_eq!(push_bytes(&mut input), Ok(InstructionResult::Next));
    assert_eq!(input.stack_pop(), Ok(0x0807_0605_0403_0201));
    input.params = &[];
    assert_eq!(push_bytes(&mut input), Ok(InstructionResult::Next));
    assert_eq!(input.stack_pop(), Ok(0));
    assert_eq!(input.stack_push(5), Ok(()));
    assert_eq!(input.stack_push(6), Ok(()));
    assert_eq!(input.stack_push(7), Ok(()));
    assert_eq!(input.stack_push(8), Err(ExecutionError::StackOverflow));
    assert_eq!(input.stack_pop_pair(), Ok((7, 6)));
    assert_eq!(input.local_set(1, 9), Ok(0));
    assert_eq!(input.local_get(1), Ok(9));
    assert_eq!(input.local_get(2), Err(ExecutionError::IndexOutOfBounds));
    assert_eq!(input.local_set(2, 1), Err(ExecutionError::IndexOutOfBounds));
    assert_eq!(
        run_handler(Handler::IntBinary(IntOp::Add), &mut input, &float_unit),
        Err(ExecutionError::EmptyStack)
    );
    assert_eq!(input.stack_pop(), Err(ExecutionError::EmptyStack));
    assert_eq!(run_handler(Handler::PushValue(4), &mut input, &float_unit), Ok(InstructionResult::Next));
    assert_eq!(run_handler(Handler::StoreLocal(0), &mut input, &float_unit), Ok(InstructionResult::Next));
    assert_eq!(run_handler(Handler::LoadLocalAt, &mut input, &float_unit), Err(ExecutionError::MissingParams));
    assert_eq!(run_handler(Handler::PushConstant, &mut input, &float_unit), Err(ExecutionError::MissingParams));
    input.params = &[0, 0, 0, 0];
    assert_eq!(run_handler(Handler::PushConstant, &mut input, &float_unit), Ok(InstructionResult::Next));
    assert_eq!(run_handler(Handler::LoadLocalAt, &mut input, &float_unit), Ok(InstructionResult::Next));
    assert_eq!(run_handler(Handler::Illegal, &mut input, &float_unit), Err(ExecutionError::IllegalOpcode));
    assert_eq!(frame.pop(), Some(4));
    assert_eq!(frame.pop(), Some(77));
    assert_eq!(frame.pop(), None);
}
