use azimuth::common::ScopeMethods;
use azimuth::config::{parse_decimal, Config, ConfigError, Flags, DEFAULT_STACK_SIZE};
use azimuth::engine::opcode_handler::{ExecutionError, FloatOp, FloatWidth};
use azimuth::engine::stack::stackable::Stackable;
use azimuth::engine::RunnerError;

fn args(list: &[&str]) -> Vec<String> {
    list.iter().map(|text| text.to_string()).collect()
}

fn no_floats(_: FloatWidth, _: FloatOp, _: u64, _: u64) -> u64 {
    0
}

fn image(max_stack: u16, max_locals: u16, code: &[u8]) -> Vec<u8> {
    let mut bytes = b"azimuth\0".to_vec();
    bytes.push(1);
    bytes.extend_from_slice(&1u32.to_le_bytes());
    bytes.extend_from_slice(&[4, 4, 0, 0, 0]);
    bytes.extend_from_slice(b"main");
    bytes.extend_from_slice(&[254, 0, 0, 0, 0, 0]);
    bytes.extend_from_slice(&(code.len() as u32).to_le_bytes());
    bytes.extend_from_slice(&[254, 1, 254, 2]);
    bytes.extend_from_slice(&max_stack.to_le_bytes());
    bytes.extend_from_slice(&[254, 3]);
    bytes.extend_from_slice(&max_locals.to_le_bytes());
    bytes.extend_from_slice(code);
    bytes
}

#[test]
fn decimal_numbers() {
    assert_eq!(parse_decimal("0"), Some(0));
    assert_eq!(parse_decimal("42"), Some(42));
    assert_eq!(parse_decimal("+42"), Some(42));
    assert_eq!(parse_decimal("007"), Some(7));
    assert_eq!(parse_decimal(""), None);
    assert_eq!(parse_decimal("+"), None);
    assert_eq!(parse_decimal("-1"), None);
    assert_eq!(parse_decimal("++1"), None);
    assert_eq!(parse_decimal("1+"), None);
    assert_eq!(parse_decimal("12a"), None);
    assert_eq!(parse_decimal(" 1"), None);
    assert_eq!(parse_decimal("١"), None);
    let max = usize::MAX.to_string();
    assert_eq!(parse_decimal(&max), Some(usize::MAX));
    assert_eq!(parse_decimal(&format!("{max}0")), None);
    let mut over = max.clone().into_bytes();
    let last = over.len() - 1;
    over[last] += 1;
    assert_eq!(parse_decimal(std::str::from_utf8(&over).unwrap()), None);
    for text in ["1", "+9", "18446744073709551616", "x", "4096", "+", "0000"] {
        assert_eq!(parse_decimal(text), text.parse::<usize>().ok());
    }
}

#[test]
fn arguments_name_the_image_and_the_stack_size() {
    let plain = Config::from_args(args(&["prog.azc"])).unwrap();
    assert_eq!(plain.filename(), "prog.azc");
    assert_eq!(plain.stack_size(), DEFAULT_STACK_SIZE);
    assert_eq!(Flags::default().stack_size, 1024);
    let sized = Config::from_args(args(&["--maxstack", "64", "prog.azc"])).unwrap();
    assert_eq!(sized.filename(), "prog.azc");
    assert_eq!(sized.stack_size(), 64);
    let after = Config::from_args(args(&["prog.azc", "--maxstack", "8", "--maxstack", "9"])).unwrap();
    assert_eq!(after.stack_size(), 9);
}

#[test]
fn argument_errors() {
    assert!(matches!(Config::from_args(args(&[])), Err(ConfigError::NoFileProvided)));
    assert!(matches!(
        Config::from_args(args(&["--maxstack", "8"])),
        Err(ConfigError::NoFileProvided)
    ));
    assert!(matches!(
        Config::from_args(args(&["a", "--maxstack"])),
        Err(ConfigError::MissingOperand(flag)) if flag == "--maxstack"
    ));
    assert!(matches!(
        Config::from_args(args(&["--maxstack", "many", "a"])),
        Err(ConfigError::InvalidOperand(operand)) if operand == "many"
    ));
    assert!(matches!(
        Config::from_args(args(&["first", "second"])),
        Err(ConfigError::UnknownFlag(name)) if name == "first"
    ));
    assert!(matches!(
        Config::from_args(args(&["first", "--other"])),
        Err(ConfigError::UnknownFlag(name)) if name == "first"
    ));
}

#[test]
fn execute_runs_the_image() {
    let config = Config::from_args(args(&["--maxstack", "4", "prog"])).unwrap();
    assert!(config.execute(&image(2, 2, &[4, 26]), &no_floats).is_ok());
    assert!(matches!(
        config.execute(&image(2, 3, &[4, 26]), &no_floats),
        Err(ConfigError::RunnerError(RunnerError::StackOverflow))
    ));
    assert!(matches!(
        config.execute(&image(2, 2, &[22, 26]), &no_floats),
        Err(ConfigError::RunnerError(RunnerError::ExecutionError(ExecutionError::EmptyStack)))
    ));
    assert!(matches!(
        config.execute(&image(2, 2, &[4]), &no_floats),
        Err(ConfigError::RunnerError(RunnerError::ProgramCounterOverflow))
    ));
    assert!(matches!(config.execute(b"azimuth", &no_floats), Err(ConfigError::LoaderInitError)));
    assert!(matches!(
        config.execute(&image(2, 2, &[]), &no_floats),
        Err(ConfigError::LoaderInitError)
    ));
}

#[test]
fn stack_entries_hold_integers() {
    assert_eq!(7u64.into_entry(), 7);
    assert_eq!(u64::from_entry(u64::MAX), u64::MAX);
    assert_eq!((-1i64).into_entry(), u64::MAX);
    assert_eq!(i64::MIN.into_entry(), 1 << 63);
    assert_eq!(i64::MAX.into_entry(), (1 << 63) - 1);
    assert_eq!(i64::from_entry(u64::MAX), -1);
    assert_eq!(i64::from_entry(1 << 63), i64::MIN);
    assert_eq!(i64::from_entry(5), 5);
    assert_eq!(0xDEAD_BEEFu32.into_entry(), 0xDEAD_BEEF);
    assert_eq!(u32::from_entry(0x1234_5678_9ABC_DEF0), 0x9ABC_DEF0);
    for value in [0i64, 1, -1, 42, -42, i64::MAX, i64::MIN, i64::MIN + 1] {
        assert_eq!(value.into_entry(), value as u64);
        assert_eq!(i64::from_entry(value.into_entry()), value);
    }
}

#[test]
fn scope_methods_chain_a_step() {
    assert_eq!(5.scope(|x| x + 1), 6);
    assert_eq!(vec![1, 2].scope_mut(|v| {
        v.push(3);
        v.len()
    }), 3);
    let mut seen = 0;
    assert_eq!(7.also(|x| seen = *x), 7);
    assert_eq!(seen, 7);
    assert_eq!([0; 3].also_mut(|x| x[2] = 9), [0, 0, 9]);
}
