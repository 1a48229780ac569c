//! What a run is started with: the image to run and the size of the stack.

use crate::engine::opcode_handler::{always_ready, FloatOp, FloatWidth};
use crate::engine::stack::{zeroed, Stack};
use crate::engine::{
    first_frame, pool_of, runs_to, verdict, Finish, Machine, Runner, RunnerError,
};
use crate::loader::constant_table::ConstantModel;
use crate::loader::{entry_point, load, Loader};
use vstd::prelude::*;
use vstd::string::{StrSliceExecFns, StringExecFns};

verus! {

/// Stack entries of a run that asks for no other number.
pub const DEFAULT_STACK_SIZE: usize = 1024;

/// Why a run could not be set up or did not end well.
#[derive(Debug, Clone)]
pub enum ConfigError {
    /// No image was named.
    NoFileProvided,
    /// The image could not be read.
    FileReadError,
    /// A second image was named; this is the first.
    UnknownFlag(String),
    /// The named flag came last, without its operand.
    MissingOperand(String),
    /// The given operand is not a number that the flag takes.
    InvalidOperand(String),
    /// The image could not be loaded.
    LoaderInitError,
    /// The stack could not be set up.
    StackInitError,
    /// The run ended with an error.
    RunnerError(RunnerError),
}

/// An error with its text as a sequence of characters.
pub enum ConfigErrorModel {
    NoFileProvided,
    FileReadError,
    UnknownFlag(Seq<char>),
    MissingOperand(Seq<char>),
    InvalidOperand(Seq<char>),
    LoaderInitError,
    StackInitError,
    RunnerError(RunnerError),
}

impl View for ConfigError {
    type V = ConfigErrorModel;

    open spec fn view(&self) -> ConfigErrorModel {
        match self {
            ConfigError::NoFileProvided => ConfigErrorModel::NoFileProvided,
            ConfigError::FileReadError => ConfigErrorModel::FileReadError,
            ConfigError::UnknownFlag(text) => ConfigErrorModel::UnknownFlag(text@),
            ConfigError::MissingOperand(text) => ConfigErrorModel::MissingOperand(text@),
            ConfigError::InvalidOperand(text) => ConfigErrorModel::InvalidOperand(text@),
            ConfigError::LoaderInitError => ConfigErrorModel::LoaderInitError,
            ConfigError::StackInitError => ConfigErrorModel::StackInitError,
            ConfigError::RunnerError(error) => ConfigErrorModel::RunnerError(*error),
        }
    }
}

/// The optional settings of a run.
#[derive(Debug, Clone, Copy)]
pub struct Flags {
    /// Number of entries of the stack.
    pub stack_size: usize,
}

impl Default for Flags {
    fn default() -> (flags: Self)
        ensures
            flags.stack_size == DEFAULT_STACK_SIZE,
    {
        Self { stack_size: DEFAULT_STACK_SIZE }
    }
}

/// The settings of a run.
#[derive(Debug, Clone)]
pub struct Config {
    filename: String,
    flags: Flags,
}

/// Settings as plain values.
pub struct ConfigModel {
    pub filename: Seq<char>,
    pub stack_size: usize,
}

impl View for Config {
    type V = ConfigModel;

    closed spec fn view(&self) -> ConfigModel {
        ConfigModel { filename: self.filename@, stack_size: self.flags.stack_size }
    }
}

/// The value of a decimal digit.
pub open spec fn digit_value(digit: char) -> Option<int> {
    if '0' <= digit <= '9' {
        Some(digit as int - '0' as int)
    } else {
        None
    }
}

/// The number that decimal digits spell; `None` where one of them is no digit.
pub open spec fn digits_value(digits: Seq<char>) -> Option<int>
    decreases digits.len(),
{
    if digits.len() == 0 {
        Some(0)
    } else {
        match (digits_value(digits.drop_last()), digit_value(digits.last())) {
            (Some(front), Some(last)) => Some(10 * front + last),
            _ => None,
        }
    }
}

/// The number that `text` spells: decimal digits, at least one, after at most
/// one plus sign, and no more than a `usize` holds.
pub open spec fn decimal(text: Seq<char>) -> Option<usize> {
    let digits = if text.len() > 0 && text[0] == '+' {
        text.skip(1)
    } else {
        text
    };
    if digits.len() == 0 {
        None
    } else {
        match digits_value(digits) {
            Some(value) => if value <= usize::MAX {
                Some(value as usize)
            } else {
                None
            },
            None => None,
        }
    }
}

/// What the arguments from index `at` on make of the settings read so far.
/// `--maxstack` takes the next argument as the stack size; any other argument
/// names the image, and only one may.
pub open spec fn read_args(
    args: Seq<Seq<char>>,
    at: int,
    stack_size: usize,
    filename: Option<Seq<char>>,
) -> Result<ConfigModel, ConfigErrorModel>
    decreases args.len() - at,
{
    if at < 0 || at >= args.len() {
        match filename {
            Some(name) => Ok(ConfigModel { filename: name, stack_size }),
            None => Err(ConfigErrorModel::NoFileProvided),
        }
    } else if args[at] == "--maxstack"@ {
        if at + 1 >= args.len() {
            Err(ConfigErrorModel::MissingOperand(args[at]))
        } else {
            match decimal(args[at + 1]) {
                Some(size) => read_args(args, at + 2, size, filename),
                None => Err(ConfigErrorModel::InvalidOperand(args[at + 1])),
            }
        }
    } else {
        match filename {
            Some(previous) => Err(ConfigErrorModel::UnknownFlag(previous)),
            None => read_args(args, at + 1, stack_size, Some(args[at])),
        }
    }
}

/// The texts of `args` as sequences of characters.
pub open spec fn texts(args: Seq<String>) -> Seq<Seq<char>> {
    Seq::new(args.len(), |i: int| args[i]@)
}

/// The outcome of reading arguments, with views in place of the values.
pub open spec fn read(outcome: Result<Config, ConfigError>) -> Result<
    ConfigModel,
    ConfigErrorModel,
> {
    match outcome {
        Ok(config) => Ok(config@),
        Err(error) => Err(error@),
    }
}

/// The value of the decimal digit `digit`, if it is one.
fn digit_of(digit: char) -> (value: Option<u8>)
    ensures
        match value {
            Some(found) => digit_value(digit) == Some(found as int),
            None => digit_value(digit) is None,
        },
{
    match digit {
        '0' => Some(0),
        '1' => Some(1),
        '2' => Some(2),
        '3' => Some(3),
        '4' => Some(4),
        '5' => Some(5),
        '6' => Some(6),
        '7' => Some(7),
        '8' => Some(8),
        '9' => Some(9),
        _ => None,
    }
}

/// Larger digit sequences spell larger or equal numbers than their fronts.
proof fn lemma_digits_grow(digits: Seq<char>, cut: int)
    requires
        0 <= cut <= digits.len(),
        digits_value(digits) is Some,
    ensures
        digits_value(digits.take(cut)) is Some,
        0 <= digits_value(digits.take(cut)).unwrap() <= digits_value(digits).unwrap(),
    decreases digits.len() - cut,
{
    if cut == digits.len() {
        assert(digits.take(cut) =~= digits);
        lemma_digits_value_nonnegative(digits);
    } else {
        lemma_digits_grow(digits, cut + 1);
        assert(digits.take(cut + 1).drop_last() =~= digits.take(cut));
        lemma_digits_value_nonnegative(digits.take(cut));
    }
}

/// Digits spell no negative number.
proof fn lemma_digits_value_nonnegative(digits: Seq<char>)
    ensures
        digits_value(digits) is Some ==> digits_value(digits).unwrap() >= 0,
    decreases digits.len(),
{
    if digits.len() > 0 {
        lemma_digits_value_nonnegative(digits.drop_last());
    }
}

/// Where a front of `digits` spells no number, `digits` spells none.
proof fn lemma_digits_fail(digits: Seq<char>, cut: int)
    requires
        0 <= cut <= digits.len(),
        digits_value(digits.take(cut)) is None,
    ensures
        digits_value(digits) is None,
    decreases digits.len() - cut,
{
    if cut == digits.len() {
        assert(digits.take(cut) =~= digits);
    } else {
        assert(digits.take(cut + 1).drop_last() =~= digits.take(cut));
        lemma_digits_fail(digits, cut + 1);
    }
}

/// Reads `text` as a decimal number.
pub fn parse_decimal(text: &str) -> (number: Option<usize>)
    ensures
        number == decimal(text@),
{
    let length = text.unicode_len();
    let mut at: usize = 0;
    if length > 0 && text.get_char(0) == '+' {
        at = 1;
    }
    let first = at;
    if first == length {
        return None;
    }
    let ghost digits = text@.skip(first as int);
    let mut value: usize = 0;
    proof {
        assert(digits.take(0) =~= Seq::<char>::empty());
        assert(text@.skip(0) =~= text@);
    }
    while at < length
        invariant
            first <= at <= length,
            first < length,
            length == text@.len(),
            digits == text@.skip(first as int),
            digits == if text@.len() > 0 && text@[0] == '+' {
                text@.skip(1)
            } else {
                text@
            },
            digits_value(digits.take(at - first)) == Some(value as int),
        decreases length - at,
    {
        let ghost front = digits.take(at - first);
        let ghost longer = digits.take(at - first + 1);
        proof {
            assert(longer.drop_last() =~= front);
            assert(longer.last() == text@[at as int]);
        }
        let digit = match digit_of(text.get_char(at)) {
            Some(digit) => digit,
            None => {
                proof {
                    lemma_digits_fail(digits, at - first + 1);
                }
                return None;
            },
        };
        assert(digits_value(longer) == Some(10 * value + digit));
        if value > (usize::MAX - digit as usize) / 10 {
            proof {
                if digits_value(digits) is Some {
                    lemma_digits_grow(digits, at - first + 1);
                }
            }
            return None;
        }
        value = value * 10 + digit as usize;
        at += 1;
    }
    proof {
        assert(digits.take(at - first) =~= digits);
    }
    Some(value)
}

impl Config {
    /// Reads the settings from the arguments of the program, its own name
    /// left out.
    pub fn from_args(args: Vec<String>) -> (outcome: Result<Self, ConfigError>)
        ensures
            read(outcome) == read_args(texts(args@), 0, DEFAULT_STACK_SIZE, None),
    {
        let flag = String::from_str("--maxstack");
        let mut flags = Flags::default();
        let mut filename: Option<String> = None;
        let mut at: usize = 0;
        while at < args.len()
            invariant
                at <= args@.len(),
                flag@ == "--maxstack"@,
                read_args(texts(args@), 0, DEFAULT_STACK_SIZE, None) == read_args(
                    texts(args@),
                    at as int,
                    flags.stack_size,
                    match filename {
                        Some(name) => Some(name@),
                        None => None,
                    },
                ),
            decreases args@.len() - at,
        {
            assert(texts(args@)[at as int] == args@[at as int]@);
            if args[at] == flag {
                if at + 1 >= args.len() {
                    return Err(ConfigError::MissingOperand(args[at].clone()));
                }
                assert(texts(args@)[at + 1] == args@[at + 1]@);
                match parse_decimal(args[at + 1].as_str()) {
                    Some(size) => {
                        flags.stack_size = size;
                    },
                    None => {
                        return Err(ConfigError::InvalidOperand(args[at + 1].clone()));
                    },
                }
                at += 2;
            } else {
                match filename {
                    Some(previous) => {
                        return Err(ConfigError::UnknownFlag(previous));
                    },
                    None => {
                        filename = Some(args[at].clone());
                    },
                }
                at += 1;
            }
        }
        match filename {
            Some(filename) => Ok(Self { filename, flags }),
            None => Err(ConfigError::NoFileProvided),
        }
    }

    /// Name of the image to run.
    pub fn filename(&self) -> (name: &String)
        ensures
            name@ == self@.filename,
    {
        &self.filename
    }

    /// Number of entries of the stack.
    pub fn stack_size(&self) -> (size: usize)
        ensures
            size == self@.stack_size,
    {
        self.flags.stack_size
    }

    /// Loads `image`, sets up a stack of the configured size, all zero, and
    /// runs the image's entry point on it. An image that cannot be loaded gives
    /// `LoaderInitError`; what the run gives is handed on.
    pub fn execute<F: Fn(FloatWidth, FloatOp, u64, u64) -> u64>(
        &self,
        image: &[u8],
        float_unit: &F,
    ) -> (outcome: Result<(), ConfigError>)
        requires
            always_ready(float_unit),
        ensures
            match load(image@) {
                Err(_) => outcome matches Err(ConfigError::LoaderInitError),
                Ok(layout) => match entry_point(layout.functions) {
                    None => outcome matches Err(
                        ConfigError::RunnerError(RunnerError::MissingEntryPoint),
                    ),
                    Some(entry) => if entry.max_locals + entry.max_stack > self@.stack_size {
                        outcome matches Err(ConfigError::RunnerError(RunnerError::StackOverflow))
                    } else {
                        exists|constants: Seq<ConstantModel>, raws: Seq<u64>, end: Finish|
                            ({
                                &&& pool_of(constants, layout.constants)
                                &&& #[trigger] runs_to(
                                    float_unit,
                                    entry.code,
                                    constants,
                                    Machine {
                                        pc: 0,
                                        frame: first_frame(
                                            zeroed(self@.stack_size as nat),
                                            entry,
                                        ),
                                    },
                                    raws,
                                    end,
                                )
                                &&& match verdict(end.outcome) {
                                    Ok(_) => outcome is Ok,
                                    Err(error) => outcome matches Err(
                                        ConfigError::RunnerError(reported),
                                    ) && reported == error,
                                }
                            })
                    },
                },
            },
    {
        let loader = match Loader::from_bytes(image) {
            Ok(loader) => loader,
            Err(_) => {
                return Err(ConfigError::LoaderInitError);
            },
        };
        let mut stack = Stack::new(self.flags.stack_size);
        let mut runner = Runner::new(&mut stack, &loader);
        match runner.run(float_unit) {
            Ok(_) => Ok(()),
            Err(error) => Err(ConfigError::RunnerError(error)),
        }
    }
}

} // verus!
