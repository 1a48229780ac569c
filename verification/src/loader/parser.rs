//! Decoding of a program image: header, constant table, function records.

use crate::engine::opcodes::DIRECTIVE_OPCODE;
use crate::loader::bytes::{
    le_u16, le_u32, le_u64, parsed, split_u16, split_u32, split_u64, split_u8, take_u16, take_u32,
    take_u64, take_u8, ParseError,
};
use vstd::prelude::*;

verus! {

/// The eight bytes `azimuth\0`, read as a little-endian integer.
pub const MAGIC_NUMBER: u64 = 0x0068_7475_6d69_7a61;

/// Tag of a 32-bit integer constant.
pub const TAG_INTEGER: u8 = 0;

/// Tag of a 64-bit integer constant.
pub const TAG_LONG: u8 = 1;

/// Tag of a single-precision constant.
pub const TAG_FLOAT: u8 = 2;

/// Tag of a double-precision constant.
pub const TAG_DOUBLE: u8 = 3;

/// Tag of a string constant.
pub const TAG_STRING: u8 = 4;

/// Sub-code of the symbol directive.
pub const SYMBOL_SUBCODE: u8 = 0;

/// Sub-code of the start directive.
pub const START_SUBCODE: u8 = 1;

/// Sub-code of the directive that sets the operand stack size.
pub const MAX_STACK_SUBCODE: u8 = 2;

/// Sub-code of the directive that sets the number of locals.
pub const MAX_LOCALS_SUBCODE: u8 = 3;

/// A cursor over the part of the input that has not been decoded yet.
pub struct FileParser<'a> {
    remaining: &'a [u8],
}

impl<'a> FileParser<'a> {
    /// The bytes not yet decoded.
    pub closed spec fn remaining(&self) -> Seq<u8> {
        self.remaining@
    }

    /// A cursor at the start of `input`.
    pub fn new(input: &'a [u8]) -> (parser: Self)
        ensures
            parser.remaining() == input@,
    {
        Self { remaining: input }
    }

    /// The bytes not yet decoded.
    pub fn rest(&self) -> (rest: &'a [u8])
        ensures
            rest@ == self.remaining(),
    {
        self.remaining
    }

    /// Runs `parser` on what remains. On success the cursor moves to the rest
    /// that `parser` handed back; on failure it stays.
    pub fn parse_off<T, F>(&mut self, parser: F) -> (outcome: Result<T, ParseError>) where
        F: Fn(&'a [u8]) -> Result<(T, &'a [u8]), ParseError>,

        requires
            forall|input: &'a [u8]| input@ == old(self).remaining() ==> #[trigger] call_requires(
                parser,
                (input,),
            ),
        ensures
            exists|input: &'a [u8], result: Result<(T, &'a [u8]), ParseError>|
                ({
                    &&& input@ == old(self).remaining()
                    &&& #[trigger] call_ensures(parser, (input,), result)
                    &&& match result {
                        Ok((value, rest)) => outcome == Ok::<T, ParseError>(value)
                            && final(self).remaining() == rest@,
                        Err(error) => outcome == Err::<T, ParseError>(error)
                            && final(self).remaining() == old(self).remaining(),
                    }
                }),
    {
        match parser(self.remaining) {
            Ok((value, rest)) => {
                self.remaining = rest;
                Ok(value)
            },
            Err(error) => Err(error),
        }
    }
}

/// One entry of the constant table as the image holds it. Floating-point
/// entries are kept as their IEEE-754 bit patterns.
#[derive(Clone, Debug)]
pub enum TableEntry {
    /// A 32-bit integer.
    Integer(u32),
    /// A 64-bit integer.
    Long(u64),
    /// The bits of a single-precision number.
    Float(u32),
    /// The bits of a double-precision number.
    Double(u64),
    /// The bytes of a string.
    String(Vec<u8>),
}

/// A table entry with its string as a sequence of bytes.
pub enum EntryModel {
    Integer(u32),
    Long(u64),
    Float(u32),
    Double(u64),
    String(Seq<u8>),
}

impl View for TableEntry {
    type V = EntryModel;

    open spec fn view(&self) -> EntryModel {
        match self {
            TableEntry::Integer(value) => EntryModel::Integer(*value),
            TableEntry::Long(value) => EntryModel::Long(*value),
            TableEntry::Float(bits) => EntryModel::Float(*bits),
            TableEntry::Double(bits) => EntryModel::Double(*bits),
            TableEntry::String(text) => EntryModel::String(text@),
        }
    }
}

/// The entry at the front of `bytes`, and what is left: one tag byte, then four
/// or eight payload bytes, or for a string its 32-bit length and that many
/// bytes.
pub open spec fn parse_entry(bytes: Seq<u8>) -> Result<(EntryModel, Seq<u8>), ParseError> {
    if bytes.len() < 1 {
        Err(ParseError::TruncatedStream)
    } else {
        let tag = bytes[0];
        let payload = bytes.skip(1);
        if tag == TAG_INTEGER {
            match take_u32(payload) {
                Ok((value, rest)) => Ok((EntryModel::Integer(value), rest)),
                Err(error) => Err(error),
            }
        } else if tag == TAG_LONG {
            match take_u64(payload) {
                Ok((value, rest)) => Ok((EntryModel::Long(value), rest)),
                Err(error) => Err(error),
            }
        } else if tag == TAG_FLOAT {
            match take_u32(payload) {
                Ok((bits, rest)) => Ok((EntryModel::Float(bits), rest)),
                Err(error) => Err(error),
            }
        } else if tag == TAG_DOUBLE {
            match take_u64(payload) {
                Ok((bits, rest)) => Ok((EntryModel::Double(bits), rest)),
                Err(error) => Err(error),
            }
        } else if tag == TAG_STRING {
            match take_u32(payload) {
                Ok((length, rest)) => if rest.len() < length {
                    Err(ParseError::TruncatedStream)
                } else {
                    Ok((EntryModel::String(rest.take(length as int)), rest.skip(length as int)))
                },
                Err(error) => Err(error),
            }
        } else {
            Err(ParseError::UnknownConstant)
        }
    }
}

/// The first `count` entries at the front of `bytes`, in order, and what is
/// left; the first failure otherwise.
pub open spec fn parse_entries(count: nat, bytes: Seq<u8>) -> Result<
    (Seq<EntryModel>, Seq<u8>),
    ParseError,
>
    decreases count,
{
    if count == 0 {
        Ok((Seq::empty(), bytes))
    } else {
        match parse_entry(bytes) {
            Ok((entry, rest)) => match parse_entries((count - 1) as nat, rest) {
                Ok((entries, left)) => Ok((seq![entry] + entries, left)),
                Err(error) => Err(error),
            },
            Err(error) => Err(error),
        }
    }
}

/// `outcome` with `done` put in front of the entries it decoded.
pub open spec fn after_entries(
    done: Seq<EntryModel>,
    outcome: Result<(Seq<EntryModel>, Seq<u8>), ParseError>,
) -> Result<(Seq<EntryModel>, Seq<u8>), ParseError> {
    match outcome {
        Ok((entries, left)) => Ok((done + entries, left)),
        Err(error) => Err(error),
    }
}

/// The outcome of decoding one entry, with views in place of the values.
pub open spec fn parsed_entry(outcome: Result<(TableEntry, &[u8]), ParseError>) -> Result<
    (EntryModel, Seq<u8>),
    ParseError,
> {
    match outcome {
        Ok((entry, rest)) => Ok((entry@, rest@)),
        Err(error) => Err(error),
    }
}

/// The outcome of decoding a table, with views in place of the values.
pub open spec fn parsed_table(outcome: Result<(Table, &[u8]), ParseError>) -> Result<
    (Seq<EntryModel>, Seq<u8>),
    ParseError,
> {
    match outcome {
        Ok((table, rest)) => Ok((table@, rest@)),
        Err(error) => Err(error),
    }
}

impl TableEntry {
    /// Decodes the entry at the front of `input`.
    pub fn parse(input: &[u8]) -> (outcome: Result<(TableEntry, &[u8]), ParseError>)
        ensures
            parsed_entry(outcome) == parse_entry(input@),
    {
        let (tag, payload) = split_u8(input)?;
        if tag == TAG_INTEGER {
            let (value, rest) = split_u32(payload)?;
            Ok((TableEntry::Integer(value), rest))
        } else if tag == TAG_LONG {
            let (value, rest) = split_u64(payload)?;
            Ok((TableEntry::Long(value), rest))
        } else if tag == TAG_FLOAT {
            let (bits, rest) = split_u32(payload)?;
            Ok((TableEntry::Float(bits), rest))
        } else if tag == TAG_DOUBLE {
            let (bits, rest) = split_u64(payload)?;
            Ok((TableEntry::Double(bits), rest))
        } else if tag == TAG_STRING {
            let (length, rest) = split_u32(payload)?;
            if rest.len() < length as usize {
                return Err(ParseError::TruncatedStream);
            }
            let (text, left) = rest.split_at(length as usize);
            let mut owned: Vec<u8> = Vec::new();
            owned.extend_from_slice(text);
            assert(owned@ =~= rest@.take(length as int));
            assert(left@ == rest@.skip(length as int));
            Ok((TableEntry::String(owned), left))
        } else {
            Err(ParseError::UnknownConstant)
        }
    }
}

/// The constant table as decoded from the image.
#[derive(Debug)]
pub struct Table {
    entries: Vec<TableEntry>,
}

impl View for Table {
    type V = Seq<EntryModel>;

    closed spec fn view(&self) -> Seq<EntryModel> {
        Seq::new(self.entries@.len(), |i: int| self.entries@[i]@)
    }
}

impl Table {
    /// Decodes `count` entries from the front of `from` and hands back the
    /// table with the rest of the input.
    pub fn new(count: usize, from: &[u8]) -> (outcome: Result<(Self, &[u8]), ParseError>)
        ensures
            parsed_table(outcome) == parse_entries(count as nat, from@),
    {
        let mut entries: Vec<TableEntry> = Vec::new();
        let mut remaining: &[u8] = from;
        let mut decoded: usize = 0;
        while decoded < count
            invariant
                decoded <= count,
                entries@.len() == decoded,
                parse_entries(count as nat, from@) == after_entries(
                    Seq::new(entries@.len(), |i: int| entries@[i]@),
                    parse_entries((count - decoded) as nat, remaining@),
                ),
            decreases count - decoded,
        {
            let ghost done = Seq::new(entries@.len(), |i: int| entries@[i]@);
            let (entry, rest) = TableEntry::parse(remaining)?;
            entries.push(entry);
            remaining = rest;
            decoded += 1;
            proof {
                let grown = Seq::new(entries@.len(), |i: int| entries@[i]@);
                assert(grown =~= done + seq![entry@]);
                let tail = parse_entries((count - decoded) as nat, remaining@);
                if let Ok((more, left)) = tail {
                    assert(done + (seq![entry@] + more) =~= grown + more);
                }
            }
        }
        proof {
            let done = Seq::new(entries@.len(), |i: int| entries@[i]@);
            assert(done + Seq::<EntryModel>::empty() =~= done);
        }
        Ok((Table { entries }, remaining))
    }

    /// A table of the given entries.
    pub fn from_entries(entries: Vec<TableEntry>) -> (table: Self)
        ensures
            table@ == Seq::new(entries@.len(), |i: int| entries@[i]@),
    {
        Table { entries }
    }

    /// The entry at `idx`, if the table has one.
    pub fn get(&self, idx: usize) -> (entry: Option<&TableEntry>)
        ensures
            entry is Some <==> idx < self@.len(),
            entry is Some ==> entry.unwrap()@ == self@[idx as int],
    {
        if idx < self.entries.len() {
            Some(&self.entries[idx])
        } else {
            None
        }
    }

    /// Number of entries.
    pub fn len(&self) -> (count: usize)
        ensures
            count == self@.len(),
    {
        self.entries.len()
    }

    /// Whether the table has no entry.
    pub fn is_empty(&self) -> (empty: bool)
        ensures
            empty <==> self@.len() == 0,
    {
        self.entries.len() == 0
    }
}

/// A directive of a function record.
#[derive(Clone, Copy, Debug, PartialEq, Eq, Structural)]
pub enum Directive {
    /// Opens a function record: index of its name in the constant table, and
    /// the number of code bytes that close the record.
    Symbol(u32, u32),
    /// Marks the function at which execution starts.
    Start,
    /// Number of operand stack entries the function needs.
    MaxStack(u16),
    /// Number of locals the function needs.
    MaxLocals(u16),
}

/// The directives at the front of `bytes` that follow a record's symbol
/// directive, and what is left. Decoding goes on while the next byte is the
/// directive opcode and a sub-code follows it.
pub open spec fn parse_directives(bytes: Seq<u8>) -> Result<(Seq<Directive>, Seq<u8>), ParseError>
    decreases bytes.len(),
{
    if bytes.len() >= 2 && bytes[0] == DIRECTIVE_OPCODE {
        let sub = bytes[1];
        let operands = bytes.skip(2);
        if sub == SYMBOL_SUBCODE {
            Err(ParseError::DuplicateSymbol)
        } else if sub == START_SUBCODE {
            after_directive(Directive::Start, parse_directives(operands))
        } else if sub == MAX_STACK_SUBCODE {
            match take_u16(operands) {
                Ok((size, rest)) => after_directive(
                    Directive::MaxStack(size),
                    parse_directives(rest),
                ),
                Err(error) => Err(error),
            }
        } else if sub == MAX_LOCALS_SUBCODE {
            match take_u16(operands) {
                Ok((size, rest)) => after_directive(
                    Directive::MaxLocals(size),
                    parse_directives(rest),
                ),
                Err(error) => Err(error),
            }
        } else {
            Err(ParseError::UnknownDirective)
        }
    } else {
        Ok((Seq::empty(), bytes))
    }
}

/// `outcome` with `first` put in front of the directives it decoded.
pub open spec fn after_directive(
    first: Directive,
    outcome: Result<(Seq<Directive>, Seq<u8>), ParseError>,
) -> Result<(Seq<Directive>, Seq<u8>), ParseError> {
    match outcome {
        Ok((directives, left)) => Ok((seq![first] + directives, left)),
        Err(error) => Err(error),
    }
}

/// `outcome` with `done` put in front of the directives it decoded.
pub open spec fn after_directives(
    done: Seq<Directive>,
    outcome: Result<(Seq<Directive>, Seq<u8>), ParseError>,
) -> Result<(Seq<Directive>, Seq<u8>), ParseError> {
    match outcome {
        Ok((directives, left)) => Ok((done + directives, left)),
        Err(error) => Err(error),
    }
}

/// One function record: the constant that names it, the directives after its
/// symbol directive, and its code.
#[derive(Debug)]
pub struct FunctionInfo {
    name_index: u32,
    directives: Vec<Directive>,
    code: Vec<u8>,
}

/// A function record as plain sequences.
pub struct FunctionModel {
    pub name_index: u32,
    pub directives: Seq<Directive>,
    pub code: Seq<u8>,
}

impl View for FunctionInfo {
    type V = FunctionModel;

    closed spec fn view(&self) -> FunctionModel {
        FunctionModel {
            name_index: self.name_index,
            directives: self.directives@,
            code: self.code@,
        }
    }
}

/// The function record at the front of `bytes`, and what is left. The record
/// opens with a symbol directive whose name index must point at a string of
/// `table`; directives follow; the code closes it.
pub open spec fn parse_function(bytes: Seq<u8>, table: Seq<EntryModel>) -> Result<
    (FunctionModel, Seq<u8>),
    ParseError,
> {
    if bytes.len() < 2 {
        Err(ParseError::TruncatedStream)
    } else if bytes[0] != DIRECTIVE_OPCODE || bytes[1] != SYMBOL_SUBCODE {
        Err(ParseError::MissingSymbol)
    } else if bytes.len() < 10 {
        Err(ParseError::TruncatedStream)
    } else {
        let name_index = le_u32(bytes.skip(2));
        let code_length = le_u32(bytes.skip(6));
        if name_index >= table.len() {
            Err(ParseError::BadIndex)
        } else if !(table[name_index as int] is String) {
            Err(ParseError::NameNotString)
        } else {
            match parse_directives(bytes.skip(10)) {
                Ok((directives, rest)) => if rest.len() < code_length {
                    Err(ParseError::TruncatedStream)
                } else {
                    Ok(
                        (
                            FunctionModel {
                                name_index,
                                directives,
                                code: rest.take(code_length as int),
                            },
                            rest.skip(code_length as int),
                        ),
                    )
                },
                Err(error) => Err(error),
            }
        }
    }
}

/// Whether a function record begins at the front of `bytes`.
pub open spec fn starts_function(bytes: Seq<u8>) -> bool {
    bytes.len() >= 2 && bytes[0] == DIRECTIVE_OPCODE && bytes[1] == SYMBOL_SUBCODE
}

/// All function records at the front of `bytes`, in order, and what is left.
/// Decoding goes on while a record begins.
pub open spec fn parse_functions(bytes: Seq<u8>, table: Seq<EntryModel>) -> Result<
    (Seq<FunctionModel>, Seq<u8>),
    ParseError,
>
    decreases bytes.len(),
{
    if starts_function(bytes) {
        match parse_function(bytes, table) {
            Ok((function, rest)) => if rest.len() < bytes.len() {
                after_functions(seq![function], parse_functions(rest, table))
            } else {
                Err(ParseError::TruncatedStream)
            },
            Err(error) => Err(error),
        }
    } else {
        Ok((Seq::empty(), bytes))
    }
}

/// `outcome` with `done` put in front of the functions it decoded.
pub open spec fn after_functions(
    done: Seq<FunctionModel>,
    outcome: Result<(Seq<FunctionModel>, Seq<u8>), ParseError>,
) -> Result<(Seq<FunctionModel>, Seq<u8>), ParseError> {
    match outcome {
        Ok((functions, left)) => Ok((done + functions, left)),
        Err(error) => Err(error),
    }
}

/// The outcome of decoding directives, with the rest as a sequence.
pub open spec fn parsed_directives(outcome: Result<(Vec<Directive>, &[u8]), ParseError>) -> Result<
    (Seq<Directive>, Seq<u8>),
    ParseError,
> {
    match outcome {
        Ok((directives, rest)) => Ok((directives@, rest@)),
        Err(error) => Err(error),
    }
}

/// The outcome of decoding one function, with views in place of the values.
pub open spec fn parsed_function(outcome: Result<(FunctionInfo, &[u8]), ParseError>) -> Result<
    (FunctionModel, Seq<u8>),
    ParseError,
> {
    match outcome {
        Ok((function, rest)) => Ok((function@, rest@)),
        Err(error) => Err(error),
    }
}

/// The views of `functions`, in order.
pub open spec fn function_views(functions: Seq<FunctionInfo>) -> Seq<FunctionModel> {
    Seq::new(functions.len(), |i: int| functions[i]@)
}

/// The outcome of decoding all functions, with views in place of the values.
pub open spec fn parsed_functions(
    outcome: Result<(Vec<FunctionInfo>, &[u8]), ParseError>,
) -> Result<(Seq<FunctionModel>, Seq<u8>), ParseError> {
    match outcome {
        Ok((functions, rest)) => Ok((function_views(functions@), rest@)),
        Err(error) => Err(error),
    }
}

/// A function record decoded from a valid prefix leaves less than it was given.
pub proof fn lemma_function_consumes(bytes: Seq<u8>, table: Seq<EntryModel>)
    requires
        parse_function(bytes, table) is Ok,
    ensures
        parse_function(bytes, table).unwrap().1.len() + 10 <= bytes.len(),
{
    lemma_directives_consume(bytes.skip(10));
}

/// Decoding directives never leaves more than it was given.
pub proof fn lemma_directives_consume(bytes: Seq<u8>)
    requires
        parse_directives(bytes) is Ok,
    ensures
        parse_directives(bytes).unwrap().1.len() <= bytes.len(),
    decreases bytes.len(),
{
    if bytes.len() >= 2 && bytes[0] == DIRECTIVE_OPCODE {
        let sub = bytes[1];
        let operands = bytes.skip(2);
        if sub == START_SUBCODE {
            lemma_directives_consume(operands);
        } else if sub == MAX_STACK_SUBCODE || sub == MAX_LOCALS_SUBCODE {
            lemma_directives_consume(operands.skip(2));
        }
    }
}

/// Decodes the directives that follow a record's symbol directive.
pub fn parse_directive_list(input: &[u8]) -> (outcome: Result<(Vec<Directive>, &[u8]), ParseError>)
    ensures
        parsed_directives(outcome) == parse_directives(input@),
{
    let mut directives: Vec<Directive> = Vec::new();
    let mut remaining: &[u8] = input;
    while remaining.len() >= 2 && remaining[0] == DIRECTIVE_OPCODE
        invariant
            parse_directives(input@) == after_directives(
                directives@,
                parse_directives(remaining@),
            ),
        decreases remaining.len(),
    {
        let ghost done = directives@;
        let ghost before = remaining@;
        let sub = remaining[1];
        let (_, operands) = remaining.split_at(2);
        assert(operands@ == before.skip(2));
        let directive = if sub == SYMBOL_SUBCODE {
            return Err(ParseError::DuplicateSymbol);
        } else if sub == START_SUBCODE {
            remaining = operands;
            Directive::Start
        } else if sub == MAX_STACK_SUBCODE {
            let (size, rest) = split_u16(operands)?;
            remaining = rest;
            Directive::MaxStack(size)
        } else if sub == MAX_LOCALS_SUBCODE {
            let (size, rest) = split_u16(operands)?;
            remaining = rest;
            Directive::MaxLocals(size)
        } else {
            return Err(ParseError::UnknownDirective);
        };
        directives.push(directive);
        proof {
            assert(directives@ =~= done + seq![directive]);
            if let Ok((more, left)) = parse_directives(remaining@) {
                assert(done + (seq![directive] + more) =~= directives@ + more);
            }
        }
    }
    proof {
        assert(directives@ + Seq::<Directive>::empty() =~= directives@);
    }
    Ok((directives, remaining))
}

impl FunctionInfo {
    /// Decodes the function record at the front of `input`, checking its name
    /// against `table`, and hands back the record with the rest of the input.
    pub fn new<'a>(input: &'a [u8], table: &Table) -> (outcome: Result<
        (Self, &'a [u8]),
        ParseError,
    >)
        ensures
            parsed_function(outcome) == parse_function(input@, table@),
    {
        if input.len() < 2 {
            return Err(ParseError::TruncatedStream);
        }
        if input[0] != DIRECTIVE_OPCODE || input[1] != SYMBOL_SUBCODE {
            return Err(ParseError::MissingSymbol);
        }
        if input.len() < 10 {
            return Err(ParseError::TruncatedStream);
        }
        let (_, operands) = input.split_at(2);
        assert(operands@ == input@.skip(2));
        let (name_index, more) = split_u32(operands)?;
        assert(more@ == input@.skip(6));
        let (code_length, after_symbol) = split_u32(more)?;
        assert(after_symbol@ == input@.skip(10));
        match table.get(name_index as usize) {
            None => {
                return Err(ParseError::BadIndex);
            },
            Some(TableEntry::String(_)) => {},
            Some(_) => {
                return Err(ParseError::NameNotString);
            },
        }
        let (directives, rest) = parse_directive_list(after_symbol)?;
        if rest.len() < code_length as usize {
            return Err(ParseError::TruncatedStream);
        }
        let (code_bytes, left) = rest.split_at(code_length as usize);
        let mut code: Vec<u8> = Vec::new();
        code.extend_from_slice(code_bytes);
        assert(code@ =~= rest@.take(code_length as int));
        assert(left@ == rest@.skip(code_length as int));
        Ok((FunctionInfo { name_index, directives, code }, left))
    }

    /// Decodes function records from the front of `input` for as long as one
    /// begins there.
    pub fn get_all_functions<'a>(input: &'a [u8], table: &Table) -> (outcome: Result<
        (Vec<Self>, &'a [u8]),
        ParseError,
    >)
        ensures
            parsed_functions(outcome) == parse_functions(input@, table@),
    {
        let mut functions: Vec<FunctionInfo> = Vec::new();
        let mut remaining: &[u8] = input;
        while remaining.len() >= 2 && remaining[0] == DIRECTIVE_OPCODE && remaining[1]
            == SYMBOL_SUBCODE
            invariant
                parse_functions(input@, table@) == after_functions(
                    function_views(functions@),
                    parse_functions(remaining@, table@),
                ),
            decreases remaining.len(),
        {
            let ghost done = function_views(functions@);
            let ghost before = remaining@;
            let (function, rest) = FunctionInfo::new(remaining, table)?;
            proof {
                lemma_function_consumes(before, table@);
            }
            let ghost added = function@;
            functions.push(function);
            remaining = rest;
            proof {
                assert(function_views(functions@) =~= done + seq![added]);
                if let Ok((more, left)) = parse_functions(remaining@, table@) {
                    assert(done + (seq![added] + more) =~= function_views(functions@) + more);
                }
            }
        }
        proof {
            assert(function_views(functions@) + Seq::<FunctionModel>::empty() =~= function_views(
                functions@,
            ));
        }
        Ok((functions, remaining))
    }

    /// Index of the function's name in the constant table.
    pub fn name_index(&self) -> (index: u32)
        ensures
            index == self@.name_index,
    {
        self.name_index
    }

    /// The directives that follow the symbol directive, in order.
    pub fn directives(&self) -> (directives: &[Directive])
        ensures
            directives@ == self@.directives,
    {
        self.directives.as_slice()
    }

    /// The function's code.
    pub fn code(&self) -> (code: &[u8])
        ensures
            code@ == self@.code,
    {
        self.code.as_slice()
    }

    /// Whether `directive` is among the function's directives.
    pub fn has_directive(&self, directive: Directive) -> (found: bool)
        ensures
            found <==> self@.directives.contains(directive),
    {
        let mut at: usize = 0;
        while at < self.directives.len()
            invariant
                at <= self.directives@.len(),
                forall|i: int| 0 <= i < at ==> self.directives@[i] != directive,
            decreases self.directives@.len() - at,
        {
            if self.directives[at] == directive {
                return true;
            }
            at += 1;
        }
        false
    }
}

/// A decoded program image.
#[derive(Debug)]
pub struct FileLayout {
    version: u8,
    constant_pool: Table,
    functions: Vec<FunctionInfo>,
}

/// A decoded image as plain sequences.
pub struct LayoutModel {
    pub version: u8,
    pub constants: Seq<EntryModel>,
    pub functions: Seq<FunctionModel>,
}

impl View for FileLayout {
    type V = LayoutModel;

    closed spec fn view(&self) -> LayoutModel {
        LayoutModel {
            version: self.version,
            constants: self.constant_pool@,
            functions: function_views(self.functions@),
        }
    }
}

/// What is wrong with bytes that follow the last function record: they are
/// too few to begin a record, or they begin none.
pub open spec fn stray_bytes(rest: Seq<u8>) -> ParseError
    recommends
        rest.len() > 0,
{
    if rest.len() < 2 {
        ParseError::TruncatedStream
    } else {
        ParseError::MissingSymbol
    }
}

/// The image that `bytes` hold: the magic number, one version byte, the 32-bit
/// number of constants, that many constant entries, then function records up
/// to the end of the input.
pub open spec fn parse_layout(bytes: Seq<u8>) -> Result<LayoutModel, ParseError> {
    match take_u64(bytes) {
        Ok((magic, after_magic)) => if magic != MAGIC_NUMBER {
            Err(ParseError::MalformedHeader)
        } else {
            match take_u8(after_magic) {
                Ok((version, after_version)) => match take_u32(after_version) {
                    Ok((count, after_count)) => match parse_entries(count as nat, after_count) {
                        Ok((constants, after_constants)) => match parse_functions(
                            after_constants,
                            constants,
                        ) {
                            Ok((functions, rest)) => if rest.len() == 0 {
                                Ok(LayoutModel { version, constants, functions })
                            } else {
                                Err(stray_bytes(rest))
                            },
                            Err(error) => Err(error),
                        },
                        Err(error) => Err(error),
                    },
                    Err(error) => Err(error),
                },
                Err(error) => Err(error),
            }
        },
        Err(error) => Err(error),
    }
}

impl FileLayout {
    /// Decodes an image. The function records must end with the input.
    pub fn from_bytes<'a>(input: &'a [u8]) -> (outcome: Result<Self, ParseError>)
        ensures
            match outcome {
                Ok(layout) => parse_layout(input@) == Ok::<LayoutModel, ParseError>(layout@)
                    && layout.wf(),
                Err(error) => parse_layout(input@) == Err::<LayoutModel, ParseError>(error),
            },
    {
        let mut parser = FileParser::new(input);
        let magic = parser.parse_off(
            |x: &'a [u8]| -> (r: Result<(u64, &'a [u8]), ParseError>)
                ensures
                    parsed(r) == take_u64(x@)
                {
                    split_u64(x)
                },
        )?;
        if magic != MAGIC_NUMBER {
            return Err(ParseError::MalformedHeader);
        }
        let version = parser.parse_off(
            |x: &'a [u8]| -> (r: Result<(u8, &'a [u8]), ParseError>)
                ensures
                    parsed(r) == take_u8(x@)
                {
                    split_u8(x)
                },
        )?;
        let constant_count = parser.parse_off(
            |x: &'a [u8]| -> (r: Result<(u32, &'a [u8]), ParseError>)
                ensures
                    parsed(r) == take_u32(x@)
                {
                    split_u32(x)
                },
        )?;
        let constant_pool = parser.parse_off(
            |x: &'a [u8]| -> (r: Result<(Table, &'a [u8]), ParseError>)
                ensures
                    parsed_table(r) == parse_entries(constant_count as nat, x@)
                {
                    Table::new(constant_count as usize, x)
                },
        )?;
        let functions = parser.parse_off(
            |x: &'a [u8]| -> (r: Result<(Vec<FunctionInfo>, &'a [u8]), ParseError>)
                ensures
                    parsed_functions(r) == parse_functions(x@, constant_pool@)
                {
                    FunctionInfo::get_all_functions(x, &constant_pool)
                },
        )?;
        let rest = parser.rest();
        if rest.len() >= 2 {
            return Err(ParseError::MissingSymbol);
        }
        if rest.len() > 0 {
            return Err(ParseError::TruncatedStream);
        }
        proof {
            crate::loader::serialize::lemma_parsed_layout_fits(input@);
        }
        Ok(FileLayout { version, constant_pool, functions })
    }

    /// The image's format version.
    pub fn version(&self) -> (version: u8)
        ensures
            version == self@.version,
    {
        self.version
    }

    /// The constant table.
    pub fn constants(&self) -> (table: &Table)
        ensures
            table@ == self@.constants,
    {
        &self.constant_pool
    }

    /// The function records, in image order.
    pub fn functions(&self) -> (functions: &[FunctionInfo])
        ensures
            function_views(functions@) == self@.functions,
    {
        self.functions.as_slice()
    }
}

} // verus!
