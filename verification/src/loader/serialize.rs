//! The image format written out, and the law that ties it to the decoder.

use crate::engine::opcodes::DIRECTIVE_OPCODE;
use crate::loader::bytes::{
    lemma_u16_bytes_read, lemma_u32_bytes_read, lemma_u64_bytes_read, u16_bytes, u32_bytes,
    u64_bytes,
};
use crate::loader::parser::{
    function_views, parse_directives, parse_entries, parse_entry, parse_function, parse_functions,
    parse_layout, starts_function, Directive, EntryModel, FileLayout, FunctionInfo, FunctionModel,
    LayoutModel, TableEntry, MAGIC_NUMBER, MAX_LOCALS_SUBCODE, MAX_STACK_SUBCODE, START_SUBCODE,
    SYMBOL_SUBCODE, TAG_DOUBLE, TAG_FLOAT, TAG_INTEGER, TAG_LONG, TAG_STRING,
};
use vstd::prelude::*;

verus! {

/// The bytes of one constant entry: its tag, then its payload.
pub open spec fn entry_bytes(entry: EntryModel) -> Seq<u8> {
    match entry {
        EntryModel::Integer(value) => seq![TAG_INTEGER] + u32_bytes(value),
        EntryModel::Long(value) => seq![TAG_LONG] + u64_bytes(value),
        EntryModel::Float(bits) => seq![TAG_FLOAT] + u32_bytes(bits),
        EntryModel::Double(bits) => seq![TAG_DOUBLE] + u64_bytes(bits),
        EntryModel::String(text) => seq![TAG_STRING] + u32_bytes(text.len() as u32) + text,
    }
}

/// The bytes of the entries, one after the other.
pub open spec fn entries_bytes(entries: Seq<EntryModel>) -> Seq<u8>
    decreases entries.len(),
{
    if entries.len() == 0 {
        Seq::empty()
    } else {
        entry_bytes(entries[0]) + entries_bytes(entries.skip(1))
    }
}

/// The bytes of one directive: the directive opcode, its sub-code, its operands.
pub open spec fn directive_bytes(directive: Directive) -> Seq<u8> {
    match directive {
        Directive::Symbol(name_index, code_length) => seq![DIRECTIVE_OPCODE, SYMBOL_SUBCODE]
            + u32_bytes(name_index) + u32_bytes(code_length),
        Directive::Start => seq![DIRECTIVE_OPCODE, START_SUBCODE],
        Directive::MaxStack(size) => seq![DIRECTIVE_OPCODE, MAX_STACK_SUBCODE] + u16_bytes(size),
        Directive::MaxLocals(size) => seq![DIRECTIVE_OPCODE, MAX_LOCALS_SUBCODE] + u16_bytes(size),
    }
}

/// The bytes of the directives, one after the other.
pub open spec fn directives_bytes(directives: Seq<Directive>) -> Seq<u8>
    decreases directives.len(),
{
    if directives.len() == 0 {
        Seq::empty()
    } else {
        directive_bytes(directives[0]) + directives_bytes(directives.skip(1))
    }
}

/// The bytes of one function record: its symbol directive, its other
/// directives, its code.
pub open spec fn function_bytes(function: FunctionModel) -> Seq<u8> {
    directive_bytes(Directive::Symbol(function.name_index, function.code.len() as u32))
        + directives_bytes(function.directives) + function.code
}

/// The bytes of the function records, one after the other.
pub open spec fn functions_bytes(functions: Seq<FunctionModel>) -> Seq<u8>
    decreases functions.len(),
{
    if functions.len() == 0 {
        Seq::empty()
    } else {
        function_bytes(functions[0]) + functions_bytes(functions.skip(1))
    }
}

/// The bytes of an image: magic number, version, number of constants, the
/// constants, the function records.
pub open spec fn layout_bytes(layout: LayoutModel) -> Seq<u8> {
    u64_bytes(MAGIC_NUMBER) + seq![layout.version] + u32_bytes(layout.constants.len() as u32)
        + entries_bytes(layout.constants) + functions_bytes(layout.functions)
}

/// A decoded entry, written out and followed by what the decoder left, is the
/// input.
pub proof fn lemma_entry_round_trip(bytes: Seq<u8>)
    requires
        parse_entry(bytes) is Ok,
    ensures
        entry_bytes(parse_entry(bytes).unwrap().0) + parse_entry(bytes).unwrap().1 == bytes,
{
    let (entry, rest) = parse_entry(bytes).unwrap();
    let payload = bytes.skip(1);
    match entry {
        EntryModel::Integer(_) | EntryModel::Float(_) => {
            lemma_u32_bytes_read(payload);
            assert(seq![bytes[0]] + payload.take(4) + payload.skip(4) =~= bytes);
        },
        EntryModel::Long(_) | EntryModel::Double(_) => {
            lemma_u64_bytes_read(payload);
            assert(seq![bytes[0]] + payload.take(8) + payload.skip(8) =~= bytes);
        },
        EntryModel::String(text) => {
            lemma_u32_bytes_read(payload);
            let body = payload.skip(4);
            let length = text.len() as int;
            assert(seq![bytes[0]] + payload.take(4) + body.take(length) + body.skip(length)
                =~= bytes);
        },
    }
}

/// Decoded entries, written out and followed by what the decoder left, are the
/// input; and there are as many as were asked for.
pub proof fn lemma_entries_round_trip(count: nat, bytes: Seq<u8>)
    requires
        parse_entries(count, bytes) is Ok,
    ensures
        entries_bytes(parse_entries(count, bytes).unwrap().0) + parse_entries(
            count,
            bytes,
        ).unwrap().1 == bytes,
        parse_entries(count, bytes).unwrap().0.len() == count,
    decreases count,
{
    if count > 0 {
        let (entry, rest) = parse_entry(bytes).unwrap();
        let (entries, left) = parse_entries((count - 1) as nat, rest).unwrap();
        lemma_entry_round_trip(bytes);
        lemma_entries_round_trip((count - 1) as nat, rest);
        let all = seq![entry] + entries;
        assert(all.skip(1) =~= entries);
        assert(entry_bytes(entry) + entries_bytes(entries) + left =~= entry_bytes(entry) + (
            entries_bytes(entries) + left));
    } else {
        assert(Seq::<u8>::empty() + bytes =~= bytes);
    }
}

/// Decoded directives, written out and followed by what the decoder left, are
/// the input.
pub proof fn lemma_directives_round_trip(bytes: Seq<u8>)
    requires
        parse_directives(bytes) is Ok,
    ensures
        directives_bytes(parse_directives(bytes).unwrap().0) + parse_directives(
            bytes,
        ).unwrap().1 == bytes,
    decreases bytes.len(),
{
    if bytes.len() >= 2 && bytes[0] == DIRECTIVE_OPCODE {
        let sub = bytes[1];
        let operands = bytes.skip(2);
        let (directives, left) = parse_directives(bytes).unwrap();
        let first = directives[0];
        if sub == START_SUBCODE {
            lemma_directives_round_trip(operands);
            let (more, _) = parse_directives(operands).unwrap();
            assert(directives.skip(1) =~= more);
            assert(directive_bytes(first) + directives_bytes(more) + left =~= seq![
                bytes[0],
                bytes[1],
            ] + (directives_bytes(more) + left));
            assert(seq![bytes[0], bytes[1]] + operands =~= bytes);
        } else {
            let rest = operands.skip(2);
            lemma_u16_bytes_read(operands);
            lemma_directives_round_trip(rest);
            let (more, _) = parse_directives(rest).unwrap();
            assert(directives.skip(1) =~= more);
            assert(directive_bytes(first) + directives_bytes(more) + left =~= seq![
                bytes[0],
                bytes[1],
            ] + operands.take(2) + (directives_bytes(more) + left));
            assert(seq![bytes[0], bytes[1]] + operands.take(2) + rest =~= bytes);
        }
    } else {
        assert(Seq::<u8>::empty() + bytes =~= bytes);
    }
}

/// A decoded function record, written out and followed by what the decoder
/// left, is the input.
pub proof fn lemma_function_round_trip(bytes: Seq<u8>, table: Seq<EntryModel>)
    requires
        parse_function(bytes, table) is Ok,
    ensures
        function_bytes(parse_function(bytes, table).unwrap().0) + parse_function(
            bytes,
            table,
        ).unwrap().1 == bytes,
{
    let (function, left) = parse_function(bytes, table).unwrap();
    let after_symbol = bytes.skip(10);
    let (directives, rest) = parse_directives(after_symbol).unwrap();
    lemma_u32_bytes_read(bytes.skip(2));
    lemma_u32_bytes_read(bytes.skip(6));
    lemma_directives_round_trip(after_symbol);
    let length = function.code.len() as int;
    let symbol = directive_bytes(Directive::Symbol(function.name_index, length as u32));
    assert(symbol =~= bytes.take(10));
    assert(rest.take(length) + rest.skip(length) =~= rest);
    assert(symbol + directives_bytes(directives) + function.code + left =~= bytes.take(10) + (
        directives_bytes(directives) + rest));
    assert(bytes.take(10) + after_symbol =~= bytes);
}

/// Decoded function records, written out and followed by what the decoder left,
/// are the input.
pub proof fn lemma_functions_round_trip(bytes: Seq<u8>, table: Seq<EntryModel>)
    requires
        parse_functions(bytes, table) is Ok,
    ensures
        functions_bytes(parse_functions(bytes, table).unwrap().0) + parse_functions(
            bytes,
            table,
        ).unwrap().1 == bytes,
    decreases bytes.len(),
{
    if starts_function(bytes) {
        let (function, rest) = parse_function(bytes, table).unwrap();
        let (more, left) = parse_functions(rest, table).unwrap();
        lemma_function_round_trip(bytes, table);
        lemma_functions_round_trip(rest, table);
        let all = seq![function] + more;
        assert(all.skip(1) =~= more);
        assert(function_bytes(function) + functions_bytes(more) + left =~= function_bytes(function)
            + (functions_bytes(more) + left));
    } else {
        assert(Seq::<u8>::empty() + bytes =~= bytes);
    }
}

/// Decoding is undone by writing out: the bytes of a decoded image are the
/// bytes it was decoded from.
pub proof fn lemma_layout_round_trip(bytes: Seq<u8>)
    requires
        parse_layout(bytes) is Ok,
    ensures
        layout_bytes(parse_layout(bytes).unwrap()) == bytes,
{
    let layout = parse_layout(bytes).unwrap();
    let after_magic = bytes.skip(8);
    let after_version = after_magic.skip(1);
    let after_count = after_version.skip(4);
    let count = crate::loader::bytes::le_u32(after_version) as nat;
    lemma_u64_bytes_read(bytes);
    lemma_u32_bytes_read(after_version);
    let (constants, after_constants) = parse_entries(count, after_count).unwrap();
    let (functions, left) = parse_functions(after_constants, constants).unwrap();
    lemma_entries_round_trip(count, after_count);
    lemma_functions_round_trip(after_constants, constants);
    assert(functions_bytes(functions) + left =~= functions_bytes(functions));
    assert(layout_bytes(layout) =~= bytes.take(8) + seq![after_magic[0]] + after_version.take(4)
        + (entries_bytes(constants) + functions_bytes(layout.functions)));
    assert(bytes.take(8) + seq![after_magic[0]] + after_version.take(4) + after_count =~= bytes);
}

/// Whether the entry can be written out: a string must not be longer than its
/// 32-bit length field can say.
pub open spec fn entry_fits(entry: EntryModel) -> bool {
    entry matches EntryModel::String(text) ==> text.len() <= u32::MAX
}

/// Whether the image can be written out: the number of constants, the length
/// of every string and the length of every function's code must fit their
/// 32-bit fields.
pub open spec fn layout_fits(layout: LayoutModel) -> bool {
    &&& layout.constants.len() <= u32::MAX
    &&& forall|i: int| 0 <= i < layout.constants.len() ==> entry_fits(#[trigger] layout.constants[i])
    &&& forall|i: int|
        0 <= i < layout.functions.len() ==> (#[trigger] layout.functions[i]).code.len() <= u32::MAX
}

/// Decoded entries can be written out.
pub proof fn lemma_parsed_entries_fit(count: nat, bytes: Seq<u8>)
    requires
        parse_entries(count, bytes) is Ok,
    ensures
        forall|i: int|
            0 <= i < parse_entries(count, bytes).unwrap().0.len() ==> entry_fits(
                #[trigger] parse_entries(count, bytes).unwrap().0[i],
            ),
    decreases count,
{
    if count > 0 {
        let (entry, rest) = parse_entry(bytes).unwrap();
        let (entries, _) = parse_entries((count - 1) as nat, rest).unwrap();
        lemma_parsed_entries_fit((count - 1) as nat, rest);
        let all = seq![entry] + entries;
        assert forall|i: int| 0 <= i < all.len() implies entry_fits(#[trigger] all[i]) by {
            if i > 0 {
                assert(all[i] == entries[i - 1]);
            }
        }
    }
}

/// Decoded functions can be written out.
pub proof fn lemma_parsed_functions_fit(bytes: Seq<u8>, table: Seq<EntryModel>)
    requires
        parse_functions(bytes, table) is Ok,
    ensures
        forall|i: int|
            0 <= i < parse_functions(bytes, table).unwrap().0.len() ==> (#[trigger] parse_functions(
                bytes,
                table,
            ).unwrap().0[i]).code.len() <= u32::MAX,
    decreases bytes.len(),
{
    if starts_function(bytes) {
        let (function, rest) = parse_function(bytes, table).unwrap();
        let (more, _) = parse_functions(rest, table).unwrap();
        lemma_parsed_functions_fit(rest, table);
        let all = seq![function] + more;
        assert forall|i: int| 0 <= i < all.len() implies (#[trigger] all[i]).code.len()
            <= u32::MAX by {
            if i > 0 {
                assert(all[i] == more[i - 1]);
            }
        }
    }
}

/// A decoded image can be written out.
pub proof fn lemma_parsed_layout_fits(bytes: Seq<u8>)
    requires
        parse_layout(bytes) is Ok,
    ensures
        layout_fits(parse_layout(bytes).unwrap()),
{
    let after_count = bytes.skip(8).skip(1).skip(4);
    let count = crate::loader::bytes::le_u32(bytes.skip(8).skip(1)) as nat;
    let (constants, after_constants) = parse_entries(count, after_count).unwrap();
    lemma_entries_round_trip(count, after_count);
    lemma_parsed_entries_fit(count, after_count);
    lemma_parsed_functions_fit(after_constants, constants);
}

/// The bytes of entries with one more at the end.
pub proof fn lemma_entries_bytes_push(entries: Seq<EntryModel>, last: EntryModel)
    ensures
        entries_bytes(entries.push(last)) == entries_bytes(entries) + entry_bytes(last),
    decreases entries.len(),
{
    let all = entries.push(last);
    if entries.len() == 0 {
        assert(all.skip(1) =~= Seq::<EntryModel>::empty());
        assert(entries_bytes(all.skip(1)) =~= Seq::<u8>::empty());
        assert(all[0] == last);
        assert(entries_bytes(all) =~= entry_bytes(last) + Seq::<u8>::empty());
        assert(entries_bytes(all) =~= entries_bytes(entries) + entry_bytes(last));
    } else {
        lemma_entries_bytes_push(entries.skip(1), last);
        assert(all.skip(1) =~= entries.skip(1).push(last));
        assert(entries_bytes(all) =~= entry_bytes(entries[0]) + (entries_bytes(entries.skip(1))
            + entry_bytes(last)));
        assert(entries_bytes(all) =~= entries_bytes(entries) + entry_bytes(last));
    }
}

/// The bytes of directives with one more at the end.
pub proof fn lemma_directives_bytes_push(directives: Seq<Directive>, last: Directive)
    ensures
        directives_bytes(directives.push(last)) == directives_bytes(directives) + directive_bytes(
            last,
        ),
    decreases directives.len(),
{
    let all = directives.push(last);
    if directives.len() == 0 {
        assert(all.skip(1) =~= Seq::<Directive>::empty());
        assert(directives_bytes(all.skip(1)) =~= Seq::<u8>::empty());
        assert(all[0] == last);
        assert(directives_bytes(all) =~= directive_bytes(last) + Seq::<u8>::empty());
        assert(directives_bytes(all) =~= directives_bytes(directives) + directive_bytes(last));
    } else {
        lemma_directives_bytes_push(directives.skip(1), last);
        assert(all.skip(1) =~= directives.skip(1).push(last));
        assert(directives_bytes(all) =~= directive_bytes(directives[0]) + (directives_bytes(
            directives.skip(1),
        ) + directive_bytes(last)));
        assert(directives_bytes(all) =~= directives_bytes(directives) + directive_bytes(last));
    }
}

/// The bytes of functions with one more at the end.
pub proof fn lemma_functions_bytes_push(functions: Seq<FunctionModel>, last: FunctionModel)
    ensures
        functions_bytes(functions.push(last)) == functions_bytes(functions) + function_bytes(last),
    decreases functions.len(),
{
    let all = functions.push(last);
    if functions.len() == 0 {
        assert(all.skip(1) =~= Seq::<FunctionModel>::empty());
        assert(functions_bytes(all.skip(1)) =~= Seq::<u8>::empty());
        assert(all[0] == last);
        assert(functions_bytes(all) =~= function_bytes(last) + Seq::<u8>::empty());
        assert(functions_bytes(all) =~= functions_bytes(functions) + function_bytes(last));
    } else {
        lemma_functions_bytes_push(functions.skip(1), last);
        assert(all.skip(1) =~= functions.skip(1).push(last));
        assert(functions_bytes(all) =~= function_bytes(functions[0]) + (functions_bytes(
            functions.skip(1),
        ) + function_bytes(last)));
        assert(functions_bytes(all) =~= functions_bytes(functions) + function_bytes(last));
    }
}

/// Appends the two bytes of `value`, least significant first.
pub fn write_u16(out: &mut Vec<u8>, value: u16)
    ensures
        final(out)@ == old(out)@ + u16_bytes(value),
{
    out.push((value % 0x100) as u8);
    out.push((value / 0x100) as u8);
    assert(out@ =~= old(out)@ + u16_bytes(value));
}

/// Appends the four bytes of `value`, least significant first.
pub fn write_u32(out: &mut Vec<u8>, value: u32)
    ensures
        final(out)@ == old(out)@ + u32_bytes(value),
{
    out.push((value % 0x100) as u8);
    out.push((value / 0x100 % 0x100) as u8);
    out.push((value / 0x1_0000 % 0x100) as u8);
    out.push((value / 0x100_0000) as u8);
    assert(out@ =~= old(out)@ + u32_bytes(value));
}

/// Appends the eight bytes of `value`, least significant first.
pub fn write_u64(out: &mut Vec<u8>, value: u64)
    ensures
        final(out)@ == old(out)@ + u64_bytes(value),
{
    write_u32(out, (value % 0x1_0000_0000) as u32);
    write_u32(out, (value / 0x1_0000_0000) as u32);
    assert(out@ =~= old(out)@ + u64_bytes(value));
}

/// Appends `bytes`.
pub fn write_bytes(out: &mut Vec<u8>, bytes: &[u8])
    ensures
        final(out)@ == old(out)@ + bytes@,
{
    out.extend_from_slice(bytes);
    assert(out@ =~= old(out)@ + bytes@);
}

impl TableEntry {
    /// Appends the entry as the image holds it.
    pub fn write(&self, out: &mut Vec<u8>)
        requires
            entry_fits(self@),
        ensures
            final(out)@ == old(out)@ + entry_bytes(self@),
    {
        match self {
            TableEntry::Integer(value) => {
                out.push(TAG_INTEGER);
                write_u32(out, *value);
            },
            TableEntry::Long(value) => {
                out.push(TAG_LONG);
                write_u64(out, *value);
            },
            TableEntry::Float(bits) => {
                out.push(TAG_FLOAT);
                write_u32(out, *bits);
            },
            TableEntry::Double(bits) => {
                out.push(TAG_DOUBLE);
                write_u64(out, *bits);
            },
            TableEntry::String(text) => {
                out.push(TAG_STRING);
                write_u32(out, text.len() as u32);
                write_bytes(out, text.as_slice());
            },
        }
        assert(out@ =~= old(out)@ + entry_bytes(self@));
    }
}

impl Directive {
    /// Appends the directive as the image holds it.
    pub fn write(&self, out: &mut Vec<u8>)
        ensures
            final(out)@ == old(out)@ + directive_bytes(*self),
    {
        out.push(DIRECTIVE_OPCODE);
        match *self {
            Directive::Symbol(name_index, code_length) => {
                out.push(SYMBOL_SUBCODE);
                write_u32(out, name_index);
                write_u32(out, code_length);
            },
            Directive::Start => {
                out.push(START_SUBCODE);
            },
            Directive::MaxStack(size) => {
                out.push(MAX_STACK_SUBCODE);
                write_u16(out, size);
            },
            Directive::MaxLocals(size) => {
                out.push(MAX_LOCALS_SUBCODE);
                write_u16(out, size);
            },
        }
        assert(out@ =~= old(out)@ + directive_bytes(*self));
    }
}

impl FunctionInfo {
    /// Appends the function record as the image holds it.
    pub fn write(&self, out: &mut Vec<u8>)
        requires
            self@.code.len() <= u32::MAX,
        ensures
            final(out)@ == old(out)@ + function_bytes(self@),
    {
        let symbol = Directive::Symbol(self.name_index(), self.code().len() as u32);
        symbol.write(out);
        let directives = self.directives();
        let ghost before = out@;
        let mut at: usize = 0;
        while at < directives.len()
            invariant
                at <= directives@.len(),
                directives@ == self@.directives,
                out@ == before + directives_bytes(directives@.take(at as int)),
            decreases directives@.len() - at,
        {
            directives[at].write(out);
            proof {
                let done = directives@.take(at as int);
                assert(directives@.take(at + 1) =~= done.push(directives@[at as int]));
                lemma_directives_bytes_push(done, directives@[at as int]);
                assert(out@ =~= before + directives_bytes(directives@.take(at + 1)));
            }
            at += 1;
        }
        proof {
            assert(directives@.take(at as int) =~= directives@);
        }
        write_bytes(out, self.code());
        assert(out@ =~= old(out)@ + function_bytes(self@));
    }
}

impl FileLayout {
    /// The image can be written out.
    pub open spec fn wf(&self) -> bool {
        layout_fits(self@)
    }

    /// The bytes of the image. An image that was decoded is written out as
    /// the bytes it was decoded from.
    pub fn serialize(&self) -> (bytes: Vec<u8>)
        requires
            self.wf(),
        ensures
            bytes@ == layout_bytes(self@),
    {
        let mut out: Vec<u8> = Vec::new();
        write_u64(&mut out, MAGIC_NUMBER);
        out.push(self.version());
        let constants = self.constants();
        write_u32(&mut out, constants.len() as u32);
        let ghost header = out@;
        let mut at: usize = 0;
        while at < constants.len()
            invariant
                at <= constants@.len(),
                constants@ == self@.constants,
                layout_fits(self@),
                out@ == header + entries_bytes(constants@.take(at as int)),
            decreases constants@.len() - at,
        {
            match constants.get(at) {
                Some(entry) => {
                    entry.write(&mut out);
                    proof {
                        let done = constants@.take(at as int);
                        assert(constants@.take(at + 1) =~= done.push(constants@[at as int]));
                        lemma_entries_bytes_push(done, constants@[at as int]);
                        assert(out@ =~= header + entries_bytes(constants@.take(at + 1)));
                    }
                },
                None => {},
            }
            at += 1;
        }
        proof {
            assert(constants@.take(at as int) =~= constants@);
        }
        let functions = self.functions();
        let ghost middle = out@;
        let mut index: usize = 0;
        while index < functions.len()
            invariant
                index <= functions@.len(),
                function_views(functions@) == self@.functions,
                layout_fits(self@),
                out@ == middle + functions_bytes(self@.functions.take(index as int)),
            decreases functions@.len() - index,
        {
            let function = &functions[index];
            assert(function@ == self@.functions[index as int]);
            function.write(&mut out);
            proof {
                let done = self@.functions.take(index as int);
                assert(self@.functions.take(index + 1) =~= done.push(
                    self@.functions[index as int],
                ));
                lemma_functions_bytes_push(done, self@.functions[index as int]);
                assert(out@ =~= middle + functions_bytes(self@.functions.take(index + 1)));
            }
            index += 1;
        }
        proof {
            assert(self@.functions.take(index as int) =~= self@.functions);
            assert(out@ =~= layout_bytes(self@));
        }
        out
    }
}

} // verus!
