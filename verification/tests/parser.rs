use azimuth::loader::bytes::ParseError;
use azimuth::loader::parser::{Directive, FileLayout, FunctionInfo, Table, TableEntry};
use azimuth::loader::serialize::{write_u16, write_u32, write_u64};

const DIRECTIVE_OPCODE: u8 = 254;
const SYMBOL: u8 = 0;

fn image(constants: &[&[u8]], functions: &[&[u8]]) -> Vec<u8> {
    let mut bytes = b"azimuth\0".to_vec();
    bytes.push(1);
    bytes.extend_from_slice(&(constants.len() as u32).to_le_bytes());
    for constant in constants {
        bytes.extend_from_slice(constant);
    }
    for function in functions {
        bytes.extend_from_slice(function);
    }
    bytes
}

fn string_entry(text: &str) -> Vec<u8> {
    let mut bytes = vec![4];
    bytes.extend_from_slice(&(text.len() as u32).to_le_bytes());
    bytes.extend_from_slice(text.as_bytes());
    bytes
}

fn function(name: u32, directives: &[u8], code: &[u8]) -> Vec<u8> {
    let mut bytes = vec![DIRECTIVE_OPCODE, SYMBOL];
    bytes.extend_from_slice(&name.to_le_bytes());
    bytes.extend_from_slice(&(code.len() as u32).to_le_bytes());
    bytes.extend_from_slice(directives);
    bytes.extend_from_slice(code);
    bytes
}

#[test]
fn empty_table() {
    let data: [u8; 0] = [];
    let (table, rem) = Table::new(0, &data).expect("Failed to parse empty table");
    assert!(table.is_empty());
    assert!(rem.is_empty());
}

#[test]
fn homogeneous_table() {
    let data: [u8; 15] = [
        0, 10, 0, 0, 0, // Integer 10
        0, 20, 0, 0, 0, // Integer 20
        0, 30, 0, 0, 0, // Integer 30
    ];
    let (table, rem) = Table::new(3, &data).expect("Failed to parse homogeneous table");
    assert_eq!(table.len(), 3);
    assert!(matches!(table.get(0), Some(TableEntry::Integer(10))));
    assert!(matches!(table.get(1), Some(TableEntry::Integer(20))));
    assert!(matches!(table.get(2), Some(TableEntry::Integer(30))));
    assert!(rem.is_empty());
}

#[test]
fn heterogeneous_table() {
    let data: [u8; 28] = [
        0, 10, 0, 0, 0, // Integer 10
        1, 100, 0, 0, 0, 0, 0, 0, 0, // Long 100
        2, 0, 0, 128, 63, // Float 1.0
        3, 0, 0, 0, 0, 0, 0, 240, 63, // Double 1.0
    ];
    let (table, rem) = Table::new(4, &data).expect("Failed to parse heterogeneous table");
    assert_eq!(table.len(), 4);
    assert!(matches!(table.get(0), Some(TableEntry::Integer(10))));
    assert!(matches!(table.get(1), Some(TableEntry::Long(100))));
    assert!(
        matches!(table.get(2), Some(TableEntry::Float(f)) if (f32::from_bits(*f) - 1.0).abs() < f32::EPSILON)
    );
    assert!(
        matches!(table.get(3), Some(TableEntry::Double(d)) if (f64::from_bits(*d) - 1.0).abs() < f64::EPSILON)
    );
    assert!(rem.is_empty());
}

#[test]
fn basic_function() {
    // Function with symbol directive and no other directives
    let data: [u8; 14] = [
        DIRECTIVE_OPCODE,
        SYMBOL,
        0, 0, 0, 0, // name index
        4, 0, 0, 0, // code length
        // Code (4 bytes)
        0x01, 0x02, 0x03, 0x04,
    ];
    let table = Table::from_entries(vec![
        TableEntry::String(b"main".to_vec()), // name
        TableEntry::Integer(4),
    ]);

    let (function, rem) = FunctionInfo::new(&data, &table).expect("Failed to parse simple function");
    assert_eq!(function.directives().len(), 0); // Doesn't include symbol directive
    assert_eq!(function.code(), vec![0x01, 0x02, 0x03, 0x04]);
    assert!(rem.is_empty());
}

#[test]
fn string_entry_keeps_its_bytes() {
    let data = string_entry("hello");
    let (table, rem) = Table::new(1, &data).unwrap();
    assert!(matches!(table.get(0), Some(TableEntry::String(text)) if text == b"hello"));
    assert!(table.get(1).is_none());
    assert!(rem.is_empty());
}

#[test]
fn table_leaves_what_follows_its_entries() {
    let data = [0, 1, 0, 0, 0, 9, 9];
    let (table, rem) = Table::new(1, &data).unwrap();
    assert_eq!(table.len(), 1);
    assert_eq!(rem, &[9, 9]);
}

#[test]
fn table_errors() {
    assert_eq!(Table::new(1, &[]).err(), Some(ParseError::TruncatedStream));
    assert_eq!(Table::new(1, &[0, 1, 2, 3]).err(), Some(ParseError::TruncatedStream));
    assert_eq!(Table::new(1, &[1, 1, 2, 3, 4, 5, 6, 7]).err(), Some(ParseError::TruncatedStream));
    assert_eq!(Table::new(1, &[4, 2, 0, 0, 0, b'a']).err(), Some(ParseError::TruncatedStream));
    assert_eq!(Table::new(1, &[4, 2, 0, 0]).err(), Some(ParseError::TruncatedStream));
    assert_eq!(Table::new(1, &[5, 0, 0, 0, 0]).err(), Some(ParseError::UnknownConstant));
    assert_eq!(Table::new(2, &[0, 1, 0, 0, 0]).err(), Some(ParseError::TruncatedStream));
}

#[test]
fn little_endian_fields() {
    let data = [0, 0x78, 0x56, 0x34, 0x12, 1, 8, 7, 6, 5, 4, 3, 2, 1];
    let (table, _) = Table::new(2, &data).unwrap();
    assert!(matches!(table.get(0), Some(TableEntry::Integer(0x1234_5678))));
    assert!(matches!(table.get(1), Some(TableEntry::Long(0x0102_0304_0506_0708))));
}

#[test]
fn function_with_directives() {
    let table = Table::from_entries(vec![TableEntry::String(b"main".to_vec())]);
    let data = function(0, &[254, 1, 254, 2, 0x34, 0x12, 254, 3, 2, 0], &[25]);
    let (parsed, rem) = FunctionInfo::new(&data, &table).unwrap();
    assert_eq!(parsed.name_index(), 0);
    assert_eq!(
        parsed.directives(),
        &[Directive::Start, Directive::MaxStack(0x1234), Directive::MaxLocals(2)]
    );
    assert!(parsed.has_directive(Directive::Start));
    assert!(!parsed.has_directive(Directive::MaxStack(1)));
    assert_eq!(parsed.code(), &[25]);
    assert!(rem.is_empty());
}

#[test]
fn function_errors() {
    let table = Table::from_entries(vec![TableEntry::String(b"f".to_vec()), TableEntry::Integer(1)]);
    let parse = |data: &[u8]| FunctionInfo::new(data, &table).err();
    assert_eq!(parse(&[254]), Some(ParseError::TruncatedStream));
    assert_eq!(parse(&[0, 0, 0, 0, 0, 0, 0, 0, 0, 0]), Some(ParseError::MissingSymbol));
    assert_eq!(parse(&[254, 1, 0, 0, 0, 0, 0, 0, 0, 0]), Some(ParseError::MissingSymbol));
    assert_eq!(parse(&[254, 0, 0, 0, 0, 0, 0, 0, 0]), Some(ParseError::TruncatedStream));
    assert_eq!(parse(&function(2, &[], &[0])), Some(ParseError::BadIndex));
    assert_eq!(parse(&function(1, &[], &[0])), Some(ParseError::NameNotString));
    assert_eq!(parse(&function(0, &[254, 0], &[0])), Some(ParseError::DuplicateSymbol));
    assert_eq!(parse(&function(0, &[254, 4], &[0])), Some(ParseError::UnknownDirective));
    assert_eq!(parse(&function(0, &[254, 2, 1], &[])), Some(ParseError::TruncatedStream));
    let mut short = function(0, &[254, 1], &[1, 2, 3]);
    short.pop();
    assert_eq!(parse(&short), Some(ParseError::TruncatedStream));
}

#[test]
fn all_functions_are_read_until_no_record_begins() {
    let table = Table::from_entries(vec![TableEntry::String(b"f".to_vec())]);
    let mut data = function(0, &[254, 1], &[25]);
    data.extend_from_slice(&function(0, &[], &[26, 27]));
    data.extend_from_slice(&[7, 7]);
    let (functions, rem) = FunctionInfo::get_all_functions(&data, &table).unwrap();
    assert_eq!(functions.len(), 2);
    assert_eq!(functions[0].code(), &[25]);
    assert_eq!(functions[1].code(), &[26, 27]);
    assert_eq!(rem, &[7, 7]);
    let (none, rest) = FunctionInfo::get_all_functions(&[1, 2, 3], &table).unwrap();
    assert!(none.is_empty());
    assert_eq!(rest, &[1, 2, 3]);
}

#[test]
fn layout_from_a_whole_image() {
    let name = string_entry("main");
    let bytes = image(
        &[&name, &[0, 7, 0, 0, 0]],
        &[&function(0, &[254, 1, 254, 2, 1, 0, 254, 3, 0, 0], &[4, 26])],
    );
    let layout = FileLayout::from_bytes(&bytes).unwrap();
    assert_eq!(layout.version(), 1);
    assert_eq!(layout.constants().len(), 2);
    assert_eq!(layout.functions().len(), 1);
    assert_eq!(layout.functions()[0].code(), &[4, 26]);
}

#[test]
fn layout_header_errors() {
    assert_eq!(FileLayout::from_bytes(b"azimut").err(), Some(ParseError::TruncatedStream));
    assert_eq!(
        FileLayout::from_bytes(b"azimuth\x01\x01\0\0\0\0").err(),
        Some(ParseError::MalformedHeader)
    );
    assert_eq!(FileLayout::from_bytes(b"azimuth\0").err(), Some(ParseError::TruncatedStream));
    assert_eq!(FileLayout::from_bytes(b"azimuth\0\x01\0\0").err(), Some(ParseError::TruncatedStream));
    assert!(FileLayout::from_bytes(b"azimuth\0\x01\0\0\0\0").is_ok());
}

#[test]
fn image_truncated_by_one_byte_at_every_boundary_fails() {
    let name = string_entry("main");
    let bytes = image(
        &[&name, &[1, 1, 2, 3, 4, 5, 6, 7, 8]],
        &[&function(0, &[254, 1, 254, 2, 1, 0, 254, 3, 0, 0], &[4, 26])],
    );
    assert!(FileLayout::from_bytes(&bytes).is_ok());
    // end of: magic, version, count, string tag, string length, string bytes,
    // long entry, symbol header, name index, code length, max stack operand,
    // max locals operand, code
    for boundary in [8, 9, 13, 14, 18, 22, 31, 33, 37, 41, 47, 51, 53] {
        let cut = &bytes[..boundary - 1];
        assert!(FileLayout::from_bytes(cut).is_err(), "cut before {boundary}");
    }
}

#[test]
fn written_out_image_is_the_input() {
    let name = string_entry("main");
    let other = string_entry("");
    let bytes = image(
        &[&name, &[0, 7, 0, 0, 0], &[2, 0, 0, 128, 63], &[3, 0, 0, 0, 0, 0, 0, 240, 63], &other],
        &[
            &function(0, &[254, 1, 254, 2, 1, 0, 254, 3, 0, 0], &[4, 26]),
            &function(4, &[254, 3, 9, 0, 254, 2, 0xff, 0xff], &[0, 0, 25]),
        ],
    );
    let layout = FileLayout::from_bytes(&bytes).unwrap();
    assert_eq!(layout.serialize(), bytes);
}

#[test]
fn bytes_after_the_last_function_are_refused() {
    let name = string_entry("main");
    let clean = image(&[&name], &[&function(0, &[254, 1], &[25])]);
    assert!(FileLayout::from_bytes(&clean).is_ok());
    let mut one = clean.clone();
    one.push(254);
    assert_eq!(FileLayout::from_bytes(&one).err(), Some(ParseError::TruncatedStream));
    let mut more = clean.clone();
    more.extend_from_slice(&[1, 2, 3]);
    assert_eq!(FileLayout::from_bytes(&more).err(), Some(ParseError::MissingSymbol));
}

#[test]
fn parts_are_written_as_they_are_read() {
    let mut out = vec![9];
    write_u16(&mut out, 0x1234);
    write_u32(&mut out, 0x89AB_CDEF);
    write_u64(&mut out, 0x0102_0304_0506_0708);
    assert_eq!(out, [9, 0x34, 0x12, 0xEF, 0xCD, 0xAB, 0x89, 8, 7, 6, 5, 4, 3, 2, 1]);
    let mut entry = Vec::new();
    TableEntry::String(b"hi".to_vec()).write(&mut entry);
    TableEntry::Integer(1).write(&mut entry);
    TableEntry::Long(2).write(&mut entry);
    TableEntry::Float(3).write(&mut entry);
    TableEntry::Double(4).write(&mut entry);
    assert_eq!(
        entry,
        [
            4, 2, 0, 0, 0, b'h', b'i', 0, 1, 0, 0, 0, 1, 2, 0, 0, 0, 0, 0, 0, 0, 2, 3, 0, 0, 0, 3,
            4, 0, 0, 0, 0, 0, 0, 0
        ]
    );
    let (table, _) = Table::new(5, &entry).unwrap();
    assert_eq!(table.len(), 5);
    let mut directives = Vec::new();
    Directive::Symbol(1, 2).write(&mut directives);
    Directive::Start.write(&mut directives);
    Directive::MaxStack(3).write(&mut directives);
    Directive::MaxLocals(0x0405).write(&mut directives);
    assert_eq!(
        directives,
        [254, 0, 1, 0, 0, 0, 2, 0, 0, 0, 254, 1, 254, 2, 3, 0, 254, 3, 5, 4]
    );
    let names = Table::from_entries(vec![TableEntry::String(b"f".to_vec())]);
    let record = function(0, &[254, 1, 254, 3, 1, 0], &[25, 26]);
    let (parsed, _) = FunctionInfo::new(&record, &names).unwrap();
    let mut written = Vec::new();
    parsed.write(&mut written);
    assert_eq!(written, record);
}
