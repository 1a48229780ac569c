//! Little-endian integers at the front of a byte sequence.

use vstd::prelude::*;

verus! {

/// Why an image could not be decoded.
#[derive(Clone, Copy, Debug, PartialEq, Eq, Structural)]
pub enum ParseError {
    /// The first eight bytes are not the magic number.
    MalformedHeader,
    /// The input ends inside a record.
    TruncatedStream,
    /// A constant entry carries a tag that names no kind of constant.
    UnknownConstant,
    /// A function record does not begin with a symbol directive.
    MissingSymbol,
    /// A symbol directive names a constant that the table does not hold.
    BadIndex,
    /// A symbol directive names a constant that is no string.
    NameNotString,
    /// A function record holds a second symbol directive.
    DuplicateSymbol,
    /// A directive carries a sub-code that names no directive.
    UnknownDirective,
}

/// The 16-bit value of the first two bytes, least significant first.
pub open spec fn le_u16(bytes: Seq<u8>) -> u16
    recommends
        bytes.len() >= 2,
{
    (bytes[0] as int + 0x100 * bytes[1] as int) as u16
}

/// The 32-bit value of the first four bytes, least significant first.
pub open spec fn le_u32(bytes: Seq<u8>) -> u32
    recommends
        bytes.len() >= 4,
{
    (bytes[0] as int + 0x100 * bytes[1] as int + 0x1_0000 * bytes[2] as int + 0x100_0000
        * bytes[3] as int) as u32
}

/// The 64-bit value of the first eight bytes, least significant first.
pub open spec fn le_u64(bytes: Seq<u8>) -> u64
    recommends
        bytes.len() >= 8,
{
    (le_u32(bytes) as int + 0x1_0000_0000 * le_u32(bytes.skip(4)) as int) as u64
}

/// The two bytes of `value`, least significant first.
pub open spec fn u16_bytes(value: u16) -> Seq<u8> {
    seq![(value % 0x100) as u8, (value / 0x100) as u8]
}

/// The four bytes of `value`, least significant first.
pub open spec fn u32_bytes(value: u32) -> Seq<u8> {
    seq![
        (value % 0x100) as u8,
        (value / 0x100 % 0x100) as u8,
        (value / 0x1_0000 % 0x100) as u8,
        (value / 0x100_0000) as u8,
    ]
}

/// The eight bytes of `value`, least significant first.
pub open spec fn u64_bytes(value: u64) -> Seq<u8> {
    u32_bytes((value % 0x1_0000_0000) as u32) + u32_bytes((value / 0x1_0000_0000) as u32)
}

/// What is read off the front of `bytes` as a 16-bit integer, and what is left.
pub open spec fn take_u16(bytes: Seq<u8>) -> Result<(u16, Seq<u8>), ParseError> {
    if bytes.len() < 2 {
        Err(ParseError::TruncatedStream)
    } else {
        Ok((le_u16(bytes), bytes.skip(2)))
    }
}

/// What is read off the front of `bytes` as a 32-bit integer, and what is left.
pub open spec fn take_u32(bytes: Seq<u8>) -> Result<(u32, Seq<u8>), ParseError> {
    if bytes.len() < 4 {
        Err(ParseError::TruncatedStream)
    } else {
        Ok((le_u32(bytes), bytes.skip(4)))
    }
}

/// What is read off the front of `bytes` as a 64-bit integer, and what is left.
pub open spec fn take_u64(bytes: Seq<u8>) -> Result<(u64, Seq<u8>), ParseError> {
    if bytes.len() < 8 {
        Err(ParseError::TruncatedStream)
    } else {
        Ok((le_u64(bytes), bytes.skip(8)))
    }
}

/// What is read off the front of `bytes` as a single byte, and what is left.
pub open spec fn take_u8(bytes: Seq<u8>) -> Result<(u8, Seq<u8>), ParseError> {
    if bytes.len() < 1 {
        Err(ParseError::TruncatedStream)
    } else {
        Ok((bytes[0], bytes.skip(1)))
    }
}

/// The outcome of an executable parser, with the rest of the input as a
/// sequence.
pub open spec fn parsed<T>(outcome: Result<(T, &[u8]), ParseError>) -> Result<
    (T, Seq<u8>),
    ParseError,
> {
    match outcome {
        Ok((value, rest)) => Ok((value, rest@)),
        Err(error) => Err(error),
    }
}

/// Splits one byte off the front of `input`.
pub fn split_u8(input: &[u8]) -> (outcome: Result<(u8, &[u8]), ParseError>)
    ensures
        parsed(outcome) == take_u8(input@),
{
    if input.len() < 1 {
        return Err(ParseError::TruncatedStream);
    }
    let (head, rest) = input.split_at(1);
    assert(rest@ == input@.skip(1));
    Ok((head[0], rest))
}

/// Splits a little-endian 16-bit integer off the front of `input`.
pub fn split_u16(input: &[u8]) -> (outcome: Result<(u16, &[u8]), ParseError>)
    ensures
        parsed(outcome) == take_u16(input@),
{
    if input.len() < 2 {
        return Err(ParseError::TruncatedStream);
    }
    let (head, rest) = input.split_at(2);
    assert(rest@ == input@.skip(2));
    let value: u16 = head[0] as u16 + 0x100 * (head[1] as u16);
    Ok((value, rest))
}

/// Splits a little-endian 32-bit integer off the front of `input`.
pub fn split_u32(input: &[u8]) -> (outcome: Result<(u32, &[u8]), ParseError>)
    ensures
        parsed(outcome) == take_u32(input@),
{
    if input.len() < 4 {
        return Err(ParseError::TruncatedStream);
    }
    let (head, rest) = input.split_at(4);
    assert(rest@ == input@.skip(4));
    let value: u32 = head[0] as u32 + 0x100 * (head[1] as u32) + 0x1_0000 * (head[2] as u32)
        + 0x100_0000 * (head[3] as u32);
    Ok((value, rest))
}

/// Splits a little-endian 64-bit integer off the front of `input`.
pub fn split_u64(input: &[u8]) -> (outcome: Result<(u64, &[u8]), ParseError>)
    ensures
        parsed(outcome) == take_u64(input@),
{
    if input.len() < 8 {
        return Err(ParseError::TruncatedStream);
    }
    let (head, rest) = input.split_at(8);
    assert(rest@ == input@.skip(8));
    let low: u32 = head[0] as u32 + 0x100 * (head[1] as u32) + 0x1_0000 * (head[2] as u32)
        + 0x100_0000 * (head[3] as u32);
    let high: u32 = head[4] as u32 + 0x100 * (head[5] as u32) + 0x1_0000 * (head[6] as u32)
        + 0x100_0000 * (head[7] as u32);
    let value: u64 = low as u64 + 0x1_0000_0000 * (high as u64);
    Ok((value, rest))
}

/// The bytes of the 16-bit integer read off `bytes` are its first two bytes.
pub proof fn lemma_u16_bytes_read(bytes: Seq<u8>)
    requires
        bytes.len() >= 2,
    ensures
        u16_bytes(le_u16(bytes)) == bytes.take(2),
{
    assert(u16_bytes(le_u16(bytes)) =~= bytes.take(2));
}

/// The base-256 digits of a four-digit number are the digits it was built from.
proof fn lemma_four_digits(d0: int, d1: int, d2: int, d3: int)
    requires
        0 <= d0 < 0x100,
        0 <= d1 < 0x100,
        0 <= d2 < 0x100,
        0 <= d3 < 0x100,
    ensures
        ({
            let value = d0 + 0x100 * d1 + 0x1_0000 * d2 + 0x100_0000 * d3;
            &&& 0 <= value < 0x1_0000_0000
            &&& value % 0x100 == d0
            &&& value / 0x100 % 0x100 == d1
            &&& value / 0x1_0000 % 0x100 == d2
            &&& value / 0x100_0000 == d3
        }),
{
    let value = d0 + 0x100 * d1 + 0x1_0000 * d2 + 0x100_0000 * d3;
    assert(value / 0x100 == d1 + 0x100 * d2 + 0x1_0000 * d3);
    assert(value / 0x1_0000 == d2 + 0x100 * d3);
    assert(value / 0x100_0000 == d3);
}

/// The bytes of the 32-bit integer read off `bytes` are its first four bytes.
pub proof fn lemma_u32_bytes_read(bytes: Seq<u8>)
    requires
        bytes.len() >= 4,
    ensures
        u32_bytes(le_u32(bytes)) == bytes.take(4),
{
    lemma_four_digits(bytes[0] as int, bytes[1] as int, bytes[2] as int, bytes[3] as int);
    let value = le_u32(bytes);
    let written = u32_bytes(value);
    assert(written[0] == bytes[0]);
    assert(written[1] == bytes[1]);
    assert(written[2] == bytes[2]);
    assert(written[3] == bytes[3]);
    assert(written =~= bytes.take(4));
}

/// The halves of a number built from two 32-bit halves are those halves.
proof fn lemma_two_halves(low: int, high: int)
    requires
        0 <= low < 0x1_0000_0000,
        0 <= high < 0x1_0000_0000,
    ensures
        0 <= low + 0x1_0000_0000 * high < 0x1_0000_0000_0000_0000,
        (low + 0x1_0000_0000 * high) % 0x1_0000_0000 == low,
        (low + 0x1_0000_0000 * high) / 0x1_0000_0000 == high,
{
}

/// The bytes of the 64-bit integer read off `bytes` are its first eight bytes.
pub proof fn lemma_u64_bytes_read(bytes: Seq<u8>)
    requires
        bytes.len() >= 8,
    ensures
        u64_bytes(le_u64(bytes)) == bytes.take(8),
{
    let tail = bytes.skip(4);
    let low = le_u32(bytes);
    let high = le_u32(tail);
    lemma_two_halves(low as int, high as int);
    let value = le_u64(bytes);
    assert(value == low + 0x1_0000_0000 * high);
    assert((value % 0x1_0000_0000) as u32 == low);
    assert((value / 0x1_0000_0000) as u32 == high);
    assert(u64_bytes(value) == u32_bytes(low) + u32_bytes(high));
    lemma_u32_bytes_read(bytes);
    lemma_u32_bytes_read(tail);
    assert(bytes.take(4) + tail.take(4) =~= bytes.take(8));
}

} // verus!
