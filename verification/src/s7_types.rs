//! The field encodings of an S7 record: type tags, packed decimals,
//! big-endian double words and the eight-byte timestamp.

use crate::calendar::CivilTime;
use crate::calendar::Timestamp;
use vstd::prelude::*;

verus! {

/// How the four bytes of an analog channel are to be read.
#[derive(Clone, Copy, PartialEq, Eq, Structural, Debug)]
pub enum S7Type {
    /// A signed 32-bit integer.
    Int,
    /// An IEEE single-precision number.
    Real,
}

/// Why a text is no type tag.
#[derive(Clone, Copy, PartialEq, Eq, Structural, Debug)]
pub enum S7TypeError {
    /// The text is neither `int` nor `real`.
    TypeParseError,
}

/// `text` without the white space at its two ends, as `str::trim` leaves it.
pub uninterp spec fn trimmed(text: Seq<char>) -> Seq<char>;

/// `text` in lower case, as `str::to_lowercase` writes it.
pub uninterp spec fn lowercased(text: Seq<char>) -> Seq<char>;

/// Calls `str::trim`.
///
/// Trusted: the result is a function of the text alone, named [`trimmed`].
#[verifier::external_body]
fn trim(text: &str) -> (inner: &str)
    ensures
        inner@ == trimmed(text@),
{
    text.trim()
}

/// Calls `str::to_lowercase`.
///
/// Trusted: the result is a function of the text alone, named
/// [`lowercased`].
#[verifier::external_body]
fn to_lowercase(text: &str) -> (lower: String)
    ensures
        lower@ == lowercased(text@),
{
    text.to_lowercase()
}

/// The tag that a token names: `int` or `real`, letter for letter.
pub open spec fn tag_of(token: Seq<char>) -> Result<S7Type, S7TypeError> {
    if token == "int"@ {
        Ok(S7Type::Int)
    } else if token == "real"@ {
        Ok(S7Type::Real)
    } else {
        Err(S7TypeError::TypeParseError)
    }
}

/// The token that a text is read as: trimmed, then put in lower case.
pub open spec fn normalized(text: Seq<char>) -> Seq<char> {
    lowercased(trimmed(text))
}

impl S7Type {
    /// Reads a token that is already trimmed and in lower case.
    pub fn from_token(token: &str) -> (tag: Result<S7Type, S7TypeError>)
        ensures
            tag == tag_of(token@),
    {
        let given: String = token.to_owned();
        let int_name: String = "int".to_owned();
        let real_name: String = "real".to_owned();
        if given == int_name {
            Ok(S7Type::Int)
        } else if given == real_name {
            Ok(S7Type::Real)
        } else {
            Err(S7TypeError::TypeParseError)
        }
    }

    /// Reads a tag from a text, ignoring white space around it and the case
    /// of its letters.
    pub fn from_str(s: &str) -> (tag: Result<S7Type, S7TypeError>)
        ensures
            tag == tag_of(normalized(s@)),
    {
        let lower: String = to_lowercase(trim(s));
        S7Type::from_token(lower.as_str())
    }

    /// Reads a tag as [`S7Type::from_str`] does, and takes `Int` where the
    /// text names none.
    pub fn from_str_or_int(s: &str) -> (tag: S7Type)
        ensures
            tag == tag_or_int(s@),
    {
        match S7Type::from_str(s) {
            Ok(t) => t,
            Err(_) => S7Type::Int,
        }
    }
}

/// The tag that a text of a format list stands for: the one it names, and
/// `Int` where it names none.
pub open spec fn tag_or_int(text: Seq<char>) -> S7Type {
    match tag_of(normalized(text)) {
        Ok(t) => t,
        Err(_) => S7Type::Int,
    }
}

/// The number that a byte holds as two packed decimal digits.
pub open spec fn bcd(b: u8) -> int {
    10 * (b as int / 16) + b as int % 16
}

/// The upper four bits of a byte.
pub open spec fn high_nibble(b: u8) -> int {
    b as int / 16
}

/// Decodes a byte of two packed decimal digits.
pub fn bcd_to_dec(b: u8) -> (r: u8)
    ensures
        r == bcd(b),
{
    let high: u8 = b >> 4;
    let low: u8 = b & 0xF;
    assert(high == b / 16) by (bit_vector)
        requires
            high == b >> 4,
    ;
    assert(low == b % 16) by (bit_vector)
        requires
            low == b & 0xF,
    ;
    10 * high + low
}

/// The upper decimal digit of a packed byte.
pub fn bcd_to_dec_high(b: u8) -> (r: u8)
    ensures
        r == high_nibble(b),
{
    let high: u8 = b >> 4;
    assert(high == b / 16) by (bit_vector)
        requires
            high == b >> 4,
    ;
    high
}

/// The unsigned number that four bytes hold, most significant byte first.
pub open spec fn be_u32(bytes: Seq<u8>) -> int {
    bytes[0] as int * 0x100_0000 + bytes[1] as int * 0x1_0000 + bytes[2] as int * 0x100
        + bytes[3] as int
}

/// The signed number that four bytes hold in two's complement, most
/// significant byte first.
pub open spec fn be_i32(bytes: Seq<u8>) -> int {
    if be_u32(bytes) >= 0x8000_0000 {
        be_u32(bytes) - 0x1_0000_0000
    } else {
        be_u32(bytes)
    }
}

/// The four bytes, most significant first, of a number below 2^32.
pub open spec fn be_bytes(value: int) -> Seq<u8> {
    seq![
        (value / 0x100_0000) as u8,
        (value / 0x1_0000 % 0x100) as u8,
        (value / 0x100 % 0x100) as u8,
        (value % 0x100) as u8,
    ]
}

/// The four bytes, most significant first, of a signed 32-bit number in
/// two's complement.
pub open spec fn be_bytes_signed(value: int) -> Seq<u8> {
    if value < 0 {
        be_bytes(value + 0x1_0000_0000)
    } else {
        be_bytes(value)
    }
}

/// The bytes `at`, `at + 1`, `at + 2` and `at + 3` as an unsigned number.
pub(crate) fn u32_at(bytes: &[u8], at: usize) -> (r: u32)
    requires
        at + 4 <= bytes@.len(),
    ensures
        r == be_u32(bytes@.subrange(at as int, at + 4)),
{
    let b0: u32 = bytes[at] as u32;
    let b1: u32 = bytes[at + 1] as u32;
    let b2: u32 = bytes[at + 2] as u32;
    let b3: u32 = bytes[at + 3] as u32;
    b0 * 0x100_0000 + b1 * 0x1_0000 + b2 * 0x100 + b3
}

/// The bytes `at` to `at + 3` as a signed number.
pub(crate) fn i32_at(bytes: &[u8], at: usize) -> (r: i32)
    requires
        at + 4 <= bytes@.len(),
    ensures
        r == be_i32(bytes@.subrange(at as int, at + 4)),
{
    let raw: u32 = u32_at(bytes, at);
    if raw >= 0x8000_0000 {
        let low: i32 = (raw - 0x8000_0000) as i32;
        low + i32::MIN
    } else {
        raw as i32
    }
}

/// Reads four bytes as a big-endian signed integer.
pub fn decode_s7_dword_as_int(bytes: &[u8; 4]) -> (r: i32)
    ensures
        r == be_i32(bytes@),
{
    assert(bytes@.subrange(0, 4) == bytes@);
    i32_at(bytes.as_slice(), 0)
}

/// Reads four bytes as the bit pattern of a big-endian IEEE
/// single-precision number.
pub fn decode_s7_dword_as_real(bytes: &[u8; 4]) -> (bits: u32)
    ensures
        bits == be_u32(bytes@),
{
    assert(bytes@.subrange(0, 4) == bytes@);
    u32_at(bytes.as_slice(), 0)
}

/// The seven numbers that an eight-byte timestamp block spells out.
///
/// Bytes 0 to 5 hold year within the century, month, day, hour, minute and
/// second as packed decimals. Byte 6 holds the tens of milliseconds in the
/// same way, and the upper half of byte 7 one more digit.
pub open spec fn s7_time_fields(block: Seq<u8>) -> CivilTime {
    CivilTime {
        year: 2000 + bcd(block[0]),
        month: bcd(block[1]),
        day: bcd(block[2]),
        hour: bcd(block[3]),
        minute: bcd(block[4]),
        second: bcd(block[5]),
        millisecond: bcd(block[6]) * 10 + high_nibble(block[7]),
    }
}

/// The moment that a timestamp block holds, if its numbers name one.
pub open spec fn s7_time(block: Seq<u8>) -> Option<CivilTime> {
    if s7_time_fields(block).is_moment() {
        Some(s7_time_fields(block))
    } else {
        None
    }
}

/// The timestamp in the eight bytes from `at` on.
pub(crate) fn time_at(bytes: &[u8], at: usize) -> (r: Option<Timestamp>)
    requires
        at + 8 <= bytes@.len(),
    ensures
        r is Some <==> s7_time(bytes@.subrange(at as int, at + 8)) is Some,
        r matches Some(t) ==> Some(t@) == s7_time(bytes@.subrange(at as int, at + 8)),
{
    let year: i32 = 2000 + bcd_to_dec(bytes[at]) as i32;
    let month: u32 = bcd_to_dec(bytes[at + 1]) as u32;
    let day: u32 = bcd_to_dec(bytes[at + 2]) as u32;
    let hour: u32 = bcd_to_dec(bytes[at + 3]) as u32;
    let minute: u32 = bcd_to_dec(bytes[at + 4]) as u32;
    let second: u32 = bcd_to_dec(bytes[at + 5]) as u32;
    let millisecond: u32 = bcd_to_dec(bytes[at + 6]) as u32 * 10 + bcd_to_dec_high(
        bytes[at + 7],
    ) as u32;
    Timestamp::new(year, month, day, hour, minute, second, millisecond)
}

/// Reads an eight-byte timestamp block.
///
/// The result is `None` where the numbers in the block name no moment: a
/// month 13, a 30th of February, an hour 24.
pub fn decode_s7_time(block: &[u8; 8]) -> (r: Option<Timestamp>)
    ensures
        r is Some <==> s7_time(block@) is Some,
        r matches Some(t) ==> Some(t@) == s7_time(block@),
{
    assert(block@.subrange(0, 8) == block@);
    time_at(block.as_slice(), 0)
}

/// The byte that holds a number below 100 as two packed decimal digits.
pub open spec fn bcd_byte(n: int) -> u8 {
    (n / 10 * 16 + n % 10) as u8
}

/// The timestamp block of a moment of this century with less than 1000
/// milliseconds. The lower half of the last byte is not part of the moment;
/// the device keeps the day of the week there.
pub open spec fn s7_time_block(t: CivilTime, weekday: int) -> Seq<u8> {
    seq![
        bcd_byte(t.year - 2000),
        bcd_byte(t.month),
        bcd_byte(t.day),
        bcd_byte(t.hour),
        bcd_byte(t.minute),
        bcd_byte(t.second),
        bcd_byte(t.millisecond / 10),
        (t.millisecond % 10 * 16 + weekday) as u8,
    ]
}

/// Packing a number below 100 into a byte and decoding the byte gives the
/// number.
pub proof fn lemma_bcd_round_trip(n: int)
    requires
        0 <= n <= 99,
    ensures
        bcd(bcd_byte(n)) == n,
{
}

/// A block that holds a moment of the calendar, with less than 1000
/// milliseconds, is read as exactly that moment.
pub proof fn lemma_time_round_trip(t: CivilTime, weekday: int)
    requires
        t.is_moment(),
        2000 <= t.year <= 2099,
        t.millisecond <= 999,
        0 <= weekday <= 15,
    ensures
        s7_time_block(t, weekday).len() == 8,
        s7_time(s7_time_block(t, weekday)) == Some(t),
{
    let block: Seq<u8> = s7_time_block(t, weekday);
    lemma_bcd_round_trip(t.year - 2000);
    lemma_bcd_round_trip(t.month);
    lemma_bcd_round_trip(t.day);
    lemma_bcd_round_trip(t.hour);
    lemma_bcd_round_trip(t.minute);
    lemma_bcd_round_trip(t.second);
    lemma_bcd_round_trip(t.millisecond / 10);
    assert(high_nibble(block[7]) == t.millisecond % 10);
    assert(s7_time_fields(block) == t);
}

/// A timestamp block that spells a date which the calendar does not have is
/// read as no moment.
pub proof fn lemma_impossible_date_is_refused(block: Seq<u8>)
    requires
        !crate::calendar::date_exists(
            s7_time_fields(block).year,
            s7_time_fields(block).month,
            s7_time_fields(block).day,
        ),
    ensures
        s7_time(block) is None,
{
}

/// Writing a number below 2^32 as four big-endian bytes and reading them
/// back gives the number.
proof fn lemma_be_round_trip(value: int)
    requires
        0 <= value < 0x1_0000_0000,
    ensures
        be_bytes(value).len() == 4,
        be_u32(be_bytes(value)) == value,
{
    let low: int = value / 0x100;
    let mid: int = low / 0x100;
    let high: int = mid / 0x100;
    assert(value == 0x100 * low + value % 0x100);
    assert(low == 0x100 * mid + low % 0x100);
    assert(mid == 0x100 * high + mid % 0x100);
    assert(mid == value / 0x1_0000);
    assert(high == value / 0x100_0000);
    assert(0 <= high < 0x100);
    let bytes: Seq<u8> = be_bytes(value);
    assert(bytes[0] as int == high);
    assert(bytes[1] as int == mid % 0x100);
    assert(bytes[2] as int == low % 0x100);
    assert(bytes[3] as int == value % 0x100);
}

/// Writing a signed 32-bit number as four big-endian bytes and reading them
/// back gives the number.
pub proof fn lemma_int_round_trip(value: i32)
    ensures
        be_bytes_signed(value as int).len() == 4,
        be_i32(be_bytes_signed(value as int)) == value,
{
    if value < 0 {
        lemma_be_round_trip(value + 0x1_0000_0000);
    } else {
        lemma_be_round_trip(value as int);
    }
}

/// Writing a 32-bit pattern as four big-endian bytes and reading them back
/// gives the pattern.
pub proof fn lemma_bits_round_trip(bits: u32)
    ensures
        be_bytes(bits as int).len() == 4,
        be_u32(be_bytes(bits as int)) == bits,
{
    lemma_be_round_trip(bits as int);
}

} // verus!
