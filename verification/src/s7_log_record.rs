//! One record of the telemetry stream: how it is read from a byte source,
//! block by block, and how it is written as a line of text.

use crate::byte_stream::ReadError;
use crate::byte_stream::S7Read;
use crate::calendar::clock_text;
use crate::calendar::CivilTime;
use crate::calendar::Timestamp;
use crate::s7_types::be_i32;
use crate::s7_types::be_u32;
use crate::s7_types::i32_at;
use crate::s7_types::s7_time;
use crate::s7_types::u32_at;
use crate::s7_types::S7Type;
use vstd::prelude::*;

verus! {

/// The value of an analog channel, as the wire holds it.
#[derive(Clone, Copy, PartialEq, Eq, Structural, Debug)]
pub enum AnalogValue {
    /// A channel read as a signed integer.
    Int(i32),
    /// A channel read as an IEEE single-precision number, kept as its 32
    /// bits.
    Real(u32),
}

/// The value that four bytes hold for a channel of the given type.
pub open spec fn analog_of(tag: S7Type, bytes: Seq<u8>) -> AnalogValue {
    match tag {
        S7Type::Int => AnalogValue::Int(be_i32(bytes) as i32),
        S7Type::Real => AnalogValue::Real(be_u32(bytes) as u32),
    }
}

/// The mathematical value of a [`StreamRecord`].
pub struct RecordView {
    pub datetime: CivilTime,
    pub analog: Seq<AnalogValue>,
    pub digital: u32,
}

/// The record that a moment and the 36 bytes after its timestamp make up:
/// channel `i` is read from bytes `4 i` to `4 i + 3` as `types[i]` says, the
/// digital field from the last four bytes as an unsigned number.
pub open spec fn record_of(datetime: CivilTime, fields: Seq<u8>, types: Seq<S7Type>) -> RecordView {
    RecordView {
        datetime,
        analog: Seq::new(8, |i: int| analog_of(types[i], fields.subrange(4 * i, 4 * i + 4))),
        digital: be_u32(fields.subrange(32, 36)) as u32,
    }
}

/// A decoded record: when it was taken, eight analog channels and a field of
/// digital flags.
#[derive(Clone, Copy, PartialEq, Eq, Debug)]
pub struct StreamRecord {
    datetime: Timestamp,
    analog: [AnalogValue; 8],
    digital: u32,
}

impl View for StreamRecord {
    type V = RecordView;

    closed spec fn view(&self) -> RecordView {
        RecordView { datetime: self.datetime@, analog: self.analog@, digital: self.digital }
    }
}

/// The text `0` or `1` of bit `index` of the digital field.
pub open spec fn bit_text(digital: u32, index: int) -> Seq<char> {
    if (digital >> (index as u32)) & 1 == 1 {
        seq!['1']
    } else {
        seq!['0']
    }
}

/// The low eight bits of the digital field as eight texts, bit 0 first.
pub open spec fn bit_texts(digital: u32) -> Seq<Seq<char>> {
    Seq::new(8, |index: int| bit_text(digital, index))
}

/// The fields in a row, each followed by a comma and a space.
pub open spec fn row_text(fields: Seq<Seq<char>>) -> Seq<char>
    decreases fields.len(),
{
    if fields.len() == 0 {
        Seq::empty()
    } else {
        row_text(fields.drop_last()) + fields.last() + seq![',', ' ']
    }
}

/// The line of a record: the time of day, the eight analog channels in the
/// text given for each, and the low eight digital flags.
pub open spec fn line_text(record: RecordView, analog_text: Seq<Seq<char>>) -> Seq<char> {
    row_text(seq![clock_text(record.datetime)] + analog_text + bit_texts(record.digital))
}

/// A row grows by one field at a time.
proof fn lemma_row_text_step(fields: Seq<Seq<char>>, count: int)
    requires
        0 <= count < fields.len(),
    ensures
        row_text(fields.take(count + 1)) == row_text(fields.take(count)) + fields[count] + seq![
            ',',
            ' ',
        ],
{
    assert(fields.take(count + 1).drop_last() == fields.take(count));
}

impl StreamRecord {
    /// A record of the given parts.
    pub fn new(datetime: Timestamp, analog: [AnalogValue; 8], digital: u32) -> (record:
        StreamRecord)
        ensures
            record@ == (RecordView { datetime: datetime@, analog: analog@, digital }),
    {
        StreamRecord { datetime, analog, digital }
    }

    /// When the record was taken.
    pub fn datetime(&self) -> (r: Timestamp)
        ensures
            r@ == self@.datetime,
    {
        self.datetime
    }

    /// The eight analog channels.
    pub fn analog(&self) -> (r: [AnalogValue; 8])
        ensures
            r@ == self@.analog,
            self@.analog.len() == 8,
    {
        self.analog
    }

    /// The digital flags.
    pub fn digital(&self) -> (r: u32)
        ensures
            r == self@.digital,
    {
        self.digital
    }

    /// The low eight digital flags as text, bit 0 first, a comma and a space
    /// after each.
    pub fn digital_tail(&self) -> (tail: String)
        ensures
            tail@ == row_text(bit_texts(self@.digital)),
    {
        let mut tail: String = String::new();
        let ghost bits: Seq<Seq<char>> = bit_texts(self.digital);
        assert(bits.take(0) == Seq::<Seq<char>>::empty());
        let mut index: u32 = 0;
        while index < 8
            invariant
                index <= 8,
                bits == bit_texts(self.digital),
                tail@ == row_text(bits.take(index as int)),
            decreases 8 - index,
        {
            proof {
                lemma_row_text_step(bits, index as int);
                reveal_strlit("1");
                reveal_strlit("0");
                reveal_strlit(", ");
            }
            if (self.digital >> index) & 1 == 1 {
                tail.append("1");
            } else {
                tail.append("0");
            }
            tail.append(", ");
            assert(tail@ == row_text(bits.take(index as int)) + bits[index as int] + seq![
                ',',
                ' ',
            ]);
            index += 1;
        }
        assert(bits.take(8) == bits);
        tail
    }

    /// The record as a line of text: the time of day, the analog channels
    /// and the low eight digital flags, a comma and a space after each.
    ///
    /// The text of each analog channel is the caller's: how a number with a
    /// fraction is written is not decided here.
    pub fn to_line(&self, analog_text: &[String; 8]) -> (line: String)
        ensures
            line@ == line_text(self@, Seq::new(8, |i: int| analog_text@[i]@)),
    {
        let ghost texts: Seq<Seq<char>> = Seq::new(8, |i: int| analog_text@[i]@);
        let ghost head: Seq<Seq<char>> = seq![clock_text(self@.datetime)] + texts;
        let mut line: String = self.datetime.format_clock();
        proof {
            reveal_strlit(", ");
            lemma_row_text_step(head, 0);
            assert(head.take(0) == Seq::<Seq<char>>::empty());
        }
        line.append(", ");
        let mut channel: usize = 0;
        while channel < 8
            invariant
                channel <= 8,
                texts == Seq::new(8, |i: int| analog_text@[i]@),
                head == seq![clock_text(self@.datetime)] + texts,
                line@ == row_text(head.take(channel + 1)),
            decreases 8 - channel,
        {
            proof {
                reveal_strlit(", ");
                lemma_row_text_step(head, channel + 1);
            }
            line.append(analog_text[channel].as_str());
            line.append(", ");
            channel += 1;
        }
        assert(head.take(9) == head);
        let tail: String = self.digital_tail();
        line.append(tail.as_str());
        proof {
            lemma_row_text_joins(head, bit_texts(self@.digital));
        }
        line
    }

    /// Puts a record together from its moment and the 36 bytes that follow
    /// the timestamp.
    pub fn from_fields(datetime: Timestamp, fields: &[u8; 36], types: &[S7Type; 8]) -> (record:
        StreamRecord)
        ensures
            record@ == record_of(datetime@, fields@, types@),
    {
        assert(fields@.subrange(0, 36) == fields@);
        fields_at(datetime, fields.as_slice(), 0, types)
    }
}

/// The record of a moment and the 36 bytes of `bytes` from `at` on.
pub(crate) fn fields_at(datetime: Timestamp, bytes: &[u8], at: usize, types: &[S7Type; 8]) -> (record:
    StreamRecord)
    requires
        at + 36 <= bytes@.len(),
    ensures
        record@ == record_of(datetime@, bytes@.subrange(at as int, at + 36), types@),
{
    let ghost fields: Seq<u8> = bytes@.subrange(at as int, at + 36);
    let total: usize = bytes.len();
    let mut analog: [AnalogValue; 8] = [AnalogValue::Int(0);8];
    let mut channel: usize = 0;
    while channel < 8
        invariant
            channel <= 8,
            at + 36 <= total,
            total == bytes@.len(),
            fields == bytes@.subrange(at as int, at + 36),
            forall|i: int|
                0 <= i < channel ==> analog@[i] == analog_of(
                    types@[i],
                    fields.subrange(4 * i, 4 * i + 4),
                ),
        decreases 8 - channel,
    {
        assert(bytes@.subrange(at + 4 * channel, at + 4 * channel + 4) == fields.subrange(
            4 * channel,
            4 * channel + 4,
        ));
        let value: AnalogValue = match types[channel] {
            S7Type::Int => AnalogValue::Int(i32_at(bytes, at + 4 * channel)),
            S7Type::Real => AnalogValue::Real(u32_at(bytes, at + 4 * channel)),
        };
        analog[channel] = value;
        channel += 1;
    }
    assert(bytes@.subrange(at + 32, at + 36) == fields.subrange(32, 36));
    let digital: u32 = u32_at(bytes, at + 32);
    assert(analog@ == record_of(datetime@, fields, types@).analog);
    StreamRecord { datetime, analog, digital }
}

/// The row of two lists of fields is the row of the first followed by the
/// row of the second.
proof fn lemma_row_text_joins(first: Seq<Seq<char>>, second: Seq<Seq<char>>)
    ensures
        row_text(first + second) == row_text(first) + row_text(second),
    decreases second.len(),
{
    if second.len() == 0 {
        assert(first + second == first);
    } else {
        lemma_row_text_joins(first, second.drop_last());
        assert((first + second).drop_last() == first + second.drop_last());
    }
}

/// The 32 bits of a signed number, read as an unsigned one.
fn unsigned_of(value: i32) -> (bits: u32)
    ensures
        bits == (if value < 0 {
            value + 0x1_0000_0000
        } else {
            value as int
        }),
{
    if value < 0 {
        (value as i64 + 0x1_0000_0000) as u32
    } else {
        value as u32
    }
}

/// Where the first timestamp of `bytes` starts, when the bytes are looked at
/// in blocks of eight from the front and every block that is no timestamp is
/// passed over. `None` where the bytes run out first.
pub open spec fn sync_offset(bytes: Seq<u8>) -> Option<int>
    decreases bytes.len(),
{
    if bytes.len() < 8 {
        None
    } else if s7_time(bytes.take(8)) is Some {
        Some(0)
    } else {
        match sync_offset(bytes.skip(8)) {
            Some(offset) => Some(offset + 8),
            None => None,
        }
    }
}

/// What reading one record from `bytes` gives: the record that starts at
/// the first timestamp, and the bytes that stay pending after it. `None`
/// where the bytes run out before the record is complete.
pub open spec fn read_outcome(bytes: Seq<u8>, types: Seq<S7Type>) -> Option<(RecordView, Seq<u8>)> {
    match sync_offset(bytes) {
        Some(offset) => if offset + 44 <= bytes.len() {
            Some(
                (
                    record_of(
                        s7_time(bytes.subrange(offset, offset + 8))->0,
                        bytes.subrange(offset + 8, offset + 44),
                        types,
                    ),
                    bytes.skip(offset + 44),
                ),
            )
        } else {
            None
        },
        None => None,
    }
}

/// Block `index` of `bytes`, counting blocks of eight bytes from the front.
pub open spec fn block_at(bytes: Seq<u8>, index: int) -> Seq<u8> {
    bytes.subrange(8 * index, 8 * index + 8)
}

/// The first timestamp of `bytes` is a whole block of the bytes, and no
/// block before it is a timestamp; where there is none, no whole block is a
/// timestamp.
pub proof fn lemma_sync_offset(bytes: Seq<u8>)
    ensures
        match sync_offset(bytes) {
            Some(offset) => {
                &&& 0 <= offset
                &&& offset % 8 == 0
                &&& offset + 8 <= bytes.len()
                &&& s7_time(block_at(bytes, offset / 8)) is Some
                &&& forall|index: int|
                    0 <= index < offset / 8 ==> s7_time(#[trigger] block_at(bytes, index)) is None
            },
            None => forall|index: int|
                0 <= index && 8 * index + 8 <= bytes.len() ==> s7_time(
                    #[trigger] block_at(bytes, index),
                ) is None,
        },
    decreases bytes.len(),
{
    if bytes.len() >= 8 {
        assert(bytes.take(8) == block_at(bytes, 0));
        if s7_time(bytes.take(8)) is None {
            let rest: Seq<u8> = bytes.skip(8);
            lemma_sync_offset(rest);
            assert forall|index: int| 1 <= index && 8 * index + 8 <= bytes.len() implies (
            #[trigger] block_at(bytes, index)) == block_at(rest, index - 1) by {}
            match sync_offset(rest) {
                Some(inner) => {
                    assert(block_at(rest, inner / 8) == block_at(bytes, (inner + 8) / 8));
                    assert forall|index: int| 0 <= index < (inner + 8) / 8 implies s7_time(
                        #[trigger] block_at(bytes, index),
                    ) is None by {
                        if index >= 1 {
                            assert(s7_time(block_at(rest, index - 1)) is None);
                        }
                    }
                },
                None => {
                    assert forall|index: int|
                        0 <= index && 8 * index + 8 <= bytes.len() implies s7_time(
                        #[trigger] block_at(bytes, index),
                    ) is None by {
                        if index >= 1 {
                            assert(s7_time(block_at(rest, index - 1)) is None);
                        }
                    }
                },
            }
        }
    }
}

/// Reads eight-byte blocks until one is a timestamp.
///
/// A block that is none is dropped: the next one is read, and no error is
/// raised for it. The source is left behind the timestamp that was found, or
/// drained where it ends before one is.
pub fn sync_s7_time<R: S7Read>(stream: &mut R) -> (r: Result<Timestamp, ReadError>)
    ensures
        match sync_offset(old(stream).pending()) {
            Some(offset) => {
                &&& 0 <= offset && offset + 8 <= old(stream).pending().len()
                &&& r matches Ok(t) && Some(t@) == s7_time(
                    old(stream).pending().subrange(offset, offset + 8),
                )
                &&& final(stream).pending() == old(stream).pending().skip(offset + 8)
            },
            None => {
                &&& r == Err::<Timestamp, ReadError>(ReadError::UnexpectedEof)
                &&& final(stream).pending().len() == 0
            },
        },
{
    let ghost start: Seq<u8> = stream.pending();
    let ghost mut offset: int = 0;
    let mut found: Option<Timestamp> = None;
    assert(start.skip(0) == start);
    while found.is_none()
        invariant
            start == old(stream).pending(),
            0 <= offset <= start.len(),
            found is None ==> stream.pending() == start.skip(offset),
            found is None ==> sync_offset(start) == (match sync_offset(stream.pending()) {
                Some(k) => Some(k + offset),
                None => None,
            }),
            found matches Some(t) ==> {
                &&& sync_offset(start) == Some(offset)
                &&& offset + 8 <= start.len()
                &&& stream.pending() == start.skip(offset + 8)
                &&& Some(t@) == s7_time(start.subrange(offset, offset + 8))
            },
        decreases stream.pending().len() + (if found is None { 1int } else { 0int }),
    {
        let ghost before: Seq<u8> = stream.pending();
        match stream.read_s7_time() {
            Ok(t) => {
                assert(before.take(8) == start.subrange(offset, offset + 8));
                assert(before.skip(8) == start.skip(offset + 8));
                found = Some(t);
            },
            Err(e) => {
                match e {
                    ReadError::InvalidData => {
                        assert(before.skip(8) == start.skip(offset + 8));
                        proof {
                            offset = offset + 8;
                        }
                    },
                    ReadError::UnexpectedEof => {
                        return Err(e);
                    },
                }
            },
        }
    }
    match found {
        Some(t) => Ok(t),
        None => Err(ReadError::UnexpectedEof),
    }
}

/// Reads the 36 bytes that follow a timestamp: the eight analog channels, as
/// `types` says, and the digital field as an unsigned number.
pub fn read_s7_fields<R: S7Read>(stream: &mut R, datetime: Timestamp, types: &[S7Type; 8]) -> (r:
    Result<StreamRecord, ReadError>)
    ensures
        old(stream).pending().len() >= 36 ==> {
            &&& r matches Ok(read) && read@ == record_of(
                datetime@,
                old(stream).pending().take(36),
                types@,
            )
            &&& final(stream).pending() == old(stream).pending().skip(36)
        },
        old(stream).pending().len() < 36 ==> {
            &&& r == Err::<StreamRecord, ReadError>(ReadError::UnexpectedEof)
            &&& final(stream).pending().len() == 0
        },
{
    let ghost start: Seq<u8> = stream.pending();
    let mut analog: [AnalogValue; 8] = [AnalogValue::Int(0);8];
    let mut channel: usize = 0;
    assert(start.skip(0) == start);
    while channel < 8
        invariant
            channel <= 8,
            start == old(stream).pending(),
            4 * channel <= start.len(),
            stream.pending() == start.skip(4 * channel),
            forall|i: int|
                0 <= i < channel ==> analog@[i] == analog_of(
                    types@[i],
                    start.subrange(4 * i, 4 * i + 4),
                ),
        decreases 8 - channel,
    {
        let ghost before: Seq<u8> = stream.pending();
        assert(before.len() >= 4 ==> before.take(4) == start.subrange(
            4 * channel,
            4 * channel + 4,
        ));
        assert(before.len() >= 4 ==> before.skip(4) == start.skip(4 * (channel + 1)));
        let value: AnalogValue = match types[channel] {
            S7Type::Int => match stream.read_s7_dword_as_int() {
                Ok(v) => AnalogValue::Int(v),
                Err(e) => {
                    return Err(e);
                },
            },
            S7Type::Real => match stream.read_s7_dword_as_real() {
                Ok(bits) => AnalogValue::Real(bits),
                Err(e) => {
                    return Err(e);
                },
            },
        };
        analog[channel] = value;
        channel += 1;
    }
    let ghost before: Seq<u8> = stream.pending();
    assert(before.len() >= 4 ==> before.take(4) == start.subrange(32, 36));
    assert(before.len() >= 4 ==> before.skip(4) == start.skip(36));
    let digital: u32 = match stream.read_s7_dword_as_int() {
        Ok(v) => unsigned_of(v),
        Err(e) => {
            return Err(e);
        },
    };
    proof {
        let fields: Seq<u8> = start.take(36);
        assert(fields.subrange(32, 36) == start.subrange(32, 36));
        assert forall|i: int| 0 <= i < 8 implies #[trigger] analog@[i] == analog_of(
            types@[i],
            fields.subrange(4 * i, 4 * i + 4),
        ) by {
            assert(fields.subrange(4 * i, 4 * i + 4) == start.subrange(4 * i, 4 * i + 4));
        }
        assert(analog@ == record_of(datetime@, fields, types@).analog);
    }
    Ok(StreamRecord { datetime, analog, digital })
}

/// Reads one record from a byte source.
///
/// Eight-byte blocks are read until one is a timestamp; a block that is none
/// is dropped and costs no error. Then the eight analog channels are read as
/// `types` says, and the digital field as an unsigned number. A source that
/// ends before the record is complete gives [`ReadError::UnexpectedEof`],
/// and no part of a record.
pub fn read_s7_record<R: S7Read>(stream: &mut R, types: &[S7Type; 8]) -> (r: Result<
    StreamRecord,
    ReadError,
>)
    ensures
        match read_outcome(old(stream).pending(), types@) {
            Some((record, rest)) => {
                &&& r matches Ok(read) && read@ == record
                &&& final(stream).pending() == rest
            },
            None => {
                &&& r == Err::<StreamRecord, ReadError>(ReadError::UnexpectedEof)
                &&& final(stream).pending().len() == 0
            },
        },
{
    let ghost start: Seq<u8> = stream.pending();
    let datetime: Timestamp = match sync_s7_time(stream) {
        Ok(t) => t,
        Err(e) => {
            return Err(e);
        },
    };
    proof {
        let offset: int = sync_offset(start)->0;
        let rest: Seq<u8> = start.skip(offset + 8);
        if offset + 44 <= start.len() {
            assert(rest.take(36) == start.subrange(offset + 8, offset + 44));
            assert(rest.skip(36) == start.skip(offset + 44));
        }
    }
    read_s7_fields(stream, datetime, types)
}

} // verus!
