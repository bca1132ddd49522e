//! Decoding a record from a live connection, one block at a time.
//!
//! The decoder reads nothing itself. It says how many bytes it wants next,
//! is handed that block, and says what the block was: whoever owns the
//! connection does the reading, and may wait as long as the peer takes.

use crate::calendar::CivilTime;
use crate::calendar::Timestamp;
use crate::s7_log_record::block_at;
use crate::s7_log_record::fields_at;
use crate::s7_log_record::lemma_sync_offset;
use crate::s7_log_record::read_outcome;
use crate::s7_log_record::record_of;
use crate::s7_log_record::sync_offset;
use crate::s7_log_record::RecordView;
use crate::s7_log_record::StreamRecord;
use crate::s7_types::s7_time;
use crate::s7_types::time_at;
use crate::s7_types::S7Type;
use vstd::prelude::*;

verus! {

/// The mathematical value of a [`RecordDecoder`]: the types of the eight
/// channels, and the moment of the record under way, if its timestamp has
/// been accepted.
pub struct DecoderView {
    pub types: Seq<S7Type>,
    pub datetime: Option<CivilTime>,
}

/// How many bytes the decoder wants next: the eight of a timestamp, or the
/// 36 that follow one.
pub open spec fn wanted(state: DecoderView) -> int {
    if state.datetime is None {
        8
    } else {
        36
    }
}

/// The state after a block of the wanted length: a timestamp starts a
/// record, a block that is none changes nothing, and the fields finish the
/// record.
pub open spec fn fed(state: DecoderView, block: Seq<u8>) -> DecoderView {
    match state.datetime {
        None => DecoderView { types: state.types, datetime: s7_time(block) },
        Some(_) => DecoderView { types: state.types, datetime: None },
    }
}

/// The record that a block of the wanted length completes, if it does.
pub open spec fn yielded(state: DecoderView, block: Seq<u8>) -> Option<RecordView> {
    match state.datetime {
        None => None,
        Some(moment) => Some(record_of(moment, block, state.types)),
    }
}

/// What a block was to the decoder.
#[derive(Clone, Copy, PartialEq, Eq, Debug)]
pub enum Step {
    /// The block is no timestamp. It is dropped, and the next eight bytes
    /// are tried: the stream may be out of step, and this is how the decoder
    /// finds its way back.
    Rejected,
    /// The block is a timestamp: the 36 bytes of the fields are wanted next.
    Accepted,
    /// The block held the fields: the record is complete.
    Record(StreamRecord),
    /// The block has not the length that was wanted. Nothing has changed.
    Misfit,
}

/// The decoding of one record after the other from blocks of bytes.
pub struct RecordDecoder {
    types: [S7Type; 8],
    datetime: Option<Timestamp>,
}

impl View for RecordDecoder {
    type V = DecoderView;

    closed spec fn view(&self) -> DecoderView {
        DecoderView {
            types: self.types@,
            datetime: match self.datetime {
                Some(t) => Some(t@),
                None => None,
            },
        }
    }
}

impl RecordDecoder {
    /// A decoder that waits for a timestamp.
    pub fn new(types: &[S7Type; 8]) -> (decoder: RecordDecoder)
        ensures
            decoder@ == (DecoderView { types: types@, datetime: None }),
    {
        RecordDecoder { types: *types, datetime: None }
    }

    /// How many bytes the next block must hold.
    pub fn wanted(&self) -> (count: usize)
        ensures
            count == wanted(self@),
    {
        match self.datetime {
            None => 8,
            Some(_) => 36,
        }
    }

    /// Takes the next block.
    pub fn feed(&mut self, block: &[u8]) -> (step: Step)
        ensures
            block@.len() != wanted(old(self)@) ==> step == Step::Misfit && final(self)@ == old(
                self,
            )@,
            block@.len() == wanted(old(self)@) ==> {
                &&& final(self)@ == fed(old(self)@, block@)
                &&& match yielded(old(self)@, block@) {
                    Some(record) => step matches Step::Record(read) && read@ == record,
                    None => if s7_time(block@) is Some {
                        step == Step::Accepted
                    } else {
                        step == Step::Rejected
                    },
                }
            },
    {
        if block.len() != self.wanted() {
            return Step::Misfit;
        }
        assert(block@.subrange(0, block@.len() as int) == block@);
        match self.datetime {
            None => {
                let found: Option<Timestamp> = time_at(block, 0);
                self.datetime = found;
                match found {
                    Some(_) => Step::Accepted,
                    None => Step::Rejected,
                }
            },
            Some(moment) => {
                let record: StreamRecord = fields_at(moment, block, 0, &self.types);
                self.datetime = None;
                Step::Record(record)
            },
        }
    }
}

/// A decoder that is fed the blocks of a stream, as it asks for them, comes
/// to the record that reading the stream gives: it passes over every block
/// before the first timestamp, accepts that one, and completes the record
/// with the 36 bytes behind it.
pub proof fn lemma_decoder_follows_stream(bytes: Seq<u8>, types: Seq<S7Type>)
    requires
        read_outcome(bytes, types) is Some,
    ensures
        ({
            let idle = DecoderView { types, datetime: None };
            let offset = sync_offset(bytes)->0;
            let started = fed(idle, block_at(bytes, offset / 8));
            let outcome = read_outcome(bytes, types)->0;
            &&& forall|index: int|
                0 <= index < offset / 8 ==> fed(idle, #[trigger] block_at(bytes, index)) == idle
            &&& started.datetime is Some
            &&& yielded(started, bytes.subrange(offset + 8, offset + 44)) == Some(outcome.0)
            &&& fed(started, bytes.subrange(offset + 8, offset + 44)) == idle
        }),
{
    lemma_sync_offset(bytes);
    let offset = sync_offset(bytes)->0;
    assert(block_at(bytes, offset / 8) == bytes.subrange(offset, offset + 8));
}

} // verus!
