//! Byte sources that S7 values are read from, and one that lives in memory.

use crate::calendar::Timestamp;
use crate::s7_types::be_i32;
use crate::s7_types::be_u32;
use crate::s7_types::i32_at;
use crate::s7_types::s7_time;
use crate::s7_types::time_at;
use crate::s7_types::u32_at;
use vstd::prelude::*;

verus! {

/// Why a value could not be read from a byte source.
#[derive(Clone, Copy, PartialEq, Eq, Structural, Debug)]
pub enum ReadError {
    /// The eight bytes read are no timestamp: their numbers name no moment.
    InvalidData,
    /// The source ended before the value was complete.
    UnexpectedEof,
}

/// What one read of `width` bytes does to a source that still holds
/// `before`: where the bytes are there, the source loses them and `after` is
/// the rest; where they are not, the source is drained.
pub open spec fn advanced(before: Seq<u8>, width: int, after: Seq<u8>) -> bool {
    if before.len() >= width {
        after == before.skip(width)
    } else {
        after.len() == 0
    }
}

/// A source of bytes whose content is known: reading takes bytes from the
/// front of what is pending.
///
/// A read that finds too few bytes pending fails with
/// [`ReadError::UnexpectedEof`] and leaves nothing pending, as a read from a
/// connection that closed would.
pub trait S7Read {
    /// The bytes that have not been read yet.
    spec fn pending(&self) -> Seq<u8>;

    /// Reads four bytes as a big-endian signed integer.
    fn read_s7_dword_as_int(&mut self) -> (r: Result<i32, ReadError>)
        ensures
            advanced(old(self).pending(), 4, final(self).pending()),
            old(self).pending().len() >= 4 ==> r == Ok::<i32, ReadError>(
                be_i32(old(self).pending().take(4)) as i32,
            ),
            old(self).pending().len() < 4 ==> r == Err::<i32, ReadError>(ReadError::UnexpectedEof),
    ;

    /// Reads four bytes as the bit pattern of a big-endian IEEE
    /// single-precision number.
    fn read_s7_dword_as_real(&mut self) -> (r: Result<u32, ReadError>)
        ensures
            advanced(old(self).pending(), 4, final(self).pending()),
            old(self).pending().len() >= 4 ==> r == Ok::<u32, ReadError>(
                be_u32(old(self).pending().take(4)) as u32,
            ),
            old(self).pending().len() < 4 ==> r == Err::<u32, ReadError>(ReadError::UnexpectedEof),
    ;

    /// Reads an eight-byte timestamp block.
    ///
    /// The block is taken from the source whether or not it is a timestamp;
    /// one that is none gives [`ReadError::InvalidData`].
    fn read_s7_time(&mut self) -> (r: Result<Timestamp, ReadError>)
        ensures
            advanced(old(self).pending(), 8, final(self).pending()),
            old(self).pending().len() < 8 ==> r == Err::<Timestamp, ReadError>(
                ReadError::UnexpectedEof,
            ),
            old(self).pending().len() >= 8 ==> match s7_time(old(self).pending().take(8)) {
                Some(moment) => r matches Ok(t) && t@ == moment,
                None => r == Err::<Timestamp, ReadError>(ReadError::InvalidData),
            },
    ;
}

/// A byte source in memory: a buffer and how far it has been read.
pub struct ByteStream {
    bytes: Vec<u8>,
    position: usize,
}

impl View for ByteStream {
    type V = Seq<u8>;

    /// The bytes that have not been read yet.
    closed spec fn view(&self) -> Seq<u8> {
        self.bytes@.skip(self.position as int)
    }
}

impl ByteStream {
    #[verifier::type_invariant]
    spec fn within_buffer(&self) -> bool {
        self.position <= self.bytes@.len()
    }

    /// A source that will deliver `bytes`, first to last.
    pub fn new(bytes: Vec<u8>) -> (stream: ByteStream)
        ensures
            stream@ == bytes@,
    {
        ByteStream { bytes, position: 0 }
    }

    /// How many bytes have not been read yet.
    pub fn remaining(&self) -> (count: usize)
        ensures
            count == self@.len(),
    {
        proof {
            use_type_invariant(self);
        }
        self.bytes.len() - self.position
    }

    /// Moves past `width` bytes, if that many are pending, and says where
    /// they start in the buffer; drains the source otherwise.
    fn take(&mut self, width: usize) -> (start: Option<usize>)
        ensures
            advanced(old(self)@, width as int, final(self)@),
            final(self).bytes == old(self).bytes,
            old(self)@.len() >= width ==> start == Some(old(self).position) && old(self).position
                + width <= old(self).bytes@.len(),
            old(self)@.len() < width ==> start is None,
    {
        proof {
            use_type_invariant(&*self);
        }
        let start: usize = self.position;
        if self.bytes.len() - start >= width {
            self.position = start + width;
            assert(self.bytes@.skip(start as int).skip(width as int) == self.bytes@.skip(
                start + width,
            ));
            Some(start)
        } else {
            self.position = self.bytes.len();
            None
        }
    }
}

impl S7Read for ByteStream {
    open spec fn pending(&self) -> Seq<u8> {
        self@
    }

    fn read_s7_dword_as_int(&mut self) -> (r: Result<i32, ReadError>) {
        match self.take(4) {
            Some(start) => {
                assert(self.bytes@.subrange(start as int, start + 4) == old(self)@.take(4));
                Ok(i32_at(self.bytes.as_slice(), start))
            },
            None => Err(ReadError::UnexpectedEof),
        }
    }

    fn read_s7_dword_as_real(&mut self) -> (r: Result<u32, ReadError>) {
        match self.take(4) {
            Some(start) => {
                assert(self.bytes@.subrange(start as int, start + 4) == old(self)@.take(4));
                Ok(u32_at(self.bytes.as_slice(), start))
            },
            None => Err(ReadError::UnexpectedEof),
        }
    }

    fn read_s7_time(&mut self) -> (r: Result<Timestamp, ReadError>) {
        match self.take(8) {
            Some(start) => {
                assert(self.bytes@.subrange(start as int, start + 8) == old(self)@.take(8));
                match time_at(self.bytes.as_slice(), start) {
                    Some(t) => Ok(t),
                    None => Err(ReadError::InvalidData),
                }
            },
            None => Err(ReadError::UnexpectedEof),
        }
    }
}

} // verus!
