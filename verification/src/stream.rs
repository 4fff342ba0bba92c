use crate::endian::{be_u24, be_u32, be_u64, be_value};
use crate::error::BmffError;
use crate::fourcc::FourCC;
use vstd::prelude::*;
use vstd::slice::slice_subrange;

verus! {

/// The `n` bytes of `data` that start at `pos`.
pub open spec fn field(data: Seq<u8>, pos: int, n: int) -> Seq<u8> {
    data.subrange(pos, pos + n)
}

/// What reading an `n`-byte big-endian number at `pos` yields: the number,
/// or the short-read failure when fewer than `n` bytes are left.
pub open spec fn number_at(data: Seq<u8>, pos: u64, n: int) -> Result<nat, BmffError> {
    if pos + n <= data.len() {
        Ok(be_value(field(data, pos as int, n)))
    } else {
        Err(BmffError::TruncatedStream { offset: pos })
    }
}

/// Bytes held in memory, with a read position. The position may lie beyond
/// the last byte; a read there fails, a seek there does not.
#[derive(Clone, Debug, Default, PartialEq, Eq)]
pub struct ByteStream {
    pub data: Vec<u8>,
    pub pos: u64,
}

impl ByteStream {
    /// A stream over `data`, positioned at its first byte.
    pub fn new(data: Vec<u8>) -> (s: ByteStream)
        ensures
            s.data@ == data@,
            s.pos == 0,
    {
        ByteStream { data, pos: 0 }
    }

    /// The number of bytes in the stream.
    pub fn len(&self) -> (n: u64)
        ensures
            n == self.data@.len(),
    {
        self.data.len() as u64
    }

    /// The read position.
    pub fn position(&self) -> (p: u64)
        ensures
            p == self.pos,
    {
        self.pos
    }

    /// Moves the read position to `pos`, an offset from the first byte.
    pub fn seek(&mut self, pos: u64)
        ensures
            final(self).pos == pos,
            final(self).data@ == old(self).data@,
    {
        self.pos = pos;
    }

    /// Whether `n` more bytes can be read.
    pub fn can_read(&self, n: u64) -> (b: bool)
        ensures
            b == (self.pos + n <= self.data@.len()),
    {
        let len = self.data.len() as u64;
        self.pos <= len && n <= len - self.pos
    }

    /// The index of the next byte, where `n` more bytes can be read.
    fn index_for(&self, n: u64) -> (at: Option<usize>)
        ensures
            match at {
                Some(i) => i == self.pos && i + n <= self.data@.len() <= usize::MAX,
                None => self.pos + n > self.data@.len(),
            },
    {
        let len = self.data.len() as u64;
        if self.pos <= len && n <= len - self.pos {
            Some(self.pos as usize)
        } else {
            None
        }
    }

    /// Reads one byte.
    pub fn read_u8(&mut self) -> (r: Result<u8, BmffError>)
        ensures
            final(self).data@ == old(self).data@,
            match r {
                Ok(v) => old(self).pos < old(self).data@.len() && v == old(self).data@[old(
                    self,
                ).pos as int] && final(self).pos == old(self).pos + 1,
                Err(e) => old(self).pos >= old(self).data@.len() && e
                    == (BmffError::TruncatedStream { offset: old(self).pos }) && final(self).pos
                    == old(self).pos,
            },
    {
        let at = match self.index_for(1) {
            Some(at) => at,
            None => return Err(BmffError::TruncatedStream { offset: self.pos }),
        };
        let v = self.data[at];
        self.pos = self.pos + 1;
        Ok(v)
    }

    /// Reads a four-byte type tag.
    pub fn read_fourcc(&mut self) -> (r: Result<FourCC, BmffError>)
        ensures
            final(self).data@ == old(self).data@,
            match r {
                Ok(tag) => old(self).pos + 4 <= old(self).data@.len() && tag == FourCC::at(
                    old(self).data@,
                    old(self).pos as int,
                ) && final(self).pos == old(self).pos + 4,
                Err(e) => old(self).pos + 4 > old(self).data@.len() && e
                    == (BmffError::TruncatedStream { offset: old(self).pos }) && final(self).pos
                    == old(self).pos,
            },
    {
        let at = match self.index_for(4) {
            Some(at) => at,
            None => return Err(BmffError::TruncatedStream { offset: self.pos }),
        };
        let tag = FourCC {
            value: [self.data[at], self.data[at + 1], self.data[at + 2], self.data[at + 3]],
        };
        assert(tag.value =~= FourCC::at(self.data@, self.pos as int).value);
        self.pos = self.pos + 4;
        Ok(tag)
    }

    /// Reads a three-byte big-endian number.
    pub fn read_u24(&mut self) -> (r: Result<u32, BmffError>)
        ensures
            final(self).data@ == old(self).data@,
            match r {
                Ok(v) => number_at(old(self).data@, old(self).pos, 3) == Ok::<nat, BmffError>(
                    v as nat,
                ) && final(self).pos == old(self).pos + 3,
                Err(e) => number_at(old(self).data@, old(self).pos, 3) == Err::<nat, BmffError>(e)
                    && final(self).pos == old(self).pos,
            },
    {
        let at = match self.index_for(3) {
            Some(at) => at,
            None => return Err(BmffError::TruncatedStream { offset: self.pos }),
        };
        let bytes = slice_subrange(self.data.as_slice(), at, at + 3);
        assert(bytes@.subrange(0, 3) =~= bytes@);
        let v = be_u24(bytes);
        self.pos = self.pos + 3;
        Ok(v)
    }

    /// Reads a four-byte big-endian number.
    pub fn read_u32(&mut self) -> (r: Result<u32, BmffError>)
        ensures
            final(self).data@ == old(self).data@,
            match r {
                Ok(v) => number_at(old(self).data@, old(self).pos, 4) == Ok::<nat, BmffError>(
                    v as nat,
                ) && final(self).pos == old(self).pos + 4,
                Err(e) => number_at(old(self).data@, old(self).pos, 4) == Err::<nat, BmffError>(e)
                    && final(self).pos == old(self).pos,
            },
    {
        let at = match self.index_for(4) {
            Some(at) => at,
            None => return Err(BmffError::TruncatedStream { offset: self.pos }),
        };
        let bytes = slice_subrange(self.data.as_slice(), at, at + 4);
        assert(bytes@.subrange(0, 4) =~= bytes@);
        let v = be_u32(bytes);
        self.pos = self.pos + 4;
        Ok(v)
    }

    /// Reads an eight-byte big-endian number.
    pub fn read_u64(&mut self) -> (r: Result<u64, BmffError>)
        ensures
            final(self).data@ == old(self).data@,
            match r {
                Ok(v) => number_at(old(self).data@, old(self).pos, 8) == Ok::<nat, BmffError>(
                    v as nat,
                ) && final(self).pos == old(self).pos + 8,
                Err(e) => number_at(old(self).data@, old(self).pos, 8) == Err::<nat, BmffError>(e)
                    && final(self).pos == old(self).pos,
            },
    {
        let at = match self.index_for(8) {
            Some(at) => at,
            None => return Err(BmffError::TruncatedStream { offset: self.pos }),
        };
        let bytes = slice_subrange(self.data.as_slice(), at, at + 8);
        assert(bytes@.subrange(0, 8) =~= bytes@);
        let v = be_u64(bytes);
        self.pos = self.pos + 8;
        Ok(v)
    }
}

} // verus!
