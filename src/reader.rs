//! Forward-only little-endian reads from an in-memory byte source.

use vstd::prelude::*;

verus! {

/// Why a decode stopped.
#[derive(Clone, Copy, Debug, PartialEq, Eq, Structural)]
pub enum ModelError {
    /// The source ended before the declared counts were satisfied.
    UnexpectedEof,
    /// A solid header carried an unknown version tag.
    UnsupportedVersion,
    /// A polygon record declared a corner count other than three.
    UnsupportedPolygon,
    /// A corner referenced a position or normal beyond the declared count.
    IndexOutOfRange,
}

/// The unsigned value of four little-endian bytes starting at `p`.
pub open spec fn le_u32(d: Seq<u8>, p: int) -> int {
    d[p] as int + 256 * d[p + 1] as int + 65536 * d[p + 2] as int + 16777216 * d[p + 3] as int
}

/// The two's-complement signed value of four little-endian bytes at `p`.
pub open spec fn le_i32(d: Seq<u8>, p: int) -> int {
    let u = le_u32(d, p);
    if u < 0x8000_0000 {
        u
    } else {
        u - 0x1_0000_0000
    }
}

/// A cursor over a borrowed byte slice that only moves forward.
pub struct ByteSource<'a> {
    bytes: &'a [u8],
    offset: usize,
}

impl<'a> ByteSource<'a> {
    /// All bytes of the source, consumed or not.
    pub closed spec fn data(&self) -> Seq<u8> {
        self.bytes@
    }

    /// How many bytes have been consumed.
    pub closed spec fn pos(&self) -> int {
        self.offset as int
    }

    /// The cursor never runs past the end of the data.
    pub open spec fn wf(&self) -> bool {
        0 <= self.pos() <= self.data().len()
    }

    /// A source positioned at the first byte of `bytes`.
    pub fn new(bytes: &'a [u8]) -> (r: Self)
        ensures
            r.data() == bytes@,
            r.pos() == 0,
            r.wf(),
    {
        ByteSource { bytes, offset: 0 }
    }

    /// Number of bytes consumed so far.
    pub fn position(&self) -> (r: usize)
        ensures
            r == self.pos(),
    {
        self.offset
    }

    /// Number of bytes not consumed yet.
    pub fn remaining(&self) -> (r: usize)
        requires
            self.wf(),
        ensures
            r == self.data().len() - self.pos(),
    {
        self.bytes.len() - self.offset
    }

    /// Consumes `n` bytes without looking at them.
    pub fn skip(&mut self, n: usize) -> (r: Result<(), ModelError>)
        requires
            old(self).wf(),
        ensures
            final(self).wf(),
            final(self).data() == old(self).data(),
            old(self).pos() + n <= old(self).data().len() ==> r is Ok && final(self).pos()
                == old(self).pos() + n,
            old(self).pos() + n > old(self).data().len() ==> r == Err::<(), ModelError>(
                ModelError::UnexpectedEof,
            ) && final(self).pos() == old(self).pos(),
    {
        if n > self.bytes.len() - self.offset {
            return Err(ModelError::UnexpectedEof);
        }
        self.offset = self.offset + n;
        Ok(())
    }

    /// Reads one byte.
    pub fn read_u8(&mut self) -> (r: Result<u8, ModelError>)
        requires
            old(self).wf(),
        ensures
            final(self).wf(),
            final(self).data() == old(self).data(),
            old(self).pos() + 1 <= old(self).data().len() ==> r == Ok::<u8, ModelError>(
                old(self).data()[old(self).pos()],
            ) && final(self).pos() == old(self).pos() + 1,
            old(self).pos() + 1 > old(self).data().len() ==> r == Err::<u8, ModelError>(
                ModelError::UnexpectedEof,
            ) && final(self).pos() == old(self).pos(),
    {
        if self.offset >= self.bytes.len() {
            return Err(ModelError::UnexpectedEof);
        }
        let b = self.bytes[self.offset];
        self.offset = self.offset + 1;
        Ok(b)
    }

    /// Reads a little-endian `u32`.
    pub fn read_u32(&mut self) -> (r: Result<u32, ModelError>)
        requires
            old(self).wf(),
        ensures
            final(self).wf(),
            final(self).data() == old(self).data(),
            old(self).pos() + 4 <= old(self).data().len() ==> r is Ok && r->Ok_0 == le_u32(
                old(self).data(),
                old(self).pos(),
            ) && final(self).pos() == old(self).pos() + 4,
            old(self).pos() + 4 > old(self).data().len() ==> r == Err::<u32, ModelError>(
                ModelError::UnexpectedEof,
            ) && final(self).pos() == old(self).pos(),
    {
        if self.bytes.len() - self.offset < 4 {
            return Err(ModelError::UnexpectedEof);
        }
        let p = self.offset;
        let v = self.bytes[p] as u32 + 256 * (self.bytes[p + 1] as u32) + 65536 * (
        self.bytes[p + 2] as u32) + 16777216 * (self.bytes[p + 3] as u32);
        self.offset = p + 4;
        Ok(v)
    }

    /// Reads a little-endian two's-complement `i32`.
    pub fn read_i32(&mut self) -> (r: Result<i32, ModelError>)
        requires
            old(self).wf(),
        ensures
            final(self).wf(),
            final(self).data() == old(self).data(),
            old(self).pos() + 4 <= old(self).data().len() ==> r is Ok && r->Ok_0 == le_i32(
                old(self).data(),
                old(self).pos(),
            ) && final(self).pos() == old(self).pos() + 4,
            old(self).pos() + 4 > old(self).data().len() ==> r == Err::<i32, ModelError>(
                ModelError::UnexpectedEof,
            ) && final(self).pos() == old(self).pos(),
    {
        let u = self.read_u32()?;
        if u < 0x8000_0000 {
            Ok(u as i32)
        } else {
            Ok((u as i64 - 0x1_0000_0000i64) as i32)
        }
    }
}

} // verus!
