//! A forward-only cursor over an in-memory byte stream.
use vstd::prelude::*;

use crate::GmaError;

verus! {

/// The unsigned 32-bit little-endian integer stored at `s[p..p + 4]`.
pub open spec fn u32_le_at(s: Seq<u8>, p: int) -> int {
    s[p] as int + 256 * s[p + 1] as int + 65536 * s[p + 2] as int + 16777216 * s[p + 3] as int
}

/// A byte stream with a read position that only moves forward.
pub struct ByteReader {
    data: Vec<u8>,
    pos: usize,
}

impl ByteReader {
    /// All bytes of the stream.
    pub closed spec fn bytes(&self) -> Seq<u8> {
        self.data@
    }

    /// The current read position.
    pub closed spec fn pos(&self) -> int {
        self.pos as int
    }

    /// The read position lies within the stream.
    pub open spec fn wf(&self) -> bool {
        0 <= self.pos() <= self.bytes().len()
    }

    pub fn new(data: Vec<u8>) -> (r: ByteReader)
        ensures
            r.wf(),
            r.bytes() == data@,
            r.pos() == 0,
    {
        ByteReader { data, pos: 0 }
    }

    pub fn position(&self) -> (p: usize)
        requires
            self.wf(),
        ensures
            p == self.pos(),
    {
        self.pos
    }

    /// Number of bytes left after the read position.
    pub fn remaining(&self) -> (n: usize)
        requires
            self.wf(),
        ensures
            n == self.bytes().len() - self.pos(),
    {
        self.data.len() - self.pos
    }

    /// Moves the read position forward by `n` bytes, all of which must exist.
    pub fn skip(&mut self, n: usize) -> (r: Result<(), GmaError>)
        requires
            old(self).wf(),
        ensures
            final(self).wf(),
            final(self).bytes() == old(self).bytes(),
            old(self).pos() + n <= old(self).bytes().len() ==> r is Ok && final(self).pos() == old(self).pos() + n,
            old(self).pos() + n > old(self).bytes().len() ==> r == Err::<(), GmaError>(GmaError::Truncated) && final(self).pos() == old(self).pos(),
    {
        if n <= self.data.len() - self.pos {
            self.pos = self.pos + n;
            Ok(())
        } else {
            Err(GmaError::Truncated)
        }
    }

    /// Reads one byte.
    pub fn read_u8(&mut self) -> (r: Result<u8, GmaError>)
        requires
            old(self).wf(),
        ensures
            final(self).wf(),
            final(self).bytes() == old(self).bytes(),
            old(self).pos() < old(self).bytes().len() ==> r == Ok::<u8, GmaError>(old(self).bytes()[old(self).pos()]) && final(self).pos() == old(self).pos() + 1,
            old(self).pos() >= old(self).bytes().len() ==> r == Err::<u8, GmaError>(GmaError::Truncated) && final(self).pos() == old(self).pos(),
    {
        if self.pos < self.data.len() {
            let b = self.data[self.pos];
            self.pos = self.pos + 1;
            Ok(b)
        } else {
            Err(GmaError::Truncated)
        }
    }

    /// Reads an unsigned 32-bit little-endian integer.
    pub fn read_u32_le(&mut self) -> (r: Result<u32, GmaError>)
        requires
            old(self).wf(),
        ensures
            final(self).wf(),
            final(self).bytes() == old(self).bytes(),
            old(self).pos() + 4 <= old(self).bytes().len() ==> r is Ok && r->Ok_0 as int == u32_le_at(old(self).bytes(), old(self).pos()) && final(self).pos() == old(self).pos() + 4,
            old(self).pos() + 4 > old(self).bytes().len() ==> r == Err::<u32, GmaError>(GmaError::Truncated) && final(self).pos() == old(self).pos(),
    {
        if 4 <= self.data.len() - self.pos {
            let p = self.pos;
            let v: u32 = self.data[p] as u32 + 256 * (self.data[p + 1] as u32) + 65536 * (self.data[p + 2] as u32) + 16777216 * (self.data[p + 3] as u32);
            self.pos = p + 4;
            Ok(v)
        } else {
            Err(GmaError::Truncated)
        }
    }

    /// Reads exactly `n` bytes.
    pub fn read_exact(&mut self, n: usize) -> (r: Result<Vec<u8>, GmaError>)
        requires
            old(self).wf(),
        ensures
            final(self).wf(),
            final(self).bytes() == old(self).bytes(),
            old(self).pos() + n <= old(self).bytes().len() ==> r is Ok && r->Ok_0@ == old(self).bytes().subrange(old(self).pos(), old(self).pos() + n) && final(self).pos() == old(self).pos() + n,
            old(self).pos() + n > old(self).bytes().len() ==> r == Err::<Vec<u8>, GmaError>(GmaError::Truncated) && final(self).pos() == old(self).pos(),
    {
        if n <= self.data.len() - self.pos {
            let start = self.pos;
            let mut out: Vec<u8> = Vec::with_capacity(n);
            let mut i: usize = 0;
            while i < n
                invariant
                    start + n <= self.data.len(),
                    i <= n,
                    out@ == self.data@.subrange(start as int, start + i),
                decreases n - i,
            {
                out.push(self.data[start + i]);
                i = i + 1;
                assert(out@ =~= self.data@.subrange(start as int, start + i));
            }
            self.pos = start + n;
            Ok(out)
        } else {
            Err(GmaError::Truncated)
        }
    }
}

} // verus!
