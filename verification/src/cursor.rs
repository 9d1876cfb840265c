//! An in-memory reader over a byte buffer, with a read position.
use vstd::prelude::*;
use crate::endian::{decode_i64, decode_u16, decode_u32, i64_from, u16_from, u32_from};
use crate::error::BlockError;

verus! {

/// A byte buffer read from a position onward: a capture file held in memory,
/// or the body of one block.
#[derive(Debug)]
pub struct ByteCursor {
    data: Vec<u8>,
    pos: usize,
}

impl ByteCursor {
    /// All the bytes the cursor reads from.
    pub closed spec fn contents(&self) -> Seq<u8> {
        self.data@
    }

    /// How many bytes from the start have been read.
    pub closed spec fn position(&self) -> nat {
        self.pos as nat
    }

    /// The bytes not read yet.
    pub open spec fn rest(&self) -> Seq<u8> {
        if self.position() <= self.contents().len() {
            self.contents().skip(self.position() as int)
        } else {
            Seq::empty()
        }
    }

    /// A cursor at the start of `data`.
    pub fn new(data: Vec<u8>) -> (c: ByteCursor)
        ensures
            c.contents() == data@,
            c.position() == 0,
            c.rest() == data@,
    {
        ByteCursor { data, pos: 0 }
    }

    /// A cursor at the start of a copy of `data`.
    pub fn copy_of(data: &Vec<u8>) -> (c: ByteCursor)
        ensures
            c.contents() == data@,
            c.position() == 0,
            c.rest() == data@,
    {
        let mut v: Vec<u8> = Vec::new();
        let mut i: usize = 0;
        while i < data.len()
            invariant
                i <= data@.len(),
                v@ == data@.take(i as int),
            decreases data@.len() - i,
        {
            v.push(data[i]);
            i = i + 1;
            assert(v@ =~= data@.take(i as int));
        }
        assert(v@ =~= data@);
        ByteCursor { data: v, pos: 0 }
    }

    /// The read position.
    pub fn stream_position(&self) -> (p: u64)
        ensures
            p == self.position(),
    {
        self.pos as u64
    }

    /// How many bytes are left to read.
    pub fn remaining(&self) -> (n: usize)
        ensures
            n == self.rest().len(),
    {
        if self.pos <= self.data.len() {
            self.data.len() - self.pos
        } else {
            0
        }
    }

    /// Copies up to `n` of the remaining bytes without moving the position.
    pub fn peek(&self, n: usize) -> (r: Vec<u8>)
        ensures
            r@ == self.rest().take(if n < self.rest().len() { n as int } else { self.rest().len() as int }),
    {
        let avail = self.remaining();
        let k: usize = if n < avail { n } else { avail };
        let mut out: Vec<u8> = Vec::new();
        if k == 0 {
            assert(out@ =~= self.rest().take(0));
            return out;
        }
        let start = self.pos;
        let _total = self.data.len();
        let mut i: usize = 0;
        while i < k
            invariant
                start == self.pos,
                start + k <= self.data@.len() <= usize::MAX,
                i <= k,
                out@ == self.data@.subrange(start as int, start + i),
            decreases k - i,
        {
            out.push(self.data[start + i]);
            i = i + 1;
            assert(out@ =~= self.data@.subrange(start as int, start + i));
        }
        assert(out@ =~= self.rest().take(k as int));
        out
    }

    /// Reads exactly `n` bytes. When fewer are left it fails and, as a
    /// `std::io::Cursor` does, leaves the position at the end of the data.
    pub fn read_exact(&mut self, n: usize) -> (r: Result<Vec<u8>, BlockError>)
        ensures
            final(self).contents() == old(self).contents(),
            old(self).rest().len() >= n ==> {
                &&& r matches Ok(v) && v@ == old(self).rest().take(n as int)
                &&& final(self).position() == old(self).position() + n
                &&& final(self).rest() == old(self).rest().skip(n as int)
            },
            old(self).rest().len() < n ==> {
                &&& r == Err::<Vec<u8>, BlockError>(BlockError::UnexpectedEof)
                &&& final(self).position() == old(self).contents().len()
                &&& final(self).rest() == Seq::<u8>::empty()
            },
    {
        let avail = self.remaining();
        if avail < n {
            self.pos = self.data.len();
            return Err(BlockError::UnexpectedEof);
        }
        let mut out: Vec<u8> = Vec::new();
        if n == 0 {
            assert(out@ =~= old(self).rest().take(0));
            assert(self.rest() =~= old(self).rest().skip(0));
            return Ok(out);
        }
        let start = self.pos;
        let _total = self.data.len();
        let mut i: usize = 0;
        while i < n
            invariant
                start == self.pos,
                start + n <= self.data@.len() <= usize::MAX,
                i <= n,
                out@ == self.data@.subrange(start as int, start + i),
            decreases n - i,
        {
            out.push(self.data[start + i]);
            i = i + 1;
            assert(out@ =~= self.data@.subrange(start as int, start + i));
        }
        self.pos = start + n;
        assert(out@ =~= old(self).rest().take(n as int));
        assert(self.rest() =~= old(self).rest().skip(n as int));
        Ok(out)
    }

    /// Appends up to `limit` of the remaining bytes to `buf`, as
    /// `take(limit).read_to_end(buf)` does, and returns how many it appended.
    pub fn read_to_end_limited(&mut self, limit: u64, buf: &mut Vec<u8>) -> (n: usize)
        ensures
            n as int == if limit < old(self).rest().len() { limit as int } else { old(self).rest().len() as int },
            final(buf)@ == old(buf)@ + old(self).rest().take(n as int),
            final(self).contents() == old(self).contents(),
            final(self).rest() == old(self).rest().skip(n as int),
            n > 0 ==> final(self).position() == old(self).position() + n,
            n == 0 ==> final(self).position() == old(self).position(),
    {
        let avail = self.remaining();
        let n: usize = if (avail as u64) <= limit { avail } else { limit as usize };
        if n == 0 {
            assert(self.rest() =~= old(self).rest().skip(0));
            assert(buf@ =~= old(buf)@ + old(self).rest().take(0));
            return 0;
        }
        let start = self.pos;
        let _total = self.data.len();
        let mut i: usize = 0;
        while i < n
            invariant
                start == self.pos,
                start + n <= self.data@.len() <= usize::MAX,
                i <= n,
                buf@ == old(buf)@ + self.data@.subrange(start as int, start + i),
            decreases n - i,
        {
            buf.push(self.data[start + i]);
            i = i + 1;
            assert(buf@ =~= old(buf)@ + self.data@.subrange(start as int, start + i));
        }
        self.pos = start + n;
        assert(self.data@.subrange(start as int, start + n) =~= old(self).rest().take(n as int));
        assert(self.rest() =~= old(self).rest().skip(n as int));
        n
    }

    /// Appends all the remaining bytes to `buf` and returns how many.
    pub fn read_to_end(&mut self, buf: &mut Vec<u8>) -> (n: usize)
        ensures
            n == old(self).rest().len(),
            final(buf)@ == old(buf)@ + old(self).rest(),
            final(self).contents() == old(self).contents(),
            final(self).rest() == Seq::<u8>::empty(),
    {
        let avail = self.remaining();
        assert(avail <= u64::MAX);
        let n = self.read_to_end_limited(u64::MAX, buf);
        assert(old(self).rest().take(n as int) =~= old(self).rest());
        n
    }

    /// Reads a `u16` in the given byte order, as `ReadBytesExt::read_u16` does.
    pub fn read_u16(&mut self, big: bool) -> (r: Result<u16, BlockError>)
        ensures
            final(self).contents() == old(self).contents(),
            old(self).rest().len() >= 2 ==> {
                &&& r == Ok::<u16, BlockError>(u16_from(old(self).rest(), big))
                &&& final(self).position() == old(self).position() + 2
                &&& final(self).rest() == old(self).rest().skip(2)
            },
            old(self).rest().len() < 2 ==> {
                &&& r == Err::<u16, BlockError>(BlockError::UnexpectedEof)
                &&& final(self).position() == old(self).contents().len()
                &&& final(self).rest() == Seq::<u8>::empty()
            },
    {
        let buf = self.read_exact(2)?;
        Ok(decode_u16(buf.as_slice(), big))
    }

    /// Reads a `u32` in the given byte order, as `ReadBytesExt::read_u32` does.
    pub fn read_u32(&mut self, big: bool) -> (r: Result<u32, BlockError>)
        ensures
            final(self).contents() == old(self).contents(),
            old(self).rest().len() >= 4 ==> {
                &&& r == Ok::<u32, BlockError>(u32_from(old(self).rest(), big))
                &&& final(self).position() == old(self).position() + 4
                &&& final(self).rest() == old(self).rest().skip(4)
            },
            old(self).rest().len() < 4 ==> {
                &&& r == Err::<u32, BlockError>(BlockError::UnexpectedEof)
                &&& final(self).position() == old(self).contents().len()
                &&& final(self).rest() == Seq::<u8>::empty()
            },
    {
        let buf = self.read_exact(4)?;
        Ok(decode_u32(buf.as_slice(), big))
    }

    /// Reads an `i64` in the given byte order, as `ReadBytesExt::read_i64` does.
    pub fn read_i64(&mut self, big: bool) -> (r: Result<i64, BlockError>)
        ensures
            final(self).contents() == old(self).contents(),
            old(self).rest().len() >= 8 ==> {
                &&& r == Ok::<i64, BlockError>(i64_from(old(self).rest(), big))
                &&& final(self).position() == old(self).position() + 8
                &&& final(self).rest() == old(self).rest().skip(8)
            },
            old(self).rest().len() < 8 ==> {
                &&& r == Err::<i64, BlockError>(BlockError::UnexpectedEof)
                &&& final(self).position() == old(self).contents().len()
                &&& final(self).rest() == Seq::<u8>::empty()
            },
    {
        let buf = self.read_exact(8)?;
        let v = decode_i64(buf.as_slice(), big);
        assert(buf@.skip(4) =~= old(self).rest().skip(4).take(4));
        Ok(v)
    }
}

} // verus!
