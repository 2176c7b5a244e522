//! An in-memory reader over a byte buffer, the stand-in for `std::io::Cursor`
//! through which archive records are read.
use vstd::prelude::*;
use crate::bytes::{u32_at, be_u32_at, read_u32, read_be_u32};

verus! {

/// The ways a read from a [`ByteCursor`] can fail.
#[derive(Debug, Clone, Copy, PartialEq, Eq, Structural)]
pub enum IoError {
    /// Fewer bytes remained than the read asked for.
    UnexpectedEof,
    /// The bytes could not be decoded (for example a corrupt zlib stream).
    InvalidData,
    /// A write would move the position past the largest possible buffer.
    InvalidInput,
    /// Another failure, reported as an I/O error.
    Other,
}

/// A byte buffer with a read position.
pub struct ByteCursor {
    data: Vec<u8>,
    pos: usize,
}

impl ByteCursor {
    /// The whole buffer.
    pub closed spec fn data(&self) -> Seq<u8> {
        self.data@
    }

    /// The read position; it may lie past the end of the buffer.
    pub closed spec fn pos(&self) -> nat {
        self.pos as nat
    }

    /// The bytes from the read position to the end.
    pub open spec fn rest(&self) -> Seq<u8> {
        if self.pos() <= self.data().len() {
            self.data().skip(self.pos() as int)
        } else {
            Seq::empty()
        }
    }

    /// The buffer is a `Vec`, so its length fits in a `usize`.
    pub proof fn lemma_len_bound(&self)
        ensures
            self.data().len() <= usize::MAX,
    {
        assert(self.data@.len() == self.data.len());
    }

    pub fn new(data: Vec<u8>) -> (r: Self)
        ensures
            r.data() == data@,
            r.pos() == 0,
    {
        ByteCursor { data, pos: 0 }
    }

    pub fn position(&self) -> (r: usize)
        ensures
            r == self.pos(),
    {
        self.pos
    }

    pub fn get_ref(&self) -> (r: &Vec<u8>)
        ensures
            r@ == self.data(),
    {
        &self.data
    }

    pub fn into_inner(self) -> (r: Vec<u8>)
        ensures
            r@ == self.data(),
    {
        self.data
    }

    /// Moves the read position to `pos` (which may lie past the end).
    pub fn seek(&mut self, pos: usize)
        ensures
            final(self).data() == old(self).data(),
            final(self).pos() == pos,
    {
        self.pos = pos;
    }

    /// Reads exactly `n` bytes. When fewer remain, fails with
    /// `UnexpectedEof` and leaves the position at the end of the buffer.
    pub fn read_exact(&mut self, n: usize) -> (r: Result<Vec<u8>, IoError>)
        ensures
            final(self).data() == old(self).data(),
            n <= old(self).rest().len() ==> r is Ok && r->Ok_0@ == old(self).rest().take(n as int)
                && final(self).pos() == old(self).pos() + n,
            n > old(self).rest().len() ==> r == Err::<Vec<u8>, IoError>(IoError::UnexpectedEof)
                && final(self).pos() == old(self).data().len(),
    {
        let len = self.data.len();
        if n == 0 {
            assert(old(self).rest().take(0) =~= Seq::<u8>::empty());
            return Ok(Vec::new());
        }
        if self.pos > len || len - self.pos < n {
            self.pos = len;
            return Err(IoError::UnexpectedEof);
        }
        let p = self.pos;
        let data = &self.data;
        let mut out: Vec<u8> = Vec::new();
        let mut i: usize = 0;
        while i < n
            invariant
                p + n <= data@.len(),
                data@.len() == len,
                i <= n,
                out@ == data@.subrange(p as int, p + i),
            decreases n - i,
        {
            out.push(data[p + i]);
            i = i + 1;
            assert(out@ =~= data@.subrange(p as int, p + i));
        }
        assert(out@ =~= self.rest().take(n as int));
        self.pos = p + n;
        Ok(out)
    }

    /// Writes `bytes` at the position, overwriting what is there and growing
    /// the buffer as needed (with zeros first, if the position lies past the
    /// end), then moves the position past them.
    /// Fails, changing nothing, when the position would pass `usize::MAX`.
    pub fn write_all(&mut self, bytes: &[u8]) -> (r: Result<(), IoError>)
        ensures
            old(self).pos() + bytes@.len() <= usize::MAX ==> r is Ok && final(self).data() == written(
                old(self).data(),
                old(self).pos(),
                bytes@,
            ) && final(self).pos() == old(self).pos() + bytes@.len(),
            old(self).pos() + bytes@.len() > usize::MAX ==> r == Err::<(), IoError>(
                IoError::InvalidInput,
            ) && *final(self) == *old(self),
    {
        if self.pos > usize::MAX - bytes.len() {
            return Err(IoError::InvalidInput);
        }
        let ghost d0 = self.data@;
        let ghost p0 = self.pos as nat;
        if self.data.len() < self.pos {
            while self.data.len() < self.pos
                invariant
                    self.pos == p0,
                    d0.len() <= self.data@.len() <= p0,
                    self.data@ == d0 + Seq::new((self.data@.len() - d0.len()) as nat, |i: int| 0u8),
                decreases self.pos - self.data@.len(),
            {
                self.data.push(0u8);
                assert(self.data@ =~= d0 + Seq::new((self.data@.len() - d0.len()) as nat, |i: int| 0u8));
            }
        } else {
            assert(self.data@ == d0);
        }
        let ghost padded = self.data@;
        let mut i: usize = 0;
        while i < bytes.len()
            invariant
                i <= bytes@.len(),
                self.pos == p0 + i,
                p0 + bytes@.len() <= usize::MAX,
                padded.len() >= p0,
                padded == (if d0.len() >= p0 { d0 } else { d0 + Seq::new((p0 - d0.len()) as nat, |k: int| 0u8) }),
                self.data@ == overlay(padded, p0, bytes@.take(i as int)),
            decreases bytes@.len() - i,
        {
            if self.pos < self.data.len() {
                self.data.set(self.pos, bytes[i]);
            } else {
                self.data.push(bytes[i]);
            }
            proof {
                assert(bytes@.take(i + 1).drop_last() =~= bytes@.take(i as int));
                assert(self.data@ =~= overlay(padded, p0, bytes@.take(i + 1)));
            }
            self.pos = self.pos + 1;
            i = i + 1;
        }
        proof {
            assert(bytes@.take(i as int) =~= bytes@);
        }
        Ok(())
    }

    /// Reads a little-endian `u32`.
    pub fn read_u32(&mut self) -> (r: Result<u32, IoError>)
        ensures
            final(self).data() == old(self).data(),
            4 <= old(self).rest().len() ==> r == Ok::<u32, IoError>(u32_at(old(self).rest(), 0))
                && final(self).pos() == old(self).pos() + 4,
            4 > old(self).rest().len() ==> r == Err::<u32, IoError>(IoError::UnexpectedEof)
                && final(self).pos() == old(self).data().len(),
    {
        let b = self.read_exact(4)?;
        Ok(read_u32(b.as_slice(), 0))
    }

    /// Reads a big-endian `u32`.
    pub fn read_be_u32(&mut self) -> (r: Result<u32, IoError>)
        ensures
            final(self).data() == old(self).data(),
            4 <= old(self).rest().len() ==> r == Ok::<u32, IoError>(be_u32_at(old(self).rest(), 0))
                && final(self).pos() == old(self).pos() + 4,
            4 > old(self).rest().len() ==> r == Err::<u32, IoError>(IoError::UnexpectedEof)
                && final(self).pos() == old(self).data().len(),
    {
        let b = self.read_exact(4)?;
        Ok(read_be_u32(b.as_slice(), 0))
    }
}

/// `base` with `bytes` laid over it from `pos` on, growing it where needed.
pub open spec fn overlay(base: Seq<u8>, pos: nat, bytes: Seq<u8>) -> Seq<u8> {
    let end = pos + bytes.len();
    let len = if base.len() >= end { base.len() } else { end };
    Seq::new(len as nat, |i: int| if pos <= i < end { bytes[i - pos] } else { base[i] })
}

/// The buffer after writing `bytes` at `pos`: zero-padded up to `pos` if it
/// was shorter, then overlaid.
pub open spec fn written(data: Seq<u8>, pos: nat, bytes: Seq<u8>) -> Seq<u8> {
    let padded = if data.len() >= pos { data } else { data + Seq::new((pos - data.len()) as nat, |k: int| 0u8) };
    overlay(padded, pos, bytes)
}

/// Two writes in a row are one write of both.
pub proof fn lemma_written_twice(data: Seq<u8>, pos: nat, a: Seq<u8>, b: Seq<u8>)
    ensures
        written(written(data, pos, a), pos + a.len(), b) == written(data, pos, a + b),
{
    let w1 = written(data, pos, a);
    assert(w1.len() >= pos + a.len());
    assert(written(w1, pos + a.len(), b) =~= written(data, pos, a + b));
}

/// Writing at the end of the buffer appends.
pub proof fn lemma_written_at_end(data: Seq<u8>, bytes: Seq<u8>)
    ensures
        written(data, data.len(), bytes) == data + bytes,
{
    assert(written(data, data.len(), bytes) =~= data + bytes);
}

} // verus!
