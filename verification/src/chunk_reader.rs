//! A convenience [`Reader`] over an in-memory byte slice, which reads either
//! as much as the parser's buffer takes or in fixed-size chunks (to simulate
//! streaming).

use vstd::prelude::*;

verus! {

/// A source of input bytes for the stream parser.
///
/// A reader must be a finite source: [`Reader::remaining`] bounds how many
/// more bytes it will ever hand out, and each read that returns bytes
/// lowers that bound by as many. This is what makes the stream parser's
/// loop end; a source without such a bound (an endless stream) cannot be a
/// `Reader` here.
pub trait Reader {
    /// The error type returned by read operations
    type Error;

    /// A bound on how many more bytes the source will hand out (sources are
    /// finite).
    spec fn remaining(&self) -> usize;

    /// Whether the last read failed (returned an error).
    spec fn failed(&self) -> bool;

    /// Read data into the provided buffer.
    /// Returns the number of bytes read, or an error.
    ///
    /// A return value of 0 must indicate the true end of the stream: an
    /// implementation returns 0 only when no more data will ever be available.
    fn read(&mut self, buf: &mut [u8]) -> (r: Result<usize, Self::Error>)
        ensures
            final(buf)@.len() == old(buf)@.len(),
            final(self).remaining() <= old(self).remaining(),
            r matches Ok(n) ==> n <= old(buf)@.len() && final(self).remaining() + n <= old(self).remaining(),
            r matches Ok(0) && old(buf)@.len() > 0 ==> final(self).remaining() == 0,
            final(self).failed() == r is Err;
}

/// The smaller of two sizes.
pub open spec fn min_usize(a: usize, b: usize) -> usize {
    if a <= b {
        a
    } else {
        b
    }
}

/// A [`Reader`] that reads from a byte slice, optionally in fixed-size chunks.
#[derive(Debug)]
pub struct ChunkReader<'a> {
    data: &'a [u8],
    pos: usize,
    chunk_size: usize,
}

impl<'a> ChunkReader<'a> {
    /// What has been read never runs past the input, and a read may hand out
    /// at least one byte.
    #[verifier::type_invariant]
    spec fn inv(self) -> bool {
        self.pos <= self.data@.len() && self.chunk_size >= 1
    }

    /// The whole input.
    pub closed spec fn data(&self) -> Seq<u8> {
        self.data@
    }

    /// How much of the input has been read.
    pub closed spec fn pos(&self) -> usize {
        self.pos
    }

    /// The most bytes one read hands out.
    pub closed spec fn chunk_size(&self) -> usize {
        self.chunk_size
    }

    /// Create a new chunked reader from a byte slice: each `read()` returns
    /// at most `chunk_size` bytes (at least 1).
    pub fn new(data: &'a [u8], chunk_size: usize) -> (r: Self)
        ensures
            r.data() == data@,
            r.data().len() <= usize::MAX,
            r.pos() == 0,
            r.chunk_size() == if chunk_size >= 1 { chunk_size } else { 1 },
    {
        let _len: usize = data.len();
        Self { data, pos: 0, chunk_size: if chunk_size >= 1 { chunk_size } else { 1 } }
    }

    /// Create a new reader that consumes the entire byte slice at once, as
    /// far as the buffer it is handed allows.
    pub fn full_slice(data: &'a [u8]) -> (r: Self)
        ensures
            r.data() == data@,
            r.data().len() <= usize::MAX,
            r.pos() == 0,
            r.chunk_size() == usize::MAX,
    {
        let _len: usize = data.len();
        Self { data, pos: 0, chunk_size: usize::MAX }
    }
}

impl<'a> Reader for ChunkReader<'a> {
    type Error = ();

    open spec fn remaining(&self) -> usize {
        (self.data().len() - self.pos()) as usize
    }

    /// A read of a slice never fails.
    open spec fn failed(&self) -> bool {
        false
    }

    /// Copies the next `min(remaining, buf.len(), chunk_size)` bytes of the
    /// input to the front of `buf`; `Ok(0)` once the input is exhausted.
    fn read(&mut self, buf: &mut [u8]) -> (r: Result<usize, ()>)
        ensures
            final(self).data() == old(self).data(),
            final(self).chunk_size() == old(self).chunk_size(),
            ({
                let rem = if old(self).pos() <= old(self).data().len() {
                    (old(self).data().len() - old(self).pos()) as usize
                } else {
                    0usize
                };
                let n = min_usize(min_usize(rem, old(buf)@.len() as usize), old(self).chunk_size());
                &&& r == Ok::<usize, ()>(n)
                &&& final(self).pos() == old(self).pos() + n
                &&& final(buf)@.len() == old(buf)@.len()
                &&& final(buf)@.subrange(0, n as int) == old(self).data().subrange(
                    old(self).pos() as int,
                    old(self).pos() + n,
                )
                &&& final(buf)@.subrange(n as int, old(buf)@.len() as int) == old(buf)@.subrange(
                    n as int,
                    old(buf)@.len() as int,
                )
            }),
    {
        proof {
            use_type_invariant(&*self);
        }
        let dlen = self.data.len();
        let remaining_len = dlen.saturating_sub(self.pos);
        if remaining_len == 0 {
            proof {
                assert(buf@.subrange(0, 0) =~= self.data@.subrange(self.pos as int, self.pos as int));
                assert(buf@.subrange(0, buf@.len() as int) =~= buf@);
            }
            return Ok(0);
        }
        let mut to_copy = if remaining_len <= buf.len() { remaining_len } else { buf.len() };
        if self.chunk_size < to_copy {
            to_copy = self.chunk_size;
        }
        let ghost b0 = buf@;
        let from = self.pos;
        let mut i: usize = 0;
        while i < to_copy
            invariant
                i <= to_copy,
                to_copy <= remaining_len,
                remaining_len == dlen - from,
                dlen == self.data@.len(),
                to_copy <= b0.len(),
                buf@.len() == b0.len(),
                self.pos == from,
                forall|k: int| 0 <= k < b0.len() ==> #[trigger] buf@[k] == if k < i {
                    self.data@[from + k]
                } else {
                    b0[k]
                },
            decreases to_copy - i,
        {
            buf[i] = self.data[from + i];
            i = i + 1;
        }
        self.pos = from + to_copy;
        proof {
            assert(buf@.subrange(0, to_copy as int) =~= self.data@.subrange(from as int, from + to_copy));
            assert(buf@.subrange(to_copy as int, b0.len() as int) =~= b0.subrange(to_copy as int, b0.len() as int));
        }
        Ok(to_copy)
    }
}

} // verus!
