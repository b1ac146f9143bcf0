use crate::errors::DecodeError;
use vstd::prelude::*;

verus! {

/// A byte stream being decoded: a buffer together with a cursor.
///
/// Decoders consume bytes from the front of [`Source::remaining`]. A
/// short stream surfaces as [`DecodeError::UnexpectedEndOfStream`] from
/// the read primitives; no read ever yields a default value.
pub struct Source {
    data: Vec<u8>,
    pos: usize,
}

impl Source {
    /// The cursor never runs past the end of the buffer.
    pub closed spec fn wf(&self) -> bool {
        self.pos <= self.data@.len()
    }

    /// The bytes not yet consumed.
    pub closed spec fn remaining(&self) -> Seq<u8> {
        self.data@.skip(self.pos as int)
    }

    /// Start reading from the front of `data`.
    pub fn new(data: Vec<u8>) -> (s: Source)
        ensures
            s.wf(),
            s.remaining() == data@,
    {
        let s = Source { data, pos: 0 };
        proof {
            assert(s.remaining() =~= s.data@);
        }
        s
    }

    /// How many bytes are left to consume.
    pub fn remaining_len(&self) -> (n: usize)
        requires
            self.wf(),
        ensures
            n == self.remaining().len(),
    {
        self.data.len() - self.pos
    }

    /// Read one byte, or report the end of the stream.
    pub fn read_byte(&mut self) -> (r: Result<u8, DecodeError>)
        requires
            old(self).wf(),
        ensures
            final(self).wf(),
            match r {
                Ok(b) => old(self).remaining().len() >= 1 && b == old(self).remaining()[0]
                    && final(self).remaining() == old(self).remaining().skip(1),
                Err(e) => old(self).remaining().len() == 0
                    && e == DecodeError::UnexpectedEndOfStream && *final(self) == *old(self),
            },
    {
        if self.pos < self.data.len() {
            let b = self.data[self.pos];
            self.pos = self.pos + 1;
            proof {
                assert(self.remaining() =~= old(self).remaining().skip(1));
            }
            Ok(b)
        } else {
            Err(DecodeError::UnexpectedEndOfStream)
        }
    }

    /// Read exactly `n` bytes, or report the end of the stream.
    pub fn read_bytes(&mut self, n: usize) -> (r: Result<Vec<u8>, DecodeError>)
        requires
            old(self).wf(),
        ensures
            final(self).wf(),
            match r {
                Ok(v) => old(self).remaining().len() >= n && v@ == old(self).remaining().take(
                    n as int,
                ) && final(self).remaining() == old(self).remaining().skip(n as int),
                Err(e) => old(self).remaining().len() < n
                    && e == DecodeError::UnexpectedEndOfStream && *final(self) == *old(self),
            },
    {
        if n <= self.data.len() - self.pos {
            let mut v: Vec<u8> = Vec::new();
            let mut i: usize = 0;
            while i < n
                invariant
                    self == old(self),
                    self.wf(),
                    i <= n,
                    self.pos + n <= self.data@.len(),
                    self.data@.len() <= usize::MAX,
                    v@ =~= self.remaining().take(i as int),
                decreases n - i,
            {
                let b = self.data[self.pos + i];
                v.push(b);
                i = i + 1;
            }
            self.pos = self.pos + n;
            proof {
                assert(self.remaining() =~= old(self).remaining().skip(n as int));
                assert(v@ =~= old(self).remaining().take(n as int));
            }
            Ok(v)
        } else {
            Err(DecodeError::UnexpectedEndOfStream)
        }
    }
}

} // verus!
