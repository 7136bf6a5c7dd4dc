//! A bounds-checked cursor over a byte buffer, with big-endian integer and
//! length-prefixed blob readers. Every wire structure in this crate is decoded
//! through these primitives, so a premature end of buffer always surfaces as
//! `DecodeError::Truncated` and never as a panic.

use vstd::prelude::*;

use crate::DecodeError;

verus! {

/// The value of a byte string read as a big-endian unsigned integer.
pub open spec fn be(b: Seq<u8>) -> nat
    decreases b.len(),
{
    if b.len() == 0 {
        0
    } else {
        be(b.drop_last()) * 256 + b.last() as nat
    }
}

/// `256^n`, the number of values a big-endian field of `n` bytes can take.
pub open spec fn pow256(n: nat) -> nat
    decreases n,
{
    if n == 0 {
        1
    } else {
        256 * pow256((n - 1) as nat)
    }
}

/// A big-endian field of `n` bytes holds a value below `256^n`.
pub proof fn lemma_be_bound(b: Seq<u8>)
    ensures
        be(b) < pow256(b.len()),
    decreases b.len(),
{
    if b.len() > 0 {
        lemma_be_bound(b.drop_last());
    }
}

/// `pow256` grows with its argument.
pub proof fn lemma_pow256_le(m: nat, n: nat)
    requires
        m <= n,
    ensures
        pow256(m) <= pow256(n),
    decreases n,
{
    if m < n && n > 0 {
        lemma_pow256_le(m, (n - 1) as nat);
    }
}

/// A cursor over an immutable byte buffer.
pub struct Reader<'a> {
    pub data: &'a Vec<u8>,
    pub pos: usize,
}

impl<'a> Reader<'a> {
    /// The cursor never stands past the end of the buffer.
    pub open spec fn wf(self) -> bool {
        self.pos <= self.data@.len()
    }

    pub fn new(data: &'a Vec<u8>) -> (r: Reader<'a>)
        ensures
            r.data@ == data@,
            r.pos == 0,
            r.wf(),
    {
        Reader { data, pos: 0 }
    }

    /// How many bytes are left to read.
    pub fn remaining(&self) -> (r: usize)
        requires
            self.wf(),
        ensures
            r == self.data@.len() - self.pos,
    {
        self.data.len() - self.pos
    }

    /// Reads one byte, or fails with `Truncated` at the end of the buffer.
    pub fn read_u8(&mut self) -> (r: Result<u8, DecodeError>)
        requires
            old(self).wf(),
        ensures
            final(self).data@ == old(self).data@,
            final(self).wf(),
            match r {
                Ok(v) => {
                    &&& old(self).pos + 1 <= old(self).data@.len()
                    &&& final(self).pos == old(self).pos + 1
                    &&& v == old(self).data@[old(self).pos as int]
                },
                Err(e) => {
                    &&& e == DecodeError::Truncated
                    &&& old(self).data@.len() < old(self).pos + 1
                    &&& final(self).pos == old(self).pos
                },
            },
    {
        if self.pos < self.data.len() {
            let v = self.data[self.pos];
            self.pos = self.pos + 1;
            Ok(v)
        } else {
            Err(DecodeError::Truncated)
        }
    }

    /// Reads an `n`-byte big-endian unsigned integer, most significant byte
    /// first, or fails with `Truncated` if fewer than `n` bytes are left.
    pub fn read_be(&mut self, n: usize) -> (r: Result<u64, DecodeError>)
        requires
            old(self).wf(),
            n <= 8,
        ensures
            final(self).data@ == old(self).data@,
            final(self).wf(),
            match r {
                Ok(v) => {
                    &&& old(self).pos + n <= old(self).data@.len()
                    &&& final(self).pos == old(self).pos + n
                    &&& v == be(old(self).data@.subrange(
                        old(self).pos as int,
                        old(self).pos + n,
                    ))
                },
                Err(e) => {
                    &&& e == DecodeError::Truncated
                    &&& old(self).data@.len() < old(self).pos + n
                    &&& final(self).pos == old(self).pos
                },
            },
    {
        let len: usize = self.data.len();
        if n > len - self.pos {
            return Err(DecodeError::Truncated);
        }
        let start = self.pos;
        let mut acc: u64 = 0;
        let mut i: usize = 0;
        while i < n
            invariant
                len == self.data@.len(),
                len >= start + n,
                self.pos == start,
                i <= n,
                n <= 8,
                acc == be(self.data@.subrange(start as int, start + i)),
                acc < pow256(i as nat),
            decreases n - i,
        {
            let b = self.data[start + i];
            proof {
                lemma_pow256_le((i + 1) as nat, 8);
                assert(pow256(8) == 0x10000000000000000) by {
                    reveal_with_fuel(pow256, 9);
                }
                assert(self.data@.subrange(start as int, start + i + 1).drop_last()
                    =~= self.data@.subrange(start as int, start + i));
                assert(self.data@.subrange(start as int, start + i + 1).last() == b);
            }
            acc = acc * 256 + (b as u64);
            i = i + 1;
        }
        self.pos = self.pos + n;
        Ok(acc)
    }

    /// Reads `n` raw bytes into a fresh buffer, or fails with `Truncated`
    /// if fewer than `n` bytes are left.
    pub fn read_bytes(&mut self, n: usize) -> (r: Result<Vec<u8>, DecodeError>)
        requires
            old(self).wf(),
        ensures
            final(self).data@ == old(self).data@,
            final(self).wf(),
            match r {
                Ok(v) => {
                    &&& old(self).pos + n <= old(self).data@.len()
                    &&& final(self).pos == old(self).pos + n
                    &&& v@ == old(self).data@.subrange(old(self).pos as int, old(self).pos + n)
                },
                Err(e) => {
                    &&& e == DecodeError::Truncated
                    &&& old(self).data@.len() < old(self).pos + n
                    &&& final(self).pos == old(self).pos
                },
            },
    {
        let len: usize = self.data.len();
        if n > len - self.pos {
            return Err(DecodeError::Truncated);
        }
        let start = self.pos;
        let mut out: Vec<u8> = Vec::new();
        let mut i: usize = 0;
        while i < n
            invariant
                len == self.data@.len(),
                len >= start + n,
                self.pos == start,
                i <= n,
                out@ == self.data@.subrange(start as int, start + i),
            decreases n - i,
        {
            out.push(self.data[start + i]);
            proof {
                assert(self.data@.subrange(start as int, start + i + 1)
                    =~= self.data@.subrange(start as int, start + i).push(
                    self.data@[start + i],
                ));
            }
            i = i + 1;
        }
        self.pos = self.pos + n;
        Ok(out)
    }
}

} // verus!
