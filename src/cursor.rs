use vstd::prelude::*;

use crate::types::DecodeError;

verus! {

/// Little-endian value of the two bytes of `s` at `i`.
pub open spec fn le16(s: Seq<u8>, i: int) -> int {
    s[i] as int + s[i + 1] as int * 256
}

/// Little-endian value of the four bytes of `s` at `i`.
pub open spec fn le32(s: Seq<u8>, i: int) -> int {
    le16(s, i) + le16(s, i + 2) * 65536
}

/// Two bytes at `i`, read as a little-endian signed 16-bit integer.
pub open spec fn le_i16(s: Seq<u8>, i: int) -> int {
    if le16(s, i) < 32768 {
        le16(s, i)
    } else {
        le16(s, i) - 65536
    }
}

/// Reads the little-endian `u16` at `i`.
pub fn u16_at(b: &[u8], i: usize) -> (r: u16)
    requires
        i + 2 <= b@.len(),
    ensures
        r == le16(b@, i as int),
{
    b[i] as u16 + b[i + 1] as u16 * 256
}

/// Reads the little-endian `i16` at `i`.
pub fn i16_at(b: &[u8], i: usize) -> (r: i16)
    requires
        i + 2 <= b@.len(),
    ensures
        r == le_i16(b@, i as int),
{
    let u = u16_at(b, i);
    if u < 32768 {
        u as i16
    } else {
        (u as i32 - 65536) as i16
    }
}

/// Reads the little-endian `u32` at `i`.
pub fn u32_at(b: &[u8], i: usize) -> (r: u32)
    requires
        i + 4 <= b@.len(),
    ensures
        r == le32(b@, i as int),
{
    let len = b.len();
    u16_at(b, i) as u32 + u16_at(b, i + 2) as u32 * 65536
}

/// Index of the first NUL byte of `s` at or after `i`, or `s.len()` when
/// there is none.
pub open spec fn first_nul_from(s: Seq<u8>, i: int) -> int
    decreases s.len() - i,
{
    if i < 0 || i >= s.len() {
        s.len() as int
    } else if s[i] == 0 {
        i
    } else {
        first_nul_from(s, i + 1)
    }
}

/// A bounds-checked reader over an in-memory byte source.
pub struct ByteCursor {
    pub data: Vec<u8>,
    pub pos: usize,
}

impl ByteCursor {
    pub open spec fn wf(&self) -> bool {
        self.pos <= self.data@.len()
    }

    /// A cursor at the start of `data`.
    pub fn new(data: Vec<u8>) -> (r: ByteCursor)
        ensures
            r.wf(),
            r.data@ == data@,
            r.pos == 0,
    {
        ByteCursor { data, pos: 0 }
    }

    /// The number of bytes left after the current position.
    pub fn remaining(&self) -> (r: usize)
        requires
            self.wf(),
        ensures
            r == self.data@.len() - self.pos,
    {
        self.data.len() - self.pos
    }

    /// Moves to `offset`; an offset past the end of the source is refused.
    pub fn seek(&mut self, offset: usize) -> (r: Result<(), DecodeError>)
        requires
            old(self).wf(),
        ensures
            final(self).wf(),
            final(self).data@ == old(self).data@,
            offset <= old(self).data@.len() ==> r is Ok && final(self).pos == offset,
            offset > old(self).data@.len() ==> r == Err::<(), DecodeError>(DecodeError::OutOfRange)
                && final(self).pos == old(self).pos,
    {
        if offset <= self.data.len() {
            self.pos = offset;
            Ok(())
        } else {
            Err(DecodeError::OutOfRange)
        }
    }

    /// Reads exactly `n` bytes, or fails with `Truncated` and leaves the
    /// position where it was.
    pub fn read(&mut self, n: usize) -> (r: Result<Vec<u8>, DecodeError>)
        requires
            old(self).wf(),
        ensures
            final(self).wf(),
            final(self).data@ == old(self).data@,
            match r {
                Ok(v) => n <= old(self).data@.len() - old(self).pos
                    && v@ == old(self).data@.subrange(old(self).pos as int, old(self).pos + n)
                    && final(self).pos == old(self).pos + n,
                Err(e) => n > old(self).data@.len() - old(self).pos
                    && e == DecodeError::Truncated
                    && final(self).pos == old(self).pos,
            },
    {
        if n > self.data.len() - self.pos {
            return Err(DecodeError::Truncated);
        }
        let mut v: Vec<u8> = Vec::with_capacity(n);
        let start = self.pos;
        let len = self.data.len();
        let mut i: usize = 0;
        while i < n
            invariant
                self.wf(),
                start == self.pos,
                start + n <= self.data@.len(),
                len == self.data@.len(),
                i <= n,
                v@ == self.data@.subrange(start as int, start + i),
            decreases n - i,
        {
            v.push(self.data[start + i]);
            i = i + 1;
            assert(v@ =~= self.data@.subrange(start as int, start + i));
        }
        self.pos = start + n;
        Ok(v)
    }

    /// Reads the bytes up to the next NUL and steps past that NUL; fails
    /// with `Truncated`, position kept, when no NUL follows.
    pub fn read_until_nul(&mut self) -> (r: Result<Vec<u8>, DecodeError>)
        requires
            old(self).wf(),
        ensures
            final(self).wf(),
            final(self).data@ == old(self).data@,
            ({
                let s = old(self).data@;
                let j = first_nul_from(s, old(self).pos as int);
                &&& j < s.len() ==> (r matches Ok(v) && v@ == s.subrange(old(self).pos as int, j)
                    && final(self).pos == j + 1)
                &&& j >= s.len() ==> r == Err::<Vec<u8>, DecodeError>(DecodeError::Truncated)
                    && final(self).pos == old(self).pos
            }),
    {
        let start = self.pos;
        let len = self.data.len();
        let mut j = start;
        let mut v: Vec<u8> = Vec::new();
        while j < len && self.data[j] != 0
            invariant
                self.wf(),
                start == self.pos,
                len == self.data@.len(),
                start <= j <= len,
                v@ == self.data@.subrange(start as int, j as int),
                first_nul_from(self.data@, start as int) == first_nul_from(self.data@, j as int),
            decreases len - j,
        {
            v.push(self.data[j]);
            j = j + 1;
            assert(v@ =~= self.data@.subrange(start as int, j as int));
        }
        if j == len {
            return Err(DecodeError::Truncated);
        }
        self.pos = j + 1;
        Ok(v)
    }
}

} // verus!
