//! Forward-only reader over an in-memory byte buffer. Every read advances
//! the offset by what it consumed and reports `Truncated` when the buffer
//! runs out; there is no seek or rewind.

use vstd::prelude::*;

use crate::codec::{be32_val, find_byte, words_at, DELIM};
use crate::mat::{Mat3, Mat4};
use crate::AssetError;

verus! {

pub struct Cursor {
    b: Vec<u8>,
    i: usize,
}

impl Cursor {
    /// The whole underlying buffer.
    pub closed spec fn bytes(&self) -> Seq<u8> {
        self.b@
    }

    /// The current read offset.
    pub closed spec fn pos(&self) -> int {
        self.i as int
    }

    pub open spec fn wf(&self) -> bool {
        0 <= self.pos() <= self.bytes().len()
    }

    /// How many bytes are left to read.
    pub open spec fn remaining(&self) -> int {
        self.bytes().len() - self.pos()
    }

    pub fn new(b: Vec<u8>) -> (r: Cursor)
        ensures
            r.bytes() == b@,
            r.pos() == 0,
            r.wf(),
    {
        Cursor { b, i: 0 }
    }

    /// The length of the whole underlying buffer.
    pub fn len(&self) -> (r: usize)
        ensures
            r == self.bytes().len(),
    {
        self.b.len()
    }

    /// The current read offset.
    pub fn position(&self) -> (r: usize)
        ensures
            r == self.pos(),
    {
        self.i
    }

    pub fn read_u8(&mut self) -> (r: Result<u8, AssetError>)
        requires
            old(self).wf(),
        ensures
            final(self).wf(),
            final(self).bytes() == old(self).bytes(),
            match r {
                Ok(v) => old(self).remaining() >= 1
                    && v == old(self).bytes()[old(self).pos()]
                    && final(self).pos() == old(self).pos() + 1,
                Err(e) => e == AssetError::Truncated
                    && old(self).remaining() < 1
                    && final(self).pos() == old(self).pos(),
            },
    {
        if self.i < self.b.len() {
            let v = self.b[self.i];
            self.i += 1;
            Ok(v)
        } else {
            Err(AssetError::Truncated)
        }
    }

    pub fn read_u32(&mut self) -> (r: Result<u32, AssetError>)
        requires
            old(self).wf(),
        ensures
            final(self).wf(),
            final(self).bytes() == old(self).bytes(),
            match r {
                Ok(v) => old(self).remaining() >= 4
                    && v == be32_val(
                        old(self).bytes()[old(self).pos()],
                        old(self).bytes()[old(self).pos() + 1],
                        old(self).bytes()[old(self).pos() + 2],
                        old(self).bytes()[old(self).pos() + 3],
                    )
                    && final(self).pos() == old(self).pos() + 4,
                Err(e) => e == AssetError::Truncated
                    && old(self).remaining() < 4
                    && final(self).pos() == old(self).pos(),
            },
    {
        if self.b.len() - self.i >= 4 {
            let b0 = self.b[self.i];
            let b1 = self.b[self.i + 1];
            let b2 = self.b[self.i + 2];
            let b3 = self.b[self.i + 3];
            self.i += 4;
            Ok(((b0 as u32) << 24) | ((b1 as u32) << 16) | ((b2 as u32) << 8) | (b3 as u32))
        } else {
            Err(AssetError::Truncated)
        }
    }

    /// Reads `n` big-endian words; on failure the offset is left where it
    /// was.
    fn read_words(&mut self, n: usize) -> (r: Result<Vec<u32>, AssetError>)
        requires
            old(self).wf(),
        ensures
            final(self).wf(),
            final(self).bytes() == old(self).bytes(),
            match r {
                Ok(w) => old(self).remaining() >= 4 * (n as int)
                    && w@ == words_at(old(self).bytes(), old(self).pos(), n as nat)
                    && final(self).pos() == old(self).pos() + 4 * (n as int),
                Err(e) => e == AssetError::Truncated
                    && old(self).remaining() < 4 * (n as int)
                    && final(self).pos() == old(self).pos(),
            },
    {
        let start = self.i;
        let mut w: Vec<u32> = Vec::new();
        let mut k: usize = 0;
        while k < n
            invariant
                k <= n,
                self.wf(),
                self.bytes() == old(self).bytes(),
                start == old(self).pos(),
                self.pos() == start + 4 * (k as int),
                w@ == words_at(self.bytes(), start as int, k as nat),
            decreases n - k,
        {
            match self.read_u32() {
                Ok(v) => {
                    w.push(v);
                    assert(w@ =~= words_at(self.bytes(), start as int, (k + 1) as nat));
                },
                Err(_) => {
                    self.i = start;
                    return Err(AssetError::Truncated);
                },
            }
            k += 1;
        }
        Ok(w)
    }

    /// Four one-byte joint indices, widened to `u32`.
    pub fn read_joints(&mut self) -> (r: Result<[u32; 4], AssetError>)
        requires
            old(self).wf(),
        ensures
            final(self).wf(),
            final(self).bytes() == old(self).bytes(),
            match r {
                Ok(v) => old(self).remaining() >= 4
                    && v@ == Seq::new(4, |k: int| old(self).bytes()[old(self).pos() + k] as u32)
                    && final(self).pos() == old(self).pos() + 4,
                Err(e) => e == AssetError::Truncated
                    && old(self).remaining() < 4
                    && final(self).pos() == old(self).pos(),
            },
    {
        if self.b.len() - self.i >= 4 {
            let v = [
                self.b[self.i] as u32,
                self.b[self.i + 1] as u32,
                self.b[self.i + 2] as u32,
                self.b[self.i + 3] as u32,
            ];
            self.i += 4;
            assert(v@ =~= Seq::new(4, |k: int| old(self).bytes()[old(self).pos() + k] as u32));
            Ok(v)
        } else {
            Err(AssetError::Truncated)
        }
    }

    /// Bytes up to (not including) the next delimiter; consumes the
    /// delimiter too. `Truncated` when no delimiter remains.
    pub fn read_str(&mut self) -> (r: Result<Vec<u8>, AssetError>)
        requires
            old(self).wf(),
        ensures
            final(self).wf(),
            final(self).bytes() == old(self).bytes(),
            match r {
                Ok(name) => find_byte(old(self).bytes(), DELIM, old(self).pos() as nat)
                    matches Some(k)
                    && name@ == old(self).bytes().subrange(old(self).pos(), k)
                    && final(self).pos() == k + 1,
                Err(e) => e == AssetError::Truncated
                    && find_byte(old(self).bytes(), DELIM, old(self).pos() as nat) is None
                    && final(self).pos() == old(self).pos(),
            },
    {
        let mut j: usize = self.i;
        let mut out: Vec<u8> = Vec::new();
        while j < self.b.len() && self.b[j] != DELIM
            invariant
                self == old(self),
                self.wf(),
                self.pos() <= j as int <= self.bytes().len(),
                out@ == self.bytes().subrange(self.pos(), j as int),
                find_byte(self.bytes(), DELIM, self.pos() as nat)
                    == find_byte(self.bytes(), DELIM, j as nat),
            decreases self.b.len() - j,
        {
            assert(find_byte(self.bytes(), DELIM, j as nat)
                == find_byte(self.bytes(), DELIM, (j + 1) as nat));
            out.push(self.b[j]);
            assert(out@ =~= self.bytes().subrange(self.pos(), j + 1 as int));
            j += 1;
        }
        if j < self.b.len() {
            assert(find_byte(self.bytes(), DELIM, j as nat) == Some(j as int));
            self.i = j + 1;
            Ok(out)
        } else {
            assert(find_byte(self.bytes(), DELIM, j as nat) is None);
            Err(AssetError::Truncated)
        }
    }

    /// A two-component float vector as two bit-pattern words.
    pub fn read_vec2(&mut self) -> (r: Result<[u32; 2], AssetError>)
        requires
            old(self).wf(),
        ensures
            final(self).wf(),
            final(self).bytes() == old(self).bytes(),
            match r {
                Ok(v) => old(self).remaining() >= 8
                    && v@ == words_at(old(self).bytes(), old(self).pos(), 2)
                    && final(self).pos() == old(self).pos() + 8,
                Err(e) => e == AssetError::Truncated
                    && old(self).remaining() < 8
                    && final(self).pos() == old(self).pos(),
            },
    {
        let w = self.read_words(2)?;
        Ok([w[0], w[1]])
    }

    /// A three-component float vector as three bit-pattern words.
    pub fn read_vec3(&mut self) -> (r: Result<[u32; 3], AssetError>)
        requires
            old(self).wf(),
        ensures
            final(self).wf(),
            final(self).bytes() == old(self).bytes(),
            match r {
                Ok(v) => old(self).remaining() >= 12
                    && v@ == words_at(old(self).bytes(), old(self).pos(), 3)
                    && final(self).pos() == old(self).pos() + 12,
                Err(e) => e == AssetError::Truncated
                    && old(self).remaining() < 12
                    && final(self).pos() == old(self).pos(),
            },
    {
        let w = self.read_words(3)?;
        Ok([w[0], w[1], w[2]])
    }

    /// A four-component float vector as four bit-pattern words.
    pub fn read_vec4(&mut self) -> (r: Result<[u32; 4], AssetError>)
        requires
            old(self).wf(),
        ensures
            final(self).wf(),
            final(self).bytes() == old(self).bytes(),
            match r {
                Ok(v) => old(self).remaining() >= 16
                    && v@ == words_at(old(self).bytes(), old(self).pos(), 4)
                    && final(self).pos() == old(self).pos() + 16,
                Err(e) => e == AssetError::Truncated
                    && old(self).remaining() < 16
                    && final(self).pos() == old(self).pos(),
            },
    {
        let w = self.read_words(4)?;
        Ok([w[0], w[1], w[2], w[3]])
    }

    /// A 3x3 float matrix as nine bit-pattern words.
    pub fn read_mat3x3(&mut self) -> (r: Result<Mat3, AssetError>)
        requires
            old(self).wf(),
        ensures
            final(self).wf(),
            final(self).bytes() == old(self).bytes(),
            match r {
                Ok(m) => old(self).remaining() >= 36
                    && m@ == words_at(old(self).bytes(), old(self).pos(), 9)
                    && m.wf()
                    && final(self).pos() == old(self).pos() + 36,
                Err(e) => e == AssetError::Truncated
                    && old(self).remaining() < 36
                    && final(self).pos() == old(self).pos(),
            },
    {
        let m = self.read_words(9)?;
        Ok(Mat3 { m })
    }

    /// A 4x4 float matrix as sixteen bit-pattern words.
    pub fn read_mat4x4(&mut self) -> (r: Result<Mat4, AssetError>)
        requires
            old(self).wf(),
        ensures
            final(self).wf(),
            final(self).bytes() == old(self).bytes(),
            match r {
                Ok(m) => old(self).remaining() >= 64
                    && m@ == words_at(old(self).bytes(), old(self).pos(), 16)
                    && m.wf()
                    && final(self).pos() == old(self).pos() + 64,
                Err(e) => e == AssetError::Truncated
                    && old(self).remaining() < 64
                    && final(self).pos() == old(self).pos(),
            },
    {
        let m = self.read_words(16)?;
        Ok(Mat4 { m })
    }
}

} // verus!
