//! Byte-level building blocks of the compiled formats: big-endian 32-bit
//! words and delimiter-terminated names.

use vstd::prelude::*;

use crate::AssetError;

verus! {

/// The byte that ends every name field in a compiled file.
pub const DELIM: u8 = '#' as u8;

/// Every multi-byte field of the compiled formats is big-endian.
pub open spec fn be32(v: u32) -> Seq<u8> {
    seq![
        (v >> 24) as u8,
        ((v >> 16) & 0xff) as u8,
        ((v >> 8) & 0xff) as u8,
        (v & 0xff) as u8,
    ]
}

/// The word spelled by four big-endian bytes.
pub open spec fn be32_val(b0: u8, b1: u8, b2: u8, b3: u8) -> u32 {
    ((b0 as u32) << 24) | ((b1 as u32) << 16) | ((b2 as u32) << 8) | (b3 as u32)
}

/// Decoding the four bytes of a word gives the word back.
pub proof fn lemma_be32_round_trip(v: u32)
    ensures
        be32_val(be32(v)[0], be32(v)[1], be32(v)[2], be32(v)[3]) == v,
{
    assert((((v >> 24) as u8) as u32) << 24 | ((((v >> 16) & 0xff) as u8) as u32) << 16
        | ((((v >> 8) & 0xff) as u8) as u32) << 8 | (((v & 0xff) as u8) as u32) == v)
        by (bit_vector);
}

/// The `n` words whose big-endian bytes sit at `pos` in `s`.
pub open spec fn words_at(s: Seq<u8>, pos: int, n: nat) -> Seq<u32> {
    Seq::new(n, |k: int| be32_val(s[pos + 4 * k], s[pos + 4 * k + 1], s[pos + 4 * k + 2], s[pos + 4 * k + 3]))
}

/// Position of the first `b` at or after `from`, if any.
pub open spec fn find_byte(s: Seq<u8>, b: u8, from: nat) -> Option<int>
    decreases s.len() - from,
{
    if from >= s.len() {
        None
    } else if s[from as int] == b {
        Some(from as int)
    } else {
        find_byte(s, b, (from + 1) as nat)
    }
}

/// What a hit of `find_byte` means: a `b` at the hit, none before it.
pub proof fn lemma_find_byte_props(s: Seq<u8>, b: u8, from: nat)
    ensures
        match find_byte(s, b, from) {
            Some(k) => from <= k < s.len() && s[k] == b
                && (forall|j: int| from <= j < k ==> s[j] != b),
            None => forall|j: int| from <= j < s.len() ==> s[j] != b,
        },
    decreases s.len() - from,
{
    if from < s.len() && s[from as int] != b {
        lemma_find_byte_props(s, b, (from + 1) as nat);
    }
}

/// When a window of non-`b` bytes ends at a `b`, the search from the
/// window's start lands on that `b`.
pub proof fn lemma_find_byte_window(s: Seq<u8>, b: u8, from: nat, d: int)
    requires
        from <= d < s.len(),
        s[d] == b,
        forall|j: int| from <= j < d ==> s[j] != b,
    ensures
        find_byte(s, b, from) == Some(d),
    decreases d - from,
{
    if from < d {
        lemma_find_byte_window(s, b, (from + 1) as nat, d);
    }
}

/// Searching after dropping a prefix finds the same byte, shifted.
pub proof fn lemma_find_byte_skip(s: Seq<u8>, b: u8, off: nat, from: nat)
    requires
        off <= s.len(),
    ensures
        match find_byte(s, b, off + from) {
            Some(k) => find_byte(s.skip(off as int), b, from) == Some(k - off),
            None => find_byte(s.skip(off as int), b, from) is None,
        },
    decreases s.len() - off - from,
{
    let t = s.skip(off as int);
    if off + from < s.len() {
        assert(t[from as int] == s[(off + from) as int]);
        if s[(off + from) as int] != b {
            lemma_find_byte_skip(s, b, off, from + 1);
        }
    }
}

/// One byte at `pos`, and the position after it.
pub open spec fn parse_u8_at(s: Seq<u8>, pos: int) -> Result<(u8, int), AssetError> {
    if 0 <= pos && pos + 1 <= s.len() {
        Ok((s[pos], pos + 1))
    } else {
        Err(AssetError::Truncated)
    }
}

/// A big-endian word at `pos`, and the position after it.
pub open spec fn parse_u32_at(s: Seq<u8>, pos: int) -> Result<(u32, int), AssetError> {
    if 0 <= pos && pos + 4 <= s.len() {
        Ok((be32_val(s[pos], s[pos + 1], s[pos + 2], s[pos + 3]), pos + 4))
    } else {
        Err(AssetError::Truncated)
    }
}

/// `n` big-endian words at `pos`, and the position after them.
pub open spec fn parse_words_at(s: Seq<u8>, pos: int, n: nat) -> Result<(Seq<u32>, int), AssetError> {
    if 0 <= pos && pos + 4 * n <= s.len() {
        Ok((words_at(s, pos, n), pos + 4 * n))
    } else {
        Err(AssetError::Truncated)
    }
}

/// The name starting at `pos`, up to (not including) the next delimiter,
/// and the position after the delimiter.
pub open spec fn parse_name_at(s: Seq<u8>, pos: int) -> Result<(Seq<u8>, int), AssetError> {
    if 0 <= pos <= s.len() {
        match find_byte(s, DELIM, pos as nat) {
            None => Err(AssetError::Truncated),
            Some(k) => Ok((s.subrange(pos, k), k + 1)),
        }
    } else {
        Err(AssetError::Truncated)
    }
}

/// Byte-for-byte equality of two buffers.
pub fn bytes_eq(a: &Vec<u8>, b: &Vec<u8>) -> (r: bool)
    ensures
        r <==> a@ == b@,
{
    if a.len() != b.len() {
        return false;
    }
    let mut k: usize = 0;
    while k < a.len()
        invariant
            k <= a@.len(),
            a@.len() == b@.len(),
            forall|j: int| 0 <= j < k ==> a@[j] == b@[j],
        decreases a@.len() - k,
    {
        if a[k] != b[k] {
            return false;
        }
        k += 1;
    }
    proof {
        assert(a@ =~= b@);
    }
    true
}

/// Appends the big-endian bytes of `v`.
pub fn append_u32(b: &mut Vec<u8>, v: u32)
    ensures
        final(b)@ == old(b)@ + be32(v),
{
    b.push((v >> 24) as u8);
    b.push(((v >> 16) & 0xff) as u8);
    b.push(((v >> 8) & 0xff) as u8);
    b.push((v & 0xff) as u8);
    assert(b@ =~= old(b)@ + be32(v));
}

} // verus!
