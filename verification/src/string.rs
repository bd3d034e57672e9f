use vstd::prelude::*;
use crate::klibc::{self, is_cstr, cstrlen, bounded_len, mem_compare_result_n};

verus! {

/// Types whose values can tell whether they are zero, as the terminator of
/// a C string is.
pub trait Zero {
    fn is_zero(&self) -> bool;
}

impl Zero for u8 {
    fn is_zero(&self) -> (b: bool) {
        *self == 0
    }
}

impl Zero for i8 {
    fn is_zero(&self) -> (b: bool) {
        *self == 0
    }
}

/// An iterator over the bytes of a C string, up to (not including) its NUL.
pub struct NulTerminated<'a> {
    buf: &'a [u8],
    pos: usize,
}

impl<'a> NulTerminated<'a> {
    /// The buffer iterated over.
    pub closed spec fn buffer(&self) -> Seq<u8> {
        self.buf@
    }

    /// How many bytes were handed out already.
    pub closed spec fn position(&self) -> int {
        self.pos as int
    }

    /// Starts at the first byte of `buf`, which must hold a C string.
    pub fn new(buf: &'a [u8]) -> (it: Self)
        requires
            is_cstr(buf@),
        ensures
            it.buffer() == buf@,
            it.position() == 0,
    {
        NulTerminated { buf, pos: 0 }
    }

    /// The next byte before the NUL, or `None` at the NUL.
    pub fn next(&mut self) -> (r: Option<&'a u8>)
        requires
            is_cstr(old(self).buffer()),
            old(self).position() <= cstrlen(old(self).buffer()),
        ensures
            final(self).buffer() == old(self).buffer(),
            final(self).position() <= cstrlen(final(self).buffer()),
            old(self).position() < cstrlen(old(self).buffer()) ==> r == Some(&old(self).buffer()[old(self).position()])
                && final(self).position() == old(self).position() + 1,
            old(self).position() == cstrlen(old(self).buffer()) ==> r is None
                && final(self).position() == old(self).position(),
    {
        proof {
            klibc::lemma_cstrlen(self.buf@);
        }
        let v = &self.buf[self.pos];
        if *v == 0 {
            None
        } else {
            self.pos = self.pos + 1;
            Some(v)
        }
    }
}

/// Compares the first `n` bytes of `s1` and `s2`: the difference of the
/// first pair that differs, 0 when they are equal.
pub fn memcmp(s1: &[u8], s2: &[u8], n: usize) -> (r: i32)
    requires
        n <= s1.len(),
        n <= s2.len(),
    ensures
        r == mem_compare_result_n(s1@, s2@, n),
{
    klibc::memcmp(s1, s2, n)
}

/// Copies the first `n` bytes of `s2` to the start of `s1`.
pub fn memcpy(s1: &mut Vec<u8>, s2: &[u8], n: usize)
    requires
        n <= old(s1).len(),
        n <= s2.len(),
    ensures
        final(s1).len() == old(s1).len(),
        forall|i: int| 0 <= i < n ==> #[trigger] final(s1)[i] == s2[i],
        forall|i: int| n <= i < old(s1).len() ==> #[trigger] final(s1)[i] == old(s1)[i],
{
    klibc::memcpy(s1, s2, n)
}

/// Copies `n` bytes of `buf` from index `s2` to index `s1`, the ranges
/// possibly overlapping.
pub fn memmove(buf: &mut Vec<u8>, s1: usize, s2: usize, n: usize)
    requires
        s1 + n <= old(buf).len(),
        s2 + n <= old(buf).len(),
    ensures
        final(buf).len() == old(buf).len(),
        forall|i: int| 0 <= i < n ==> #[trigger] final(buf)[s1 + i] == old(buf)[s2 + i],
        forall|i: int| 0 <= i < old(buf).len() && !(s1 <= i < s1 + n) ==> #[trigger] final(buf)[i] == old(buf)[i],
{
    klibc::memmove(buf, s1, s2, n)
}

/// The byte that an `int` argument of `memset` stands for: its low eight bits.
pub open spec fn low_byte(c: i32) -> u8 {
    c as u8
}

/// Fills the first `n` bytes of `s` with the low byte of `c`.
pub fn memset(s: &mut Vec<u8>, c: i32, n: usize)
    requires
        n <= old(s).len(),
    ensures
        final(s).len() == old(s).len(),
        forall|i: int| 0 <= i < n ==> #[trigger] final(s)[i] == low_byte(c),
        forall|i: int| n <= i < old(s).len() ==> #[trigger] final(s)[i] == old(s)[i],
{
    klibc::memset(s, c as u8, n)
}

/// Copies at most `n` bytes of the C string in `s2` to `s1`, fills the rest
/// of the `n` bytes with NULs, and returns the index where the copy
/// stopped: that of the NUL written, or `n`.
pub fn stpncpy(s1: &mut Vec<u8>, s2: &[u8], n: usize) -> (end: usize)
    requires
        is_cstr(s2@),
        n <= old(s1).len(),
    ensures
        end == bounded_len(s2@, n as int),
        final(s1).len() == old(s1).len(),
        forall|i: int| 0 <= i < n ==> #[trigger] final(s1)[i] == (if i < cstrlen(s2@) { s2[i] } else { 0u8 }),
        forall|i: int| n <= i < old(s1).len() ==> #[trigger] final(s1)[i] == old(s1)[i],
{
    klibc::strncpy(s1, s2, n);
    let len = klibc::strlen(s2);
    if len < n { len } else { n }
}

/// Copies at most `n` bytes of the C string in `s2` to `s1` and fills the
/// rest of the `n` bytes with NULs.
pub fn strncpy(s1: &mut Vec<u8>, s2: &[u8], n: usize)
    requires
        is_cstr(s2@),
        n <= old(s1).len(),
    ensures
        final(s1).len() == old(s1).len(),
        forall|i: int| 0 <= i < n ==> #[trigger] final(s1)[i] == (if i < cstrlen(s2@) { s2[i] } else { 0u8 }),
        forall|i: int| n <= i < old(s1).len() ==> #[trigger] final(s1)[i] == old(s1)[i],
{
    stpncpy(s1, s2, n);
}

/// The length of the C string in `s`, counted by walking it.
pub fn strlen(s: &[u8]) -> (n: usize)
    requires
        is_cstr(s@),
    ensures
        n == cstrlen(s@),
{
    let mut it = NulTerminated::new(s);
    let mut count: usize = 0;
    proof {
        klibc::lemma_cstrlen(s@);
    }
    while it.next().is_some()
        invariant
            it.buffer() == s@,
            is_cstr(s@),
            0 <= cstrlen(s@) < s.len(),
            it.position() <= cstrlen(s@),
            count == it.position(),
        decreases cstrlen(s@) - it.position(),
    {
        count = count + 1;
    }
    count
}

/// The length of the C string in `s`, but at most `size`.
pub fn strnlen(s: &[u8], size: usize) -> (n: usize)
    requires
        is_cstr(s@),
    ensures
        n == bounded_len(s@, size as int),
{
    let mut it = NulTerminated::new(s);
    let mut count: usize = 0;
    proof {
        klibc::lemma_cstrlen(s@);
    }
    while count < size && it.next().is_some()
        invariant
            it.buffer() == s@,
            is_cstr(s@),
            0 <= cstrlen(s@) < s.len(),
            it.position() <= cstrlen(s@),
            count == it.position(),
            count <= size,
        decreases cstrlen(s@) - it.position(),
    {
        count = count + 1;
    }
    count
}

} // verus!
