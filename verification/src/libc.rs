use vstd::prelude::*;
use crate::klibc::{
    ascii_lower, compare_stop, cstrlen, str_compare_result, first_diff, first_nul_from, is_cstr, lemma_cstrlen, lemma_first_nul_ge,
    lemma_first_nul_step, matches_at, mem_compare_result, mem_compare_result_n, str_compare_full,
    strn_compare_result,
};

verus! {

/// The size of the pieces `memcpy` moves between two buffers whose
/// addresses differ by the bits `x`: the largest power of two up to 16
/// below which both addresses agree.
pub open spec fn chunk_size_for(x: usize) -> usize {
    if x % 2 == 1 {
        1
    } else if (x / 2) % 2 == 1 {
        2
    } else if (x / 4) % 2 == 1 {
        4
    } else if (x / 8) % 2 == 1 {
        8
    } else {
        16
    }
}

fn chunk_size(x: usize) -> (c: usize)
    ensures
        c == chunk_size_for(x),
        c == 1 || c == 2 || c == 4 || c == 8 || c == 16,
{
    assert((x & 1 != 0) == (x % 2 == 1) && (x & 2 != 0) == ((x / 2) % 2 == 1)
        && (x & 4 != 0) == ((x / 4) % 2 == 1) && (x & 8 != 0) == ((x / 8) % 2 == 1)) by (bit_vector);
    if x & 1 != 0 {
        1
    } else if x & 2 != 0 {
        2
    } else if x & 4 != 0 {
        4
    } else if x & 8 != 0 {
        8
    } else {
        16
    }
}

/// Copies `s2[from..to]` into `s1[from..to]`, byte by byte.
fn copy_range(s1: &mut Vec<u8>, s2: &[u8], from: usize, to: usize)
    requires
        from <= to,
        to <= old(s1).len(),
        to <= s2.len(),
    ensures
        final(s1).len() == old(s1).len(),
        forall|k: int| from <= k < to ==> #[trigger] final(s1)[k] == s2[k],
        forall|k: int| 0 <= k < old(s1).len() && !(from <= k < to) ==> #[trigger] final(s1)[k] == old(s1)[k],
{
    let mut i = from;
    while i < to
        invariant
            from <= i <= to,
            to <= s1.len(),
            to <= s2.len(),
            s1.len() == old(s1).len(),
            forall|k: int| from <= k < i ==> #[trigger] s1[k] == s2[k],
            forall|k: int| 0 <= k < old(s1).len() && !(from <= k < i) ==> #[trigger] s1[k] == old(s1)[k],
        decreases to - i,
    {
        s1.set(i, s2[i]);
        i = i + 1;
    }
}

/// Copies the first `n` bytes of `s2` to the start of `s1`, where `s1_addr`
/// and `s2_addr` are the addresses of the two buffers. The copy goes in
/// three parts: the bytes before `s1`'s first address aligned to the chunk
/// size (see `chunk_size_for`), then whole chunks, then the bytes left.
pub fn memcpy(s1: &mut Vec<u8>, s1_addr: usize, s2: &[u8], s2_addr: usize, n: usize)
    requires
        n <= old(s1).len(),
        n <= s2.len(),
    ensures
        final(s1).len() == old(s1).len(),
        forall|k: int| 0 <= k < n ==> #[trigger] final(s1)[k] == s2[k],
        forall|k: int| n <= k < old(s1).len() ==> #[trigger] final(s1)[k] == old(s1)[k],
{
    if n == 0 {
        return;
    }
    let chunk = chunk_size(s1_addr ^ s2_addr);
    let offset = (chunk - s1_addr % chunk) % chunk;
    let prefix_len = if offset < n { offset } else { n };
    copy_range(s1, s2, 0, prefix_len);
    if offset < n {
        let rest = n - prefix_len;
        let chunks = rest / chunk;
        let mut pos = prefix_len;
        let mut c: usize = 0;
        proof {
            assert(chunks * chunk <= rest) by (nonlinear_arith)
                requires chunks == rest / chunk, chunk > 0;
        }
        while c < chunks
            invariant
                c <= chunks,
                chunks * chunk <= rest,
                rest == n - prefix_len,
                chunk > 0,
                pos == prefix_len + c * chunk,
                n <= s1.len(),
                n <= s2.len(),
                s1.len() == old(s1).len(),
                forall|k: int| 0 <= k < pos ==> #[trigger] s1[k] == s2[k],
                forall|k: int| n <= k < old(s1).len() ==> #[trigger] s1[k] == old(s1)[k],
            decreases chunks - c,
        {
            proof {
                assert(c * chunk + chunk <= chunks * chunk) by (nonlinear_arith)
                    requires c < chunks, chunk > 0;
            }
            copy_range(s1, s2, pos, pos + chunk);
            pos = pos + chunk;
            c = c + 1;
            proof {
                assert(pos == prefix_len + c * chunk) by (nonlinear_arith)
                    requires pos == prefix_len + (c - 1) * chunk + chunk;
            }
        }
        copy_range(s1, s2, pos, n);
    }
}

/// Comparing from `i` finds the first index at or after `i` where the
/// bytes differ, or `n`.
proof fn lemma_first_diff(a: Seq<u8>, b: Seq<u8>, i: int, m: int, n: int)
    requires
        0 <= i <= m <= n,
        n <= a.len(),
        n <= b.len(),
        forall|k: int| i <= k < m ==> a[k] == b[k],
        m < n ==> a[m] != b[m],
    ensures
        first_diff(a, b, i, n) == m,
    decreases m - i,
{
    if i < m {
        lemma_first_diff(a, b, i + 1, m, n);
    }
}

fn word_diff(a: u8, b: u8) -> (r: i32)
    ensures
        r == a - b,
{
    a as i32 - b as i32
}

/// Compares the first `n` bytes of `s1` and `s2` a word at a time, then
/// byte by byte: the difference of the first pair of bytes that differ, 0
/// when they are all equal.
pub fn memcmp(s1: &[u8], s2: &[u8], n: usize) -> (r: i32)
    requires
        n <= s1.len(),
        n <= s2.len(),
    ensures
        r == mem_compare_result_n(s1@, s2@, n),
{
    compare_by_words(s1, s2, n)
}

fn compare_by_words(s1: &[u8], s2: &[u8], n: usize) -> (r: i32)
    requires
        n <= s1.len(),
        n <= s2.len(),
    ensures
        r == mem_compare_result(s1@, s2@, n as int),
{
    let word = core::mem::size_of::<usize>();
    proof {
        broadcast use vstd::layout::layout_of_primitives;
        assert(word == 4 || word == 8);
    }
    let div = n / word;
    proof {
        assert(div * word <= n) by (nonlinear_arith)
            requires div == n / word, word > 0;
    }
    let mut w: usize = 0;
    while w < div
        invariant
            w <= div,
            div * word <= n,
            word == 4 || word == 8,
            n <= s1.len(),
            n <= s2.len(),
            forall|k: int| 0 <= k < w * word ==> s1[k] == s2[k],
        decreases div - w,
    {
        proof {
            assert(w * word + word <= div * word) by (nonlinear_arith)
                requires w < div, word > 0;
        }
        let base = w * word;
        let mut i: usize = 0;
        while i < word
            invariant
                base + word <= n,
                n <= s1.len(),
                n <= s2.len(),
                i <= word,
                forall|k: int| 0 <= k < base ==> s1[k] == s2[k],
                forall|k: int| base <= k < base + i ==> s1[k] == s2[k],
            decreases word - i,
        {
            if s1[base + i] != s2[base + i] {
                proof {
                    lemma_first_diff(s1@, s2@, 0, base + i, n as int);
                }
                return word_diff(s1[base + i], s2[base + i]);
            }
            i = i + 1;
        }
        w = w + 1;
        proof {
            assert(w * word == base + word) by (nonlinear_arith)
                requires base == (w - 1) * word;
        }
    }
    let mut j: usize = div * word;
    while j < n
        invariant
            div * word <= j <= n,
            n <= s1.len(),
            n <= s2.len(),
            forall|k: int| 0 <= k < j ==> s1[k] == s2[k],
        decreases n - j,
    {
        if s1[j] != s2[j] {
            proof {
                lemma_first_diff(s1@, s2@, 0, j as int, n as int);
            }
            return word_diff(s1[j], s2[j]);
        }
        j = j + 1;
    }
    proof {
        lemma_first_diff(s1@, s2@, 0, n as int, n as int);
    }
    0
}

proof fn lemma_first_nul_le(s: Seq<u8>, i: int)
    requires
        0 <= i <= s.len(),
    ensures
        first_nul_from(s, i) <= s.len(),
    decreases s.len() - i,
{
    if i < s.len() && s[i] != 0 {
        lemma_first_nul_le(s, i + 1);
    }
}

/// Fills the first `n` bytes of `s` with the low byte of `c`.
pub fn memset(s: &mut Vec<u8>, c: i32, n: usize)
    requires
        n <= old(s).len(),
    ensures
        final(s).len() == old(s).len(),
        forall|i: int| 0 <= i < n ==> #[trigger] final(s)[i] == c as u8,
        forall|i: int| n <= i < old(s).len() ==> #[trigger] final(s)[i] == old(s)[i],
{
    let b = c as u8;
    let mut i: usize = 0;
    while i < n
        invariant
            n <= s.len(),
            s.len() == old(s).len(),
            b == c as u8,
            i <= n,
            forall|k: int| 0 <= k < i ==> #[trigger] s[k] == b,
            forall|k: int| i <= k < old(s).len() ==> #[trigger] s[k] == old(s)[k],
        decreases n - i,
    {
        s.set(i, b);
        i = i + 1;
    }
}

/// Copies `n` bytes of `mem` from index `s2` to index `s1`: from the end
/// when the source lies before the destination, else from the start, so
/// that overlapping ranges are copied as they were.
pub fn memmove(mem: &mut Vec<u8>, s1: usize, s2: usize, n: usize)
    requires
        s1 + n <= old(mem).len(),
        s2 + n <= old(mem).len(),
    ensures
        final(mem).len() == old(mem).len(),
        forall|i: int| 0 <= i < n ==> #[trigger] final(mem)[s1 + i] == old(mem)[s2 + i],
        forall|i: int| 0 <= i < old(mem).len() && !(s1 <= i < s1 + n) ==> #[trigger] final(mem)[i] == old(mem)[i],
{
    if s2 < s1 {
        let mut i = n;
        while i != 0
            invariant
                s1 + n <= mem.len(),
                s2 + n <= mem.len(),
                s2 < s1,
                mem.len() == old(mem).len(),
                i <= n,
                forall|k: int| i <= k < n ==> #[trigger] mem[s1 + k] == old(mem)[s2 + k],
                forall|k: int| 0 <= k < old(mem).len() && !(s1 + i <= k < s1 + n) ==> #[trigger] mem[k] == old(mem)[k],
            decreases i,
        {
            i = i - 1;
            let b = mem[s2 + i];
            mem.set(s1 + i, b);
        }
    } else {
        let mut i: usize = 0;
        while i < n
            invariant
                s1 + n <= mem.len(),
                s2 + n <= mem.len(),
                s2 >= s1,
                mem.len() == old(mem).len(),
                i <= n,
                forall|k: int| 0 <= k < i ==> #[trigger] mem[s1 + k] == old(mem)[s2 + k],
                forall|k: int| 0 <= k < old(mem).len() && !(s1 <= k < s1 + i) ==> #[trigger] mem[k] == old(mem)[k],
            decreases n - i,
        {
            let b = mem[s2 + i];
            mem.set(s1 + i, b);
            i = i + 1;
        }
    }
}

/// The index of the first of the first `len` bytes of `haystack` equal to
/// the low byte of `needle`, or none.
pub fn memchr(haystack: &[u8], needle: i32, len: usize) -> (r: Option<usize>)
    requires
        len <= haystack.len(),
    ensures
        match r {
            Some(i) => i < len && haystack[i as int] == needle as u8
                && forall|k: int| 0 <= k < i ==> haystack[k] != needle as u8,
            None => forall|k: int| 0 <= k < len ==> haystack[k] != needle as u8,
        },
{
    let b = needle as u8;
    let mut i: usize = 0;
    while i < len
        invariant
            len <= haystack.len(),
            b == needle as u8,
            i <= len,
            forall|k: int| 0 <= k < i ==> haystack[k] != b,
        decreases len - i,
    {
        if haystack[i] == b {
            return Some(i);
        }
        i = i + 1;
    }
    None
}

/// The first index, before the end of the C string `haystack`, at which
/// the C string `needle` occurs; none if there is none. An empty needle is
/// found at 0 unless the haystack is empty too.
pub fn strstr(haystack: &[u8], needle: &[u8]) -> (r: Option<usize>)
    requires
        is_cstr(haystack@),
        is_cstr(needle@),
    ensures
        match r {
            Some(p) => p < cstrlen(haystack@) && matches_at(haystack@, needle@, p as int)
                && forall|j: int| 0 <= j < p ==> !matches_at(haystack@, needle@, j),
            None => forall|j: int| 0 <= j < cstrlen(haystack@) ==> !matches_at(haystack@, needle@, j),
        },
{
    proof {
        lemma_cstrlen(haystack@);
        lemma_cstrlen(needle@);
    }
    let ghost lh = cstrlen(haystack@);
    let ghost ln = cstrlen(needle@);
    let mut p: usize = 0;
    while haystack[p] != 0
        invariant
            lh == cstrlen(haystack@),
            ln == cstrlen(needle@),
            0 <= lh < haystack.len(),
            0 <= ln < needle.len(),
            haystack[lh] == 0,
            needle[ln] == 0,
            forall|k: int| 0 <= k < lh ==> haystack[k] != 0,
            forall|k: int| 0 <= k < ln ==> needle[k] != 0,
            p <= lh,
            forall|j: int| 0 <= j < p ==> !matches_at(haystack@, needle@, j),
        decreases lh - p,
    {
        let mut i: usize = 0;
        loop
            invariant
                0 <= lh < haystack.len(),
                0 <= ln < needle.len(),
                haystack[lh] == 0,
                needle[ln] == 0,
                forall|k: int| 0 <= k < lh ==> haystack[k] != 0,
                forall|k: int| 0 <= k < ln ==> needle[k] != 0,
                p < lh,
                i <= ln,
                p + i <= lh,
                forall|m: int| 0 <= m < i ==> haystack[p + m] == needle[m],
            ensures
                i <= ln,
                p + i <= lh,
                forall|m: int| 0 <= m < i ==> haystack[p + m] == needle[m],
                i == ln || haystack[p + i] != needle[i as int],
            decreases ln - i,
        {
            if needle[i] == 0 {
                break;
            }
            if haystack[p + i] != needle[i] {
                break;
            }
            i = i + 1;
        }
        if needle[i] == 0 {
            assert(needle[i as int] == 0);
            assert(i == ln);
            assert forall|m: int| 0 <= m < cstrlen(needle@) implies #[trigger] haystack@[p + m] == needle@[m] by {
                assert(haystack[p + m] == needle[m]);
            }
            assert(matches_at(haystack@, needle@, p as int));
            return Some(p);
        }
        assert(!matches_at(haystack@, needle@, p as int)) by {
            assert(haystack[p + i] != needle[i as int]);
        }
        p = p + 1;
    }
    None
}

/// Copies the C string `s2` into `s1`, at most `n` bytes, and fills the
/// rest of the `n` bytes with NULs; returns the index at which the copy
/// stopped: the length of the string, or `n` if that is smaller.
pub fn stpncpy(s1: &mut Vec<u8>, s2: &[u8], n: usize) -> (r: usize)
    requires
        n <= old(s1).len(),
        is_cstr(s2@) || n <= s2.len(),
    ensures
        r == (if first_nul_from(s2@, 0) < n { first_nul_from(s2@, 0) } else { n as int }),
        final(s1).len() == old(s1).len(),
        forall|i: int| 0 <= i < n ==> #[trigger] final(s1)[i] == (if i < first_nul_from(s2@, 0) { s2[i] } else { 0u8 }),
        forall|i: int| n <= i < old(s1).len() ==> #[trigger] final(s1)[i] == old(s1)[i],
{
    proof {
        lemma_first_nul_ge(s2@, 0);
        lemma_first_nul_le(s2@, 0);
        if is_cstr(s2@) {
            lemma_cstrlen(s2@);
        }
    }
    let mut k: usize = 0;
    while k < n
        invariant_except_break
            forall|i: int| k <= i < old(s1).len() ==> #[trigger] s1[i] == old(s1)[i],
        invariant
            n <= s1.len(),
            s1.len() == old(s1).len(),
            is_cstr(s2@) || n <= s2.len(),
            is_cstr(s2@) ==> first_nul_from(s2@, 0) < s2.len(),
            k <= n,
            k <= first_nul_from(s2@, 0),
            first_nul_from(s2@, 0) <= s2.len(),
            first_nul_from(s2@, k as int) == first_nul_from(s2@, 0),
            forall|i: int| 0 <= i < k ==> #[trigger] s1[i] == s2[i],
            forall|i: int| k < i < old(s1).len() ==> #[trigger] s1[i] == old(s1)[i],
        ensures
            k <= n,
            k == (if first_nul_from(s2@, 0) < n { first_nul_from(s2@, 0) } else { n as int }),
            s1.len() == old(s1).len(),
            forall|i: int| 0 <= i < k ==> #[trigger] s1[i] == s2[i],
            forall|i: int| k <= i < old(s1).len() && !(i == k && k < n) ==> #[trigger] s1[i] == old(s1)[i],
        decreases n - k,
    {
        let b = s2[k];
        s1.set(k, b);
        if b == 0 {
            break;
        }
        proof {
            lemma_first_nul_step(s2@, k as int);
            lemma_first_nul_ge(s2@, k + 1);
        }
        k = k + 1;
    }
    let mut j = k;
    while j < n
        invariant
            k <= j <= n,
            n <= s1.len(),
            s1.len() == old(s1).len(),
            forall|i: int| 0 <= i < k ==> #[trigger] s1[i] == s2[i],
            forall|i: int| k <= i < j ==> #[trigger] s1[i] == 0u8,
            forall|i: int| j <= i < old(s1).len() && !(i == k && k < n) ==> #[trigger] s1[i] == old(s1)[i],
        decreases n - j,
    {
        s1.set(j, 0);
        j = j + 1;
    }
    k
}

/// Copies the C string `s2` into `s1`, at most `n` bytes, and fills the
/// rest of the `n` bytes with NULs.
pub fn strncpy(s1: &mut Vec<u8>, s2: &[u8], n: usize)
    requires
        n <= old(s1).len(),
        is_cstr(s2@) || n <= s2.len(),
    ensures
        final(s1).len() == old(s1).len(),
        forall|i: int| 0 <= i < n ==> #[trigger] final(s1)[i] == (if i < first_nul_from(s2@, 0) { s2[i] } else { 0u8 }),
        forall|i: int| n <= i < old(s1).len() ==> #[trigger] final(s1)[i] == old(s1)[i],
{
    stpncpy(s1, s2, n);
}

/// The length of the string in `s`, counting at most `size` bytes.
pub fn strnlen(s: &[u8], size: usize) -> (n: usize)
    requires
        is_cstr(s@) || size <= s.len(),
    ensures
        n == (if first_nul_from(s@, 0) < size { first_nul_from(s@, 0) } else { size as int }),
{
    proof {
        lemma_first_nul_ge(s@, 0);
        lemma_first_nul_le(s@, 0);
        if is_cstr(s@) {
            lemma_cstrlen(s@);
        }
    }
    let mut n: usize = 0;
    while n < size && s[n] != 0
        invariant
            is_cstr(s@) || size <= s.len(),
            is_cstr(s@) ==> first_nul_from(s@, 0) < s.len(),
            n <= size,
            n <= first_nul_from(s@, 0),
            first_nul_from(s@, 0) <= s.len(),
            first_nul_from(s@, n as int) == first_nul_from(s@, 0),
        decreases size - n,
    {
        proof {
            lemma_first_nul_step(s@, n as int);
            lemma_first_nul_ge(s@, n + 1);
        }
        n = n + 1;
    }
    n
}

/// The length of the C string in `s`.
pub fn strlen(s: &[u8]) -> (n: usize)
    requires
        is_cstr(s@),
    ensures
        n == cstrlen(s@),
{
    proof {
        lemma_cstrlen(s@);
    }
    strnlen(s, s.len())
}

/// A new C string holding the string in `s1`, at most `size` bytes of it.
pub fn strndup(s1: &[u8], size: usize) -> (r: Vec<u8>)
    requires
        is_cstr(s1@) || size <= s1.len(),
    ensures
        r@ == s1@.subrange(0, if first_nul_from(s1@, 0) < size { first_nul_from(s1@, 0) } else { size as int }).push(0u8),
{
    let len = strnlen(s1, size);
    proof {
        lemma_first_nul_ge(s1@, 0);
        if is_cstr(s1@) {
            lemma_cstrlen(s1@);
        }
    }
    let mut buffer: Vec<u8> = Vec::new();
    let mut i: usize = 0;
    while i < len
        invariant
            len <= s1.len(),
            i <= len,
            buffer@ == s1@.subrange(0, i as int),
        decreases len - i,
    {
        buffer.push(s1[i]);
        i = i + 1;
        assert(buffer@ =~= s1@.subrange(0, i as int));
    }
    buffer.push(0);
    buffer
}

/// A new C string holding the C string in `s1`.
pub fn strdup(s1: &[u8]) -> (r: Vec<u8>)
    requires
        is_cstr(s1@),
    ensures
        r@ == s1@.subrange(0, cstrlen(s1@)).push(0u8),
{
    let total = s1.len();
    proof {
        lemma_cstrlen(s1@);
        assert(cstrlen(s1@) < total);
    }
    strndup(s1, usize::MAX)
}

/// Copies the C string `src`, with its NUL, to the start of `dst`.
pub fn strcpy(dst: &mut Vec<u8>, src: &[u8])
    requires
        is_cstr(src@),
        cstrlen(src@) < old(dst).len(),
    ensures
        final(dst).len() == old(dst).len(),
        forall|i: int| 0 <= i <= cstrlen(src@) ==> #[trigger] final(dst)[i] == src[i],
        forall|i: int| cstrlen(src@) < i < old(dst).len() ==> #[trigger] final(dst)[i] == old(dst)[i],
{
    proof {
        lemma_cstrlen(src@);
    }
    let len = strlen(src);
    copy_range(dst, src, 0, len + 1);
}

/// Compares `s1` and `s2` byte by byte, up to `n` bytes, stopping where
/// they differ or `s1` has its NUL: the difference of the bytes there, 0
/// if the comparison ran out.
fn compare_upto(s1: &[u8], s2: &[u8], n: usize) -> (r: i32)
    requires
        (n <= s1.len() && n <= s2.len()) || (is_cstr(s1@) && is_cstr(s2@)),
    ensures
        r == str_compare_result(s1@, s2@, n as int, false),
{
    let ghost bounded = n <= s1.len() && n <= s2.len();
    proof {
        if !bounded {
            lemma_cstrlen(s1@);
            lemma_cstrlen(s2@);
        }
    }
    let mut i: usize = 0;
    while i < n
        invariant
            i <= n,
            bounded == (n <= s1.len() && n <= s2.len()),
            !bounded ==> {
                &&& 0 <= cstrlen(s1@) < s1.len() && 0 <= cstrlen(s2@) < s2.len()
                &&& s1[cstrlen(s1@)] == 0 && s2[cstrlen(s2@)] == 0
                &&& i <= cstrlen(s1@) && i <= cstrlen(s2@)
            },
            compare_stop(s1@, s2@, 0, n as int, false) == compare_stop(s1@, s2@, i as int, n as int, false),
        decreases n - i,
    {
        let a = s1[i];
        let b = s2[i];
        if a != b || a == 0 {
            return word_diff(a, b);
        }
        proof {
            if !bounded {
                assert(i != cstrlen(s1@));
                assert(i != cstrlen(s2@));
            }
        }
        i = i + 1;
    }
    0
}

/// Compares at most `n` bytes of `s1` and `s2`, stopping where they
/// differ or `s1` has its NUL: the difference of the bytes there, 0 if the
/// `n` bytes are alike. Both buffers hold the `n` bytes.
pub fn strncmp(s1: &[u8], s2: &[u8], n: usize) -> (r: i32)
    requires
        n <= s1.len(),
        n <= s2.len(),
    ensures
        r == strn_compare_result(s1@, s2@, n),
{
    compare_upto(s1, s2, n)
}

/// Compares the C strings `s1` and `s2`: the difference of the bytes
/// where they first differ, 0 when they are equal.
pub fn strcmp(s1: &[u8], s2: &[u8]) -> (r: i32)
    requires
        is_cstr(s1@),
        is_cstr(s2@),
    ensures
        r == str_compare_full(s1@, s2@),
{
    compare_upto(s1, s2, s1.len())
}

/// The difference of two lower-cased bytes, as a byte: it wraps below 0.
pub open spec fn case_diff_byte(a: u8, b: u8) -> int {
    let d = ascii_lower(a) - ascii_lower(b);
    if d < 0 { d + 256 } else { d }
}

/// The result of a case-blind comparison of two C strings that gives the
/// difference as a byte.
pub open spec fn wrapped_case_result(a: Seq<u8>, b: Seq<u8>) -> int {
    let k = compare_stop(a, b, 0, a.len() as int, true);
    if k >= a.len() { 0 } else { case_diff_byte(a[k], b[k]) }
}

fn lower_byte(c: u8) -> (r: u8)
    ensures
        r == ascii_lower(c),
{
    if 65 <= c && c <= 90 { c + 32 } else { c }
}

fn widen(v: u8) -> (r: i32)
    ensures
        r == v,
{
    v as i32
}

fn fold_compare_wrapping(s1: &[u8], s2: &[u8]) -> (r: i32)
    requires
        is_cstr(s1@),
        is_cstr(s2@),
    ensures
        r == wrapped_case_result(s1@, s2@),
{
    proof {
        lemma_cstrlen(s1@);
        lemma_cstrlen(s2@);
    }
    let n = s1.len();
    let ghost j1 = cstrlen(s1@);
    let ghost j2 = cstrlen(s2@);
    let mut i: usize = 0;
    loop
        invariant
            n == s1.len(),
            0 <= j1 < s1.len(),
            0 <= j2 < s2.len(),
            s1[j1] == 0,
            s2[j2] == 0,
            i <= j1,
            i <= j2,
            compare_stop(s1@, s2@, 0, n as int, true) == compare_stop(s1@, s2@, i as int, n as int, true),
        decreases j1 - i,
    {
        let a = s1[i];
        let b = s2[i];
        let val = lower_byte(a).wrapping_sub(lower_byte(b));
        if val != 0 || a == 0 {
            return widen(val);
        }
        proof {
            assert(i != j1);
            if i == j2 {
                assert(ascii_lower(b) == 0);
                assert(ascii_lower(a) != 0);
            }
        }
        i = i + 1;
    }
}

/// Compares the C strings `s1` and `s2` ignoring ASCII case: the
/// difference of the lower-cased bytes where they first differ, taken as
/// a byte (so from 0 to 255), 0 when they are equal.
pub fn strcasecmp(s1: &[u8], s2: &[u8]) -> (r: i32)
    requires
        is_cstr(s1@),
        is_cstr(s2@),
    ensures
        r == wrapped_case_result(s1@, s2@),
{
    fold_compare_wrapping(s1, s2)
}

} // verus!
