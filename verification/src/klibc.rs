use vstd::prelude::*;

verus! {

/// Whether a byte buffer holds a NUL somewhere: it holds a C string.
pub open spec fn is_cstr(s: Seq<u8>) -> bool {
    exists|j: int| 0 <= j < s.len() && s[j] == 0
}

/// The index of the first NUL at or after `i` (the buffer length if none).
pub open spec fn first_nul_from(s: Seq<u8>, i: int) -> int
    decreases s.len() - i,
{
    if i >= s.len() || i < 0 {
        s.len() as int
    } else if s[i] == 0 {
        i
    } else {
        first_nul_from(s, i + 1)
    }
}

/// The length of the C string in `s`: the bytes before the first NUL.
pub open spec fn cstrlen(s: Seq<u8>) -> int {
    first_nul_from(s, 0)
}

/// ASCII lower case of a byte.
pub open spec fn ascii_lower(c: u8) -> u8 {
    if 65 <= c <= 90 { (c + 32) as u8 } else { c }
}

/// Where a byte-wise comparison of `a` and `b` from index `i` stops: the
/// first index below `n` whose bytes differ (after lower-casing when
/// `fold`) or where `a` has its NUL; `n` when there is none.
pub open spec fn compare_stop(a: Seq<u8>, b: Seq<u8>, i: int, n: int, fold: bool) -> int
    decreases n - i,
{
    if i >= n || i < 0 {
        n
    } else if (if fold { ascii_lower(a[i]) == ascii_lower(b[i]) } else { a[i] == b[i] }) && a[i] != 0 {
        compare_stop(a, b, i + 1, n, fold)
    } else {
        i
    }
}

/// The first index below `n` where `a` and `b` differ (`n` if none).
pub open spec fn first_diff(a: Seq<u8>, b: Seq<u8>, i: int, n: int) -> int
    decreases n - i,
{
    if i >= n || i < 0 {
        n
    } else if a[i] != b[i] {
        i
    } else {
        first_diff(a, b, i + 1, n)
    }
}

/// The result of comparing `n` bytes: the difference of the first bytes that
/// differ, 0 when none do.
pub open spec fn mem_compare_result(a: Seq<u8>, b: Seq<u8>, n: int) -> int {
    let k = first_diff(a, b, 0, n);
    if k >= n { 0 } else { a[k] - b[k] }
}

/// Whether `needle` (its C string) starts at index `i` of `hay`.
pub open spec fn matches_at(hay: Seq<u8>, needle: Seq<u8>, i: int) -> bool {
    &&& i + cstrlen(needle) <= hay.len()
    &&& forall|k: int| 0 <= k < cstrlen(needle) ==> #[trigger] hay[i + k] == needle[k]
}

pub proof fn lemma_first_nul_step(s: Seq<u8>, i: int)
    requires
        0 <= i < s.len(),
        s[i] != 0,
    ensures
        first_nul_from(s, i) == first_nul_from(s, i + 1),
{
}

pub proof fn lemma_first_nul_bound(s: Seq<u8>, i: int, j: int)
    requires
        0 <= i <= j < s.len(),
        s[j] == 0,
    ensures
        i <= first_nul_from(s, i) <= j,
        s[first_nul_from(s, i)] == 0,
        forall|k: int| i <= k < first_nul_from(s, i) ==> s[k] != 0,
    decreases j - i,
{
    if s[i] != 0 {
        lemma_first_nul_bound(s, i + 1, j);
    }
}

pub proof fn lemma_first_nul_ge(s: Seq<u8>, i: int)
    requires
        0 <= i <= s.len(),
    ensures
        first_nul_from(s, i) >= i,
    decreases s.len() - i,
{
    if i < s.len() && s[i] != 0 {
        lemma_first_nul_ge(s, i + 1);
    }
}

/// Facts about the length of a C string.
pub proof fn lemma_cstrlen(s: Seq<u8>)
    requires
        is_cstr(s),
    ensures
        0 <= cstrlen(s) < s.len(),
        s[cstrlen(s)] == 0,
        forall|k: int| 0 <= k < cstrlen(s) ==> s[k] != 0,
{
    let j = choose|j: int| 0 <= j < s.len() && s[j] == 0;
    lemma_first_nul_bound(s, 0, j);
}

/// Fills the first `count` bytes of `s` with `c`.
pub fn memset(s: &mut Vec<u8>, c: u8, count: usize)
    requires
        count <= old(s).len(),
    ensures
        final(s).len() == old(s).len(),
        forall|i: int| 0 <= i < count ==> #[trigger] final(s)[i] == c,
        forall|i: int| count <= i < old(s).len() ==> #[trigger] final(s)[i] == old(s)[i],
{
    let mut i: usize = 0;
    while i < count
        invariant
            count <= s.len(),
            s.len() == old(s).len(),
            i <= count,
            forall|k: int| 0 <= k < i ==> #[trigger] s[k] == c,
            forall|k: int| i <= k < old(s).len() ==> #[trigger] s[k] == old(s)[k],
        decreases count - i,
    {
        s.set(i, c);
        i = i + 1;
    }
}

/// Copies the first `count` bytes of `src` to the start of `dst`.
pub fn memcpy(dst: &mut Vec<u8>, src: &[u8], count: usize)
    requires
        count <= old(dst).len(),
        count <= src.len(),
    ensures
        final(dst).len() == old(dst).len(),
        forall|i: int| 0 <= i < count ==> #[trigger] final(dst)[i] == src[i],
        forall|i: int| count <= i < old(dst).len() ==> #[trigger] final(dst)[i] == old(dst)[i],
{
    let mut i: usize = 0;
    while i < count
        invariant
            count <= dst.len(),
            count <= src.len(),
            dst.len() == old(dst).len(),
            i <= count,
            forall|k: int| 0 <= k < i ==> #[trigger] dst[k] == src[k],
            forall|k: int| i <= k < old(dst).len() ==> #[trigger] dst[k] == old(dst)[k],
        decreases count - i,
    {
        dst.set(i, src[i]);
        i = i + 1;
    }
}

/// Copies `n` bytes of `buf` from index `src` to index `dest`; the two
/// ranges may overlap, and the copy reads the bytes as they were before.
pub fn memmove(buf: &mut Vec<u8>, dest: usize, src: usize, n: usize)
    requires
        dest + n <= old(buf).len(),
        src + n <= old(buf).len(),
    ensures
        final(buf).len() == old(buf).len(),
        forall|i: int| 0 <= i < n ==> #[trigger] final(buf)[dest + i] == old(buf)[src + i],
        forall|i: int| 0 <= i < old(buf).len() && !(dest <= i < dest + n) ==> #[trigger] final(buf)[i] == old(buf)[i],
{
    if src < dest {
        let mut i = n;
        while i != 0
            invariant
                dest + n <= buf.len(),
                src + n <= buf.len(),
                src < dest,
                buf.len() == old(buf).len(),
                i <= n,
                forall|k: int| i <= k < n ==> #[trigger] buf[dest + k] == old(buf)[src + k],
                forall|k: int| 0 <= k < old(buf).len() && !(dest + i <= k < dest + n) ==> #[trigger] buf[k] == old(buf)[k],
            decreases i,
        {
            i = i - 1;
            let b = buf[src + i];
            buf.set(dest + i, b);
        }
    } else {
        let mut i: usize = 0;
        while i < n
            invariant
                dest + n <= buf.len(),
                src + n <= buf.len(),
                src >= dest,
                buf.len() == old(buf).len(),
                i <= n,
                forall|k: int| 0 <= k < i ==> #[trigger] buf[dest + k] == old(buf)[src + k],
                forall|k: int| 0 <= k < old(buf).len() && !(dest <= k < dest + i) ==> #[trigger] buf[k] == old(buf)[k],
            decreases n - i,
        {
            let b = buf[src + i];
            buf.set(dest + i, b);
            i = i + 1;
        }
    }
}

/// The difference of two bytes.
fn byte_diff(a: u8, b: u8) -> (r: i32)
    ensures
        r == a - b,
{
    a as i32 - b as i32
}

/// The result of comparing the first `n` bytes of `a` and `b`.
pub open spec fn mem_compare_result_n(a: Seq<u8>, b: Seq<u8>, n: usize) -> int {
    mem_compare_result(a, b, n as int)
}

fn mem_compare(cs: &[u8], ct: &[u8], n: usize) -> (r: i32)
    requires
        n <= cs.len(),
        n <= ct.len(),
    ensures
        r == mem_compare_result(cs@, ct@, n as int),
{
    let mut i: usize = 0;
    while i < n
        invariant
            n <= cs.len(),
            n <= ct.len(),
            i <= n,
            first_diff(cs@, ct@, 0, n as int) == first_diff(cs@, ct@, i as int, n as int),
        decreases n - i,
    {
        if cs[i] != ct[i] {
            return byte_diff(cs[i], ct[i]);
        }
        i = i + 1;
    }
    0
}

/// Compares the first `n` bytes of `cs` and `ct`: the difference of the
/// first pair that differs, 0 when they are equal.
pub fn memcmp(cs: &[u8], ct: &[u8], n: usize) -> (r: i32)
    requires
        n <= cs.len(),
        n <= ct.len(),
    ensures
        r == mem_compare_result_n(cs@, ct@, n),
{
    mem_compare(cs, ct, n)
}

/// Looks through the first `n` words of `s`, read as 32-bit words, for
/// one equal to `c`: its index (the match is `4 * index` bytes into the
/// memory), or none.
pub fn memchr(s: &[i32], c: i32, n: usize) -> (r: Option<usize>)
    requires
        n <= s.len(),
    ensures
        match r {
            Some(i) => i < n && s[i as int] == c && forall|k: int| 0 <= k < i ==> s[k] != c,
            None => forall|k: int| 0 <= k < n ==> s[k] != c,
        },
{
    let mut i: usize = 0;
    while i < n
        invariant
            n <= s.len(),
            i <= n,
            forall|k: int| 0 <= k < i ==> s[k] != c,
        decreases n - i,
    {
        if s[i] == c {
            return Some(i);
        }
        i = i + 1;
    }
    None
}

/// The length of the C string in `cs`.
pub fn strlen(cs: &[u8]) -> (n: usize)
    requires
        is_cstr(cs@),
    ensures
        n == cstrlen(cs@),
{
    proof {
        lemma_cstrlen(cs@);
    }
    let mut len: usize = 0;
    while cs[len] != 0
        invariant
            is_cstr(cs@),
            0 <= cstrlen(cs@) < cs.len(),
            len <= cstrlen(cs@),
            first_nul_from(cs@, 0) == first_nul_from(cs@, len as int),
        decreases cstrlen(cs@) - len,
    {
        proof {
            lemma_first_nul_step(cs@, len as int);
            lemma_first_nul_ge(cs@, len as int + 1);
        }
        len = len + 1;
    }
    len
}

/// The length of the C string in `cs`, counting on only while the count
/// has not passed `maxlen`: the result is the smaller of the length and
/// `maxlen + 1`.
pub fn strnlen(cs: &[u8], maxlen: usize) -> (n: usize)
    requires
        is_cstr(cs@),
    ensures
        n == (if cstrlen(cs@) <= maxlen { cstrlen(cs@) } else { maxlen + 1 }),
{
    proof {
        lemma_cstrlen(cs@);
    }
    let mut len: usize = 0;
    while cs[len] != 0 && len <= maxlen
        invariant
            is_cstr(cs@),
            0 <= cstrlen(cs@) < cs.len(),
            len <= cstrlen(cs@),
            len <= maxlen + 1,
            first_nul_from(cs@, 0) == first_nul_from(cs@, len as int),
        decreases cstrlen(cs@) - len,
    {
        proof {
            lemma_first_nul_step(cs@, len as int);
            lemma_first_nul_ge(cs@, len as int + 1);
        }
        len = len + 1;
    }
    len
}

/// The C string in `cs` with its NUL, copied into a new buffer.
pub fn strdup(cs: &[u8]) -> (r: Vec<u8>)
    requires
        is_cstr(cs@),
    ensures
        r@ == cs@.subrange(0, cstrlen(cs@) + 1),
{
    proof {
        lemma_cstrlen(cs@);
    }
    let total = cs.len();
    let len = strlen(cs) + 1;
    let mut out: Vec<u8> = Vec::new();
    let mut i: usize = 0;
    while i < len
        invariant
            len == cstrlen(cs@) + 1,
            len <= cs.len(),
            i <= len,
            out@ == cs@.subrange(0, i as int),
        decreases len - i,
    {
        out.push(cs[i]);
        i = i + 1;
        assert(out@ =~= cs@.subrange(0, i as int));
    }
    out
}

/// Copies the C string in `src`, NUL included, to the start of `dst`.
pub fn strcpy(dst: &mut Vec<u8>, src: &[u8])
    requires
        is_cstr(src@),
        cstrlen(src@) < old(dst).len(),
    ensures
        final(dst).len() == old(dst).len(),
        forall|i: int| 0 <= i <= cstrlen(src@) ==> #[trigger] final(dst)[i] == src[i],
        forall|i: int| cstrlen(src@) < i < old(dst).len() ==> #[trigger] final(dst)[i] == old(dst)[i],
{
    proof {
        lemma_cstrlen(src@);
    }
    let len = strlen(src);
    memcpy(dst, src, len + 1);
}

/// The length of the C string in `src` counted up to `n`: the index of its
/// NUL when that comes before `n`, else `n`.
pub open spec fn bounded_len(src: Seq<u8>, n: int) -> int {
    if cstrlen(src) < n { cstrlen(src) } else { n }
}

/// Copies at most `n` bytes of the C string in `src` to `dst`, stopping
/// after its NUL, and fills the rest of the `n` bytes with NULs.
pub fn strncpy(dst: &mut Vec<u8>, src: &[u8], n: usize)
    requires
        is_cstr(src@),
        n <= old(dst).len(),
    ensures
        final(dst).len() == old(dst).len(),
        forall|i: int| 0 <= i < n ==> #[trigger] final(dst)[i] == (if i < cstrlen(src@) { src[i] } else { 0u8 }),
        forall|i: int| n <= i < old(dst).len() ==> #[trigger] final(dst)[i] == old(dst)[i],
{
    proof {
        lemma_cstrlen(src@);
    }
    let len = strlen(src);
    let m = if len < n { len + 1 } else { n };
    let mut i: usize = 0;
    while i < m
        invariant
            0 <= cstrlen(src@) < src.len(),
            len == cstrlen(src@),
            m == (if len < n { len + 1 } else { n as int }),
            n <= dst.len(),
            dst.len() == old(dst).len(),
            i <= m,
            forall|k: int| 0 <= k < i ==> #[trigger] dst[k] == src[k],
            forall|k: int| i <= k < old(dst).len() ==> #[trigger] dst[k] == old(dst)[k],
        decreases m - i,
    {
        dst.set(i, src[i]);
        i = i + 1;
    }
    let mut j = m;
    while j < n
        invariant
            m <= j <= n,
            n <= dst.len(),
            dst.len() == old(dst).len(),
            forall|k: int| 0 <= k < m ==> #[trigger] dst[k] == src[k],
            forall|k: int| m <= k < j ==> #[trigger] dst[k] == 0u8,
            forall|k: int| j <= k < old(dst).len() ==> #[trigger] dst[k] == old(dst)[k],
        decreases n - j,
    {
        dst.set(j, 0);
        j = j + 1;
    }
}

/// The ASCII lower case of a byte.
fn to_ascii_lower(c: u8) -> (r: u8)
    ensures
        r == ascii_lower(c),
{
    if 65 <= c && c <= 90 { c + 32 } else { c }
}

/// The result of comparing two C strings (at most `n` bytes): the
/// difference of the bytes where the comparison stops, 0 if it never does.
pub open spec fn str_compare_result(a: Seq<u8>, b: Seq<u8>, n: int, fold: bool) -> int {
    let k = compare_stop(a, b, 0, n, fold);
    if k >= n {
        0
    } else if fold {
        ascii_lower(a[k]) - ascii_lower(b[k])
    } else {
        a[k] - b[k]
    }
}

fn compare(s1: &[u8], s2: &[u8], n: usize, fold: bool) -> (r: i32)
    requires
        is_cstr(s1@),
        is_cstr(s2@),
    ensures
        r == str_compare_result(s1@, s2@, n as int, fold),
{
    proof {
        lemma_cstrlen(s1@);
        lemma_cstrlen(s2@);
    }
    let ghost j1 = cstrlen(s1@);
    let ghost j2 = cstrlen(s2@);
    let mut i: usize = 0;
    while i < n
        invariant
            0 <= j1 < s1.len(),
            0 <= j2 < s2.len(),
            s1[j1] == 0,
            s2[j2] == 0,
            i <= n,
            i <= j1,
            i <= j2,
            compare_stop(s1@, s2@, 0, n as int, fold) == compare_stop(s1@, s2@, i as int, n as int, fold),
        decreases n - i,
    {
        let a = s1[i];
        let b = s2[i];
        let (x, y) = if fold { (to_ascii_lower(a), to_ascii_lower(b)) } else { (a, b) };
        if x != y || a == 0 {
            return byte_diff(x, y);
        }
        proof {
            if i == j2 {
                assert(b == 0);
                assert(fold ==> ascii_lower(b) == 0);
                assert(x == 0 ==> a == 0);
            }
        }
        i = i + 1;
    }
    0
}

/// The result of a case-blind comparison of two C strings.
pub open spec fn str_casecompare_result(a: Seq<u8>, b: Seq<u8>) -> int {
    str_compare_result(a, b, a.len() as int, true)
}

/// The result of comparing at most `n` bytes of two C strings.
pub open spec fn strn_compare_result(a: Seq<u8>, b: Seq<u8>, n: usize) -> int {
    str_compare_result(a, b, n as int, false)
}

/// The result of comparing two C strings.
pub open spec fn str_compare_full(a: Seq<u8>, b: Seq<u8>) -> int {
    str_compare_result(a, b, a.len() as int, false)
}

/// Compares two C strings, ignoring ASCII case: the difference of the
/// lower-cased bytes where they first differ, 0 when they are equal.
pub fn strcasecmp(s1: &[u8], s2: &[u8]) -> (r: i32)
    requires
        is_cstr(s1@),
        is_cstr(s2@),
    ensures
        r == str_casecompare_result(s1@, s2@),
{
    compare(s1, s2, s1.len(), true)
}

/// Compares at most `n` bytes of two C strings: the difference of the
/// bytes where they first differ, 0 when they are equal up to a NUL or to
/// `n` bytes.
pub fn strncmp(cs: &[u8], ct: &[u8], n: usize) -> (r: i32)
    requires
        is_cstr(cs@),
        is_cstr(ct@),
    ensures
        r == strn_compare_result(cs@, ct@, n),
{
    compare(cs, ct, n, false)
}

/// Compares two C strings: the difference of the bytes where they first
/// differ, 0 when they are equal.
pub fn strcmp(cs: &[u8], ct: &[u8]) -> (r: i32)
    requires
        is_cstr(cs@),
        is_cstr(ct@),
    ensures
        r == str_compare_full(cs@, ct@),
{
    compare(cs, ct, cs.len(), false)
}

/// Finds the first place where the C string `ct` occurs in the C string
/// `cs`. An empty `ct` is found at 0; otherwise a match must start before
/// the NUL of `cs`.
pub fn strstr(cs: &[u8], ct: &[u8]) -> (r: Option<usize>)
    requires
        is_cstr(cs@),
        is_cstr(ct@),
    ensures
        cstrlen(ct@) == 0 ==> r == Some(0usize),
        cstrlen(ct@) > 0 ==> match r {
            Some(i) => i < cstrlen(cs@) && matches_at(cs@, ct@, i as int)
                && forall|j: int| 0 <= j < i ==> !matches_at(cs@, ct@, j),
            None => forall|j: int| 0 <= j < cstrlen(cs@) ==> !matches_at(cs@, ct@, j),
        },
{
    proof {
        lemma_cstrlen(cs@);
        lemma_cstrlen(ct@);
    }
    let ghost lc = cstrlen(cs@);
    let ghost lt = cstrlen(ct@);
    if ct[0] == 0 {
        return Some(0);
    }
    let mut i: usize = 0;
    while cs[i] != 0
        invariant
            0 <= lc < cs.len(),
            0 < lt < ct.len(),
            lc == cstrlen(cs@),
            lt == cstrlen(ct@),
            cs[lc] == 0,
            ct[lt] == 0,
            forall|k: int| 0 <= k < lc ==> cs[k] != 0,
            forall|k: int| 0 <= k < lt ==> ct[k] != 0,
            i <= lc,
            forall|j: int| 0 <= j < i ==> !matches_at(cs@, ct@, j),
        decreases lc - i,
    {
        let mut k: usize = 0;
        while ct[k] != 0 && cs[i + k] == ct[k]
            invariant
                0 <= lc < cs.len(),
                0 < lt < ct.len(),
                cs[lc] == 0,
                ct[lt] == 0,
                forall|m: int| 0 <= m < lc ==> cs[m] != 0,
                forall|m: int| 0 <= m < lt ==> ct[m] != 0,
                i < lc,
                k <= lt,
                i + k <= lc,
                forall|m: int| 0 <= m < k ==> cs[i + m] == ct[m],
            decreases lt - k,
        {
            k = k + 1;
        }
        if ct[k] == 0 {
            assert(matches_at(cs@, ct@, i as int));
            return Some(i);
        }
        assert(!matches_at(cs@, ct@, i as int)) by {
            assert(k < lt);
            assert(cs[i + k] != ct[k as int]);
        }
        i = i + 1;
    }
    None
}

/// Where a comparison stops: every byte before it agrees and is not NUL in
/// `a`, and the byte at it (when below `n`) disagrees or is NUL in `a`.
proof fn lemma_compare_stop(a: Seq<u8>, b: Seq<u8>, i: int, n: int, fold: bool)
    requires
        0 <= i <= n,
    ensures
        i <= compare_stop(a, b, i, n, fold) <= n,
        forall|j: int| i <= j < compare_stop(a, b, i, n, fold) ==> a[j] != 0
            && (if fold { ascii_lower(a[j]) == ascii_lower(b[j]) } else { a[j] == b[j] }),
        compare_stop(a, b, i, n, fold) < n ==> {
            let k = compare_stop(a, b, i, n, fold);
            !(a[k] != 0 && (if fold { ascii_lower(a[k]) == ascii_lower(b[k]) } else { a[k] == b[k] }))
        },
    decreases n - i,
{
    if i < n {
        let eq = if fold { ascii_lower(a[i]) == ascii_lower(b[i]) } else { a[i] == b[i] };
        if eq && a[i] != 0 {
            lemma_compare_stop(a, b, i + 1, n, fold);
        }
    }
}

/// A NUL-free prefix ending in a NUL is the C string.
proof fn lemma_cstrlen_at(s: Seq<u8>, k: int)
    requires
        0 <= k < s.len(),
        s[k] == 0,
        forall|j: int| 0 <= j < k ==> s[j] != 0,
    ensures
        cstrlen(s) == k,
{
    lemma_cstrlen(s);
}

/// Comparing two C strings over their whole buffers gives 0 exactly when
/// the strings have the same length and agree byte by byte (after
/// lower-casing when `fold`) before their NULs.
proof fn lemma_compare_zero(a: Seq<u8>, b: Seq<u8>, fold: bool)
    requires
        is_cstr(a),
        is_cstr(b),
    ensures
        str_compare_result(a, b, a.len() as int, fold) == 0 <==> (cstrlen(a) == cstrlen(b)
            && forall|k: int| 0 <= k < cstrlen(a)
                ==> (if fold { ascii_lower(a[k]) == ascii_lower(b[k]) } else { a[k] == b[k] })),
{
    lemma_cstrlen(a);
    lemma_cstrlen(b);
    let n = a.len() as int;
    let la = cstrlen(a);
    let lb = cstrlen(b);
    lemma_compare_stop(a, b, 0, n, fold);
    let k = compare_stop(a, b, 0, n, fold);
    if k > la {
        assert(a[la] != 0);
    }
    assert(k <= la < n);
    let same = cstrlen(a) == cstrlen(b) && forall|m: int| 0 <= m < cstrlen(a)
        ==> (if fold { ascii_lower(a[m]) == ascii_lower(b[m]) } else { a[m] == b[m] });
    if str_compare_result(a, b, n, fold) == 0 {
        assert(if fold { ascii_lower(a[k]) == ascii_lower(b[k]) } else { a[k] == b[k] });
        assert(a[k] == 0);
        assert(k == la);
        assert(b[k] == 0);
        assert forall|j: int| 0 <= j < k implies b[j] != 0 by {
            assert(a[j] != 0);
        }
        lemma_cstrlen_at(b, k);
        assert(same);
    }
    if same {
        if k < la {
            assert(a[k] != 0);
            assert(if fold { ascii_lower(a[k]) == ascii_lower(b[k]) } else { a[k] == b[k] });
        }
        assert(k == la);
        assert(b[k] == 0);
        assert(str_compare_result(a, b, n, fold) == 0);
    }
}

/// `strcasecmp` gives 0 exactly for strings of equal length that agree
/// after lower-casing: a proper prefix never compares equal to a longer
/// string.
pub proof fn lemma_strcasecmp_zero_iff_equal(a: Seq<u8>, b: Seq<u8>)
    requires
        is_cstr(a),
        is_cstr(b),
    ensures
        str_casecompare_result(a, b) == 0 <==> (cstrlen(a) == cstrlen(b)
            && forall|k: int| 0 <= k < cstrlen(a) ==> ascii_lower(a[k]) == ascii_lower(b[k])),
{
    lemma_compare_zero(a, b, true);
}

/// `strcmp` gives 0 exactly for equal C strings: same length, same bytes.
pub proof fn lemma_strcmp_zero_iff_equal(a: Seq<u8>, b: Seq<u8>)
    requires
        is_cstr(a),
        is_cstr(b),
    ensures
        str_compare_full(a, b) == 0 <==> (cstrlen(a) == cstrlen(b)
            && forall|k: int| 0 <= k < cstrlen(a) ==> a[k] == b[k]),
{
    lemma_compare_zero(a, b, false);
}

proof fn lemma_first_diff(a: Seq<u8>, b: Seq<u8>, i: int, n: int)
    requires
        0 <= i <= n,
    ensures
        i <= first_diff(a, b, i, n) <= n,
        forall|j: int| i <= j < first_diff(a, b, i, n) ==> a[j] == b[j],
        first_diff(a, b, i, n) < n ==> a[first_diff(a, b, i, n)] != b[first_diff(a, b, i, n)],
    decreases n - i,
{
    if i < n && a[i] == b[i] {
        lemma_first_diff(a, b, i + 1, n);
    }
}

/// `memcmp` gives 0 exactly when the first `n` bytes are equal.
pub proof fn lemma_mem_compare_zero_iff_equal(a: Seq<u8>, b: Seq<u8>, n: usize)
    ensures
        mem_compare_result_n(a, b, n) == 0 <==> forall|k: int| 0 <= k < n ==> a[k] == b[k],
{
    lemma_first_diff(a, b, 0, n as int);
}

/// `strncmp` gives 0 exactly when the strings agree on their first `n`
/// bytes up to and including the NUL of `a`.
pub proof fn lemma_strn_compare_zero_iff_equal(a: Seq<u8>, b: Seq<u8>, n: usize)
    requires
        is_cstr(a),
        is_cstr(b),
    ensures
        strn_compare_result(a, b, n) == 0 <==> forall|k: int| 0 <= k < n && k <= cstrlen(a) ==> a[k] == b[k],
{
    lemma_cstrlen(a);
    let la = cstrlen(a);
    lemma_compare_stop(a, b, 0, n as int, false);
    let k = compare_stop(a, b, 0, n as int, false);
    if k > la {
        assert(a[la] != 0);
    }
    let agree = forall|m: int| 0 <= m < n && m <= cstrlen(a) ==> a[m] == b[m];
    if strn_compare_result(a, b, n) == 0 {
        assert forall|m: int| 0 <= m < n && m <= cstrlen(a) implies a[m] == b[m] by {
            if m < k {
            } else if m == k {
            } else {
                assert(a[k] == 0);
                assert(k == la);
            }
        }
    }
    if agree && k < n {
        assert(a[k] == b[k]);
    }
}

/// Bytes as a comparison sees them: lower-cased when `fold`.
pub open spec fn seen(c: u8, fold: bool) -> u8 {
    if fold { ascii_lower(c) } else { c }
}

/// Comparing two C strings is negative exactly when `a` comes first and
/// positive exactly when `b` does: at the first place where they differ
/// (at the latest the NUL of `a`), the smaller byte decides.
proof fn lemma_compare_sign(a: Seq<u8>, b: Seq<u8>, fold: bool)
    requires
        is_cstr(a),
        is_cstr(b),
    ensures
        str_compare_result(a, b, a.len() as int, fold) < 0 <==> exists|k: int| #![trigger a[k], b[k]]
            0 <= k <= cstrlen(a) && (forall|j: int| 0 <= j < k ==> seen(a[j], fold) == seen(b[j], fold))
            && seen(a[k], fold) < seen(b[k], fold),
        str_compare_result(a, b, a.len() as int, fold) > 0 <==> exists|k: int| #![trigger a[k], b[k]]
            0 <= k <= cstrlen(a) && (forall|j: int| 0 <= j < k ==> seen(a[j], fold) == seen(b[j], fold))
            && seen(a[k], fold) > seen(b[k], fold),
{
    lemma_cstrlen(a);
    let n = a.len() as int;
    let la = cstrlen(a);
    lemma_compare_stop(a, b, 0, n, fold);
    let s = compare_stop(a, b, 0, n, fold);
    if s > la {
        assert(a[la] != 0);
    }
    assert(s <= la < n);
    assert(forall|j: int| 0 <= j < s ==> seen(a[j], fold) == seen(b[j], fold));
    assert(str_compare_result(a, b, n, fold) == seen(a[s], fold) - seen(b[s], fold));
    assert forall|k: int| 0 <= k <= la && (forall|j: int| 0 <= j < k ==> seen(a[j], fold) == seen(b[j], fold))
        && seen(a[k], fold) != seen(b[k], fold) implies k == s by {
        if s < k {
            assert(seen(a[s], fold) == seen(b[s], fold));
            assert(a[s] != 0);
        }
        if k < s {
            assert(seen(a[k], fold) == seen(b[k], fold));
        }
    }
    if str_compare_result(a, b, n, fold) < 0 {
        assert(a[s] == a[s] && b[s] == b[s]);
    }
    if str_compare_result(a, b, n, fold) > 0 {
        assert(a[s] == a[s] && b[s] == b[s]);
    }
}

/// `strcasecmp` is negative exactly when `a` comes first and positive
/// exactly when `b` does, ignoring case: at the first place where the
/// lower-cased strings differ (at the latest the NUL of `a`), the smaller
/// byte decides.
pub proof fn lemma_strcasecmp_sign_is_order(a: Seq<u8>, b: Seq<u8>)
    requires
        is_cstr(a),
        is_cstr(b),
    ensures
        str_casecompare_result(a, b) < 0 <==> exists|k: int| #![trigger a[k], b[k]]
            0 <= k <= cstrlen(a) && (forall|j: int| 0 <= j < k ==> ascii_lower(a[j]) == ascii_lower(b[j]))
            && ascii_lower(a[k]) < ascii_lower(b[k]),
        str_casecompare_result(a, b) > 0 <==> exists|k: int| #![trigger a[k], b[k]]
            0 <= k <= cstrlen(a) && (forall|j: int| 0 <= j < k ==> ascii_lower(a[j]) == ascii_lower(b[j]))
            && ascii_lower(a[k]) > ascii_lower(b[k]),
{
    lemma_compare_sign(a, b, true);
}

/// `strcmp` is negative exactly when `a` comes first and positive exactly
/// when `b` does: at the first place where the strings differ (at the
/// latest the NUL of `a`), the smaller byte decides.
pub proof fn lemma_strcmp_sign_is_order(a: Seq<u8>, b: Seq<u8>)
    requires
        is_cstr(a),
        is_cstr(b),
    ensures
        str_compare_full(a, b) < 0 <==> exists|k: int| #![trigger a[k], b[k]]
            0 <= k <= cstrlen(a) && (forall|j: int| 0 <= j < k ==> a[j] == b[j]) && a[k] < b[k],
        str_compare_full(a, b) > 0 <==> exists|k: int| #![trigger a[k], b[k]]
            0 <= k <= cstrlen(a) && (forall|j: int| 0 <= j < k ==> a[j] == b[j]) && a[k] > b[k],
{
    lemma_compare_sign(a, b, false);
}

} // verus!
