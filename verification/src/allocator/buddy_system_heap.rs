use vstd::prelude::*;
use vstd::arithmetic::power2::{pow2, lemma_pow2_unfold, lemma_pow2_adds, lemma_pow2_pos, lemma2_to64};
use vstd::arithmetic::div_mod::{lemma_mod_mod, lemma_mod_add_multiples_vanish, lemma_mod_breakdown, lemma_fundamental_div_mod, lemma_mod_multiples_basic};

verus! {

/// The number of address values: one more than the largest address.
pub open spec fn address_space() -> int {
    usize::MAX + 1
}

/// A free block of order `k` at address `a`: aligned to its size `2^k` and
/// ending within the address space.
pub open spec fn block_ok(a: usize, k: nat) -> bool {
    &&& a as int % pow2(k) as int == 0
    &&& a as int + pow2(k) <= address_space()
}

/// The number of free bytes that lists of free blocks hold, list `k` holding
/// blocks of `2^k` bytes.
pub open spec fn free_bytes(lists: Seq<Seq<usize>>) -> int
    decreases lists.len(),
{
    if lists.len() == 0 {
        0
    } else {
        free_bytes(lists.drop_last()) + lists.last().len() * pow2((lists.len() - 1) as nat)
    }
}

/// The smallest order at or above `k` whose blocks hold `size` bytes.
pub open spec fn class_from(size: nat, k: nat) -> nat
    decreases 64 - k,
{
    if pow2(k) >= size || k >= 64 {
        k
    } else {
        class_from(size, k + 1)
    }
}

/// The order of the blocks that serve a request of `size` bytes: the
/// smallest `k` with `2^k >= size`.
pub open spec fn size_class(size: nat) -> nat {
    class_from(size, 0)
}

/// The first list at or after `i` that holds a block (`lists.len()` if none).
pub open spec fn first_nonempty(lists: Seq<Seq<usize>>, i: int) -> int
    decreases lists.len() - i,
{
    if i >= lists.len() || i < 0 {
        lists.len() as int
    } else if lists[i].len() > 0 {
        i
    } else {
        first_nonempty(lists, i + 1)
    }
}

/// The lists after serving an order-`c` request from the last block `b` of
/// list `i`: `b` leaves list `i`, and each order `j` from `c` up to below
/// `i` gains the upper half `b + 2^j` split off on the way down.
pub open spec fn split_lists(lists: Seq<Seq<usize>>, c: int, i: int) -> Seq<Seq<usize>> {
    let b = lists[i].last();
    Seq::new(lists.len(), |j: int|
        if j == i {
            lists[i].drop_last()
        } else if c <= j < i {
            lists[j].push((b + pow2(j as nat)) as usize)
        } else {
            lists[j]
        })
}

/// The buddy of the order-`c` block at `a`: the other half of the
/// order-`c + 1` block that holds it.
pub open spec fn buddy_of(a: usize, c: nat) -> int {
    if (a as int / pow2(c) as int) % 2 == 0 {
        a + pow2(c)
    } else {
        a - pow2(c)
    }
}

/// The index of the last block equal to `x` in `l` before index `end`
/// (-1 if none): the free list is searched from its most recent block.
pub open spec fn last_index_before(l: Seq<usize>, x: usize, end: int) -> int
    decreases end,
{
    if end <= 0 {
        -1
    } else if l[end - 1] == x {
        end - 1
    } else {
        last_index_before(l, x, end - 1)
    }
}

/// The lists after a freed order-`c` block at `a` was pushed on list `c`
/// and merged with its free buddies, order by order, while a buddy is found
/// below the top of the list and a higher order exists.
pub open spec fn merge_lists(lists: Seq<Seq<usize>>, a: usize, c: int, order: int) -> Seq<Seq<usize>>
    decreases order - c,
{
    if c < 0 || c >= order - 1 || c >= lists.len() || lists[c].len() == 0 {
        lists
    } else {
        let l = lists[c];
        let bud = buddy_of(a, c as nat);
        let idx = last_index_before(l, bud as usize, l.len() - 1);
        if idx < 0 || bud < 0 || bud > usize::MAX {
            lists
        } else {
            let merged: usize = if a as int <= bud { a } else { bud as usize };
            let l2 = l.remove(idx).drop_last();
            let lists2 = lists.update(c, l2).update(c + 1, lists[c + 1].push(merged));
            merge_lists(lists2, merged, c + 1, order)
        }
    }
}

/// Splitting an aligned block down to order `m` gives aligned blocks at
/// its start and right after its first `2^m` bytes.
proof fn lemma_split_chain(b: usize, i: nat, m: nat)
    requires
        m < i,
        block_ok(b, i),
    ensures
        block_ok(b, m),
        b + pow2(m) <= usize::MAX,
        block_ok((b + pow2(m)) as usize, m),
    decreases i - m,
{
    lemma_split_block(b, i);
    if m + 1 < i {
        lemma_split_chain(b, (i - 1) as nat, m);
    }
}

proof fn lemma_last_index_before(l: Seq<usize>, x: usize, end: int)
    requires
        0 <= end <= l.len(),
    ensures
        -1 <= last_index_before(l, x, end) < end,
        last_index_before(l, x, end) >= 0 ==> l[last_index_before(l, x, end)] == x,
        last_index_before(l, x, end) < 0 ==> forall|j: int| 0 <= j < end ==> l[j] != x,
    decreases end,
{
    if end > 0 && l[end - 1] != x {
        lemma_last_index_before(l, x, end - 1);
    }
}

/// No block of the order-`k` list `l` has its buddy on `l` too.
pub open spec fn no_buddy_pair(l: Seq<usize>, k: nat) -> bool {
    forall|i: int, j: int| #![trigger l[i], l[j]] 0 <= i < l.len() && 0 <= j < l.len()
        ==> l[j] as int != buddy_of(l[i], k)
}

/// Free buddies are merged: no list below the top order `order - 1` holds
/// a block together with its buddy.
pub open spec fn coalesced(lists: Seq<Seq<usize>>, order: int) -> bool {
    forall|k: int| 0 <= k < order - 1 && k < lists.len() ==> no_buddy_pair(#[trigger] lists[k], k as nat)
}

/// Being buddies is symmetric.
proof fn lemma_buddy_symmetric(x: usize, y: usize, k: nat)
    requires
        y as int == buddy_of(x, k),
    ensures
        x as int == buddy_of(y, k),
        x != y,
{
    let p = pow2(k) as int;
    lemma_pow2_pos(k);
    if (x as int / p) % 2 == 0 {
        vstd::arithmetic::div_mod::lemma_div_plus_one(x as int, p);
        assert(y as int / p == x as int / p + 1);
    } else {
        vstd::arithmetic::div_mod::lemma_div_plus_one(y as int, p);
        assert(x as int / p == y as int / p + 1);
    }
}

/// Taking a block off a list keeps it free of buddy pairs.
proof fn lemma_no_buddy_pair_remove(l: Seq<usize>, idx: int, k: nat)
    requires
        0 <= idx < l.len(),
        no_buddy_pair(l, k),
    ensures
        no_buddy_pair(l.remove(idx), k),
{
    let r = l.remove(idx);
    assert forall|i: int, j: int| #![trigger r[i], r[j]] 0 <= i < r.len() && 0 <= j < r.len()
        implies r[j] as int != buddy_of(r[i], k) by {
        let i0 = if i < idx { i } else { i + 1 };
        let j0 = if j < idx { j } else { j + 1 };
        assert(r[i] == l[i0] && r[j] == l[j0]);
        assert(l[j0] as int != buddy_of(l[i0], k));
    }
}

/// Merging from order `c`, where the top block `cur` of list `c` is the only
/// block that may have a free buddy, leaves every list below the top order
/// free of buddy pairs.
proof fn lemma_merge_coalesced(lists: Seq<Seq<usize>>, cur: usize, c: int, order: int)
    requires
        lists.len() == order,
        0 <= c < order,
        lists[c].len() > 0,
        lists[c].last() == cur,
        forall|k: int| 0 <= k < order - 1 && k != c ==> no_buddy_pair(#[trigger] lists[k], k as nat),
        c < order - 1 ==> no_buddy_pair(lists[c].drop_last(), c as nat),
    ensures
        coalesced(merge_lists(lists, cur, c, order), order),
    decreases order - c,
{
    if c >= order - 1 {
        return;
    }
    let l = lists[c];
    let top = l.len() - 1;
    let under = l.drop_last();
    let bud = buddy_of(cur, c as nat);
    let idx = last_index_before(l, bud as usize, top);
    lemma_last_index_before(l, bud as usize, top);
    lemma_pow2_pos(c as nat);
    if idx < 0 || bud < 0 || bud > usize::MAX {
        assert(merge_lists(lists, cur, c, order) == lists);
        assert forall|j: int| 0 <= j < top implies l[j] as int != bud by {
            if 0 <= bud <= usize::MAX {
                assert(l[j] != bud as usize);
            }
        }
        assert(no_buddy_pair(l, c as nat)) by {
            assert forall|i: int, j: int| #![trigger l[i], l[j]] 0 <= i < l.len() && 0 <= j < l.len()
                implies l[j] as int != buddy_of(l[i], c as nat) by {
                if i < top && j < top {
                    assert(under[i] == l[i] && under[j] == l[j]);
                } else if i == top && j == top {
                    if l[j] as int == buddy_of(l[i], c as nat) {
                        lemma_buddy_symmetric(l[i], l[j], c as nat);
                    }
                } else if i == top {
                    assert(l[j] as int != bud);
                } else {
                    if l[j] as int == buddy_of(l[i], c as nat) {
                        lemma_buddy_symmetric(l[i], l[j], c as nat);
                        assert(l[i] as int == bud);
                    }
                }
            }
        }
    } else {
        let merged: usize = if cur as int <= bud { cur } else { bud as usize };
        let l2 = l.remove(idx).drop_last();
        let lists2 = lists.update(c, l2).update(c + 1, lists[c + 1].push(merged));
        assert(merge_lists(lists, cur, c, order) == merge_lists(lists2, merged, c + 1, order));
        assert(l2 =~= under.remove(idx));
        lemma_no_buddy_pair_remove(under, idx, c as nat);
        assert(lists2[c + 1].drop_last() =~= lists[c + 1]);
        assert forall|k: int| 0 <= k < order - 1 && k != c + 1 implies no_buddy_pair(#[trigger] lists2[k], k as nat) by {
            if k != c {
                assert(lists2[k] == lists[k]);
            }
        }
        lemma_merge_coalesced(lists2, merged, c + 1, order);
    }
}

/// The address `z` lies in one of the free blocks of `lists`.
pub open spec fn free_covers(lists: Seq<Seq<usize>>, z: int) -> bool {
    exists|k: int, i: int| #![trigger lists[k][i]] 0 <= k < lists.len() && 0 <= i < lists[k].len()
        && lists[k][i] <= z < lists[k][i] + pow2(k as nat)
}

/// One merge step: the block `cur` on top of list `c` and its buddy below it
/// leave list `c`, and the block of the next order made of the two joins
/// list `c + 1`; the free addresses stay the same.
proof fn lemma_merge_step_covers(lists: Seq<Seq<usize>>, c: int, idx: int, merged: usize, z: int)
    requires
        0 <= c,
        c + 1 < lists.len(),
        0 <= idx < lists[c].len() - 1,
        lists[c][idx] as int == buddy_of(lists[c].last(), c as nat),
        merged as int == (if lists[c].last() as int <= lists[c][idx] { lists[c].last() as int } else { lists[c][idx] as int }),
    ensures
        free_covers(lists.update(c, lists[c].remove(idx).drop_last()).update(c + 1, lists[c + 1].push(merged)), z)
            <==> free_covers(lists, z),
{
    let l = lists[c];
    let top = l.len() - 1;
    let cur = l[top];
    let bud = l[idx];
    let l2 = l.remove(idx).drop_last();
    let lists2 = lists.update(c, l2).update(c + 1, lists[c + 1].push(merged));
    let p = pow2(c as nat);
    lemma_pow2_pos(c as nat);
    lemma_pow2_unfold((c + 1) as nat);
    assert(pow2((c + 1) as nat) == 2 * p);
    assert(bud == cur + p || bud + p == cur);
    assert(l2.len() == l.len() - 2);
    if free_covers(lists2, z) {
        let (k, i) = choose|k: int, i: int| #![trigger lists2[k][i]] 0 <= k < lists2.len() && 0 <= i < lists2[k].len()
            && lists2[k][i] <= z < lists2[k][i] + pow2(k as nat);
        if k == c + 1 && i == lists[c + 1].len() {
            if cur <= z < cur + p {
                assert(lists[c][top] == cur);
            } else {
                assert(bud <= z < bud + p);
                assert(lists[c][idx] == bud);
            }
        } else if k == c {
            let i0 = if i < idx { i } else { i + 1 };
            assert(lists2[k][i] == l[i0]);
            assert(lists[c][i0] == l[i0]);
        } else if k == c + 1 {
            assert(lists2[k][i] == lists[k][i]);
        } else {
            assert(lists2[k] == lists[k]);
            assert(lists2[k][i] == lists[k][i]);
        }
    }
    if free_covers(lists, z) {
        let (k, i) = choose|k: int, i: int| #![trigger lists[k][i]] 0 <= k < lists.len() && 0 <= i < lists[k].len()
            && lists[k][i] <= z < lists[k][i] + pow2(k as nat);
        if k == c && (i == top || i == idx) {
            let last = lists[c + 1].len() as int;
            assert(lists2[c + 1][last] == merged);
            assert(merged <= z < merged + pow2((c + 1) as nat));
        } else if k == c {
            let i2 = if i < idx { i } else { i - 1 };
            assert(l2[i2] == l[i]);
            assert(lists2[c][i2] == lists[c][i]);
        } else if k == c + 1 {
            assert(lists2[k][i] == lists[k][i]);
        } else {
            assert(lists2[k] == lists[k]);
            assert(lists2[k][i] == lists[k][i]);
        }
    }
}

/// Merging from order `c` keeps the free addresses.
proof fn lemma_merge_covers(lists: Seq<Seq<usize>>, cur: usize, c: int, order: int, z: int)
    requires
        lists.len() == order,
        0 <= c < order,
        lists[c].len() > 0,
        lists[c].last() == cur,
    ensures
        free_covers(merge_lists(lists, cur, c, order), z) <==> free_covers(lists, z),
    decreases order - c,
{
    if c >= order - 1 {
        return;
    }
    let l = lists[c];
    let bud = buddy_of(cur, c as nat);
    let idx = last_index_before(l, bud as usize, l.len() - 1);
    lemma_last_index_before(l, bud as usize, l.len() - 1);
    if !(idx < 0 || bud < 0 || bud > usize::MAX) {
        let merged: usize = if cur as int <= bud { cur } else { bud as usize };
        let l2 = l.remove(idx).drop_last();
        let lists2 = lists.update(c, l2).update(c + 1, lists[c + 1].push(merged));
        assert(merge_lists(lists, cur, c, order) == merge_lists(lists2, merged, c + 1, order));
        lemma_merge_step_covers(lists, c, idx, merged, z);
        lemma_merge_covers(lists2, merged, c + 1, order, z);
    }
}

/// Freeing loses and invents no free memory: after an order-`c` block at
/// `b` is pushed on list `c` and merged as `deallocate` does
/// (`merge_lists`), an address lies in a free block exactly when it lay in
/// one before or lies in the freed block.
pub proof fn lemma_free_adds_exactly_the_block(lists: Seq<Seq<usize>>, b: usize, c: int, order: int, z: int)
    requires
        lists.len() == order,
        0 <= c < order,
    ensures
        free_covers(merge_lists(lists.update(c, lists[c].push(b)), b, c, order), z)
            <==> (free_covers(lists, z) || b <= z < b + pow2(c as nat)),
{
    let pushed = lists.update(c, lists[c].push(b));
    lemma_merge_covers(pushed, b, c, order, z);
    let n = lists[c].len() as int;
    if free_covers(pushed, z) {
        let (k, i) = choose|k: int, i: int| #![trigger pushed[k][i]] 0 <= k < pushed.len() && 0 <= i < pushed[k].len()
            && pushed[k][i] <= z < pushed[k][i] + pow2(k as nat);
        if !(k == c && i == n) {
            assert(pushed[k][i] == lists[k][i]);
        }
    }
    if free_covers(lists, z) {
        let (k, i) = choose|k: int, i: int| #![trigger lists[k][i]] 0 <= k < lists.len() && 0 <= i < lists[k].len()
            && lists[k][i] <= z < lists[k][i] + pow2(k as nat);
        assert(pushed[k][i] == lists[k][i]);
    }
    if b <= z < b + pow2(c as nat) {
        assert(pushed[c][n] == b);
    }
}

/// Freeing a block keeps free buddies merged: when no list below the top
/// order holds a block together with its buddy, then after an order-`c`
/// block is pushed on list `c` and merged with its free buddies as
/// `deallocate` does (`merge_lists`), wherever on the list the buddy lies,
/// still none does.
pub proof fn lemma_free_keeps_coalesced(lists: Seq<Seq<usize>>, b: usize, c: int, order: int)
    requires
        lists.len() == order,
        0 <= c < order,
        coalesced(lists, order),
    ensures
        coalesced(merge_lists(lists.update(c, lists[c].push(b)), b, c, order), order),
{
    let pushed = lists.update(c, lists[c].push(b));
    assert(pushed[c].drop_last() =~= lists[c]);
    assert forall|k: int| 0 <= k < order - 1 && k != c implies no_buddy_pair(#[trigger] pushed[k], k as nat) by {
        assert(pushed[k] == lists[k]);
    }
    lemma_merge_coalesced(pushed, b, c, order);
}

/// The bytes of the header in front of each allocation: the block's size
/// and the block before it, a word each.
pub const USED_BLOCK_HDR: usize = 16;

/// Where the payload of an allocation in the block at `block` starts: the
/// first multiple of `align` at or after the end of the header.
pub open spec fn payload(block: int, align: int) -> int {
    let u = block + USED_BLOCK_HDR + align - 1;
    u - u % align
}

/// The block of `size` bytes (a power of two) that the address `ptr` lies
/// in.
pub open spec fn block_of(ptr: int, size: int) -> int {
    ptr - ptr % size
}

/// `x` rounded up to a multiple of `GRANULARITY`.
pub open spec fn round_to_granularity(x: int) -> int {
    let u = x + GRANULARITY - 1;
    u - u % (GRANULARITY as int)
}

/// The payload of an allocation lies inside its block, after its start,
/// and leads back to it.
proof fn lemma_payload_in_block(block: usize, c: nat, align: usize)
    requires
        block_ok(block, c),
        0 < align,
        USED_BLOCK_HDR + align <= pow2(c),
    ensures
        block < payload(block as int, align as int) < block + pow2(c),
        block_of(payload(block as int, align as int), pow2(c) as int) == block,
{
    let u = block + USED_BLOCK_HDR + align - 1;
    let p = payload(block as int, align as int);
    let n = pow2(c) as int;
    assert(0 <= u % (align as int) < align) by {
        vstd::arithmetic::div_mod::lemma_mod_bound(u, align as int);
    }
    let off = p - block;
    assert(0 <= off < n);
    assert(block as int % n == 0);
    assert(p % n == off) by {
        vstd::arithmetic::div_mod::lemma_fundamental_div_mod(block as int, n);
        vstd::arithmetic::div_mod::lemma_mod_multiples_vanish(block as int / n, off, n);
        vstd::arithmetic::div_mod::lemma_small_mod(off as nat, n as nat);
    }
}

/// Blocks handed to the heap are aligned to this many bytes.
pub const GRANULARITY: usize = 32;
/// The smallest tail of a region that still gets carved into a block.
pub const WORD: usize = 8;

/// The exponent of the lowest set bit of `x` (searched from `k` on).
pub open spec fn low_exp_from(x: int, k: nat) -> nat
    decreases 64 - k,
{
    if k >= 64 || (x / pow2(k) as int) % 2 == 1 {
        k
    } else {
        low_exp_from(x, k + 1)
    }
}

/// The exponent of the largest power of two not above `n` (searched from
/// `k` on).
pub open spec fn floor_exp_from(n: int, k: nat) -> nat
    decreases 64 - k,
{
    if k >= 63 || pow2(k + 1) > n {
        k
    } else {
        floor_exp_from(n, k + 1)
    }
}

/// The order of the block carved at `cur` from a region ending at `end`:
/// as large as the alignment of `cur` and the room left both allow.
pub open spec fn carve_order(cur: int, end: int) -> nat {
    let a = low_exp_from(cur, 0);
    let b = floor_exp_from(end - cur, 0);
    if a <= b { a } else { b }
}

/// The free lists after the region `[cur, end)` was carved into blocks,
/// each as large as its alignment and the room left allow, until less
/// than a word is left.
pub open spec fn carve_lists(lists: Seq<Seq<usize>>, cur: int, end: int) -> Seq<Seq<usize>>
    decreases end - cur,
{
    let k = carve_order(cur, end) as int;
    if cur <= 0 || cur + WORD > end || end > usize::MAX || pow2(k as nat) < 1 || pow2(k as nat) > end - cur {
        lists
    } else {
        carve_lists(lists.update(k, lists[k].push(cur as usize)), cur + pow2(k as nat), end)
    }
}

/// The number of bytes carved out of `[cur, end)`.
pub open spec fn carve_total(cur: int, end: int) -> int
    decreases end - cur,
{
    let k = carve_order(cur, end);
    if cur <= 0 || cur + WORD > end || end > usize::MAX || pow2(k) < 1 || pow2(k) > end - cur {
        0
    } else {
        pow2(k) + carve_total(cur + pow2(k), end)
    }
}

/// Every block carved out of `[cur, end)` has an order below `order`.
pub open spec fn carve_fits(cur: int, end: int, order: int) -> bool
    decreases end - cur,
{
    let k = carve_order(cur, end);
    if cur <= 0 || cur + WORD > end || end > usize::MAX || pow2(k) < 1 || pow2(k) > end - cur {
        true
    } else {
        k < order && carve_fits(cur + pow2(k), end, order)
    }
}

proof fn lemma_carve_total_nonneg(cur: int, end: int)
    ensures
        carve_total(cur, end) >= 0,
    decreases end - cur,
{
    let k = carve_order(cur, end);
    if !(cur <= 0 || cur + WORD > end || end > usize::MAX || pow2(k) < 1 || pow2(k) > end - cur) {
        lemma_carve_total_nonneg(cur + pow2(k), end);
    }
}

/// `start` rounded up to the granularity, wrapping round the address space.
pub open spec fn align_up(start: usize) -> int {
    let s = if start + GRANULARITY - 1 > usize::MAX {
        start + GRANULARITY - 1 - address_space()
    } else {
        start + GRANULARITY - 1
    };
    s - s % (GRANULARITY as int)
}

/// `end` rounded down to the granularity.
pub open spec fn align_down(end: usize) -> int {
    end as int - (end as int) % (GRANULARITY as int)
}

/// The value of the address space as a power of two.
proof fn lemma_address_space()
    ensures
        pow2(usize::BITS as nat) == address_space(),
        pow2(64) == 0x10000000000000000,
        address_space() <= pow2(64),
{
    lemma2_to64();
    if usize::BITS == 64 {
    } else {
    }
}

/// A multiple of `2^k` whose bit `k` is clear is a multiple of `2^(k+1)`.
proof fn lemma_mod_pow2_step(x: int, k: nat)
    requires
        x >= 0,
        x % pow2(k) as int == 0,
        (x / pow2(k) as int) % 2 == 0,
    ensures
        x % pow2(k + 1) as int == 0,
{
    let p = pow2(k) as int;
    lemma_pow2_pos(k);
    lemma_pow2_unfold(k + 1);
    lemma_mod_breakdown(x, p, 2);
}

/// Searching up from an order that divides `x` finds the lowest set bit of
/// `x`, and `2^` that order divides `x`.
proof fn lemma_low_exp(x: int, k: nat)
    requires
        0 < x < pow2(64),
        k <= 64,
        x % pow2(k) as int == 0,
    ensures
        low_exp_from(x, k) < 64,
        x % pow2(low_exp_from(x, k)) as int == 0,
    decreases 64 - k,
{
    lemma_pow2_pos(k);
    if k >= 64 {
        assert(k == 64);
        assert(x % pow2(64) as int == x) by {
            vstd::arithmetic::div_mod::lemma_small_mod(x as nat, pow2(64));
        }
        assert(false);
    } else if (x / pow2(k) as int) % 2 == 1 {
    } else {
        lemma_mod_pow2_step(x, k);
        lemma_low_exp(x, k + 1);
    }
}

/// A multiple of `2^e` is a multiple of every smaller power of two.
proof fn lemma_mod_pow2_smaller(x: int, e: nat, j: nat)
    requires
        x >= 0,
        j <= e,
        x % pow2(e) as int == 0,
    ensures
        x % pow2(j) as int == 0,
{
    lemma_pow2_adds(j, (e - j) as nat);
    lemma_pow2_pos(j);
    lemma_pow2_pos((e - j) as nat);
    let a = pow2(j) as int;
    let b = pow2((e - j) as nat) as int;
    assert(j + (e - j) as nat == e);
    assert(a * b == pow2(e) as int);
    lemma_mod_mod(x, a, b);
    assert((x % (a * b)) % a == x % a);
    assert(0int % a == 0);
}

/// Searching up from an order whose power is not above `n` finds the
/// largest power of two not above `n`.
proof fn lemma_floor_exp(n: int, k: nat)
    requires
        1 <= n < pow2(64),
        k <= 63,
        pow2(k) <= n,
    ensures
        floor_exp_from(n, k) <= 63,
        pow2(floor_exp_from(n, k)) <= n,
        n < pow2(floor_exp_from(n, k) + 1),
    decreases 64 - k,
{
    lemma_address_space();
    if k >= 63 {
        lemma_pow2_unfold(64);
    } else if pow2(k + 1) > n {
    } else {
        lemma_floor_exp(n, k + 1);
    }
}

/// Halving an aligned block gives two aligned halves.
proof fn lemma_split_block(b: usize, j: nat)
    requires
        j >= 1,
        block_ok(b, j),
    ensures
        pow2(j) == 2 * pow2((j - 1) as nat),
        block_ok(b, (j - 1) as nat),
        b + pow2((j - 1) as nat) <= usize::MAX,
        block_ok((b + pow2((j - 1) as nat)) as usize, (j - 1) as nat),
{
    let p = pow2((j - 1) as nat) as int;
    lemma_pow2_unfold(j);
    lemma_pow2_pos((j - 1) as nat);
    lemma_mod_mod(b as int, p, 2);
    assert(p * 2 == pow2(j));
    lemma_mod_add_multiples_vanish(b as int, p);
}

/// The usable part of the address space is a multiple of every block size
/// up to the width of an address, so an aligned block that starts in it
/// ends in it.
proof fn lemma_aligned_fits(a: usize, k: nat)
    requires
        k <= usize::BITS,
        a as int % pow2(k) as int == 0,
    ensures
        a as int + pow2(k) <= address_space(),
{
    lemma2_to64();
    let m = pow2(k) as int;
    let t = pow2((usize::BITS - k) as nat) as int;
    lemma_pow2_adds(k, (usize::BITS - k) as nat);
    lemma_pow2_pos(k);
    lemma_pow2_pos((usize::BITS - k) as nat);
    assert(pow2(usize::BITS as nat) == address_space()) by {
        if usize::BITS == 32 {
        } else {
        }
    }
    assert(m * t == address_space());
    lemma_fundamental_div_mod(a as int, m);
    let q = a as int / m;
    assert(a as int == m * q);
    assert(a as int + m <= address_space()) by (nonlinear_arith)
        requires
            a as int == m * q,
            m * t == address_space(),
            a < address_space(),
            m > 0,
            t > 0,
    {
        assert(q < t);
        assert(q + 1 <= t);
        assert(m * (q + 1) <= m * t);
    }
}

/// A block and its buddy together form an aligned block of the next order.
proof fn lemma_merge_block(a: usize, c: nat)
    requires
        c + 1 <= usize::BITS,
        block_ok(a, c),
    ensures
        0 <= buddy_of(a, c) <= usize::MAX,
        block_ok(buddy_of(a, c) as usize, c),
        block_ok((if a as int <= buddy_of(a, c) { a as int } else { buddy_of(a, c) }) as usize, c + 1),
        pow2(c + 1) == 2 * pow2(c),
{
    let p = pow2(c) as int;
    lemma_pow2_pos(c);
    lemma_pow2_unfold(c + 1);
    lemma_mod_breakdown(a as int, p, 2);
    let bit = (a as int / p) % 2;
    assert(a as int % (p * 2) == p * bit + a as int % p);
    if bit == 0 {
        assert(a as int % (p * 2) == 0);
        lemma_aligned_fits(a, c + 1);
        lemma_mod_add_multiples_vanish(a as int, p);
        assert((p + a) % p == 0);
    } else {
        assert(bit == 1);
        assert(p * bit == p);
        assert(a as int % (p * 2) == p);
        lemma_fundamental_div_mod(a as int, p * 2);
        let q = a as int / (p * 2);
        assert(a - p == (p * 2) * q);
        assert(((a - p) as int) % (p * 2) == 0) by {
            lemma_mod_multiples_basic(q, p * 2);
            assert(q * (p * 2) == (p * 2) * q) by (nonlinear_arith);
        }
        assert(((a - p) as int) % p == 0) by {
            lemma_mod_mod((a - p) as int, p, 2);
        }
        assert(a - p >= 0) by {
            assert(q >= 0) by (nonlinear_arith)
                requires
                    a >= 0,
                    p > 0,
                    q == a as int / (p * 2),
            ;
            assert((p * 2) * q >= 0) by (nonlinear_arith)
                requires
                    q >= 0,
                    p > 0,
            ;
        }
        lemma_aligned_fits((a - p) as usize, c + 1);
    }
}

/// Changing the length of one list by one block changes the free bytes by
/// that block's size.
proof fn lemma_free_bytes_update(lists: Seq<Seq<usize>>, k: int, l: Seq<usize>)
    requires
        0 <= k < lists.len(),
        l.len() == lists[k].len() + 1 || l.len() + 1 == lists[k].len(),
    ensures
        free_bytes(lists.update(k, l)) == free_bytes(lists) + (l.len() - lists[k].len()) * pow2(k as nat),
    decreases lists.len(),
{
    let n = lists.len();
    let u = lists.update(k, l);
    if k == n - 1 {
        assert(u.drop_last() =~= lists.drop_last());
        let p = pow2(k as nat) as int;
        assert(l.len() * p == lists[k].len() * p + (l.len() - lists[k].len()) * p) by (nonlinear_arith);
    } else {
        assert(u.drop_last() =~= lists.drop_last().update(k, l));
        lemma_free_bytes_update(lists.drop_last(), k, l);
    }
}

/// A list that holds a block holds at least its size in free bytes.
proof fn lemma_free_bytes_lower(lists: Seq<Seq<usize>>, k: int)
    requires
        0 <= k < lists.len(),
        lists[k].len() > 0,
    ensures
        free_bytes(lists) >= pow2(k as nat),
    decreases lists.len(),
{
    let n = lists.len();
    lemma_free_bytes_nonneg(lists.drop_last());
    if k == n - 1 {
        let p = pow2(k as nat) as int;
        lemma_pow2_pos(k as nat);
        assert(lists[k].len() * p >= p) by (nonlinear_arith)
            requires
                lists[k].len() >= 1,
                p > 0,
        ;
    } else {
        lemma_free_bytes_lower(lists.drop_last(), k);
        let p = pow2((n - 1) as nat) as int;
        lemma_pow2_pos((n - 1) as nat);
        assert(lists.last().len() * p >= 0) by (nonlinear_arith)
            requires
                p > 0,
        ;
    }
}

proof fn lemma_free_bytes_nonneg(lists: Seq<Seq<usize>>)
    ensures
        free_bytes(lists) >= 0,
    decreases lists.len(),
{
    if lists.len() > 0 {
        lemma_free_bytes_nonneg(lists.drop_last());
        let p = pow2((lists.len() - 1) as nat) as int;
        lemma_pow2_pos((lists.len() - 1) as nat);
        assert(lists.last().len() * p >= 0) by (nonlinear_arith)
            requires
                p > 0,
        ;
    }
}

/// The largest power of two that is not above `num`.
pub fn prev_power_of_two(num: usize) -> (r: usize)
    requires
        num > 0,
    ensures
        r == pow2(floor_exp_from(num as int, 0)),
        r <= num,
        num < 2 * r,
{
    let (r, k) = prev_power_of_two_exp(num);
    r
}

/// The largest power of two that is not above `num`, with its exponent.
fn prev_power_of_two_exp(num: usize) -> (r: (usize, usize))
    requires
        num > 0,
    ensures
        r.1 == floor_exp_from(num as int, 0),
        r.0 == pow2(r.1 as nat),
        r.0 <= num,
        num < 2 * r.0,
{
    proof {
        lemma_address_space();
        lemma2_to64();
    }
    let mut p: usize = 1;
    let mut k: usize = 0;
    while p <= num / 2
        invariant
            1 <= p <= num,
            pow2(k as nat) == p,
            k <= 63,
            floor_exp_from(num as int, 0) == floor_exp_from(num as int, k as nat),
        decreases num - p,
    {
        proof {
            lemma_pow2_unfold((k + 1) as nat);
            if k + 1 > 63 {
                lemma_pow2_unfold(64);
                assert(k == 63);
                lemma2_to64();
                assert(pow2(63) == p);
                assert(pow2(64) == 2 * pow2(63));
                assert(2 * p <= num);
                assert(num <= usize::MAX);
                assert(false);
            }
        }
        p = p * 2;
        k = k + 1;
    }
    proof {
        lemma_pow2_unfold((k + 1) as nat);
    }
    (p, k)
}

/// The lowest set bit of `x`, with its exponent.
fn low_bit(x: usize) -> (r: (usize, usize))
    requires
        x > 0,
    ensures
        r.1 == low_exp_from(x as int, 0),
        r.1 < 64,
        r.0 == pow2(r.1 as nat),
        x as int % r.0 as int == 0,
{
    proof {
        lemma_address_space();
        lemma2_to64();
        lemma_low_exp(x as int, 0);
    }
    let mut p: usize = 1;
    let mut k: usize = 0;
    while (x / p) % 2 == 0
        invariant
            x > 0,
            1 <= p <= x,
            pow2(k as nat) == p,
            k < 64,
            x as int % p as int == 0,
            low_exp_from(x as int, 0) == low_exp_from(x as int, k as nat),
        decreases x - p,
    {
        proof {
            lemma_mod_pow2_step(x as int, k as nat);
            lemma_pow2_unfold((k + 1) as nat);
            lemma_fundamental_div_mod(x as int, p as int);
            let q = x as int / p as int;
            assert(q >= 2) by {
                assert(x as int == p * q);
                assert(q % 2 == 0);
                if q <= 0 {
                    assert(p * q <= 0) by (nonlinear_arith)
                        requires
                            p >= 1,
                            q <= 0,
                    ;
                }
            }
            assert(2 * p <= x) by (nonlinear_arith)
                requires
                    x as int == p * q,
                    q >= 2,
                    p >= 1,
            ;
            lemma_address_space();
            lemma_low_exp(x as int, (k + 1) as nat);
        }
        p = p * 2;
        k = k + 1;
    }
    (p, k)
}

/// A heap that serves blocks whose sizes are powers of two, splitting
/// larger free blocks and merging freed blocks with their free buddies.
/// List `k` of `free_list` holds the free blocks of `2^k` bytes, most
/// recently freed last.
pub struct Heap<const ORDER: usize> {
    free_list: Vec<Vec<usize>>,
    allocated: usize,
    maximum: usize,
    total: usize,
}

impl<const ORDER: usize> Heap<ORDER> {
    /// The free blocks of each order.
    pub closed spec fn lists(&self) -> Seq<Seq<usize>> {
        self.free_list@.map_values(|l: Vec<usize>| l@)
    }

    pub closed spec fn allocated_spec(&self) -> usize {
        self.allocated
    }

    pub closed spec fn maximum_spec(&self) -> usize {
        self.maximum
    }

    pub closed spec fn total_spec(&self) -> usize {
        self.total
    }

    /// The heap is consistent: one list per order, every free block aligned
    /// to its size, and the bytes given to the heap are exactly the free
    /// ones plus the allocated ones.
    pub closed spec fn wf(&self) -> bool {
        &&& self.free_list@.len() == ORDER
        &&& ORDER <= usize::BITS
        &&& forall|k: int, i: int| 0 <= k < ORDER && 0 <= i < self.lists()[k].len()
            ==> block_ok(#[trigger] self.lists()[k][i], k as nat)
        &&& self.total == free_bytes(self.lists()) + self.allocated
        &&& self.allocated <= self.maximum
    }

    /// One list per order, with every free block aligned to its size.
    pub closed spec fn structure_ok(&self) -> bool {
        &&& self.free_list@.len() == ORDER
        &&& ORDER <= usize::BITS
        &&& forall|k: int, i: int| 0 <= k < ORDER && 0 <= i < self.lists()[k].len()
            ==> block_ok(#[trigger] self.lists()[k][i], k as nat)
    }

    proof fn lemma_wf_structure(&self)
        requires
            self.wf(),
        ensures
            self.structure_ok(),
            self.lists().len() == ORDER,
    {
    }

    fn push_block(&mut self, k: usize, a: usize)
        requires
            old(self).structure_ok(),
            k < ORDER,
            block_ok(a, k as nat),
        ensures
            final(self).structure_ok(),
            final(self).lists() == old(self).lists().update(k as int, old(self).lists()[k as int].push(a)),
            free_bytes(final(self).lists()) == free_bytes(old(self).lists()) + pow2(k as nat),
            final(self).allocated == old(self).allocated,
            final(self).maximum == old(self).maximum,
            final(self).total == old(self).total,
    {
        let ghost old_lists = self.lists();
        self.free_list[k].push(a);
        proof {
            assert(self.lists() =~= old_lists.update(k as int, old_lists[k as int].push(a)));
            lemma_free_bytes_update(old_lists, k as int, old_lists[k as int].push(a));
            let d = old_lists[k as int].push(a).len() - old_lists[k as int].len();
            assert(d == 1);
            assert(d * pow2(k as nat) == pow2(k as nat)) by (nonlinear_arith)
                requires
                    d == 1,
            ;
            assert forall|m: int, i: int| 0 <= m < ORDER && 0 <= i < self.lists()[m].len()
                implies block_ok(#[trigger] self.lists()[m][i], m as nat) by {
                if m != k || i < old_lists[k as int].len() {
                    assert(self.lists()[m][i] == old_lists[m][i]);
                }
            }
        }
    }

    fn pop_block(&mut self, k: usize) -> (a: usize)
        requires
            old(self).structure_ok(),
            k < ORDER,
            old(self).lists()[k as int].len() > 0,
        ensures
            final(self).structure_ok(),
            a == old(self).lists()[k as int].last(),
            block_ok(a, k as nat),
            final(self).lists() == old(self).lists().update(k as int, old(self).lists()[k as int].drop_last()),
            free_bytes(final(self).lists()) == free_bytes(old(self).lists()) - pow2(k as nat),
            final(self).allocated == old(self).allocated,
            final(self).maximum == old(self).maximum,
            final(self).total == old(self).total,
    {
        let ghost old_lists = self.lists();
        proof {
            assert(block_ok(old_lists[k as int][old_lists[k as int].len() - 1], k as nat));
        }
        let a = self.free_list[k].pop().unwrap();
        proof {
            assert(self.lists() =~= old_lists.update(k as int, old_lists[k as int].drop_last()));
            lemma_free_bytes_update(old_lists, k as int, old_lists[k as int].drop_last());
            let d = old_lists[k as int].drop_last().len() - old_lists[k as int].len();
            assert(d == -1);
            assert(d * pow2(k as nat) == -pow2(k as nat)) by (nonlinear_arith)
                requires
                    d == -1,
            ;
            assert forall|m: int, i: int| 0 <= m < ORDER && 0 <= i < self.lists()[m].len()
                implies block_ok(#[trigger] self.lists()[m][i], m as nat) by {
                assert(self.lists()[m][i] == old_lists[m][i]);
            }
        }
        a
    }

    fn remove_block(&mut self, k: usize, idx: usize) -> (a: usize)
        requires
            old(self).structure_ok(),
            k < ORDER,
            idx < old(self).lists()[k as int].len(),
        ensures
            final(self).structure_ok(),
            a == old(self).lists()[k as int][idx as int],
            final(self).lists() == old(self).lists().update(k as int, old(self).lists()[k as int].remove(idx as int)),
            free_bytes(final(self).lists()) == free_bytes(old(self).lists()) - pow2(k as nat),
            final(self).allocated == old(self).allocated,
            final(self).maximum == old(self).maximum,
            final(self).total == old(self).total,
    {
        let ghost old_lists = self.lists();
        let a = self.free_list[k].remove(idx);
        proof {
            assert(self.lists() =~= old_lists.update(k as int, old_lists[k as int].remove(idx as int)));
            old_lists[k as int].remove_ensures(idx as int);
            lemma_free_bytes_update(old_lists, k as int, old_lists[k as int].remove(idx as int));
            let d = old_lists[k as int].remove(idx as int).len() - old_lists[k as int].len();
            assert(d == -1);
            assert(d * pow2(k as nat) == -pow2(k as nat)) by (nonlinear_arith)
                requires
                    d == -1,
            ;
            assert forall|m: int, i: int| 0 <= m < ORDER && 0 <= i < self.lists()[m].len()
                implies block_ok(#[trigger] self.lists()[m][i], m as nat) by {
                if m != k || i < idx {
                    assert(self.lists()[m][i] == old_lists[m][i]);
                } else {
                    assert(self.lists()[m][i] == old_lists[m][i + 1]);
                }
            }
        }
        a
    }

    /// An empty heap with one empty list per order.
    pub fn new() -> (h: Self)
        requires
            ORDER <= usize::BITS,
        ensures
            h.wf(),
            h.lists() == Seq::new(ORDER as nat, |k: int| Seq::<usize>::empty()),
            h.allocated_spec() == 0,
            h.maximum_spec() == 0,
            h.total_spec() == 0,
    {
        let mut free_list: Vec<Vec<usize>> = Vec::new();
        let mut i: usize = 0;
        while i < ORDER
            invariant
                i <= ORDER,
                free_list@.len() == i,
                forall|k: int| 0 <= k < i ==> (#[trigger] free_list@[k])@.len() == 0,
            decreases ORDER - i,
        {
            free_list.push(Vec::new());
            i = i + 1;
        }
        let h = Heap { free_list, allocated: 0, maximum: 0, total: 0 };
        proof {
            assert forall|k: int| 0 <= k < ORDER implies h.lists()[k] =~= Seq::<usize>::empty() by {
                assert(free_list@[k]@.len() == 0);
            }
            assert(h.lists() =~= Seq::new(ORDER as nat, |k: int| Seq::<usize>::empty()));
            lemma_free_bytes_zero(h.lists());
        }
        h
    }

    /// An empty heap.
    pub fn empty() -> (h: Self)
        requires
            ORDER <= usize::BITS,
        ensures
            h.wf(),
            h.lists() == Seq::new(ORDER as nat, |k: int| Seq::<usize>::empty()),
            h.allocated_spec() == 0,
            h.maximum_spec() == 0,
            h.total_spec() == 0,
    {
        Self::new()
    }

    /// Serves a request of `size` bytes with a free block of the smallest
    /// order `c` with `2^c >= size`: the most recently freed block of the
    /// first non-empty list of order `c` or above is split down to order `c`,
    /// the upper halves going to the lists on the way, and its start is
    /// returned. `None` when no list from order `c` on holds a block.
    fn allocate_block(&mut self, size: usize) -> (r: Option<usize>)
        requires
            old(self).wf(),
            size <= pow2((usize::BITS - 1) as nat),
        ensures
            final(self).wf(),
            ({
                let c = size_class(size as nat) as int;
                let i = first_nonempty(old(self).lists(), c);
                if c < ORDER && i < ORDER {
                    &&& r == Some(old(self).lists()[i].last())
                    &&& block_ok(r.unwrap(), c as nat)
                    &&& final(self).lists() == split_lists(old(self).lists(), c, i)
                    &&& final(self).allocated_spec() == old(self).allocated_spec() + pow2(c as nat)
                    &&& final(self).maximum_spec() == (if old(self).maximum_spec() >= final(self).allocated_spec() {
                        old(self).maximum_spec()
                    } else {
                        final(self).allocated_spec()
                    })
                } else {
                    &&& r is None
                    &&& final(self).lists() == old(self).lists()
                    &&& final(self).allocated_spec() == old(self).allocated_spec()
                    &&& final(self).maximum_spec() == old(self).maximum_spec()
                }
            }),
            final(self).total_spec() == old(self).total_spec(),
    {
        proof {
            lemma2_to64();
        }
        let mut class: usize = 0;
        let mut search: usize = 1;
        while search < size
            invariant
                size <= pow2((usize::BITS - 1) as nat),
                search == pow2(class as nat),
                search < size ==> class < usize::BITS - 1,
                class <= usize::BITS - 1,
                class_from(size as nat, 0) == class_from(size as nat, class as nat),
            decreases usize::BITS - class,
        {
            proof {
                lemma_pow2_unfold((class + 1) as nat);
                assert(pow2((usize::BITS - 1) as nat) <= usize::MAX) by {
                    lemma2_to64();
                    if usize::BITS == 64 {
                        lemma_pow2_unfold(64);
                        assert(((usize::BITS - 1) as nat) == 63);
                    } else {
                        assert(((usize::BITS - 1) as nat) == 31);
                    }
                }
                if class + 1 < usize::BITS - 1 {
                    vstd::arithmetic::power2::lemma_pow2_strictly_increases((class + 1) as nat, (usize::BITS - 1) as nat);
                }
            }
            search = search * 2;
            class = class + 1;
        }
        let ghost c = class as int;
        assert(class_from(size as nat, class as nat) == class);
        let ghost old_lists = self.lists();
        let mut i = class;
        while i < ORDER && self.free_list[i].len() == 0
            invariant
                self.lists() == old_lists,
                self.free_list@.len() == ORDER,
                class <= i,
                first_nonempty(old_lists, c) == first_nonempty(old_lists, i as int),
                old_lists.len() == ORDER,
            decreases ORDER - i,
        {
            i = i + 1;
        }
        if i >= ORDER {
            return None;
        }
        assert(first_nonempty(old_lists, i as int) == i);
        assert(old_lists[i as int].len() > 0);
        proof {
            self.lemma_wf_structure();
            lemma_free_bytes_lower(old_lists, i as int);
            if c < i {
                vstd::arithmetic::power2::lemma_pow2_strictly_increases(c as nat, i as nat);
            }
        }
        let ghost b = old_lists[i as int].last();
        assert(block_ok(b, i as nat));
        let mut half = search;
        let mut t = class;
        while t + 1 < i
            invariant
                class <= t,
                t <= i,
                class < i ==> t < i,
                i < ORDER,
                ORDER <= usize::BITS,
                half == pow2(t as nat),
            decreases i - t,
        {
            proof {
                lemma_pow2_unfold((t + 1) as nat);
                vstd::arithmetic::power2::lemma_pow2_strictly_increases((t + 1) as nat, (usize::BITS) as nat);
                lemma2_to64();
            }
            half = half * 2;
            t = t + 1;
        }
        let ghost free0 = free_bytes(old_lists);
        let mut j = i;
        while j > class
            invariant
                self.structure_ok(),
                self.allocated == old(self).allocated,
                self.maximum == old(self).maximum,
                self.total == old(self).total,
                old_lists.len() == ORDER,
                class <= j <= i,
                i < ORDER,
                c == class,
                b == old_lists[i as int].last(),
                old_lists[i as int].len() > 0,
                block_ok(b, i as nat),
                j > class ==> half == pow2((j - 1) as nat),
                free_bytes(self.lists()) == free0,
                self.lists() == Seq::new(ORDER as nat, |m: int|
                    if m == j {
                        if j == i { old_lists[i as int] } else { old_lists[m].push((b + pow2(m as nat)) as usize).push(b) }
                    } else if j < m <= i {
                        if m == i { old_lists[i as int].drop_last() } else { old_lists[m].push((b + pow2(m as nat)) as usize) }
                    } else {
                        old_lists[m]
                    }),
            decreases j,
        {
            let ghost before = self.lists();
            let ghost target = Seq::new(ORDER as nat, |m: int|
                    if m == j - 1 {
                        if j - 1 == i { old_lists[i as int] } else { old_lists[m].push((b + pow2(m as nat)) as usize).push(b) }
                    } else if j - 1 < m <= i {
                        if m == i { old_lists[i as int].drop_last() } else { old_lists[m].push((b + pow2(m as nat)) as usize) }
                    } else {
                        old_lists[m]
                    });
            let block = self.pop_block(j);
            assert(block == b);
            proof {
                lemma_split_chain(b, i as nat, (j - 1) as nat);
                if j < i {
                    lemma_split_chain(b, i as nat, j as nat);
                }
            }
            self.push_block(j - 1, block + half);
            self.push_block(j - 1, block);
            proof {
                lemma_pow2_unfold(j as nat);
                let after = self.lists();
                assert forall|m: int| 0 <= m < ORDER implies after[m] =~= target[m] by {
                    if m == j {
                        if j < i {
                            assert(before[m] == old_lists[m].push((b + pow2(m as nat)) as usize).push(b));
                            assert(before[m].drop_last() =~= old_lists[m].push((b + pow2(m as nat)) as usize));
                        }
                    } else if m == j - 1 {
                        assert(before[m] == old_lists[m]);
                        assert(half == pow2(m as nat));
                    }
                }
                assert(after =~= target);
            }
            if j - 1 > class {
                proof {
                    lemma_pow2_unfold((j - 1) as nat);
                }
                half = half / 2;
            }
            j = j - 1;
        }
        let ghost before = self.lists();
        let result = self.pop_block(class);
        proof {
            let after = self.lists();
            let target = split_lists(old_lists, c, i as int);
            assert forall|m: int| 0 <= m < ORDER implies after[m] =~= target[m] by {
                if m == c && c < i {
                    assert(before[m] == old_lists[m].push((b + pow2(m as nat)) as usize).push(b));
                    assert(before[m].drop_last() =~= old_lists[m].push((b + pow2(m as nat)) as usize));
                }
            }
            assert(after =~= target);
        }
        self.allocated = self.allocated + search;
        if self.allocated > self.maximum {
            self.maximum = self.allocated;
        }
        Some(result)
    }

    /// Finds the last index before `end` at which list `k` holds `x`.
    fn find_block_before(&self, k: usize, x: usize, end: usize) -> (r: Option<usize>)
        requires
            self.free_list@.len() == ORDER,
            k < ORDER,
            end <= self.lists()[k as int].len(),
        ensures
            r == (if last_index_before(self.lists()[k as int], x, end as int) < 0 {
                None::<usize>
            } else {
                Some(last_index_before(self.lists()[k as int], x, end as int) as usize)
            }),
    {
        let ghost l = self.lists()[k as int];
        let mut e = end;
        while e > 0
            invariant
                e <= end,
                end <= l.len(),
                l == self.lists()[k as int],
                self.free_list@.len() == ORDER,
                k < ORDER,
                last_index_before(l, x, end as int) == last_index_before(l, x, e as int),
            decreases e,
        {
            if self.free_list[k][e - 1] == x {
                return Some(e - 1);
            }
            e = e - 1;
        }
        None
    }

    /// Frees the order-`c` block at `block`, where `size == 2^c`: the block
    /// goes on list `c`, then, order by order while a higher order exists,
    /// it is merged with its buddy if that is free (found below it on the
    /// list) into the block of the next order. The block must be aligned to
    /// its size and `size` bytes must be allocated.
    fn deallocate_block(&mut self, block: usize, size: usize)
        requires
            old(self).wf(),
            size <= pow2((usize::BITS - 1) as nat),
            size_class(size as nat) < ORDER,
            pow2(size_class(size as nat)) == size,
            block_ok(block, size_class(size as nat)),
            old(self).allocated_spec() >= size,
        ensures
            final(self).wf(),
            final(self).lists() == merge_lists(
                old(self).lists().update(
                    size_class(size as nat) as int,
                    old(self).lists()[size_class(size as nat) as int].push(block),
                ),
                block,
                size_class(size as nat) as int,
                ORDER as int,
            ),
            final(self).allocated_spec() == old(self).allocated_spec() - size,
            final(self).maximum_spec() == old(self).maximum_spec(),
            final(self).total_spec() == old(self).total_spec(),
            coalesced(old(self).lists(), ORDER as int) ==> coalesced(final(self).lists(), ORDER as int),
            forall|z: int| free_covers(final(self).lists(), z)
                <==> (free_covers(old(self).lists(), z) || block <= z < block + size),
    {
        let ghost before = self.lists();
        proof {
            self.lemma_wf_structure();
            if coalesced(self.lists(), ORDER as int) {
                lemma_free_keeps_coalesced(self.lists(), block, size_class(size as nat) as int, ORDER as int);
            }
        }
        let (class, search) = Self::class_of(size);
        assert(search == size);
        proof {
            self.lemma_wf_structure();
        }
        self.push_block(class, block);
        let ghost l0 = self.lists();
        let mut cur = block;
        let mut cc = class;
        let mut p = search;
        let mut done = false;
        while !done && cc + 1 < ORDER
            invariant
                self.structure_ok(),
                self.allocated == old(self).allocated,
                self.maximum == old(self).maximum,
                self.total == old(self).total,
                free_bytes(self.lists()) == free_bytes(l0),
                cc < ORDER,
                p == pow2(cc as nat),
                block_ok(cur, cc as nat),
                self.lists()[cc as int].len() > 0,
                self.lists()[cc as int].last() == cur,
                merge_lists(l0, block, class as int, ORDER as int)
                    == merge_lists(self.lists(), cur, cc as int, ORDER as int),
                done ==> self.lists() == merge_lists(self.lists(), cur, cc as int, ORDER as int),
            decreases ORDER - cc, (if done { 0int } else { 1int }),
        {
            proof {
                lemma_merge_block(cur, cc as nat);
                lemma_pow2_pos(cc as nat);
            }
            let buddy = if (cur / p) % 2 == 0 { cur + p } else { cur - p };
            let len = self.free_list[cc].len();
            let found = self.find_block_before(cc, buddy, len - 1);
            proof {
                lemma_last_index_before(self.lists()[cc as int], buddy, len - 1);
            }
            match found {
                None => {
                    done = true;
                },
                Some(idx) => {
                    let ghost before = self.lists();
                    let merged = if cur <= buddy { cur } else { buddy };
                    self.remove_block(cc, idx);
                    proof {
                        before[cc as int].remove_ensures(idx as int);
                    }
                    self.pop_block(cc);
                    proof {
                        lemma_pow2_unfold((cc + 1) as nat);
                        assert(pow2((cc + 1) as nat) <= usize::MAX) by {
                            vstd::arithmetic::power2::lemma_pow2_strictly_increases((cc + 1) as nat, usize::BITS as nat);
                            lemma2_to64();
                            assert(pow2(usize::BITS as nat) == usize::MAX + 1) by {
                                if usize::BITS == 64 {} else {}
                            }
                        }
                    }
                    self.push_block(cc + 1, merged);
                    proof {
                        let l2 = before[cc as int].remove(idx as int).drop_last();
                        let lists2 = before.update(cc as int, l2).update(cc as int + 1, before[cc as int + 1].push(merged));
                        assert(self.lists() =~= lists2);
                    }
                    cur = merged;
                    cc = cc + 1;
                    p = p * 2;
                },
            }
        }
        self.allocated = self.allocated - size;
        proof {
            let c = size_class(size as nat) as int;
            assert(self.lists() == merge_lists(before.update(c, before[c].push(block)), block, c, ORDER as int));
            assert(before == old(self).lists());
            assert forall|z: int| #[trigger] free_covers(self.lists(), z)
                <==> (free_covers(old(self).lists(), z) || block <= z < block + size) by {
                lemma_free_adds_exactly_the_block(before, block, c, ORDER as int, z);
            }
        }
    }

    /// The order of the blocks that serve `size` bytes, and their size.
    fn class_of(size: usize) -> (r: (usize, usize))
        requires
            size <= pow2((usize::BITS - 1) as nat),
        ensures
            r.0 == size_class(size as nat),
            r.1 == pow2(r.0 as nat),
            r.1 >= size,
            r.0 <= usize::BITS - 1,
    {
        proof {
            lemma2_to64();
        }
        let mut class: usize = 0;
        let mut search: usize = 1;
        while search < size
            invariant
                size <= pow2((usize::BITS - 1) as nat),
                search == pow2(class as nat),
                search < size ==> class < usize::BITS - 1,
                class <= usize::BITS - 1,
                class_from(size as nat, 0) == class_from(size as nat, class as nat),
            decreases usize::BITS - class,
        {
            proof {
                lemma_pow2_unfold((class + 1) as nat);
                assert(pow2((usize::BITS - 1) as nat) <= usize::MAX) by {
                    lemma2_to64();
                    if usize::BITS == 64 {
                        lemma_pow2_unfold(64);
                        assert(((usize::BITS - 1) as nat) == 63);
                    } else {
                        assert(((usize::BITS - 1) as nat) == 31);
                    }
                }
                if class + 1 < usize::BITS - 1 {
                    vstd::arithmetic::power2::lemma_pow2_strictly_increases((class + 1) as nat, (usize::BITS - 1) as nat);
                }
            }
            search = search * 2;
            class = class + 1;
        }
        (class, search)
    }

    /// Carves the region `[start, end)`, rounded inwards to the granularity,
    /// into blocks, each as large as its alignment and the room left allow,
    /// until less than a word is left, and counts them into the total.
    pub fn add_to_heap(&mut self, start: usize, end: usize)
        requires
            old(self).wf(),
            align_up(start) <= align_down(end),
            align_up(start) > 0 || align_up(start) + WORD > align_down(end),
            carve_fits(align_up(start), align_down(end), ORDER as int),
            old(self).total_spec() + carve_total(align_up(start), align_down(end)) <= usize::MAX,
        ensures
            final(self).wf(),
            final(self).lists() == carve_lists(old(self).lists(), align_up(start), align_down(end)),
            final(self).total_spec() == old(self).total_spec() + carve_total(align_up(start), align_down(end)),
            final(self).allocated_spec() == old(self).allocated_spec(),
            final(self).maximum_spec() == old(self).maximum_spec(),
    {
        let t = start.wrapping_add(GRANULARITY - 1);
        let s0 = t & !(GRANULARITY - 1);
        let e = end & !(GRANULARITY - 1);
        proof {
            lemma_address_space();
            assert(s0 == t - t % 32) by (bit_vector)
                requires
                    s0 == t & !31usize,
            ;
            assert(e == end - end % 32) by (bit_vector)
                requires
                    e == end & !31usize,
            ;
            assert(t == (if start + 31 > usize::MAX { start + 31 - address_space() } else { start + 31 }));
            assert(e + 31 <= usize::MAX);
            self.lemma_wf_structure();
            lemma_carve_total_nonneg(s0 as int, e as int);
        }
        let ghost l0 = self.lists();
        let ghost sa = s0 as int;
        let ghost ea = e as int;
        let mut total: usize = 0;
        let mut cur = s0;
        while cur + WORD <= e
            invariant
                self.structure_ok(),
                self.allocated == old(self).allocated,
                self.maximum == old(self).maximum,
                self.total == old(self).total,
                ea == e,
                e + 31 <= usize::MAX,
                cur <= e,
                cur > 0 || cur + WORD > e,
                carve_lists(l0, sa, ea) == carve_lists(self.lists(), cur as int, ea),
                carve_total(sa, ea) == total + carve_total(cur as int, ea),
                carve_fits(cur as int, ea, ORDER as int),
                free_bytes(self.lists()) == free_bytes(l0) + total,
                old(self).total + total + carve_total(cur as int, ea) <= usize::MAX,
                carve_total(cur as int, ea) >= 0,
            decreases e - cur,
        {
            let (low, lk) = low_bit(cur);
            let (pp, pk) = prev_power_of_two_exp(e - cur);
            proof {
                if lk <= pk {
                    if lk < pk {
                        vstd::arithmetic::power2::lemma_pow2_strictly_increases(lk as nat, pk as nat);
                    }
                } else {
                    vstd::arithmetic::power2::lemma_pow2_strictly_increases(pk as nat, lk as nat);
                }
            }
            let (size, k) = if low <= pp { (low, lk) } else { (pp, pk) };
            proof {
                assert(k == carve_order(cur as int, ea));
                lemma_pow2_pos(k as nat);
                lemma_address_space();
                lemma2_to64();
                lemma_low_exp(cur as int, 0);
                lemma_mod_pow2_smaller(cur as int, lk as nat, k as nat);
                assert(size <= e - cur);
                assert(k < ORDER);
                assert(carve_total(cur as int, ea) == size + carve_total(cur + size, ea));
                lemma_carve_total_nonneg(cur + size, ea);
            }
            total = total + size;
            self.push_block(k, cur);
            cur = cur + size;
        }
        proof {
            assert(carve_total(cur as int, ea) == 0);
            assert(self.lists() == carve_lists(l0, sa, ea));
        }
        self.total = self.total + total;
    }

    /// Adds the region of `size` bytes at `start` to the heap.
    pub fn init(&mut self, start: usize, size: usize)
        requires
            old(self).wf(),
            start + size <= usize::MAX,
            align_up(start) <= align_down((start + size) as usize),
            align_up(start) > 0 || align_up(start) + WORD > align_down((start + size) as usize),
            carve_fits(align_up(start), align_down((start + size) as usize), ORDER as int),
            old(self).total_spec() + carve_total(align_up(start), align_down((start + size) as usize)) <= usize::MAX,
        ensures
            final(self).wf(),
            final(self).lists() == carve_lists(old(self).lists(), align_up(start), align_down((start + size) as usize)),
            final(self).total_spec() == old(self).total_spec() + carve_total(align_up(start), align_down((start + size) as usize)),
            final(self).allocated_spec() == old(self).allocated_spec(),
            final(self).maximum_spec() == old(self).maximum_spec(),
    {
        self.add_to_heap(start, start + size);
    }

    /// Serves a request with a block of at least `size` bytes, `size` being
    /// the search size of the request: its bytes, its header and its
    /// alignment padding, rounded to `GRANULARITY`. The block is taken as
    /// `allocate_block` does, and the payload address is returned: the first
    /// multiple of `align` after the block's header. `None` when no list
    /// from the order of `size` on holds a block. The payload must start
    /// inside the block.
    pub fn allocate(&mut self, size: usize, align: usize) -> (r: Option<usize>)
        requires
            old(self).wf(),
            size <= pow2((usize::BITS - 1) as nat),
            0 < align,
            USED_BLOCK_HDR + align <= pow2(size_class(size as nat)),
        ensures
            final(self).wf(),
            ({
                let c = size_class(size as nat) as int;
                let i = first_nonempty(old(self).lists(), c);
                if c < ORDER && i < ORDER {
                    let b = old(self).lists()[i].last();
                    &&& r == Some(payload(b as int, align as int) as usize)
                    &&& block_ok(b, c as nat)
                    &&& b < r.unwrap() < b + pow2(c as nat)
                    &&& block_of(r.unwrap() as int, pow2(c as nat) as int) == b
                    &&& final(self).lists() == split_lists(old(self).lists(), c, i)
                    &&& final(self).allocated_spec() == old(self).allocated_spec() + pow2(c as nat)
                    &&& final(self).maximum_spec() == (if old(self).maximum_spec() >= final(self).allocated_spec() {
                        old(self).maximum_spec()
                    } else {
                        final(self).allocated_spec()
                    })
                } else {
                    &&& r is None
                    &&& final(self).lists() == old(self).lists()
                    &&& final(self).allocated_spec() == old(self).allocated_spec()
                    &&& final(self).maximum_spec() == old(self).maximum_spec()
                }
            }),
            final(self).total_spec() == old(self).total_spec(),
    {
        match self.allocate_block(size) {
            Some(block) => {
                let ghost c = size_class(size as nat);
                proof {
                    lemma_payload_in_block(block, c, align);
                }
                let u = block + USED_BLOCK_HDR + (align - 1);
                Some(u - u % align)
            },
            None => None,
        }
    }

    /// Frees the allocation whose payload is at `ptr`, in a block of `size`
    /// bytes (`size == 2^c`) made for alignment `align`: the block is the
    /// one of that size the payload lies in, and it is freed as
    /// `deallocate_block` does.
    pub fn deallocate(&mut self, ptr: usize, size: usize, align: usize)
        requires
            old(self).wf(),
            size <= pow2((usize::BITS - 1) as nat),
            size_class(size as nat) < ORDER,
            pow2(size_class(size as nat)) == size,
            block_ok(block_of(ptr as int, size as int) as usize, size_class(size as nat)),
            old(self).allocated_spec() >= size,
        ensures
            final(self).wf(),
            final(self).lists() == merge_lists(
                old(self).lists().update(
                    size_class(size as nat) as int,
                    old(self).lists()[size_class(size as nat) as int].push(block_of(ptr as int, size as int) as usize),
                ),
                block_of(ptr as int, size as int) as usize,
                size_class(size as nat) as int,
                ORDER as int,
            ),
            final(self).allocated_spec() == old(self).allocated_spec() - size,
            final(self).maximum_spec() == old(self).maximum_spec(),
            final(self).total_spec() == old(self).total_spec(),
            coalesced(old(self).lists(), ORDER as int) ==> coalesced(final(self).lists(), ORDER as int),
            forall|z: int| free_covers(final(self).lists(), z) <==> (free_covers(old(self).lists(), z)
                || block_of(ptr as int, size as int) <= z < block_of(ptr as int, size as int) + size),
    {
        proof {
            lemma2_to64();
            lemma_pow2_pos(size_class(size as nat));
        }
        proof {
            vstd::arithmetic::div_mod::lemma_mod_decreases(ptr as nat, size as nat);
        }
        let block = ptr - ptr % size;
        self.deallocate_block(block, size);
    }

    /// Moves the allocation whose payload is at `ptr`, in a block of
    /// `old_size` bytes, to a request of `new_size` bytes with alignment
    /// `align`: the payload stays where it is when its offset in the block
    /// plus the new size, rounded to `GRANULARITY`, fits the block; `None`
    /// when that sum overflows. Otherwise a new allocation is made as
    /// `allocate` does with the search size `search` of the new request,
    /// and, when it succeeds, the old one is freed as `deallocate` does;
    /// `None` (the old allocation kept) when no block is free. The data are
    /// copied by the caller.
    pub fn reallocate(&mut self, ptr: usize, old_size: usize, align: usize, new_size: usize, search: usize)
        -> (r: Option<usize>)
        requires
            old(self).wf(),
            old_size <= pow2((usize::BITS - 1) as nat),
            size_class(old_size as nat) < ORDER,
            pow2(size_class(old_size as nat)) == old_size,
            block_ok(block_of(ptr as int, old_size as int) as usize, size_class(old_size as nat)),
            old(self).allocated_spec() >= old_size,
            search <= pow2((usize::BITS - 1) as nat),
            0 < align,
            USED_BLOCK_HDR + align <= pow2(size_class(search as nat)),
        ensures
            final(self).wf(),
            final(self).total_spec() == old(self).total_spec(),
            ({
                let need = round_to_granularity(ptr - block_of(ptr as int, old_size as int) + new_size);
                let oc = size_class(old_size as nat) as int;
                let c = size_class(search as nat) as int;
                let i = first_nonempty(old(self).lists(), c);
                if need > usize::MAX {
                    &&& r is None
                    &&& *final(self) == *old(self)
                } else if need <= old_size {
                    &&& r == Some(ptr)
                    &&& *final(self) == *old(self)
                } else if c < ORDER && i < ORDER {
                    let b = old(self).lists()[i].last();
                    let split = split_lists(old(self).lists(), c, i);
                    let ob = block_of(ptr as int, old_size as int) as usize;
                    &&& r == Some(payload(b as int, align as int) as usize)
                    &&& final(self).lists() == merge_lists(split.update(oc, split[oc].push(ob)), ob, oc, ORDER as int)
                    &&& final(self).allocated_spec() == old(self).allocated_spec() + pow2(c as nat) - old_size
                } else {
                    &&& r is None
                    &&& final(self).lists() == old(self).lists()
                    &&& final(self).allocated_spec() == old(self).allocated_spec()
                    &&& final(self).maximum_spec() == old(self).maximum_spec()
                }
            }),
    {
        proof {
            lemma2_to64();
            lemma_pow2_pos(size_class(old_size as nat));
        }
        proof {
            vstd::arithmetic::div_mod::lemma_mod_decreases(ptr as nat, old_size as nat);
        }
        let block = ptr - ptr % old_size;
        let overhead = ptr - block;
        let ghost spec_need = round_to_granularity(ptr - block_of(ptr as int, old_size as int) + new_size);
        let grown = match overhead.checked_add(new_size) {
            Some(x) => x,
            None => {
                proof {
                    let u = overhead + new_size + GRANULARITY - 1;
                    assert(u % 32 < 32);
                }
                return None;
            },
        };
        let need = match grown.checked_add(GRANULARITY - 1) {
            Some(x) => x - x % GRANULARITY,
            None => {
                proof {
                    let u = grown + GRANULARITY - 1;
                    assert(usize::MAX as int == 0xffff_ffffint || usize::MAX as int == 0xffff_ffff_ffff_ffffint);
                    assert(spec_need > usize::MAX) by {
                        assert(u > usize::MAX);
                        assert(u - u % 32 > usize::MAX);
                    }
                }
                return None;
            },
        };
        assert(need == spec_need);
        if need <= old_size {
            return Some(ptr);
        }
        let new_ptr = self.allocate(search, align);
        match new_ptr {
            Some(p) => {
                self.deallocate(ptr, old_size, align);
                Some(p)
            },
            None => None,
        }
    }

    /// Every byte given to the heap is either free or allocated: the total
    /// equals the bytes held by the free lists plus the allocated bytes,
    /// and the peak is never below the current allocation.
    pub proof fn lemma_heap_accounting(&self)
        requires
            self.wf(),
        ensures
            self.total_spec() == free_bytes(self.lists()) + self.allocated_spec(),
            self.allocated_spec() <= self.maximum_spec(),
            self.lists().len() == ORDER,
            forall|k: int, i: int| 0 <= k < ORDER && 0 <= i < self.lists()[k].len()
                ==> block_ok(#[trigger] self.lists()[k][i], k as nat),
    {
    }

    /// The number of bytes allocated at the peak.
    pub fn stats_alloc_max(&self) -> (r: usize)
        ensures
            r == self.maximum_spec(),
    {
        self.maximum
    }

    /// The number of bytes allocated now.
    pub fn stats_alloc_actual(&self) -> (r: usize)
        ensures
            r == self.allocated_spec(),
    {
        self.allocated
    }

    /// The number of bytes given to the heap.
    pub fn stats_total_bytes(&self) -> (r: usize)
        ensures
            r == self.total_spec(),
    {
        self.total
    }
}

proof fn lemma_free_bytes_zero(lists: Seq<Seq<usize>>)
    requires
        forall|k: int| 0 <= k < lists.len() ==> (#[trigger] lists[k]).len() == 0,
    ensures
        free_bytes(lists) == 0,
    decreases lists.len(),
{
    if lists.len() > 0 {
        lemma_free_bytes_zero(lists.drop_last());
        assert(lists.last().len() == 0);
    }
}

} // verus!
