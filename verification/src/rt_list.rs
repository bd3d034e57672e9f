use vstd::prelude::*;
use crate::list::doubly_linked_list::lemma_distinct_bounded;

verus! {

/// `p` lists, in order, the nodes met going round from the node `h` along
/// the next links of `nodes`, node addresses being places in `nodes`: the
/// last links back to `h`, and none comes twice.
pub open spec fn ring_path(nodes: Seq<rt_list_node>, h: int, p: Seq<usize>) -> bool {
    &&& 0 <= h < nodes.len()
    &&& nodes[h].next == Some(if p.len() == 0 { h as usize } else { p[0] })
    &&& forall|i: int| 0 <= i < p.len() ==> (#[trigger] p[i]) < nodes.len() && p[i] != h
    &&& forall|i: int| 0 <= i < p.len() ==> (#[trigger] nodes[p[i] as int]).next
        == Some(if i + 1 < p.len() { p[i + 1] } else { h as usize })
    &&& forall|i: int, j: int| 0 <= i < j < p.len() ==> p[i] != p[j]
}

/// Whether the next links from `h` come back round to it.
pub open spec fn is_ring(nodes: Seq<rt_list_node>, h: int) -> bool {
    exists|p: Seq<usize>| ring_path(nodes, h, p)
}

/// The nodes of the ring of `h` after `h`, in order.
pub open spec fn ring(nodes: Seq<rt_list_node>, h: int) -> Seq<usize> {
    choose|p: Seq<usize>| ring_path(nodes, h, p)
}

/// A node of a circular doubly linked list in the C layout; the links are
/// node addresses, none before the node is put on a list.
#[derive(Clone, Copy, Debug, PartialEq, Eq, Structural)]
#[allow(non_camel_case_types)]
pub struct rt_list_node {
    pub next: Option<usize>,
    pub prev: Option<usize>,
}

impl rt_list_node {
    /// A node with no links.
    pub fn new() -> (n: Self)
        ensures
            n.next is None,
            n.prev is None,
    {
        rt_list_node { next: None, prev: None }
    }

    /// The number of nodes on the list whose head is the node `h` of
    /// `nodes`: those met going round the ring before coming back to `h`.
    pub fn len(nodes: &Vec<rt_list_node>, h: usize) -> (r: usize)
        requires
            is_ring(nodes@, h as int),
        ensures
            r == ring(nodes@, h as int).len(),
    {
        let ghost p = ring(nodes@, h as int);
        proof {
            assert(p.no_duplicates()) by {
                assert forall|i: int, j: int| 0 <= i < p.len() && 0 <= j < p.len() && i != j implies p[i] != p[j] by {
                    if j < i {
                        assert(p[j] != p[i]);
                    }
                }
            }
            lemma_distinct_bounded(p, nodes@.len());
        }
        let total = nodes.len();
        let mut len: usize = 0;
        let mut cur = h;
        while nodes[cur].next != Some(h)
            invariant
                ring_path(nodes@, h as int, p),
                p.len() <= nodes@.len(),
                nodes@.len() == total,
                len <= p.len(),
                cur == (if len == 0 { h } else { p[len - 1] }),
            decreases p.len() - len,
        {
            proof {
                if len == 0 {
                    assert(nodes@[h as int].next == Some(if p.len() == 0 { h } else { p[0] }));
                } else {
                    assert(nodes@[p[len - 1] as int].next == Some(if len < p.len() { p[len as int] } else { h }));
                }
                if len == p.len() {
                    assert(false);
                }
            }
            cur = nodes[cur].next.unwrap();
            len = len + 1;
        }
        proof {
            if len < p.len() {
                if len == 0 {
                    assert(nodes@[h as int].next == Some(p[0]));
                } else {
                    assert(nodes@[p[len - 1] as int].next == Some(p[len as int]));
                }
            }
        }
        len
    }

    /// Whether the list whose head is this node, at address `me`, is
    /// empty: its next link is itself.
    pub fn is_empty(&self, me: usize) -> (b: bool)
        ensures
            b <==> self.next == Some(me),
    {
        self.next == Some(me)
    }
}

/// `p` lists, in order, the nodes that follow the node `h` in `nodes`,
/// node addresses being places in `nodes`: each links to the next, the last
/// to none, and none comes twice.
pub open spec fn slist_path(nodes: Seq<rt_slist_node>, h: int, p: Seq<usize>) -> bool {
    &&& 0 <= h < nodes.len()
    &&& nodes[h].next == (if p.len() == 0 { None } else { Some(p[0]) })
    &&& forall|i: int| 0 <= i < p.len() ==> (#[trigger] p[i]) < nodes.len() && p[i] != h
    &&& forall|i: int| 0 <= i < p.len() ==> (#[trigger] nodes[p[i] as int]).next
        == (if i + 1 < p.len() { Some(p[i + 1]) } else { None })
    &&& forall|i: int, j: int| 0 <= i < j < p.len() ==> p[i] != p[j]
}

/// Whether the links from `h` end, after finitely many distinct nodes.
pub open spec fn is_slist(nodes: Seq<rt_slist_node>, h: int) -> bool {
    exists|p: Seq<usize>| slist_path(nodes, h, p)
}

/// The nodes that follow `h`, first to last.
pub open spec fn slist(nodes: Seq<rt_slist_node>, h: int) -> Seq<usize> {
    choose|p: Seq<usize>| slist_path(nodes, h, p)
}

/// The last node of the list `h` heads, `h` itself when it is empty.
pub open spec fn slist_tail(nodes: Seq<rt_slist_node>, h: int) -> int {
    let p = slist(nodes, h);
    if p.len() == 0 { h } else { p.last() as int }
}

/// The first place `k`, counting from `k0` in steps of two, at which `n`
/// stands in `p`; -1 when there is none.
pub open spec fn even_find(p: Seq<usize>, n: usize, k0: int) -> int
    decreases p.len() + 2 - k0,
{
    if k0 < 0 || k0 >= p.len() {
        -1
    } else if p[k0] == n {
        k0
    } else {
        even_find(p, n, k0 + 2)
    }
}

/// What `even_find` finds: a place of `n` at an even distance from `k0`,
/// with no place of `n` before it at such a distance; -1 when there is
/// none at all.
pub proof fn lemma_even_find(p: Seq<usize>, n: usize, k0: int)
    requires
        0 <= k0,
    ensures
        even_find(p, n, k0) == -1 ==> forall|j: int| k0 <= j < p.len() && (j - k0) % 2 == 0 ==> p[j] != n,
        even_find(p, n, k0) != -1 ==> {
            let r = even_find(p, n, k0);
            &&& k0 <= r < p.len()
            &&& (r - k0) % 2 == 0
            &&& p[r] == n
            &&& forall|j: int| k0 <= j < r && (j - k0) % 2 == 0 ==> p[j] != n
        },
    decreases p.len() + 2 - k0,
{
    if k0 < p.len() && p[k0] != n {
        lemma_even_find(p, n, k0 + 2);
    }
}

/// The list that follows a node is fixed by the links: two lists that
/// both follow `h` are the same.
pub proof fn lemma_slist_unique(nodes: Seq<rt_slist_node>, h: int, p: Seq<usize>, q: Seq<usize>)
    requires
        slist_path(nodes, h, p),
        slist_path(nodes, h, q),
    ensures
        p == q,
{
    let m = if p.len() < q.len() { p.len() } else { q.len() };
    assert forall|i: int| 0 <= i < m implies p[i] == q[i] by {
        lemma_slist_prefix(nodes, h, p, q, i);
    }
    if p.len() < q.len() {
        if p.len() == 0 {
            assert(nodes[h].next == Some(q[0]));
        } else {
            let i = p.len() - 1;
            assert(p[i] == q[i]);
            assert(nodes[q[i] as int].next == Some(q[i + 1]));
        }
    } else if q.len() < p.len() {
        if q.len() == 0 {
            assert(nodes[h].next == Some(p[0]));
        } else {
            let i = q.len() - 1;
            assert(p[i] == q[i]);
            assert(nodes[p[i] as int].next == Some(p[i + 1]));
        }
    }
    assert(p =~= q);
}

proof fn lemma_slist_prefix(nodes: Seq<rt_slist_node>, h: int, p: Seq<usize>, q: Seq<usize>, i: int)
    requires
        slist_path(nodes, h, p),
        slist_path(nodes, h, q),
        0 <= i < p.len(),
        i < q.len(),
    ensures
        p[i] == q[i],
    decreases i,
{
    if i > 0 {
        lemma_slist_prefix(nodes, h, p, q, i - 1);
        assert(nodes[p[i - 1] as int].next == Some(p[i]));
        assert(nodes[q[i - 1] as int].next == Some(q[i]));
    }
}

/// A path that follows `h` is the list `slist` names.
pub proof fn lemma_slist_is(nodes: Seq<rt_slist_node>, h: int, p: Seq<usize>)
    requires
        slist_path(nodes, h, p),
    ensures
        is_slist(nodes, h),
        slist(nodes, h) == p,
{
    lemma_slist_unique(nodes, h, slist(nodes, h), p);
}

/// Linking the node before the `k`-th of a list to the one after it takes
/// the `k`-th off the list.
proof fn lemma_slist_unlinked(a: Seq<rt_slist_node>, b: Seq<rt_slist_node>, h: int, p: Seq<usize>, k: int)
    requires
        slist_path(a, h, p),
        0 <= k < p.len(),
        b == a.update(if k == 0 { h } else { p[k - 1] as int },
            rt_slist_node { next: if k + 1 < p.len() { Some(p[k + 1]) } else { None } }),
    ensures
        slist_path(b, h, p.remove(k)),
{
    let pr = p.remove(k);
    let node = if k == 0 { h } else { p[k - 1] as int };
    assert forall|i: int| 0 <= i < pr.len() implies (#[trigger] pr[i]) < b.len() && pr[i] != h by {
        if i < k { assert(pr[i] == p[i]); } else { assert(pr[i] == p[i + 1]); }
    }
    assert forall|i: int| 0 <= i < pr.len() implies b[#[trigger] pr[i] as int].next
        == (if i + 1 < pr.len() { Some(pr[i + 1]) } else { None }) by {
        if i < k {
            assert(pr[i] == p[i]);
            if i + 1 < k {
                assert(pr[i + 1] == p[i + 1]);
            }
            if i != k - 1 {
                assert(p[i] != p[k - 1]);
            }
        } else {
            assert(pr[i] == p[i + 1]);
            if i + 1 < pr.len() {
                assert(pr[i + 1] == p[i + 2]);
            }
            if k > 0 {
                assert(p[i + 1] != p[k - 1]);
            }
        }
    }
    assert forall|i: int, j: int| 0 <= i < j < pr.len() implies pr[i] != pr[j] by {
        let x = if i < k { i } else { i + 1 };
        let y = if j < k { j } else { j + 1 };
        assert(pr[i] == p[x] && pr[j] == p[y]);
    }
    if k > 0 {
        assert(pr[0] == p[0]);
        if k - 1 != 0 {
            assert(p[0] != p[k - 1]);
        }
    } else if pr.len() > 0 {
        assert(pr[0] == p[1]);
    }
}

/// A node of a singly linked list in the C layout; the link is a node
/// address, none at the end.
#[derive(Clone, Copy, Debug, PartialEq, Eq, Structural)]
#[allow(non_camel_case_types)]
pub struct rt_slist_node {
    pub next: Option<usize>,
}

impl rt_slist_node {
    /// A node with no successor.
    pub fn new() -> (n: Self)
        ensures
            n.next is None,
    {
        rt_slist_node { next: None }
    }

    /// The first node of the list this node heads.
    pub fn first(&self) -> (r: Option<usize>)
        ensures
            r == self.next,
    {
        self.next
    }

    /// The node after this one.
    pub fn next(&self) -> (r: Option<usize>)
        ensures
            r == self.next,
    {
        self.next
    }

    /// Whether the list this node heads is empty.
    pub fn isempty(&self) -> (b: bool)
        ensures
            b <==> self.next is None,
    {
        self.next.is_none()
    }

    /// The number of nodes after the node `h` of `nodes`.
    pub fn len(nodes: &Vec<rt_slist_node>, h: usize) -> (r: u32)
        requires
            is_slist(nodes@, h as int),
            slist(nodes@, h as int).len() <= u32::MAX,
        ensures
            r == slist(nodes@, h as int).len(),
    {
        let ghost p = slist(nodes@, h as int);
        let mut len: u32 = 0;
        let mut list = nodes[h].next;
        while list.is_some()
            invariant
                slist_path(nodes@, h as int, p),
                p.len() <= u32::MAX,
                len <= p.len(),
                list == (if len < p.len() { Some(p[len as int]) } else { None::<usize> }),
            decreases p.len() - len,
        {
            let c = list.unwrap();
            list = nodes[c].next;
            len = len + 1;
        }
        len
    }

    /// The last node of the list `h` heads; `h` when it is empty.
    pub fn tail(nodes: &Vec<rt_slist_node>, h: usize) -> (r: usize)
        requires
            is_slist(nodes@, h as int),
        ensures
            r == slist_tail(nodes@, h as int),
    {
        let ghost p = slist(nodes@, h as int);
        let ghost mut k: int = -1;
        let mut l = h;
        while nodes[l].next.is_some()
            invariant
                slist_path(nodes@, h as int, p),
                -1 <= k < p.len(),
                l == (if k == -1 { h } else { p[k] }),
                l < nodes@.len(),
            decreases p.len() - k,
        {
            l = nodes[l].next.unwrap();
            proof {
                k = k + 1;
            }
        }
        proof {
            if k + 1 < p.len() {
                if k == -1 {
                    assert(nodes@[h as int].next == Some(p[0]));
                } else {
                    assert(nodes@[p[k] as int].next == Some(p[k + 1]));
                }
            }
        }
        l
    }

    /// Walks the list `h` heads two nodes at a time looking for `n`: gives
    /// the node before the place where it stopped, and that place.
    fn remove_walk(nodes: &Vec<rt_slist_node>, h: usize, n: usize) -> (res: (usize, Ghost<int>))
        requires
            is_slist(nodes@, h as int),
            !(slist(nodes@, h as int).len() % 2 == 1 && even_find(slist(nodes@, h as int), n, 0) == -1),
        ensures
            ({
                let p = slist(nodes@, h as int);
                let q = res.1@;
                &&& -1 <= q < p.len()
                &&& res.0 == (if q == -1 { h } else { p[q] })
                &&& q + 1 < p.len() ==> p[q + 1] == n && q + 1 == even_find(p, n, 0)
                &&& q + 1 >= p.len() ==> even_find(p, n, 0) == -1
            }),
    {
        let ghost p = slist(nodes@, h as int);
        proof {
            lemma_even_find(p, n, 0);
        }
        let ghost f = even_find(p, n, 0);
        let mut node = h;
        let ghost mut q: int = -1;
        loop
            invariant
                slist_path(nodes@, h as int, p),
                p == slist(nodes@, h as int),
                f == even_find(p, n, 0),
                !(p.len() % 2 == 1 && f == -1),
                f == -1 ==> forall|j: int| 0 <= j < p.len() && j % 2 == 0 ==> p[j] != n,
                f != -1 ==> 0 <= f < p.len() && f % 2 == 0 && p[f] == n
                    && forall|j: int| 0 <= j < f && j % 2 == 0 ==> p[j] != n,
                -1 <= q < p.len(),
                (q + 1) % 2 == 0,
                f != -1 ==> q < f,
                node == (if q == -1 { h } else { p[q] }),
            ensures
                -1 <= q < p.len(),
                node == (if q == -1 { h } else { p[q] }),
                q + 1 < p.len() ==> p[q + 1] == n && q + 1 == f,
                q + 1 >= p.len() ==> f == -1,
            decreases p.len() - q,
        {
            proof {
                if q == -1 {
                    assert(nodes@[h as int].next == (if p.len() == 0 { None } else { Some(p[0]) }));
                } else {
                    assert(nodes@[p[q] as int].next == (if q + 1 < p.len() { Some(p[q + 1]) } else { None }));
                }
            }
            match nodes[node].next {
                None => {
                    proof {
                        assert(q + 1 >= p.len());
                    }
                    break;
                },
                Some(nx) => {
                    proof {
                        assert(q + 1 < p.len());
                        assert(nx == p[q + 1]);
                    }
                    if nx == n {
                        proof {
                            if f == -1 {
                                assert(p[q + 1] != n);
                            } else {
                                assert(!(q + 1 < f));
                            }
                        }
                        break;
                    }
                    proof {
                        assert(nodes@[p[q + 1] as int].next == (if q + 2 < p.len() { Some(p[q + 2]) } else { None }));
                        if q + 2 >= p.len() {
                            assert(p.len() == q + 2);
                            assert(p.len() % 2 == 1);
                            if f != -1 {
                                assert(f == q + 1);
                            }
                        }
                        if f != -1 {
                            assert(f != q + 1);
                            assert(f >= q + 2) by {
                                assert((f - (q + 1)) % 2 == 0);
                            }
                        }
                    }
                    node = nodes[nx].next.unwrap();
                    proof {
                        q = q + 2;
                    }
                },
            }
        }
        (node, Ghost(q))
    }

    /// Takes the node `n` off the list `h` heads and returns `h`. The walk
    /// looks for `n` two nodes at a time: it finds `n` at the first, third,
    /// fifth, ... place of the list only; elsewhere nothing changes. On a
    /// list of odd length that has `n` at none of those places the walk
    /// would step past the end, so that list is left out.
    pub fn remove(nodes: &mut Vec<rt_slist_node>, h: usize, n: usize) -> (r: usize)
        requires
            is_slist(old(nodes)@, h as int),
            !(slist(old(nodes)@, h as int).len() % 2 == 1 && even_find(slist(old(nodes)@, h as int), n, 0) == -1),
        ensures
            r == h,
            final(nodes)@.len() == old(nodes)@.len(),
            is_slist(final(nodes)@, h as int),
            ({
                let p = slist(old(nodes)@, h as int);
                let k = even_find(p, n, 0);
                &&& k == -1 ==> final(nodes)@ == old(nodes)@
                &&& k != -1 ==> slist(final(nodes)@, h as int) == p.remove(k)
                    && forall|i: int| 0 <= i < old(nodes)@.len() && i != (if k == 0 { h as int } else { p[k - 1] as int })
                        ==> #[trigger] final(nodes)@[i] == old(nodes)@[i]
            }),
    {
        let ghost p = slist(nodes@, h as int);
        let (node, Ghost(q)) = Self::remove_walk(nodes, h, n);
        proof {
            if q == -1 {
                assert(nodes@[h as int].next == (if p.len() == 0 { None } else { Some(p[0]) }));
            } else {
                assert(nodes@[p[q] as int].next == (if q + 1 < p.len() { Some(p[q + 1]) } else { None }));
            }
        }
        if nodes[node].next.is_some() {
            let nx = nodes[node].next.unwrap();
            proof {
                assert(nodes@[p[q + 1] as int].next == (if q + 2 < p.len() { Some(p[q + 2]) } else { None }));
            }
            let after = nodes[nx].next;
            let ghost before = nodes@;
            nodes.set(node, rt_slist_node { next: after });
            proof {
                lemma_slist_unlinked(before, nodes@, h as int, p, q + 1);
                lemma_slist_is(nodes@, h as int, p.remove(q + 1));
            }
        } else {
            proof {
                lemma_slist_is(nodes@, h as int, p);
            }
        }
        h
    }

    /// Puts the node `n`, which must not be on the list, right after `h`.
    pub fn insert(nodes: &mut Vec<rt_slist_node>, h: usize, n: usize)
        requires
            is_slist(old(nodes)@, h as int),
            n < old(nodes)@.len(),
            n != h,
            !slist(old(nodes)@, h as int).contains(n),
        ensures
            final(nodes)@.len() == old(nodes)@.len(),
            is_slist(final(nodes)@, h as int),
            slist(final(nodes)@, h as int) == seq![n] + slist(old(nodes)@, h as int),
            forall|i: int| 0 <= i < old(nodes)@.len() && i != h && i != n ==> #[trigger] final(nodes)@[i] == old(nodes)@[i],
    {
        let ghost p = slist(nodes@, h as int);
        let first = nodes[h].next;
        nodes.set(n, rt_slist_node { next: first });
        nodes.set(h, rt_slist_node { next: Some(n) });
        proof {
            let q = seq![n] + p;
            assert forall|i: int| 0 <= i < q.len() implies (#[trigger] q[i]) < nodes@.len() && q[i] != h by {
                if i > 0 {
                    assert(q[i] == p[i - 1]);
                }
            }
            assert forall|i: int| 0 <= i < q.len() implies nodes@[#[trigger] q[i] as int].next
                == (if i + 1 < q.len() { Some(q[i + 1]) } else { None }) by {
                if i > 0 {
                    assert(q[i] == p[i - 1]);
                    assert(p[i - 1] != n);
                }
            }
            assert forall|i: int, j: int| 0 <= i < j < q.len() implies q[i] != q[j] by {
                if i > 0 {
                    assert(q[i] == p[i - 1] && q[j] == p[j - 1]);
                } else {
                    assert(q[j] == p[j - 1]);
                    assert(p.contains(p[j - 1]));
                }
            }
            lemma_slist_is(nodes@, h as int, q);
        }
    }

    /// Puts the node `n`, which must not be on the list, at the end of the
    /// list `h` heads.
    pub fn append(nodes: &mut Vec<rt_slist_node>, h: usize, n: usize)
        requires
            is_slist(old(nodes)@, h as int),
            n < old(nodes)@.len(),
            n != h,
            !slist(old(nodes)@, h as int).contains(n),
        ensures
            final(nodes)@.len() == old(nodes)@.len(),
            is_slist(final(nodes)@, h as int),
            slist(final(nodes)@, h as int) == slist(old(nodes)@, h as int).push(n),
            forall|i: int| 0 <= i < old(nodes)@.len() && i != slist_tail(old(nodes)@, h as int) && i != n
                ==> #[trigger] final(nodes)@[i] == old(nodes)@[i],
    {
        let ghost p = slist(nodes@, h as int);
        let t = Self::tail(nodes, h);
        nodes.set(t, rt_slist_node { next: Some(n) });
        nodes.set(n, rt_slist_node { next: None });
        proof {
            let q = p.push(n);
            assert(t != n) by {
                if p.len() > 0 {
                    assert(p.contains(p[p.len() - 1]));
                }
            }
            assert forall|i: int| 0 <= i < q.len() implies (#[trigger] q[i]) < nodes@.len() && q[i] != h by {
                if i < p.len() {
                    assert(q[i] == p[i]);
                }
            }
            assert forall|i: int| 0 <= i < q.len() implies nodes@[#[trigger] q[i] as int].next
                == (if i + 1 < q.len() { Some(q[i + 1]) } else { None }) by {
                if i < p.len() {
                    assert(q[i] == p[i]);
                    assert(p.contains(p[i]));
                    if i + 1 < p.len() {
                        assert(p[i] != p[p.len() - 1]);
                    }
                }
            }
            assert forall|i: int, j: int| 0 <= i < j < q.len() implies q[i] != q[j] by {
                if j < p.len() {
                    assert(q[i] == p[i] && q[j] == p[j]);
                } else {
                    assert(q[i] == p[i]);
                    assert(p.contains(p[i]));
                }
            }
            if p.len() == 0 {
                assert(nodes@[h as int].next == Some(q[0]));
            }
            lemma_slist_is(nodes@, h as int, q);
        }
    }
}

} // verus!
