use vstd::prelude::*;

verus! {

/// The position after `p` in a ring of `len` places.
pub open spec fn ring_succ(p: int, len: int) -> int {
    if p + 1 >= len { 0 } else { p + 1 }
}

/// The position before `p` in a ring of `len` places.
pub open spec fn ring_pred(p: int, len: int) -> int {
    if p == 0 { len - 1 } else { p - 1 }
}

/// The ring `r` read from position `p` on, wrapping round.
pub open spec fn rotate(r: Seq<usize>, p: int) -> Seq<usize> {
    r.subrange(p, r.len() as int) + r.subrange(0, p)
}

/// Reading a rotated ring at place `k`.
pub proof fn lemma_rotate_index(r: Seq<usize>, p: int, k: int)
    requires
        0 <= p < r.len(),
        0 <= k < r.len(),
    ensures
        rotate(r, p).len() == r.len(),
        rotate(r, p)[k] == r[if p + k < r.len() { p + k } else { p + k - r.len() }],
{
}

/// A sequence of distinct indices below `n` has at most `n` elements.
pub proof fn lemma_distinct_bounded(s: Seq<usize>, n: nat)
    requires
        s.no_duplicates(),
        forall|k: int| 0 <= k < s.len() ==> (#[trigger] s[k]) < n,
    ensures
        s.len() <= n,
    decreases n,
{
    if n == 0 {
        if s.len() > 0 {
            assert(s[0] < 0);
        }
    } else if exists|k: int| 0 <= k < s.len() && s[k] == n - 1 {
        let k = choose|k: int| 0 <= k < s.len() && s[k] == n - 1;
        let t = s.remove(k);
        s.remove_ensures(k);
        assert forall|a: int| 0 <= a < t.len() implies (#[trigger] t[a]) < (n - 1) as nat by {
            if a < k {
                assert(s[a] != s[k]);
            } else {
                assert(s[a + 1] != s[k]);
            }
        }
        assert forall|a: int, b: int| 0 <= a < t.len() && 0 <= b < t.len() && a != b implies t[a] != t[b] by {
            let a2 = if a < k { a } else { a + 1 };
            let b2 = if b < k { b } else { b + 1 };
            assert(s[a2] != s[b2]);
        }
        lemma_distinct_bounded(t, (n - 1) as nat);
    } else {
        assert forall|a: int| 0 <= a < s.len() implies (#[trigger] s[a]) < (n - 1) as nat by {
            assert(s[a] != n - 1);
        }
        lemma_distinct_bounded(s, (n - 1) as nat);
    }
}

/// A node of an intrusive circular doubly linked list: the indices of the
/// next and previous nodes in the arena that holds it. A node that is
/// alone forms a ring of one, pointing at itself.
#[derive(Clone, Copy, Debug)]
pub struct LinkedListNode {
    next: usize,
    prev: usize,
}

/// A list head is a node like any other; the list is the ring it is in.
pub type ListHead = LinkedListNode;

/// A link to a node, by its index in the arena.
#[derive(Clone, Copy, Debug)]
pub struct Link(pub usize);

impl Link {
    /// The index of the node linked to.
    pub fn as_ptr(&self) -> (r: usize)
        ensures
            r == self.0,
    {
        self.0
    }
}

/// The memory that nodes live in. Each node is in exactly one ring; the
/// ghost state records, for every node, the ring it is in and its place
/// there, and the `next` and `prev` indices follow that ring.
pub struct ListArena {
    nodes: Vec<LinkedListNode>,
    rid: Ghost<Seq<int>>,
    pos: Ghost<Seq<int>>,
    rings: Ghost<Map<int, Seq<usize>>>,
    fresh: Ghost<int>,
}

impl ListArena {
    /// The number of nodes in the arena.
    pub closed spec fn len(self) -> nat {
        self.nodes@.len()
    }

    /// The ring node `i` is in, read from `i` on.
    pub closed spec fn ring_from(self, i: int) -> Seq<usize> {
        rotate(self.rings@[self.rid@[i]], self.pos@[i])
    }

    /// The members of the list that node `h` heads: the ring after `h`.
    pub open spec fn members(self, h: int) -> Seq<usize> {
        self.ring_from(h).drop_first()
    }

    /// Whether nodes `i` and `j` are in the same ring.
    pub closed spec fn same_ring(self, i: int, j: int) -> bool {
        self.rid@[i] == self.rid@[j]
    }

    /// The index of the node after `i`.
    pub closed spec fn next_of(self, i: int) -> usize {
        self.nodes@[i].next
    }

    /// The index of the node before `i`.
    pub closed spec fn prev_of(self, i: int) -> usize {
        self.nodes@[i].prev
    }

    closed spec fn node_ok(self, i: int) -> bool {
        let r = self.rid@[i];
        let p = self.pos@[i];
        let ring = self.rings@[r];
        &&& self.rings@.dom().contains(r)
        &&& 0 <= p < ring.len()
        &&& ring[p] == i
        &&& self.nodes@[i].next == ring[ring_succ(p, ring.len() as int)]
        &&& self.nodes@[i].prev == ring[ring_pred(p, ring.len() as int)]
    }

    closed spec fn ring_ok(self, r: int) -> bool {
        let ring = self.rings@[r];
        &&& r < self.fresh@
        &&& ring.len() > 0
        &&& forall|k: int|
            0 <= k < ring.len() ==> {
                &&& (#[trigger] ring[k]) < self.nodes@.len()
                &&& self.rid@[ring[k] as int] == r
                &&& self.pos@[ring[k] as int] == k
            }
    }

    /// The arena is consistent: every node sits where its ring says, and
    /// its links follow the ring.
    pub closed spec fn wf(self) -> bool {
        &&& self.rid@.len() == self.nodes@.len()
        &&& self.pos@.len() == self.nodes@.len()
        &&& forall|r: int| #[trigger] self.rings@.dom().contains(r) ==> self.ring_ok(r)
        &&& forall|i: int| 0 <= i < self.nodes@.len() ==> #[trigger] self.node_ok(i)
    }

    /// An empty arena.
    pub fn new() -> (a: Self)
        ensures
            a.wf(),
            a.len() == 0,
    {
        ListArena {
            nodes: Vec::new(),
            rid: Ghost(Seq::empty()),
            pos: Ghost(Seq::empty()),
            rings: Ghost(Map::empty()),
            fresh: Ghost(0),
        }
    }

    /// Being in the same ring is an equivalence: reflexive, symmetric and
    /// transitive.
    pub proof fn lemma_same_ring_equivalence(self, i: int, j: int, k: int)
        ensures
            self.same_ring(i, i),
            self.same_ring(i, j) == self.same_ring(j, i),
            self.same_ring(i, j) && self.same_ring(j, k) ==> self.same_ring(i, k),
    {
    }

    /// Every node met going round the ring of `i` is in the ring of `i`.
    proof fn lemma_ring_members_same_ring(self, i: int)
        requires
            self.wf(),
            0 <= i < self.len(),
        ensures
            forall|k: int| 0 <= k < self.ring_from(i).len() ==> self.same_ring(i, #[trigger] self.ring_from(i)[k] as int),
    {
        assert(self.node_ok(i));
        let r = self.rid@[i];
        let p = self.pos@[i];
        let ring = self.rings@[r];
        assert(self.ring_ok(r));
        let rf = self.ring_from(i);
        assert forall|k: int| 0 <= k < rf.len() implies self.same_ring(i, #[trigger] rf[k] as int) by {
            let ik = if k < ring.len() - p { p + k } else { p + k - ring.len() };
            assert(rf[k] == ring[ik]);
        }
    }

    /// Ring facts about a node of a consistent arena.
    pub proof fn lemma_ring_from(self, i: int)
        requires
            self.wf(),
            0 <= i < self.len(),
        ensures
            self.ring_from(i).len() >= 1,
            self.ring_from(i)[0] == i,
            self.ring_from(i).no_duplicates(),
            forall|k: int| 0 <= k < self.ring_from(i).len() ==> (#[trigger] self.ring_from(i)[k]) < self.len(),
            self.ring_from(i).len() <= self.len(),
            self.ring_from(i).len() > 1 ==> self.ring_from(i)[1] == self.next_of(i),
            self.ring_from(i).len() == 1 ==> self.next_of(i) == i,
            self.ring_from(i).last() == self.prev_of(i),
    {
        assert(self.node_ok(i));
        let r = self.rid@[i];
        let p = self.pos@[i];
        let ring = self.rings@[r];
        assert(self.ring_ok(r));
        let rf = self.ring_from(i);
        assert(rf.len() == ring.len());
        assert forall|k: int| 0 <= k < rf.len() implies rf[k] == ring[if k < ring.len() - p { p + k } else { p + k - ring.len() }] by {
        }
        assert forall|a: int, b: int| 0 <= a < b < rf.len() implies rf[a] != rf[b] by {
            let ia = if a < ring.len() - p { p + a } else { p + a - ring.len() };
            let ib = if b < ring.len() - p { p + b } else { p + b - ring.len() };
            assert(self.pos@[ring[ia] as int] == ia);
            assert(self.pos@[ring[ib] as int] == ib);
        }
        assert forall|k: int| 0 <= k < rf.len() implies (#[trigger] rf[k]) < self.len() by {
            let ik = if k < ring.len() - p { p + k } else { p + k - ring.len() };
            assert(ring[ik] < self.len());
        }
        if ring.len() == 1 {
            assert(self.pos@[ring[0] as int] == 0);
        }
        lemma_distinct_bounded(rf, self.len());
    }

    /// Links `me`, which must be alone, into the ring of `list` right
    /// after `list`.
    #[verifier::spinoff_prover]
    #[verifier::rlimit(40)]
    fn link_after(&mut self, me: usize, list: usize)
        requires
            old(self).wf(),
            me < old(self).len(),
            list < old(self).len(),
            me != list,
            old(self).ring_from(me as int).len() == 1,
        ensures
            final(self).wf(),
            final(self).len() == old(self).len(),
            final(self).ring_from(list as int) == old(self).ring_from(list as int).insert(1, me),
            forall|j: int, k: int| 0 <= j < old(self).len() && old(self).same_ring(j, list as int)
                && 0 <= k < old(self).ring_from(j).len() && old(self).ring_from(j)[k] == list
                ==> final(self).ring_from(j) == #[trigger] old(self).ring_from(j).insert(k + 1, me),
            final(self).same_ring(me as int, list as int),
            forall|j: int| 0 <= j < old(self).len() && j != me && !old(self).same_ring(j, list as int)
                ==> #[trigger] final(self).ring_from(j) == old(self).ring_from(j),
            forall|j: int, k: int| 0 <= j < old(self).len() && 0 <= k < old(self).len() && j != me && k != me ==>
                (#[trigger] final(self).same_ring(j, k) == old(self).same_ring(j, k)),
            forall|j: int| 0 <= j < old(self).len() && j != me ==>
                (#[trigger] final(self).same_ring(j, me as int) == old(self).same_ring(j, list as int)),
    {
        proof {
            self.lemma_ring_from(me as int);
            self.lemma_ring_from(list as int);
            assert(self.node_ok(me as int));
            assert(self.node_ok(list as int));
        }
        let ghost r = self.rid@[list as int];
        let ghost p = self.pos@[list as int];
        let ghost ring = self.rings@[r];
        let ghost len = ring.len() as int;
        let ghost rm = self.rid@[me as int];
        let ghost new_ring = ring.insert(p + 1, me);
        proof {
            assert(self.ring_ok(rm));
            assert(self.rings@[rm].len() == 1) by {
                lemma_rotate_index(self.rings@[rm], self.pos@[me as int], 0);
            }
            assert(self.pos@[me as int] == 0);
            if rm == r {
                assert(self.ring_ok(r));
                assert(ring[p] == list);
                assert(ring[0] == me);
            }
            assert(rm != r);
            ring.insert_ensures(p + 1, me);
        }
        let nxt = self.nodes[list].next;
        assert(nxt == ring[ring_succ(p, len)]);
        assert(nxt != me) by {
            assert(self.ring_ok(r));
        }
        let nn = self.nodes[nxt];
        self.nodes.set(nxt, LinkedListNode { next: nn.next, prev: me });
        let ln = self.nodes[list];
        self.nodes.set(list, LinkedListNode { next: me, prev: ln.prev });
        self.nodes.set(me, LinkedListNode { next: nxt, prev: list });
        proof {
            let old_rid = self.rid@;
            let old_pos = self.pos@;
            let old_rings = self.rings@;
            self.rid@ = old_rid.update(me as int, r);
            self.pos@ = Seq::new(old_pos.len(), |i: int|
                if i == me { p + 1 } else if old_rid[i] == r && old_pos[i] > p { old_pos[i] + 1 } else { old_pos[i] });
            self.rings@ = old_rings.remove(rm).insert(r, new_ring);
            assert forall|q: int| #[trigger] self.rings@.dom().contains(q) implies self.ring_ok(q) by {
                assert(old(self).ring_ok(q));
                if q == r {
                    assert forall|k: int| 0 <= k < new_ring.len() implies {
                        &&& (#[trigger] new_ring[k]) < self.nodes@.len()
                        &&& self.rid@[new_ring[k] as int] == q
                        &&& self.pos@[new_ring[k] as int] == k
                    } by {
                        if k < p + 1 {
                            assert(new_ring[k] == ring[k]);
                        } else if k > p + 1 {
                            assert(new_ring[k] == ring[k - 1]);
                        }
                    }
                } else {
                    let oring = old_rings[q];
                    assert forall|k: int| 0 <= k < oring.len() implies {
                        &&& (#[trigger] oring[k]) < self.nodes@.len()
                        &&& self.rid@[oring[k] as int] == q
                        &&& self.pos@[oring[k] as int] == k
                    } by {
                        assert(old(self).ring_ok(q));
                    }
                }
            }
            assert forall|i: int| 0 <= i < self.nodes@.len() implies #[trigger] self.node_ok(i) by {
                assert(old(self).node_ok(i));
                if i == me {
                } else if old_rid[i] == r {
                    let q = old_pos[i];
                    assert(ring[q] == i);
                    if i == list {
                    } else if i == nxt {
                        if p + 1 < len {
                            assert(q == p + 1);
                        } else {
                            assert(q == 0);
                        }
                    } else {
                        if q > p {
                            assert(new_ring[q + 1] == ring[q]);
                            if q + 1 < len {
                                assert(new_ring[q + 2] == ring[q + 1]);
                            }
                            assert(q != p + 1 || p + 1 >= len);
                            assert(new_ring[q] == ring[q - 1]);
                        } else {
                            assert(new_ring[q] == ring[q]);
                            if q > 0 {
                                assert(new_ring[q - 1] == ring[q - 1]);
                            } else {
                                assert(p + 1 < len);
                                assert(new_ring[len] == ring[len - 1]);
                            }
                            if q + 1 <= p {
                                assert(new_ring[q + 1] == ring[q + 1]);
                            }
                        }
                    }
                } else {
                    assert(old_rid[i] != rm) by {
                        assert(old(self).ring_ok(rm));
                        assert(old_rings[rm][0] == me);
                    }
                }
            }
            assert forall|j: int| 0 <= j < old(self).len() && j != me && !old(self).same_ring(j, list as int)
                implies #[trigger] self.ring_from(j) == old(self).ring_from(j) by {
                assert(old(self).node_ok(j));
                assert(old_rid[j] != rm) by {
                    assert(old(self).ring_ok(rm));
                    assert(old_rings[rm][0] == me);
                }
            }
            assert forall|j: int, k: int| 0 <= j < old(self).len() && old(self).same_ring(j, list as int)
                && 0 <= k < old(self).ring_from(j).len() && old(self).ring_from(j)[k] == list
                implies self.ring_from(j) == #[trigger] old(self).ring_from(j).insert(k + 1, me) by {
                assert(old(self).node_ok(j));
                let q = old_pos[j];
                let orf = old(self).ring_from(j);
                let rf = self.ring_from(j);
                let q2 = self.pos@[j];
                orf.insert_ensures(k + 1, me);
                lemma_rotate_index(ring, q, k);
                assert(old(self).ring_ok(r));
                assert(k == (if p >= q { p - q } else { p - q + len }));
                assert(rf.len() == len + 1);
                assert forall|m: int| 0 <= m < len + 1 implies rf[m] == orf.insert(k + 1, me)[m] by {
                    lemma_rotate_index(new_ring, q2, m);
                    if m <= k {
                        lemma_rotate_index(ring, q, m);
                    } else if m > k + 1 {
                        lemma_rotate_index(ring, q, m - 1);
                    }
                }
                assert(rf =~= orf.insert(k + 1, me));
            }
            assert(old(self).ring_from(list as int)[0] == list) by {
                old(self).lemma_ring_from(list as int);
            }
        }
    }

    /// Takes `me` out of its ring (of more than one node) and leaves it
    /// alone in a ring of its own.
    #[verifier::spinoff_prover]
    #[verifier::rlimit(40)]
    fn unlink(&mut self, me: usize)
        requires
            old(self).wf(),
            me < old(self).len(),
            old(self).ring_from(me as int).len() > 1,
        ensures
            final(self).wf(),
            final(self).len() == old(self).len(),
            final(self).ring_from(me as int) == seq![me],
            forall|j: int, k: int| 0 <= j < old(self).len() && j != me && old(self).same_ring(j, me as int)
                && 0 <= k < old(self).ring_from(j).len() && old(self).ring_from(j)[k] == me
                ==> final(self).ring_from(j) == #[trigger] old(self).ring_from(j).remove(k),
            forall|j: int| 0 <= j < old(self).len() && !old(self).same_ring(j, me as int)
                ==> #[trigger] final(self).ring_from(j) == old(self).ring_from(j),
            forall|j: int, k: int| 0 <= j < old(self).len() && 0 <= k < old(self).len() && j != me && k != me ==>
                (#[trigger] final(self).same_ring(j, k) == old(self).same_ring(j, k)),
            forall|j: int| 0 <= j < old(self).len() && j != me ==> !#[trigger] final(self).same_ring(j, me as int),
    {
        proof {
            self.lemma_ring_from(me as int);
            assert(self.node_ok(me as int));
        }
        let ghost r = self.rid@[me as int];
        let ghost p = self.pos@[me as int];
        let ghost ring = self.rings@[r];
        let ghost len = ring.len() as int;
        let ghost new_ring = ring.remove(p);
        let ghost f = self.fresh@;
        proof {
            assert(self.ring_ok(r));
            ring.remove_ensures(p);
            assert(!self.rings@.dom().contains(f));
        }
        let nxt = self.nodes[me].next;
        let prv = self.nodes[me].prev;
        assert(nxt != me && prv != me) by {
            assert(self.ring_ok(r));
            assert(ring[ring_succ(p, len)] != me);
            assert(ring[ring_pred(p, len)] != me);
        }
        let nn = self.nodes[nxt];
        self.nodes.set(nxt, LinkedListNode { next: nn.next, prev: prv });
        let pn = self.nodes[prv];
        self.nodes.set(prv, LinkedListNode { next: nxt, prev: pn.prev });
        self.nodes.set(me, LinkedListNode { next: me, prev: me });
        proof {
            let old_rid = self.rid@;
            let old_pos = self.pos@;
            let old_rings = self.rings@;
            self.rid@ = old_rid.update(me as int, f);
            self.pos@ = Seq::new(old_pos.len(), |i: int|
                if i == me { 0 } else if old_rid[i] == r && old_pos[i] > p { old_pos[i] - 1 } else { old_pos[i] });
            self.rings@ = old_rings.insert(r, new_ring).insert(f, seq![me]);
            self.fresh@ = f + 1;
            assert forall|q: int| #[trigger] self.rings@.dom().contains(q) implies self.ring_ok(q) by {
                if q == f {
                } else if q == r {
                    assert forall|k: int| 0 <= k < new_ring.len() implies {
                        &&& (#[trigger] new_ring[k]) < self.nodes@.len()
                        &&& self.rid@[new_ring[k] as int] == q
                        &&& self.pos@[new_ring[k] as int] == k
                    } by {
                        assert(old(self).ring_ok(r));
                        if k < p {
                            assert(new_ring[k] == ring[k]);
                        } else {
                            assert(new_ring[k] == ring[k + 1]);
                        }
                    }
                } else {
                    assert(old(self).ring_ok(q));
                    let oring = old_rings[q];
                    assert forall|k: int| 0 <= k < oring.len() implies {
                        &&& (#[trigger] oring[k]) < self.nodes@.len()
                        &&& self.rid@[oring[k] as int] == q
                        &&& self.pos@[oring[k] as int] == k
                    } by {
                        assert(old(self).ring_ok(q));
                        assert(oring[k] != me);
                    }
                }
            }
            assert forall|i: int| 0 <= i < self.nodes@.len() implies #[trigger] self.node_ok(i) by {
                assert(old(self).node_ok(i));
                if i == me {
                } else if old_rid[i] == r {
                    let q = old_pos[i];
                    assert(ring[q] == i);
                    assert(q != p);
                    if q > p {
                        assert(new_ring[q - 1] == ring[q]);
                        if q + 1 < len {
                            assert(new_ring[q] == ring[q + 1]);
                        }
                        if q - 1 > p {
                            assert(new_ring[q - 2] == ring[q - 1]);
                        }
                    } else {
                        assert(new_ring[q] == ring[q]);
                        if q + 1 < p {
                            assert(new_ring[q + 1] == ring[q + 1]);
                        }
                        if q > 0 {
                            assert(new_ring[q - 1] == ring[q - 1]);
                        } else if p < len - 1 {
                            assert(new_ring[len - 2] == ring[len - 1]);
                        }
                    }
                } else {
                }
            }
            assert forall|j: int| 0 <= j < old(self).len() && !old(self).same_ring(j, me as int)
                implies #[trigger] self.ring_from(j) == old(self).ring_from(j) by {
                assert(old(self).node_ok(j));
                assert(old_rid[j] != f) by {
                    assert(old(self).ring_ok(old_rid[j]));
                }
            }
            assert forall|j: int, k: int| 0 <= j < old(self).len() && j != me && old(self).same_ring(j, me as int)
                && 0 <= k < old(self).ring_from(j).len() && old(self).ring_from(j)[k] == me
                implies self.ring_from(j) == #[trigger] old(self).ring_from(j).remove(k) by {
                assert(old(self).node_ok(j));
                let q = old_pos[j];
                let orf = old(self).ring_from(j);
                let rf = self.ring_from(j);
                let q2 = self.pos@[j];
                orf.remove_ensures(k);
                lemma_rotate_index(ring, q, k);
                assert(old(self).ring_ok(r));
                assert(k == (if p >= q { p - q } else { p - q + len }));
                assert(rf.len() == len - 1);
                assert forall|m: int| 0 <= m < len - 1 implies rf[m] == orf.remove(k)[m] by {
                    lemma_rotate_index(new_ring, q2, m);
                    if m < k {
                        lemma_rotate_index(ring, q, m);
                    } else {
                        lemma_rotate_index(ring, q, m + 1);
                    }
                }
                assert(rf =~= orf.remove(k));
            }
            assert forall|j: int| 0 <= j < old(self).len() && j != me implies !#[trigger] self.same_ring(j, me as int) by {
                assert(old(self).node_ok(j));
                assert(old(self).ring_ok(old_rid[j]));
            }
            assert(self.ring_from(me as int) =~= seq![me]);
        }
    }

    /// Following `next` from the `m`-th node of the ring read from `i`
    /// gives the node after it, wrapping back to `i`.
    pub proof fn lemma_ring_next(self, i: int, m: int)
        requires
            self.wf(),
            0 <= i < self.len(),
            0 <= m < self.ring_from(i).len(),
        ensures
            self.ring_from(i)[m] < self.len(),
            self.next_of(self.ring_from(i)[m] as int) == (if m + 1 < self.ring_from(i).len() {
                self.ring_from(i)[m + 1]
            } else {
                self.ring_from(i)[0]
            }),
    {
        assert(self.node_ok(i));
        let r = self.rid@[i];
        let p = self.pos@[i];
        let ring = self.rings@[r];
        assert(self.ring_ok(r));
        lemma_rotate_index(ring, p, m);
        let idx = if p + m < ring.len() { p + m } else { p + m - ring.len() };
        let e = ring[idx];
        assert(self.pos@[e as int] == idx);
        assert(self.node_ok(e as int));
        if m + 1 < ring.len() {
            lemma_rotate_index(ring, p, m + 1);
        } else {
            lemma_rotate_index(ring, p, 0);
        }
    }

    /// Adds a node that forms a ring of its own, and returns its index.
    pub fn new_node(&mut self) -> (i: usize)
        requires
            old(self).wf(),
            old(self).len() < usize::MAX,
        ensures
            final(self).wf(),
            i == old(self).len(),
            final(self).len() == old(self).len() + 1,
            final(self).ring_from(i as int) == seq![i],
            forall|j: int| 0 <= j < old(self).len() ==> #[trigger] final(self).ring_from(j) == old(self).ring_from(j),
            forall|j: int, k: int| 0 <= j < old(self).len() && 0 <= k < old(self).len() ==>
                (final(self).same_ring(j, k) == old(self).same_ring(j, k)),
            forall|j: int| 0 <= j < old(self).len() ==> !#[trigger] final(self).same_ring(j, i as int),
    {
        let i = self.nodes.len();
        self.nodes.push(LinkedListNode { next: i, prev: i });
        let ghost f = self.fresh@;
        proof {
            assert(!self.rings@.dom().contains(f));
            self.rid@ = self.rid@.push(f);
            self.pos@ = self.pos@.push(0);
            self.rings@ = self.rings@.insert(f, seq![i]);
            self.fresh@ = f + 1;
        }
        assert forall|r: int| #[trigger] self.rings@.dom().contains(r) implies self.ring_ok(r) by {
            if r != f {
                assert(old(self).ring_ok(r));
                let ring = self.rings@[r];
                assert forall|k: int| 0 <= k < ring.len() implies {
                    &&& (#[trigger] ring[k]) < self.nodes@.len()
                    &&& self.rid@[ring[k] as int] == r
                    &&& self.pos@[ring[k] as int] == k
                } by {
                    assert(ring[k] < old(self).nodes@.len());
                }
            }
        }
        assert forall|j: int| 0 <= j < self.nodes@.len() implies #[trigger] self.node_ok(j) by {
            if j < i {
                assert(old(self).node_ok(j));
            }
        }
        assert forall|j: int| 0 <= j < old(self).len() implies #[trigger] self.ring_from(j) == old(self).ring_from(j) by {
            assert(old(self).node_ok(j));
        }
        assert forall|j: int| 0 <= j < old(self).len() implies !#[trigger] self.same_ring(j, i as int) by {
            assert(old(self).node_ok(j));
            assert(old(self).ring_ok(old(self).rid@[j]));
        }
        assert(self.ring_from(i as int) =~= seq![i]);
        i
    }
}

impl ListHead {
    /// Creates a node in `arena`; it starts alone, pointing at itself.
    pub fn new(arena: &mut ListArena) -> (i: usize)
        requires
            old(arena).wf(),
            old(arena).len() < usize::MAX,
        ensures
            final(arena).wf(),
            i == old(arena).len(),
            final(arena).len() == old(arena).len() + 1,
            final(arena).ring_from(i as int) == seq![i],
            forall|j: int| 0 <= j < old(arena).len() ==> #[trigger] final(arena).ring_from(j) == old(arena).ring_from(j),
            forall|j: int, k: int| 0 <= j < old(arena).len() && 0 <= k < old(arena).len() ==>
                (final(arena).same_ring(j, k) == old(arena).same_ring(j, k)),
            forall|j: int| 0 <= j < old(arena).len() ==> !#[trigger] final(arena).same_ring(j, i as int),
    {
        arena.new_node()
    }

    /// Whether node `h` is alone in its ring (the list it heads is empty).
    pub fn is_empty(arena: &ListArena, h: usize) -> (b: bool)
        requires
            arena.wf(),
            h < arena.len(),
        ensures
            b <==> arena.members(h as int).len() == 0,
    {
        proof {
            arena.lemma_ring_from(h as int);
        }
        arena.nodes[h].next == h
    }

    /// Inserts `me`, which must be alone, right after `list`.
    pub fn insert_after(arena: &mut ListArena, me: usize, list: usize)
        requires
            old(arena).wf(),
            me < old(arena).len(),
            list < old(arena).len(),
            me != list,
            old(arena).members(me as int).len() == 0,
        ensures
            final(arena).wf(),
            final(arena).len() == old(arena).len(),
            final(arena).members(list as int) == seq![me] + old(arena).members(list as int),
            forall|j: int| 0 <= j < old(arena).len() && j != me && !old(arena).same_ring(j, list as int)
                ==> #[trigger] final(arena).ring_from(j) == old(arena).ring_from(j),
            final(arena).same_ring(me as int, list as int),
            forall|j: int, k: int| 0 <= j < old(arena).len() && 0 <= k < old(arena).len() && j != me && k != me ==>
                (#[trigger] final(arena).same_ring(j, k) == old(arena).same_ring(j, k)),
    {
        proof {
            old(arena).lemma_ring_from(me as int);
            old(arena).lemma_ring_from(list as int);
        }
        arena.link_after(me, list);
        proof {
            let o = old(arena).ring_from(list as int);
            assert(o.insert(1, me).drop_first() =~= seq![me] + o.drop_first());
        }
    }

    /// Inserts `me`, which must be alone, right before `list`.
    pub fn insert_before(arena: &mut ListArena, me: usize, list: usize)
        requires
            old(arena).wf(),
            me < old(arena).len(),
            list < old(arena).len(),
            me != list,
            old(arena).members(me as int).len() == 0,
        ensures
            final(arena).wf(),
            final(arena).len() == old(arena).len(),
            final(arena).members(list as int) == old(arena).members(list as int).push(me),
            forall|j: int| 0 <= j < old(arena).len() && j != me && !old(arena).same_ring(j, list as int)
                ==> #[trigger] final(arena).ring_from(j) == old(arena).ring_from(j),
            final(arena).same_ring(me as int, list as int),
            forall|j: int, k: int| 0 <= j < old(arena).len() && 0 <= k < old(arena).len() && j != me && k != me ==>
                (#[trigger] final(arena).same_ring(j, k) == old(arena).same_ring(j, k)),
    {
        proof {
            old(arena).lemma_ring_from(me as int);
            old(arena).lemma_ring_from(list as int);
            assert(old(arena).node_ok(list as int));
        }
        let pv = arena.nodes[list].prev;
        proof {
            let o = old(arena).ring_from(list as int);
            assert(o[o.len() - 1] == pv);
            assert(pv != me) by {
                assert(o.contains(pv));
                old(arena).lemma_ring_from(pv as int);
                assert(old(arena).node_ok(pv as int));
                assert(old(arena).node_ok(me as int));
                assert(old(arena).ring_ok(old(arena).rid@[me as int]));
            }
            assert(old(arena).same_ring(list as int, pv as int)) by {
                assert(old(arena).ring_ok(old(arena).rid@[list as int]));
            }
        }
        arena.link_after(me, pv);
        proof {
            let o = old(arena).ring_from(list as int);
            let k = o.len() - 1;
            assert(o[k] == pv);
            assert(arena.ring_from(list as int) == o.insert(k + 1, me));
            assert(o.insert(k + 1, me).drop_first() =~= o.drop_first().push(me));
            assert(arena.same_ring(list as int, pv as int));
            assert(arena.same_ring(me as int, list as int));
        }
    }

    /// Appends `node`, which must be alone, at the back of the list `head`.
    pub fn push_back(arena: &mut ListArena, head: usize, node: usize)
        requires
            old(arena).wf(),
            node < old(arena).len(),
            head < old(arena).len(),
            node != head,
            old(arena).members(node as int).len() == 0,
        ensures
            final(arena).wf(),
            final(arena).len() == old(arena).len(),
            final(arena).members(head as int) == old(arena).members(head as int).push(node),
            forall|j: int| 0 <= j < old(arena).len() && j != node && !old(arena).same_ring(j, head as int)
                ==> #[trigger] final(arena).ring_from(j) == old(arena).ring_from(j),
            final(arena).same_ring(node as int, head as int),
            forall|j: int, k: int| 0 <= j < old(arena).len() && 0 <= k < old(arena).len() && j != node && k != node ==>
                (#[trigger] final(arena).same_ring(j, k) == old(arena).same_ring(j, k)),
    {
        Self::insert_before(arena, node, head)
    }

    /// Puts `node`, which must be alone, at the front of the list `head`.
    pub fn push_front(arena: &mut ListArena, head: usize, node: usize)
        requires
            old(arena).wf(),
            node < old(arena).len(),
            head < old(arena).len(),
            node != head,
            old(arena).members(node as int).len() == 0,
        ensures
            final(arena).wf(),
            final(arena).len() == old(arena).len(),
            final(arena).members(head as int) == seq![node] + old(arena).members(head as int),
            forall|j: int| 0 <= j < old(arena).len() && j != node && !old(arena).same_ring(j, head as int)
                ==> #[trigger] final(arena).ring_from(j) == old(arena).ring_from(j),
            final(arena).same_ring(node as int, head as int),
            forall|j: int, k: int| 0 <= j < old(arena).len() && 0 <= k < old(arena).len() && j != node && k != node ==>
                (#[trigger] final(arena).same_ring(j, k) == old(arena).same_ring(j, k)),
    {
        Self::insert_after(arena, node, head)
    }

    /// Takes `me` out of its list, leaving it alone; nothing happens when it
    /// is alone already.
    pub fn remove_from_list(arena: &mut ListArena, me: usize)
        requires
            old(arena).wf(),
            me < old(arena).len(),
        ensures
            final(arena).wf(),
            final(arena).len() == old(arena).len(),
            final(arena).ring_from(me as int) == seq![me],
            forall|j: int, k: int| 0 <= j < old(arena).len() && j != me && old(arena).same_ring(j, me as int)
                && 0 <= k < old(arena).ring_from(j).len() && old(arena).ring_from(j)[k] == me
                ==> final(arena).ring_from(j) == #[trigger] old(arena).ring_from(j).remove(k),
            forall|j: int| 0 <= j < old(arena).len() && !old(arena).same_ring(j, me as int)
                ==> #[trigger] final(arena).ring_from(j) == old(arena).ring_from(j),
            forall|h: int, k: int| 0 <= h < old(arena).len() && h != me && 0 <= k < old(arena).members(h).len()
                && #[trigger] old(arena).members(h)[k] == me
                ==> final(arena).members(h) == old(arena).members(h).remove(k),
            forall|j: int, k: int| 0 <= j < old(arena).len() && 0 <= k < old(arena).len() && j != me && k != me ==>
                (#[trigger] final(arena).same_ring(j, k) == old(arena).same_ring(j, k)),
            forall|j: int| 0 <= j < old(arena).len() && j != me ==> !#[trigger] final(arena).same_ring(j, me as int),
    {
        proof {
            arena.lemma_ring_from(me as int);
        }
        if arena.nodes[me].next != me {
            arena.unlink(me);
            proof {
                assert forall|h: int, k: int| 0 <= h < old(arena).len() && h != me && 0 <= k < old(arena).members(h).len()
                    && #[trigger] old(arena).members(h)[k] == me
                    implies arena.members(h) == old(arena).members(h).remove(k) by {
                    let o = old(arena).ring_from(h);
                    old(arena).lemma_ring_from(h);
                    old(arena).lemma_ring_members_same_ring(h);
                    assert(old(arena).members(h)[k] == o[k + 1]);
                    assert(old(arena).same_ring(h, o[k + 1] as int));
                    assert(o[k + 1] == me);
                    assert(arena.ring_from(h) == o.remove(k + 1));
                    assert(o.remove(k + 1).drop_first() =~= o.drop_first().remove(k));
                }
            }
        } else {
            assert(arena.ring_from(me as int) =~= seq![me]);
            assert forall|j: int| 0 <= j < old(arena).len() && j != me implies !old(arena).same_ring(j, me as int) by {
                assert(arena.node_ok(j));
                assert(arena.node_ok(me as int));
                let r = arena.rid@[me as int];
                assert(arena.ring_ok(r));
                lemma_rotate_index(arena.rings@[r], arena.pos@[me as int], 0);
            }
            assert forall|h: int, k: int| 0 <= h < old(arena).len() && h != me && 0 <= k < old(arena).members(h).len()
                && #[trigger] old(arena).members(h)[k] == me
                implies arena.members(h) == old(arena).members(h).remove(k) by {
                let o = old(arena).ring_from(h);
                old(arena).lemma_ring_from(h);
                old(arena).lemma_ring_members_same_ring(h);
                assert(old(arena).members(h)[k] == o[k + 1]);
                assert(old(arena).same_ring(h, o[k + 1] as int));
            }
        }
    }

    /// The node after `h`, or `None` when `h` is alone.
    pub fn next(arena: &ListArena, h: usize) -> (r: Option<usize>)
        requires
            arena.wf(),
            h < arena.len(),
        ensures
            r == (if arena.members(h as int).len() == 0 {
                None::<usize>
            } else {
                Some(arena.members(h as int)[0])
            }),
    {
        proof {
            arena.lemma_ring_from(h as int);
        }
        if arena.nodes[h].next == h {
            None
        } else {
            Some(arena.nodes[h].next)
        }
    }

    /// The node before `h`, or `None` when `h` is alone.
    pub fn prev(arena: &ListArena, h: usize) -> (r: Option<usize>)
        requires
            arena.wf(),
            h < arena.len(),
        ensures
            r == (if arena.members(h as int).len() == 0 {
                None::<usize>
            } else {
                Some(arena.members(h as int).last())
            }),
    {
        proof {
            arena.lemma_ring_from(h as int);
            let o = arena.ring_from(h as int);
            if o.len() > 1 {
                assert(o.drop_first().last() == o.last());
                assert(o.last() != h) by {
                    assert(o[o.len() - 1] != o[0]);
                }
            } else {
                assert(o.last() == o[0]);
            }
        }
        if arena.nodes[h].prev == h {
            None
        } else {
            Some(arena.nodes[h].prev)
        }
    }

    /// Removes and returns the first node of the list `head`.
    pub fn pop_front(arena: &mut ListArena, head: usize) -> (r: Option<usize>)
        requires
            old(arena).wf(),
            head < old(arena).len(),
        ensures
            final(arena).wf(),
            final(arena).len() == old(arena).len(),
            old(arena).members(head as int).len() == 0 ==> r is None && *final(arena) == *old(arena),
            old(arena).members(head as int).len() > 0 ==> {
                &&& r == Some(old(arena).members(head as int)[0])
                &&& final(arena).members(head as int) == old(arena).members(head as int).drop_first()
                &&& final(arena).ring_from(r.unwrap() as int) == seq![r.unwrap()]
            },
    {
        let next = Self::next(arena, head);
        match next {
            None => None,
            Some(n) => {
                proof {
                    arena.lemma_ring_from(head as int);
                    let o = arena.ring_from(head as int);
                    assert(o[1] == n);
                    assert(arena.same_ring(head as int, n as int)) by {
                        arena.lemma_ring_next(head as int, 0);
                        assert(arena.node_ok(head as int));
                        assert(arena.ring_ok(arena.rid@[head as int]));
                    }
                    assert(n < arena.len());
                }
                Self::remove_from_list(arena, n);
                proof {
                    let o = old(arena).ring_from(head as int);
                    assert(arena.ring_from(head as int) == o.remove(1));
                    assert(o.remove(1).drop_first() =~= o.drop_first().drop_first());
                }
                Some(n)
            },
        }
    }

    /// Removes and returns the last node of the list `head`.
    pub fn pop_back(arena: &mut ListArena, head: usize) -> (r: Option<usize>)
        requires
            old(arena).wf(),
            head < old(arena).len(),
        ensures
            final(arena).wf(),
            final(arena).len() == old(arena).len(),
            old(arena).members(head as int).len() == 0 ==> r is None && *final(arena) == *old(arena),
            old(arena).members(head as int).len() > 0 ==> {
                &&& r == Some(old(arena).members(head as int).last())
                &&& final(arena).members(head as int) == old(arena).members(head as int).drop_last()
                &&& final(arena).ring_from(r.unwrap() as int) == seq![r.unwrap()]
            },
    {
        let prev = Self::prev(arena, head);
        match prev {
            None => None,
            Some(n) => {
                proof {
                    arena.lemma_ring_from(head as int);
                    let o = arena.ring_from(head as int);
                    assert(o[o.len() - 1] == n);
                    assert(arena.same_ring(head as int, n as int)) by {
                        assert(arena.node_ok(head as int));
                        assert(arena.ring_ok(arena.rid@[head as int]));
                    }
                }
                Self::remove_from_list(arena, n);
                proof {
                    let o = old(arena).ring_from(head as int);
                    let k = o.len() - 1;
                    assert(arena.ring_from(head as int) == o.remove(k));
                    assert(o.remove(k).drop_first() =~= o.drop_first().drop_last());
                }
                Some(n)
            },
        }
    }

    /// Counts the members of the list `h` by walking round its ring.
    pub fn size(arena: &ListArena, h: usize) -> (n: usize)
        requires
            arena.wf(),
            h < arena.len(),
        ensures
            n == arena.members(h as int).len(),
    {
        proof {
            arena.lemma_ring_from(h as int);
            arena.lemma_ring_next(h as int, 0);
        }
        let ghost ring = arena.ring_from(h as int);
        let total = arena.nodes.len();
        let mut size: usize = 0;
        let mut cur = arena.nodes[h].next;
        while cur != h
            invariant
                arena.wf(),
                h < arena.len(),
                ring == arena.ring_from(h as int),
                ring.len() >= 1,
                ring[0] == h,
                ring.no_duplicates(),
                ring.len() <= total,
                0 <= size < ring.len(),
                cur == (if size + 1 < ring.len() { ring[size + 1] } else { h }),
            decreases ring.len() - size,
        {
            proof {
                assert(size + 1 < ring.len());
                arena.lemma_ring_next(h as int, size + 1);
            }
            cur = arena.nodes[cur].next;
            size = size + 1;
        }
        proof {
            if size + 1 < ring.len() {
                assert(ring[size + 1] != ring[0]);
            }
        }
        size
    }

    /// The index of the node, which stands in for its address.
    pub fn as_ptr(h: usize) -> (r: usize)
        ensures
            r == h,
    {
        h
    }
}

} // verus!

verus! {

/// A value together with the node that puts it on a list.
pub struct Node<T> {
    head: usize,
    data: T,
}

impl<T> Node<T> {
    /// The place of the node in its arena.
    pub closed spec fn link(&self) -> usize {
        self.head
    }

    /// The value held.
    pub closed spec fn value(&self) -> T {
        self.data
    }

    /// Holds `data` with a new node of `arena`, alone in its ring.
    pub fn new(arena: &mut ListArena, data: T) -> (n: Self)
        requires
            old(arena).wf(),
            old(arena).len() < usize::MAX,
        ensures
            final(arena).wf(),
            n.value() == data,
            n.link() == old(arena).len(),
            final(arena).len() == old(arena).len() + 1,
            final(arena).ring_from(n.link() as int) == seq![n.link()],
            forall|j: int| 0 <= j < old(arena).len() ==> #[trigger] final(arena).ring_from(j) == old(arena).ring_from(j),
    {
        let head = ListHead::new(arena);
        Node { head, data }
    }

    /// The place of the node in its arena.
    pub fn as_ptr(&self) -> (r: usize)
        ensures
            r == self.link(),
    {
        self.head
    }

    /// The value held.
    pub fn deref(&self) -> (r: &T)
        ensures
            *r == self.value(),
    {
        &self.data
    }

    /// The value held, for writing.
    pub fn deref_mut(&mut self) -> (r: &mut T)
        ensures
            *r == old(self).value(),
            final(self).value() == *final(r),
            final(self).link() == old(self).link(),
    {
        &mut self.data
    }

    /// Gives up the node and returns the value held.
    pub fn take_data(self) -> (r: T)
        ensures
            r == self.value(),
    {
        self.data
    }
}

/// An owning list of values, with insertion and removal at both ends.
pub struct LinkedList<T> {
    items: Vec<T>,
}

impl<T> LinkedList<T> {
    /// The values in the list, front first.
    pub closed spec fn view(&self) -> Seq<T> {
        self.items@
    }

    /// Creates an empty list.
    pub fn new() -> (l: Self)
        ensures
            l@ == Seq::<T>::empty(),
    {
        LinkedList { items: Vec::new() }
    }

    /// The number of values.
    pub fn len(&self) -> (n: usize)
        ensures
            n == self@.len(),
    {
        self.items.len()
    }

    /// Whether the list has no value.
    pub fn is_empty(&self) -> (b: bool)
        ensures
            b <==> self@.len() == 0,
    {
        self.items.len() == 0
    }

    /// Adds a value at the back.
    pub fn push_back(&mut self, data: T)
        ensures
            final(self)@ == old(self)@.push(data),
    {
        self.items.push(data);
    }

    /// Adds a value at the front.
    pub fn push_front(&mut self, data: T)
        ensures
            final(self)@ == seq![data] + old(self)@,
    {
        self.items.insert(0, data);
        assert(old(self)@.insert(0, data) =~= seq![data] + old(self)@);
    }

    /// Removes and returns the value at the back, if any.
    pub fn pop_back(&mut self) -> (r: Option<T>)
        ensures
            old(self)@.len() == 0 ==> r is None && final(self)@ == old(self)@,
            old(self)@.len() > 0 ==> r == Some(old(self)@.last()) && final(self)@ == old(self)@.drop_last(),
    {
        self.items.pop()
    }

    /// Removes and returns the value at the front, if any.
    pub fn pop_front(&mut self) -> (r: Option<T>)
        ensures
            old(self)@.len() == 0 ==> r is None && final(self)@ == old(self)@,
            old(self)@.len() > 0 ==> r == Some(old(self)@[0]) && final(self)@ == old(self)@.drop_first(),
    {
        if self.items.len() == 0 {
            None
        } else {
            let v = self.items.remove(0);
            assert(old(self)@.remove(0) =~= old(self)@.drop_first());
            Some(v)
        }
    }

    /// Removes every value, front first.
    pub fn clear(&mut self)
        ensures
            final(self)@ == Seq::<T>::empty(),
    {
        while self.pop_front().is_some()
            decreases self@.len(),
        {
        }
    }

    /// An iterator over shared references to the values, front first.
    pub fn iter(&self) -> (it: Iter<'_, T>)
        ensures
            it.seq() == self@,
            it.position() == 0,
    {
        Iter { items: &self.items, pos: 0 }
    }

    /// An iterator over mutable references to the values, front first.
    pub fn iter_mut(&mut self) -> (it: IterMut<'_, T>)
        ensures
            it.seq() == old(self)@,
            it.position() == 0,
            *final(self) == *final(it.list),
    {
        IterMut { list: self, pos: 0 }
    }
}

/// Iterates over shared references to the values of a `LinkedList`.
pub struct Iter<'a, T> {
    items: &'a Vec<T>,
    pos: usize,
}

impl<'a, T> Iter<'a, T> {
    /// The values iterated over.
    pub closed spec fn seq(&self) -> Seq<T> {
        self.items@
    }

    /// How many values were handed out already.
    pub closed spec fn position(&self) -> int {
        self.pos as int
    }

    /// The next value, or `None` once all were handed out.
    pub fn next(&mut self) -> (r: Option<&'a T>)
        requires
            old(self).position() <= old(self).seq().len(),
        ensures
            final(self).seq() == old(self).seq(),
            final(self).position() <= final(self).seq().len(),
            old(self).position() < old(self).seq().len() ==> r == Some(&old(self).seq()[old(self).position()])
                && final(self).position() == old(self).position() + 1,
            old(self).position() == old(self).seq().len() ==> r is None && final(self).position() == old(self).position(),
    {
        if self.pos < self.items.len() {
            let r = &self.items[self.pos];
            self.pos = self.pos + 1;
            Some(r)
        } else {
            None
        }
    }

    /// How many values are left: the lower and the upper bound are equal.
    pub fn size_hint(&self) -> (r: (usize, Option<usize>))
        requires
            self.position() <= self.seq().len(),
        ensures
            r.0 == self.seq().len() - self.position(),
            r.1 == Some(r.0),
    {
        let n = self.items.len() - self.pos;
        (n, Some(n))
    }
}

/// Iterates over mutable references to the values of a `LinkedList`.
pub struct IterMut<'a, T> {
    pub list: &'a mut LinkedList<T>,
    pub pos: usize,
}

impl<'a, T> IterMut<'a, T> {
    /// The values as they stand now.
    pub open spec fn seq(&self) -> Seq<T> {
        self.list@
    }

    /// How many values were handed out already.
    pub open spec fn position(&self) -> int {
        self.pos as int
    }

    /// The next value, or `None` once all were handed out; a write through
    /// the reference changes that value in the list.
    pub fn next(&mut self) -> (r: Option<&mut T>)
        requires
            old(self).position() <= old(self).seq().len(),
        ensures
            final(self).position() <= final(self).seq().len(),
            *final(final(self).list) == *final(old(self).list),
            old(self).position() < old(self).seq().len() ==> {
                &&& r is Some
                &&& *r.unwrap() == old(self).seq()[old(self).position()]
                &&& final(self).seq() == old(self).seq().update(old(self).position(), *final(r.unwrap()))
                &&& final(self).position() == old(self).position() + 1
            },
            old(self).position() == old(self).seq().len() ==> r is None && final(self).seq() == old(self).seq()
                && final(self).position() == old(self).position(),
    {
        if self.pos < self.list.items.len() {
            let i = self.pos;
            self.pos = i + 1;
            Some(&mut self.list.items[i])
        } else {
            None
        }
    }
}

} // verus!
