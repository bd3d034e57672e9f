use vstd::prelude::*;
use crate::intrusive::Adapter;
use crate::list::typed_atomic_ilist::{
    AtomicListHead, AtomicListIterator, AtomicListReverseIterator, alinks_in, inserted_before,
    inserted_after, detached,
};
use crate::list::doubly_linked_list::lemma_distinct_bounded;
use core::marker::PhantomData;

verus! {

/// A shared value and the number of handles that share it.
pub struct TinyArcInner<T> {
    pub data: T,
    pub rc: usize,
}

impl<T> TinyArcInner<T> {
    /// A value shared by one handle.
    pub fn const_new(data: T) -> (r: Self)
        ensures
            r.data == data,
            r.rc == 1,
    {
        TinyArcInner { data, rc: 1 }
    }

    /// A value shared by one handle.
    pub fn new(data: T) -> (r: Self)
        ensures
            r.data == data,
            r.rc == 1,
    {
        Self::const_new(data)
    }
}

/// What a place of the pool holds: memory given back, one end of a list,
/// or a shared value.
pub enum Slot<T> {
    Free,
    Sentinel,
    Live(TinyArcInner<T>),
}

/// The memory the shared values live in: each place holds a slot and the
/// list link that adapter `A` finds in it. Ends of lists are places too.
pub struct TinyArcPool<T, A: Adapter> {
    pub slots: Vec<Slot<T>>,
    pub links: Vec<AtomicListHead<T, A>>,
}

/// One handle more on a shared value.
pub open spec fn retained<T>(s: Slot<T>) -> Slot<T> {
    match s {
        Slot::Live(inner) => Slot::Live(TinyArcInner { rc: (inner.rc + 1) as usize, ..inner }),
        _ => s,
    }
}

/// One handle less on a shared value: the memory is given back with the
/// last one.
pub open spec fn released<T>(s: Slot<T>) -> Slot<T> {
    match s {
        Slot::Live(inner) => if inner.rc <= 1 {
            Slot::Free
        } else {
            Slot::Live(TinyArcInner { rc: (inner.rc - 1) as usize, ..inner })
        },
        _ => s,
    }
}

impl<T, A: Adapter> TinyArcPool<T, A> {
    /// Slots and links go together, links stay inside the pool and are not
    /// held, and a shared value has at least one handle.
    pub open spec fn wf(&self) -> bool {
        &&& self.slots@.len() == self.links@.len()
        &&& alinks_in(self.links@)
        &&& forall|i: int| 0 <= i < self.links@.len() ==> !(#[trigger] self.links@[i]).locked
        &&& forall|i: int| 0 <= i < self.slots@.len() ==>
                ((#[trigger] self.slots@[i]) matches Slot::Live(inner) ==> inner.rc >= 1)
    }

    /// Whether place `i` holds a shared value.
    pub open spec fn live(&self, i: int) -> bool {
        0 <= i < self.slots@.len() && self.slots@[i] is Live
    }

    /// The number of handles on the value at place `i`.
    pub open spec fn rc(&self, i: int) -> int {
        match self.slots@[i] {
            Slot::Live(inner) => inner.rc as int,
            _ => 0,
        }
    }

    /// Whether the link at place `i` is on a list.
    pub open spec fn attached(&self, i: int) -> bool {
        !(self.links@[i].prev is None && self.links@[i].next is None)
    }

    /// An empty pool.
    pub fn new() -> (p: Self)
        ensures
            p.wf(),
            p.slots@.len() == 0,
    {
        TinyArcPool { slots: Vec::new(), links: Vec::new() }
    }

    /// Adds a place holding `s`, with its link on no list.
    fn push_slot(&mut self, s: Slot<T>) -> (i: usize)
        requires
            old(self).wf(),
            old(self).slots@.len() < usize::MAX,
            s matches Slot::Live(inner) ==> inner.rc >= 1,
        ensures
            final(self).wf(),
            i == old(self).slots@.len(),
            final(self).slots@ == old(self).slots@.push(s),
            final(self).links@.len() == old(self).links@.len() + 1,
            final(self).links@.subrange(0, i as int) == old(self).links@,
            final(self).links@[i as int].prev is None,
            final(self).links@[i as int].next is None,
    {
        let i = self.slots.len();
        self.slots.push(s);
        self.links.push(AtomicListHead::new());
        proof {
            assert(final(self).links@.subrange(0, i as int) =~= old(self).links@);
        }
        i
    }

    /// Gives back one handle on the value at place `i`.
    fn release(&mut self, i: usize)
        requires
            old(self).wf(),
            old(self).live(i as int),
            old(self).rc(i as int) == 1 ==> !old(self).attached(i as int),
        ensures
            final(self).wf(),
            final(self).slots@ == old(self).slots@.update(i as int, released(old(self).slots@[i as int])),
            final(self).links@ == old(self).links@,
    {
        let mut s = Slot::Free;
        std::mem::swap(&mut s, &mut self.slots[i]);
        match s {
            Slot::Live(inner) => {
                if inner.rc > 1 {
                    self.slots.set(i, Slot::Live(TinyArcInner { data: inner.data, rc: inner.rc - 1 }));
                }
            },
            _ => {},
        }
    }
}

/// A handle on a value in the pool: the place that holds it.
pub struct TinyArc<T> {
    inner: usize,
    _t: PhantomData<T>,
}

impl<T> TinyArc<T> {
    /// The place the handle names.
    pub closed spec fn place(&self) -> int {
        self.inner as int
    }

    /// Puts `data` in a new place of the pool, with this one handle on it.
    pub fn new<A: Adapter>(pool: &mut TinyArcPool<T, A>, data: T) -> (r: Self)
        requires
            old(pool).wf(),
            old(pool).slots@.len() < usize::MAX,
        ensures
            final(pool).wf(),
            r.place() == old(pool).slots@.len(),
            final(pool).slots@ == old(pool).slots@.push(Slot::Live(TinyArcInner { data, rc: 1 })),
            final(pool).links@.subrange(0, r.place()) == old(pool).links@,
            forall|i: int| 0 <= i < old(pool).links@.len() ==> #[trigger] final(pool).links@[i] == old(pool).links@[i],
            !final(pool).attached(r.place()),
    {
        let i = pool.push_slot(Slot::Live(TinyArcInner::new(data)));
        assert forall|k: int| 0 <= k < old(pool).links@.len() implies #[trigger] pool.links@[k] == old(pool).links@[k] by {
            assert(pool.links@.subrange(0, i as int)[k] == pool.links@[k]);
        }
        TinyArc { inner: i, _t: PhantomData }
    }

    /// The place of the value, which stands for its address.
    pub fn get_handle(this: &Self) -> (r: usize)
        ensures
            r == this.place(),
    {
        this.inner
    }

    /// Another handle on the value at the place of `inner`.
    pub fn from_inner<A: Adapter>(pool: &mut TinyArcPool<T, A>, inner: usize) -> (r: Self)
        requires
            old(pool).wf(),
            old(pool).live(inner as int),
            old(pool).rc(inner as int) < usize::MAX,
        ensures
            final(pool).wf(),
            r.place() == inner,
            final(pool).links@ == old(pool).links@,
            final(pool).slots@ == old(pool).slots@.update(inner as int, retained(old(pool).slots@[inner as int])),
            final(pool).rc(inner as int) == old(pool).rc(inner as int) + 1,
    {
        let r = TinyArc { inner, _t: PhantomData };
        Self::increment_strong_count(&r, pool);
        r
    }

    /// The number of handles on the value.
    pub fn strong_count<A: Adapter>(this: &Self, pool: &TinyArcPool<T, A>) -> (r: usize)
        requires
            pool.live(this.place()),
        ensures
            r == pool.rc(this.place()),
    {
        match &pool.slots[this.inner] {
            Slot::Live(inner) => inner.rc,
            _ => 0,
        }
    }

    /// Counts one handle more on the value. The value must have a handle.
    pub fn increment_strong_count<A: Adapter>(this: &Self, pool: &mut TinyArcPool<T, A>)
        requires
            old(pool).wf(),
            old(pool).live(this.place()),
            old(pool).rc(this.place()) < usize::MAX,
        ensures
            final(pool).wf(),
            final(pool).links@ == old(pool).links@,
            final(pool).slots@ == old(pool).slots@.update(this.place(), retained(old(pool).slots@[this.place()])),
            final(pool).rc(this.place()) == old(pool).rc(this.place()) + 1,
    {
        let i = this.inner;
        let mut s = Slot::Free;
        std::mem::swap(&mut s, &mut pool.slots[i]);
        match s {
            Slot::Live(inner) => {
                pool.slots.set(i, Slot::Live(TinyArcInner { data: inner.data, rc: inner.rc + 1 }));
            },
            _ => {},
        }
    }

    /// Counts one handle less on the value; it must keep one.
    pub fn decrement_strong_count<A: Adapter>(this: &Self, pool: &mut TinyArcPool<T, A>)
        requires
            old(pool).wf(),
            old(pool).live(this.place()),
            old(pool).rc(this.place()) >= 2,
        ensures
            final(pool).wf(),
            final(pool).links@ == old(pool).links@,
            final(pool).slots@ == old(pool).slots@.update(this.place(),
                released(old(pool).slots@[this.place()])),
            final(pool).live(this.place()),
            final(pool).rc(this.place()) == old(pool).rc(this.place()) - 1,
    {
        pool.release(this.inner);
    }

    /// Whether both handles name the same value.
    pub fn is(&self, other: &Self) -> (b: bool)
        ensures
            b <==> self.place() == other.place(),
    {
        self.inner == other.inner
    }

    /// Another handle on the same value, counted.
    pub fn clone<A: Adapter>(&self, pool: &mut TinyArcPool<T, A>) -> (r: Self)
        requires
            old(pool).wf(),
            old(pool).live(self.place()),
            old(pool).rc(self.place()) < usize::MAX,
        ensures
            final(pool).wf(),
            r.place() == self.place(),
            final(pool).links@ == old(pool).links@,
            final(pool).slots@ == old(pool).slots@.update(self.place(), retained(old(pool).slots@[self.place()])),
            final(pool).rc(self.place()) == old(pool).rc(self.place()) + 1,
    {
        Self::increment_strong_count(self, pool);
        TinyArc { inner: self.inner, _t: PhantomData }
    }

    /// Gives the handle back; the memory goes with the last one. A value
    /// on a list keeps the list's handle, so the last handle is never one
    /// on a value that is on a list.
    pub fn drop<A: Adapter>(self, pool: &mut TinyArcPool<T, A>)
        requires
            old(pool).wf(),
            old(pool).live(self.place()),
            old(pool).rc(self.place()) == 1 ==> !old(pool).attached(self.place()),
        ensures
            final(pool).wf(),
            final(pool).links@ == old(pool).links@,
            final(pool).slots@ == old(pool).slots@.update(self.place(),
                released(old(pool).slots@[self.place()])),
    {
        pool.release(self.inner);
    }

    /// The value the handle shares.
    pub fn deref<'a, A: Adapter>(&self, pool: &'a TinyArcPool<T, A>) -> (r: &'a T)
        requires
            pool.live(self.place()),
        ensures
            pool.slots@[self.place()] matches Slot::Live(inner) && *r == inner.data,
    {
        match &pool.slots[self.inner] {
            Slot::Live(inner) => &inner.data,
            _ => vstd::pervasive::unreached(),
        }
    }

    /// The place of the value, the handle given up without changing the
    /// count.
    pub fn into_raw(this: Self) -> (r: usize)
        ensures
            r == this.place(),
    {
        this.inner
    }

    /// The handle again from a place that `into_raw` gave, without changing
    /// the count.
    pub fn from_raw(ptr: usize) -> (r: Self)
        ensures
            r.place() == ptr,
    {
        TinyArc { inner: ptr, _t: PhantomData }
    }
}

/// `ms` are, in order, the nodes of a list that runs from the node `head`
/// to the node `tail`.
pub open spec fn chain<T, A: Adapter>(links: Seq<AtomicListHead<T, A>>, head: usize, tail: usize, ms: Seq<usize>) -> bool {
    let n = ms.len() as int;
    &&& head < links.len() && tail < links.len() && head != tail
    &&& forall|i: int| 0 <= i < n ==> (#[trigger] ms[i]) < links.len() && ms[i] != head && ms[i] != tail
    &&& forall|i: int, j: int| 0 <= i < j < n ==> ms[i] != ms[j]
    &&& links[head as int].next == Some(if n == 0 { tail } else { ms[0] })
    &&& links[tail as int].prev == Some(if n == 0 { head } else { ms[n - 1] })
    &&& forall|i: int| 0 <= i < n ==> links[#[trigger] ms[i] as int].prev == Some(if i == 0 { head } else { ms[i - 1] })
    &&& forall|i: int| 0 <= i < n ==> links[#[trigger] ms[i] as int].next == Some(if i == n - 1 { tail } else { ms[i + 1] })
}

/// One more value of the list given back keeps what `clear` has done so
/// far.
proof fn lemma_clear_step<T>(ms: Seq<usize>, s0: Seq<Slot<T>>, sb: Seq<Slot<T>>, s1: Seq<Slot<T>>, k: int)
    requires
        0 <= k < ms.len(),
        forall|i: int, j: int| 0 <= i < j < ms.len() ==> ms[i] != ms[j],
        forall|i: int| 0 <= i < ms.len() ==> ms[i] < s0.len(),
        sb.len() == s0.len(),
        forall|j: int| 0 <= j < k ==> sb[#[trigger] ms[j] as int] == released(s0[ms[j] as int]),
        forall|j: int| k <= j < ms.len() ==> sb[#[trigger] ms[j] as int] == s0[ms[j] as int],
        forall|i: int| 0 <= i < s0.len() && !ms.contains(i as usize) ==> sb[i] == s0[i],
        s1 == sb.update(ms[k] as int, released(sb[ms[k] as int])),
    ensures
        s1.len() == s0.len(),
        forall|j: int| 0 <= j < k + 1 ==> s1[#[trigger] ms[j] as int] == released(s0[ms[j] as int]),
        forall|j: int| k + 1 <= j < ms.len() ==> s1[#[trigger] ms[j] as int] == s0[ms[j] as int],
        forall|i: int| 0 <= i < s0.len() && !ms.contains(i as usize) ==> s1[i] == s0[i],
{
    assert(sb[ms[k] as int] == s0[ms[k] as int]);
    assert forall|j: int| 0 <= j < k + 1 implies s1[#[trigger] ms[j] as int] == released(s0[ms[j] as int]) by {
        if j < k {
            assert(ms[j] != ms[k]);
        }
    }
    assert forall|j: int| k + 1 <= j < ms.len() implies s1[#[trigger] ms[j] as int] == s0[ms[j] as int] by {
        assert(ms[j] != ms[k]);
    }
    assert forall|i: int| 0 <= i < s0.len() && !ms.contains(i as usize) implies s1[i] == s0[i] by {
        if i == ms[k] as int {
            assert(ms.contains(ms[k]));
        }
    }
}

/// A node on no list, put before the back end, joins the list at its back.
proof fn lemma_chain_push<T, A: Adapter>(links: Seq<AtomicListHead<T, A>>, head: usize, tail: usize, ms: Seq<usize>, me: usize)
    requires
        chain(links, head, tail, ms),
        me < links.len(),
        me != head,
        me != tail,
        links[me as int].prev is None,
    ensures
        chain(inserted_before(links, tail, me), head, tail, ms.push(me)),
{
    let n = ms.len() as int;
    let l2 = inserted_before(links, tail, me);
    let ms2 = ms.push(me);
    assert forall|i: int| 0 <= i < n implies ms[i] != me by {
        assert(links[ms[i] as int].prev is Some);
    }
    assert forall|i: int| 0 <= i < n + 1 implies l2[#[trigger] ms2[i] as int].prev
        == Some(if i == 0 { head } else { ms2[i - 1] }) by {
        if i < n {
            assert(ms2[i] == ms[i]);
            if i > 0 {
                assert(ms2[i - 1] == ms[i - 1]);
            }
        }
    }
    assert forall|i: int| 0 <= i < n + 1 implies l2[#[trigger] ms2[i] as int].next
        == Some(if i == n { tail } else { ms2[i + 1] }) by {
        if i < n {
            assert(ms2[i] == ms[i]);
            assert(ms2[i + 1] == if i + 1 == n { me } else { ms[i + 1] });
        }
    }
    assert forall|i: int, j: int| 0 <= i < j < n + 1 implies ms2[i] != ms2[j] by {
        if j < n {
            assert(ms2[i] == ms[i] && ms2[j] == ms[j]);
        }
    }
}

/// Taking the front value off its list leaves the rest of the list.
proof fn lemma_chain_pop<T, A: Adapter>(links: Seq<AtomicListHead<T, A>>, head: usize, tail: usize, ms: Seq<usize>)
    requires
        chain(links, head, tail, ms),
        ms.len() > 0,
    ensures
        chain(detached(links, ms[0]), head, tail, ms.drop_first()),
        detached(links, ms[0])[ms[0] as int].prev is None,
        detached(links, ms[0])[ms[0] as int].next is None,
{
    let n = ms.len() as int;
    let m = ms[0];
    let l2 = detached(links, m);
    let ms2 = ms.drop_first();
    assert(links[ms[0] as int].prev == Some(head));
    assert(links[ms[0] as int].next == Some(if n == 1 { tail } else { ms[1] }));
    assert forall|i: int| 0 <= i < n - 1 implies l2[#[trigger] ms2[i] as int].prev
        == Some(if i == 0 { head } else { ms2[i - 1] }) by {
        assert(ms2[i] == ms[i + 1]);
        assert(ms[i + 1] != ms[0]);
        assert(links[ms[i + 1] as int].prev == Some(ms[i]));
    }
    assert forall|i: int| 0 <= i < n - 1 implies l2[#[trigger] ms2[i] as int].next
        == Some(if i == n - 2 { tail } else { ms2[i + 1] }) by {
        assert(ms2[i] == ms[i + 1]);
        assert(ms[i + 1] != ms[0]);
        assert(links[ms[i + 1] as int].next == Some(if i + 1 == n - 1 { tail } else { ms[i + 2] }));
    }
    assert forall|i: int, j: int| 0 <= i < j < n - 1 implies ms2[i] != ms2[j] by {
        assert(ms2[i] == ms[i + 1] && ms2[j] == ms[j + 1]);
    }
    assert forall|i: int| 0 <= i < n - 1 implies (#[trigger] ms2[i]) < links.len() && ms2[i] != head
        && ms2[i] != tail by {
        assert(ms2[i] == ms[i + 1]);
    }
    if n > 1 {
        assert(ms2[n - 2] == ms[n - 1]);
    }
}

/// Taking the front value off its list leaves the link of every node that
/// is neither on the list nor one of its ends as it was.
proof fn lemma_detach_front_keeps_other<T, A: Adapter>(links: Seq<AtomicListHead<T, A>>, head: usize, tail: usize,
    ms: Seq<usize>, x: usize)
    requires
        chain(links, head, tail, ms),
        ms.len() > 0,
        x < links.len(),
        x != head,
        x != tail,
        !ms.contains(x),
    ensures
        detached(links, ms[0])[x as int] == links[x as int],
{
    assert(ms[0] != x);
    if ms.len() > 1 {
        assert(ms[1] != x);
    }
}

/// A list of shared values, each held by the list with a handle of its
/// own, between two end nodes of the pool.
pub struct TinyArcList<T, A: Adapter> {
    head: usize,
    tail: usize,
    members: Ghost<Seq<usize>>,
    _t: PhantomData<T>,
    _a: PhantomData<A>,
}

impl<T, A: Adapter> View for TinyArcList<T, A> {
    type V = Seq<usize>;

    /// The places of the values on the list, front first.
    closed spec fn view(&self) -> Seq<usize> {
        self.members@
    }
}

impl<T, A: Adapter> TinyArcList<T, A> {
    /// The place of the back end node.
    pub closed spec fn tail_place(&self) -> usize {
        self.tail
    }

    /// Both end nodes are ends, not yet joined, and nothing is on the list.
    pub closed spec fn unlinked(&self, pool: TinyArcPool<T, A>) -> bool {
        &&& pool.wf()
        &&& self.head < pool.slots@.len() && self.tail < pool.slots@.len() && self.head != self.tail
        &&& pool.slots@[self.head as int] is Sentinel && pool.slots@[self.tail as int] is Sentinel
        &&& !pool.attached(self.head as int) && !pool.attached(self.tail as int)
        &&& self.members@.len() == 0
    }

    /// The list runs from its front end node through its values, each a
    /// shared value, to its back end node.
    pub closed spec fn wf(&self, pool: TinyArcPool<T, A>) -> bool {
        &&& pool.wf()
        &&& chain(pool.links@, self.head, self.tail, self.members@)
        &&& pool.slots@[self.head as int] is Sentinel && pool.slots@[self.tail as int] is Sentinel
        &&& forall|i: int| 0 <= i < self.members@.len() ==> pool.live(#[trigger] self.members@[i] as int)
    }

    /// The list holds a handle on each of its values: while a value is on
    /// the list its memory is not given back and it counts at least one
    /// handle, and no value is on the list twice.
    pub proof fn lemma_values_kept(&self, pool: TinyArcPool<T, A>)
        requires
            self.wf(pool),
        ensures
            forall|i: int| 0 <= i < self@.len() ==> pool.live(#[trigger] self@[i] as int)
                && pool.rc(self@[i] as int) >= 1,
            self@.no_duplicates(),
    {
        assert forall|i: int| 0 <= i < self@.len() implies pool.live(#[trigger] self@[i] as int)
            && pool.rc(self@[i] as int) >= 1 by {
            assert(pool.live(self.members@[i] as int));
            assert(pool.slots@[self.members@[i] as int] is Live);
        }
        assert forall|i: int, j: int| 0 <= i < self@.len() && 0 <= j < self@.len() && i != j
            implies self@[i] != self@[j] by {
            if i < j {
                assert(self.members@[i] != self.members@[j]);
            } else {
                assert(self.members@[j] != self.members@[i]);
            }
        }
    }

    /// A list set up in a pool, joined or not, says that the pool is
    /// consistent.
    pub proof fn lemma_pool_wf(&self, pool: TinyArcPool<T, A>)
        requires
            self.wf(pool) || self.unlinked(pool),
        ensures
            pool.wf(),
    {
    }

    /// A list stays as it is when the pool grows: places added after it
    /// (new shared values among them) change neither its ends nor its
    /// values.
    pub proof fn lemma_pool_grown(&self, p0: TinyArcPool<T, A>, p1: TinyArcPool<T, A>)
        requires
            self.wf(p0) || self.unlinked(p0),
            p1.wf(),
            p0.slots@.len() <= p1.slots@.len(),
            p0.links@.len() <= p1.links@.len(),
            forall|i: int| 0 <= i < p0.slots@.len() ==> #[trigger] p1.slots@[i] == p0.slots@[i],
            forall|i: int| 0 <= i < p0.links@.len() ==> #[trigger] p1.links@[i] == p0.links@[i],
        ensures
            self.wf(p0) ==> self.wf(p1),
            self.unlinked(p0) ==> self.unlinked(p1),
    {
        if self.wf(p0) {
            let ms = self.members@;
            assert forall|i: int| 0 <= i < ms.len() implies p1.live(#[trigger] ms[i] as int) by {
                assert(p0.live(ms[i] as int));
            }
            assert forall|i: int| 0 <= i < ms.len() implies
                p1.links@[#[trigger] ms[i] as int] == p0.links@[ms[i] as int] by {
            }
            assert(chain(p1.links@, self.head, self.tail, ms));
        }
    }

    /// A list whose two end nodes are new places of the pool, not yet
    /// joined: `init` joins them.
    pub fn new(pool: &mut TinyArcPool<T, A>) -> (l: Self)
        requires
            old(pool).wf(),
            old(pool).slots@.len() + 2 <= usize::MAX,
        ensures
            l.unlinked(*final(pool)),
            final(pool).slots@ == old(pool).slots@.push(Slot::Sentinel).push(Slot::Sentinel),
            final(pool).links@.subrange(0, old(pool).links@.len() as int) == old(pool).links@,
    {
        Self::const_new(pool)
    }

    /// A list whose two end nodes are new places of the pool, not yet
    /// joined.
    pub fn const_new(pool: &mut TinyArcPool<T, A>) -> (l: Self)
        requires
            old(pool).wf(),
            old(pool).slots@.len() + 2 <= usize::MAX,
        ensures
            l.unlinked(*final(pool)),
            final(pool).slots@ == old(pool).slots@.push(Slot::Sentinel).push(Slot::Sentinel),
            final(pool).links@.subrange(0, old(pool).links@.len() as int) == old(pool).links@,
    {
        let ghost l0 = pool.links@;
        let head = pool.push_slot(Slot::Sentinel);
        let ghost l1 = pool.links@;
        let tail = pool.push_slot(Slot::Sentinel);
        proof {
            assert(pool.links@.subrange(0, l0.len() as int) =~= l1.subrange(0, l0.len() as int));
        }
        TinyArcList { head, tail, members: Ghost(Seq::empty()), _t: PhantomData, _a: PhantomData }
    }

    /// Joins the two end nodes, making the list empty. Fails, changing
    /// nothing, when they are joined already.
    pub fn init(&mut self, pool: &mut TinyArcPool<T, A>) -> (b: bool)
        requires
            old(self).unlinked(*old(pool)) || old(self).wf(*old(pool)),
        ensures
            old(self).unlinked(*old(pool)) ==> b && final(self).wf(*final(pool)) && final(self)@.len() == 0,
            old(self).wf(*old(pool)) ==> !b && final(pool).links@ == old(pool).links@ && final(self)@ == old(self)@,
            final(pool).slots@ == old(pool).slots@,
    {
        let b = AtomicListHead::insert_after(&mut pool.links, self.head, self.tail);
        proof {
            if b {
                assert(chain(pool.links@, self.head, self.tail, self.members@));
            }
        }
        b
    }

    /// Whether no value is on the list.
    pub fn is_empty(&self, pool: &TinyArcPool<T, A>) -> (b: bool)
        requires
            self.wf(*pool),
        ensures
            b <==> self@.len() == 0,
    {
        pool.links[self.head].next == Some(self.tail)
    }

    /// Puts the value of `me` right after the node `other_node`, the list
    /// taking over the handle. Fails when the value is on a list already;
    /// the handle is then given back.
    pub fn insert_after(other_node: usize, me: TinyArc<T>, pool: &mut TinyArcPool<T, A>) -> (b: bool)
        requires
            old(pool).wf(),
            other_node < old(pool).slots@.len(),
            old(pool).links@[other_node as int].next matches Some(v) ==> old(pool).links@[v as int].prev
                == Some(other_node),
            old(pool).live(me.place()),
            old(pool).attached(me.place()) ==> old(pool).rc(me.place()) >= 2,
        ensures
            final(pool).wf(),
            b <==> !old(pool).attached(me.place()),
            b ==> final(pool).slots@ == old(pool).slots@
                && final(pool).links@ == inserted_after(old(pool).links@, other_node, me.place() as usize),
            !b ==> final(pool).links@ == old(pool).links@ && final(pool).slots@
                == old(pool).slots@.update(me.place(), released(old(pool).slots@[me.place()])),
    {
        if !AtomicListHead::insert_after(&mut pool.links, other_node, me.inner) {
            me.drop(pool);
            return false;
        }
        true
    }

    /// Puts the value of `me` right before the node `other_node`, the list
    /// taking over the handle. Fails when the value is on a list already;
    /// the handle is then given back.
    pub fn insert_before(other_node: usize, me: TinyArc<T>, pool: &mut TinyArcPool<T, A>) -> (b: bool)
        requires
            old(pool).wf(),
            other_node < old(pool).slots@.len(),
            old(pool).live(me.place()),
            old(pool).attached(me.place()) ==> old(pool).rc(me.place()) >= 2,
        ensures
            final(pool).wf(),
            b <==> !old(pool).attached(me.place()),
            b ==> final(pool).slots@ == old(pool).slots@
                && final(pool).links@ == inserted_before(old(pool).links@, other_node, me.place() as usize),
            !b ==> final(pool).links@ == old(pool).links@ && final(pool).slots@
                == old(pool).slots@.update(me.place(), released(old(pool).slots@[me.place()])),
    {
        if !AtomicListHead::insert_before(&mut pool.links, other_node, me.inner) {
            me.drop(pool);
            return false;
        }
        true
    }

    /// Takes the value of `me` off its list, with the list's handle. Fails,
    /// changing nothing, when it is on no list.
    pub fn detach(me: &TinyArc<T>, pool: &mut TinyArcPool<T, A>) -> (b: bool)
        requires
            old(pool).wf(),
            old(pool).live(me.place()),
            old(pool).attached(me.place()) ==> old(pool).rc(me.place()) >= 2,
        ensures
            final(pool).wf(),
            b <==> old(pool).attached(me.place()),
            b ==> final(pool).links@ == detached(old(pool).links@, me.place() as usize)
                && final(pool).slots@ == old(pool).slots@.update(me.place(),
                    released(old(pool).slots@[me.place()])),
            !b ==> final(pool).links@ == old(pool).links@ && final(pool).slots@ == old(pool).slots@,
    {
        if !AtomicListHead::detach(&mut pool.links, me.inner) {
            return false;
        }
        TinyArc::decrement_strong_count(me, pool);
        true
    }

    /// Puts the value of `me` at the back of the list, the list taking over
    /// the handle. Fails when the value is on a list already; the handle is
    /// then given back.
    pub fn push_back(&mut self, pool: &mut TinyArcPool<T, A>, me: TinyArc<T>) -> (b: bool)
        requires
            old(self).wf(*old(pool)),
            old(pool).live(me.place()),
            old(pool).attached(me.place()) ==> old(pool).rc(me.place()) >= 2,
        ensures
            final(self).wf(*final(pool)),
            b <==> !old(pool).attached(me.place()),
            b ==> final(self)@ == old(self)@.push(me.place() as usize)
                && final(pool).slots@ == old(pool).slots@,
            !b ==> final(self)@ == old(self)@ && final(pool).links@ == old(pool).links@
                && final(pool).slots@ == old(pool).slots@.update(me.place(),
                    released(old(pool).slots@[me.place()])),
    {
        let ghost l0 = pool.links@;
        let ghost m = me.inner;
        proof {
            if !pool.attached(m as int) {
                lemma_chain_push(l0, self.head, self.tail, self.members@, m);
            }
        }
        let b = Self::insert_before(self.tail, me, pool);
        if b {
            proof {
                self.members@ = self.members@.push(m);
            }
        } else {
            proof {
                assert forall|i: int| 0 <= i < self.members@.len() implies
                    pool.live(#[trigger] self.members@[i] as int) by {
                    assert(old(pool).live(self.members@[i] as int));
                    if self.members@[i] == m {
                        assert(old(pool).attached(m as int));
                    }
                }
            }
        }
        b
    }

    /// Takes the front value off the list, with the list's handle; none
    /// when the list is empty.
    pub fn pop_front(&mut self, pool: &mut TinyArcPool<T, A>) -> (r: Option<TinyArc<T>>)
        requires
            old(self).wf(*old(pool)),
        ensures
            final(self).wf(*final(pool)),
            final(pool).slots@ == old(pool).slots@,
            r is None <==> old(self)@.len() == 0,
            r is None ==> final(self)@ == old(self)@ && final(pool).links@ == old(pool).links@,
            r matches Some(a) ==> a.place() == old(self)@[0] && final(self)@ == old(self)@.drop_first()
                && final(pool).live(a.place()) && !final(pool).attached(a.place())
                && final(pool).links@ == detached(old(pool).links@, old(self)@[0]),
    {
        if self.is_empty(pool) {
            return None;
        }
        let next = pool.links[self.head].next.unwrap();
        proof {
            lemma_chain_pop(pool.links@, self.head, self.tail, self.members@);
        }
        let ok = AtomicListHead::detach(&mut pool.links, next);
        proof {
            assert(ok);
            assert forall|i: int| 0 <= i < self.members@.len() - 1 implies
                pool.live(#[trigger] self.members@.drop_first()[i] as int) by {
                assert(self.members@.drop_first()[i] == self.members@[i + 1]);
            }
            self.members@ = self.members@.drop_first();
        }
        Some(TinyArc { inner: next, _t: PhantomData })
    }

    /// A new handle on the front value; none when the list is empty.
    pub fn front(&self, pool: &mut TinyArcPool<T, A>) -> (r: Option<TinyArc<T>>)
        requires
            self.wf(*old(pool)),
            self@.len() > 0 ==> old(pool).rc(self@[0] as int) < usize::MAX,
        ensures
            self.wf(*final(pool)),
            final(pool).links@ == old(pool).links@,
            r is None <==> self@.len() == 0,
            r is None ==> final(pool).slots@ == old(pool).slots@,
            r matches Some(a) ==> a.place() == self@[0] && final(pool).slots@
                == old(pool).slots@.update(a.place(), retained(old(pool).slots@[a.place()])),
    {
        if self.is_empty(pool) {
            return None;
        }
        let next = pool.links[self.head].next.unwrap();
        let a = TinyArc::from_inner(pool, next);
        proof {
            self.lemma_retain_keeps(*old(pool), *pool, next as int);
        }
        Some(a)
    }

    /// A new handle on the back value; none when the list is empty.
    pub fn back(&self, pool: &mut TinyArcPool<T, A>) -> (r: Option<TinyArc<T>>)
        requires
            self.wf(*old(pool)),
            self@.len() > 0 ==> old(pool).rc(self@.last() as int) < usize::MAX,
        ensures
            self.wf(*final(pool)),
            final(pool).links@ == old(pool).links@,
            r is None <==> self@.len() == 0,
            r is None ==> final(pool).slots@ == old(pool).slots@,
            r matches Some(a) ==> a.place() == self@.last() && final(pool).slots@
                == old(pool).slots@.update(a.place(), retained(old(pool).slots@[a.place()])),
    {
        if self.is_empty(pool) {
            return None;
        }
        let prev = pool.links[self.tail].prev.unwrap();
        let a = TinyArc::from_inner(pool, prev);
        proof {
            self.lemma_retain_keeps(*old(pool), *pool, prev as int);
        }
        Some(a)
    }

    /// One handle more on a value keeps the list as it is.
    pub proof fn lemma_retain_keeps(&self, p0: TinyArcPool<T, A>, p1: TinyArcPool<T, A>, i: int)
        requires
            self.wf(p0),
            p1.wf(),
            p0.live(i),
            p1.links@ == p0.links@,
            p1.slots@ == p0.slots@.update(i, retained(p0.slots@[i])),
        ensures
            self.wf(p1),
    {
        assert forall|k: int| 0 <= k < self.members@.len() implies p1.live(#[trigger] self.members@[k] as int) by {
            assert(p0.live(self.members@[k] as int));
        }
    }

    /// Giving back a handle on a value that is not on the list keeps the
    /// list as it is.
    proof fn lemma_release_other_keeps(&self, p0: TinyArcPool<T, A>, p1: TinyArcPool<T, A>, m: int)
        requires
            self.wf(p0),
            p1.wf(),
            !self@.contains(m as usize),
            0 <= m < p0.slots@.len(),
            p1.links@ == p0.links@,
            p1.slots@ == p0.slots@.update(m, released(p0.slots@[m])),
        ensures
            self.wf(p1),
    {
        assert forall|k: int| 0 <= k < self.members@.len() implies p1.live(#[trigger] self.members@[k] as int) by {
            assert(p0.live(self.members@[k] as int));
            assert(self.members@.contains(self.members@[k]));
        }
        assert(p1.slots@[self.head as int] == p0.slots@[self.head as int]);
        assert(p1.slots@[self.tail as int] == p0.slots@[self.tail as int]);
    }

    /// Takes every value off the list, giving back the list's handle on
    /// each, and says how many there were.
    #[verifier::spinoff_prover]
    #[verifier::rlimit(50)]
    pub fn clear(&mut self, pool: &mut TinyArcPool<T, A>) -> (c: usize)
        requires
            old(self).wf(*old(pool)),
        ensures
            final(self).wf(*final(pool)),
            final(self)@.len() == 0,
            c == old(self)@.len(),
            final(pool).slots@.len() == old(pool).slots@.len(),
            forall|j: int| 0 <= j < old(self)@.len() ==> final(pool).slots@[#[trigger] old(self)@[j] as int]
                == released(old(pool).slots@[old(self)@[j] as int]),
            forall|i: int| 0 <= i < old(pool).slots@.len() && !old(self)@.contains(i as usize)
                ==> final(pool).slots@[i] == old(pool).slots@[i],
            forall|j: int| 0 <= j < old(self)@.len() ==> !final(pool).attached(#[trigger] old(self)@[j] as int),
    {
        let ghost ms = self.members@;
        let ghost s0 = pool.slots@;
        let mut c: usize = 0;
        let total = pool.slots.len();
        proof {
            assert(ms.skip(0) =~= ms);
            assert(total == s0.len());
            assert forall|i: int| 0 <= i < ms.len() implies s0[#[trigger] ms[i] as int] is Live by {
                assert(old(pool).live(self.members@[i] as int));
            }
        }
        loop
            invariant
                self.wf(*pool),
                c <= ms.len(),
                self.members@ == ms.skip(c as int),
                ms.len() == old(self)@.len(),
                ms == old(self)@,
                s0 == old(pool).slots@,
                forall|i: int, j: int| 0 <= i < j < ms.len() ==> ms[i] != ms[j],
                forall|i: int| 0 <= i < ms.len() ==> ms[i] < s0.len(),
                s0.len() <= usize::MAX,
                pool.slots@.len() == s0.len(),
                forall|j: int| 0 <= j < c ==> pool.slots@[#[trigger] ms[j] as int] == released(s0[ms[j] as int]),
                forall|j: int| c <= j < ms.len() ==> pool.slots@[#[trigger] ms[j] as int] == s0[ms[j] as int],
                forall|i: int| 0 <= i < s0.len() && !ms.contains(i as usize) ==> pool.slots@[i] == s0[i],
                forall|i: int| 0 <= i < ms.len() ==> s0[#[trigger] ms[i] as int] is Live,
                forall|j: int| 0 <= j < c ==> !pool.attached(#[trigger] ms[j] as int),
            ensures
                self.members@.len() == 0,
                c == ms.len(),
            decreases self.members@.len(),
        {
            let ghost lb = pool.links@;
            let ghost msk = self.members@;
            let ghost pre = *pool;
            let ghost h0 = self.head;
            let ghost t0 = self.tail;
            let front = self.pop_front(pool);
            match front {
                Some(a) => {
                    let ghost k = c as int;
                    proof {
                        assert forall|j: int| 0 <= j < k implies !pool.attached(#[trigger] ms[j] as int) by {
                            let x = ms[j];
                            assert(pre.slots@[x as int] == released(s0[x as int]));
                            assert(x != h0);
                            assert(x != t0);
                            assert(!msk.contains(x)) by {
                                if msk.contains(x) {
                                    let i = choose|i: int| 0 <= i < msk.len() && msk[i] == x;
                                    assert(msk[i] == ms[k + i]);
                                }
                            }
                            lemma_detach_front_keeps_other(lb, h0, t0, msk, x);
                        }
                    }
                    proof {
                        assert(ms.skip(k).drop_first() =~= ms.skip(k + 1));
                        assert(a.place() == ms[k]);
                        assert(ms.no_duplicates()) by {
                            assert forall|i: int, j: int| 0 <= i < ms.len() && 0 <= j < ms.len() && i != j
                                implies ms[i] != ms[j] by {
                                if i > j {
                                    assert(ms[j] != ms[i]);
                                }
                            }
                        }
                        lemma_distinct_bounded(ms, s0.len());
                        assert(pool.slots@[ms[k] as int] == s0[ms[k] as int]);
                    }
                    let ghost sb = pool.slots@;
                    let ghost pb = *pool;
                    a.drop(pool);
                    c = c + 1;
                    proof {
                        lemma_clear_step(ms, s0, sb, pool.slots@, k);
                        self.lemma_release_other_keeps(pb, *pool, ms[k] as int);
                    }
                },
                None => {
                    break;
                },
            }
        }
        c
    }

    /// A walk over the list, front to back.
    pub fn iter(&self, pool: &TinyArcPool<T, A>) -> (it: TinyArcListIterator<T, A>)
        requires
            self.wf(*pool),
        ensures
            it.next_spec() == Some(if self@.len() == 0 { self.tail_place() } else { self@[0] }),
            it.tail_spec() == Some(self.tail_place()),
    {
        TinyArcListIterator::new(&pool.links[self.head], Some(self.tail))
    }
}

/// Walks a list forwards, giving a new handle on each value.
pub struct TinyArcListIterator<T, A: Adapter> {
    it: AtomicListIterator<T, A>,
}

/// Walks a list backwards, giving a new handle on each value.
pub struct TinyArcListReverseIterator<T, A: Adapter> {
    it: AtomicListReverseIterator<T, A>,
}

impl<T, A: Adapter> TinyArcListIterator<T, A> {
    /// The node to be given next.
    pub closed spec fn next_spec(&self) -> Option<usize> {
        self.it.next_spec()
    }

    /// Where the walk stops.
    pub closed spec fn tail_spec(&self) -> Option<usize> {
        self.it.tail_spec()
    }

    /// Starts after `head`, stopping at `tail`.
    pub fn new(head: &AtomicListHead<T, A>, tail: Option<usize>) -> (it: Self)
        ensures
            it.next_spec() == head.next,
            it.tail_spec() == tail,
    {
        TinyArcListIterator { it: AtomicListIterator::new(head, tail) }
    }

    /// A new handle on the next value, none at the tail.
    pub fn next(&mut self, pool: &mut TinyArcPool<T, A>) -> (r: Option<TinyArc<T>>)
        requires
            old(pool).wf(),
            old(self).next_spec() != old(self).tail_spec() ==> (old(self).next_spec() matches Some(c)
                && old(pool).live(c as int) && old(pool).rc(c as int) < usize::MAX),
        ensures
            final(pool).wf(),
            final(pool).links@ == old(pool).links@,
            final(self).tail_spec() == old(self).tail_spec(),
            old(self).next_spec() == old(self).tail_spec() ==> r is None && final(pool).slots@
                == old(pool).slots@ && final(self).next_spec() == old(self).next_spec(),
            old(self).next_spec() != old(self).tail_spec() ==> (r matches Some(a)
                && Some(a.place() as usize) == old(self).next_spec()
                && final(self).next_spec() == old(pool).links@[a.place()].next
                && final(pool).slots@ == old(pool).slots@.update(a.place(),
                    retained(old(pool).slots@[a.place()]))),
    {
        match self.it.next(&pool.links) {
            Some(node) => Some(TinyArc::from_inner(pool, node)),
            None => None,
        }
    }
}

impl<T, A: Adapter> TinyArcListReverseIterator<T, A> {
    /// The node to be given next.
    pub closed spec fn prev_spec(&self) -> Option<usize> {
        self.it.prev_spec()
    }

    /// Where the walk stops.
    pub closed spec fn head_spec(&self) -> Option<usize> {
        self.it.head_spec()
    }

    /// Starts before `tail`, stopping at `head`.
    pub fn new(tail: &AtomicListHead<T, A>, head: Option<usize>) -> (it: Self)
        ensures
            it.prev_spec() == tail.prev,
            it.head_spec() == head,
    {
        TinyArcListReverseIterator { it: AtomicListReverseIterator::new(tail, head) }
    }

    /// A new handle on the next value backwards, none at the head.
    pub fn next(&mut self, pool: &mut TinyArcPool<T, A>) -> (r: Option<TinyArc<T>>)
        requires
            old(pool).wf(),
            old(self).prev_spec() != old(self).head_spec() ==> (old(self).prev_spec() matches Some(c)
                && old(pool).live(c as int) && old(pool).rc(c as int) < usize::MAX),
        ensures
            final(pool).wf(),
            final(pool).links@ == old(pool).links@,
            final(self).head_spec() == old(self).head_spec(),
            old(self).prev_spec() == old(self).head_spec() ==> r is None && final(pool).slots@
                == old(pool).slots@ && final(self).prev_spec() == old(self).prev_spec(),
            old(self).prev_spec() != old(self).head_spec() ==> (r matches Some(a)
                && Some(a.place() as usize) == old(self).prev_spec()
                && final(self).prev_spec() == old(pool).links@[a.place()].prev
                && final(pool).slots@ == old(pool).slots@.update(a.place(),
                    retained(old(pool).slots@[a.place()]))),
    {
        match self.it.next(&pool.links) {
            Some(node) => Some(TinyArc::from_inner(pool, node)),
            None => None,
        }
    }
}

} // verus!
