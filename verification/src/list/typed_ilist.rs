use vstd::prelude::*;
use crate::intrusive::Adapter;
use core::marker::PhantomData;

verus! {

/// A link of an intrusive list that is not circular: each node names its
/// neighbours by their place in the arena of nodes, none at the ends and
/// none for a node on no list. `T` is the owner type and `A` finds the
/// link in it.
pub struct ListHead<T, A: Adapter> {
    pub prev: Option<usize>,
    pub next: Option<usize>,
    pub _t: PhantomData<T>,
    pub _a: PhantomData<A>,
}

/// A node with the given links.
pub open spec fn linked<T, A: Adapter>(n: ListHead<T, A>, prev: Option<usize>, next: Option<usize>) -> ListHead<T, A> {
    ListHead { prev, next, ..n }
}

/// Every link of the arena `a` names a node of it.
pub open spec fn links_in<T, A: Adapter>(a: Seq<ListHead<T, A>>) -> bool {
    forall|i: int| 0 <= i < a.len() ==> {
        &&& (#[trigger] a[i]).prev matches Some(p) ==> p < a.len()
        &&& a[i].next matches Some(n) ==> n < a.len()
    }
}

impl<T, A: Adapter> ListHead<T, A> {
    /// A link on no list.
    pub fn new() -> (l: Self)
        ensures
            l.prev is None && l.next is None,
    {
        Self::const_new()
    }

    /// A link on no list.
    pub fn const_new() -> (l: Self)
        ensures
            l.prev is None && l.next is None,
    {
        ListHead { prev: None, next: None, _t: PhantomData, _a: PhantomData }
    }

    /// Whether the link is on no list.
    pub fn is_detached(&self) -> (b: bool)
        ensures
            b <==> self.prev is None && self.next is None,
    {
        self.prev.is_none() && self.next.is_none()
    }

    /// Puts the node `me` right after the node `head`; fails, changing
    /// nothing, unless `me` is on no list. The node that followed `head`,
    /// if any, now follows `me`; `me` records that node's old predecessor
    /// as its own (`head` when there was none after it).
    pub fn insert_after(arena: &mut Vec<ListHead<T, A>>, head: usize, me: usize) -> (b: bool)
        requires
            head < old(arena)@.len(),
            me < old(arena)@.len(),
            links_in(old(arena)@),
        ensures
            links_in(final(arena)@),
            final(arena)@.len() == old(arena)@.len(),
            b <==> old(arena)@[me as int].prev is None && old(arena)@[me as int].next is None,
            !b ==> final(arena)@ == old(arena)@,
            b ==> {
                let a0 = old(arena)@;
                let next = a0[head as int].next;
                let a1 = a0.update(head as int, linked(a0[head as int], a0[head as int].prev, Some(me)));
                let a2 = match next {
                    Some(v) => a1.update(v as int, linked(a1[v as int], Some(me), a1[v as int].next)),
                    None => a1,
                };
                let prev = match next {
                    Some(v) => a1[v as int].prev,
                    None => Some(head),
                };
                final(arena)@ == a2.update(me as int, linked(a2[me as int], prev, next))
            },
    {
        if !arena[me].is_detached() {
            return false;
        }
        let next = arena[head].next;
        let h = ListHead { prev: arena[head].prev, next: Some(me), _t: PhantomData, _a: PhantomData };
        arena.set(head, h);
        let prev = match next {
            Some(v) => {
                let p = arena[v].prev;
                let nv = ListHead { prev: Some(me), next: arena[v].next, _t: PhantomData, _a: PhantomData };
                arena.set(v, nv);
                p
            },
            None => Some(head),
        };
        let m = ListHead { prev, next, _t: PhantomData, _a: PhantomData };
        arena.set(me, m);
        true
    }

    /// Puts the node `me` right before the node `tail`; fails, changing
    /// nothing, unless `me` is on no list. The node that preceded `tail`,
    /// if any, now precedes `me`; `me` records that node's old successor as
    /// its own (`tail` when there was none before it).
    pub fn insert_before(arena: &mut Vec<ListHead<T, A>>, tail: usize, me: usize) -> (b: bool)
        requires
            tail < old(arena)@.len(),
            me < old(arena)@.len(),
            links_in(old(arena)@),
        ensures
            links_in(final(arena)@),
            final(arena)@.len() == old(arena)@.len(),
            b <==> old(arena)@[me as int].prev is None && old(arena)@[me as int].next is None,
            !b ==> final(arena)@ == old(arena)@,
            b ==> {
                let a0 = old(arena)@;
                let prev = a0[tail as int].prev;
                let a1 = a0.update(tail as int, linked(a0[tail as int], Some(me), a0[tail as int].next));
                let a2 = match prev {
                    Some(v) => a1.update(v as int, linked(a1[v as int], a1[v as int].prev, Some(me))),
                    None => a1,
                };
                let next = match prev {
                    Some(v) => a1[v as int].next,
                    None => Some(tail),
                };
                final(arena)@ == a2.update(me as int, linked(a2[me as int], prev, next))
            },
    {
        if !arena[me].is_detached() {
            return false;
        }
        let prev = arena[tail].prev;
        let t = ListHead { prev: Some(me), next: arena[tail].next, _t: PhantomData, _a: PhantomData };
        arena.set(tail, t);
        let next = match prev {
            Some(v) => {
                let n = arena[v].next;
                let pv = ListHead { prev: arena[v].prev, next: Some(me), _t: PhantomData, _a: PhantomData };
                arena.set(v, pv);
                n
            },
            None => Some(tail),
        };
        let m = ListHead { prev, next, _t: PhantomData, _a: PhantomData };
        arena.set(me, m);
        true
    }

    /// Takes the node `me` off its list, joining its neighbours; fails,
    /// changing nothing, when it is on no list.
    pub fn detach(arena: &mut Vec<ListHead<T, A>>, me: usize) -> (b: bool)
        requires
            me < old(arena)@.len(),
            links_in(old(arena)@),
        ensures
            links_in(final(arena)@),
            final(arena)@.len() == old(arena)@.len(),
            b <==> !(old(arena)@[me as int].prev is None && old(arena)@[me as int].next is None),
            !b ==> final(arena)@ == old(arena)@,
            b ==> {
                let a0 = old(arena)@;
                let m = a0[me as int];
                let a1 = match m.prev {
                    Some(p) => a0.update(p as int, linked(a0[p as int], a0[p as int].prev, m.next)),
                    None => a0,
                };
                let a2 = match m.next {
                    Some(n) => a1.update(n as int, linked(a1[n as int], m.prev, a1[n as int].next)),
                    None => a1,
                };
                final(arena)@ == a2.update(me as int, linked(a2[me as int], None, None))
            },
    {
        if arena[me].is_detached() {
            return false;
        }
        let mp = arena[me].prev;
        let mn = arena[me].next;
        match mp {
            Some(p) => {
                let np = ListHead { prev: arena[p].prev, next: mn, _t: PhantomData, _a: PhantomData };
                arena.set(p, np);
            },
            None => {},
        }
        match mn {
            Some(n) => {
                let nn = ListHead { prev: mp, next: arena[n].next, _t: PhantomData, _a: PhantomData };
                arena.set(n, nn);
            },
            None => {},
        }
        let m = ListHead { prev: None, next: None, _t: PhantomData, _a: PhantomData };
        arena.set(me, m);
        true
    }
}

/// Walks a list forwards, from the node after a head up to (not
/// including) a given tail.
pub struct ListIterator<T, A: Adapter> {
    next: Option<usize>,
    tail: Option<usize>,
    _t: PhantomData<T>,
    _a: PhantomData<A>,
}

impl<T, A: Adapter> ListIterator<T, A> {
    /// The node to be given next.
    pub closed spec fn next_spec(&self) -> Option<usize> {
        self.next
    }

    /// Where the walk stops.
    pub closed spec fn tail_spec(&self) -> Option<usize> {
        self.tail
    }

    /// Starts after `head`, stopping at `tail`.
    pub fn new(head: &ListHead<T, A>, tail: Option<usize>) -> (it: Self)
        ensures
            it.next_spec() == head.next,
            it.tail_spec() == tail,
    {
        ListIterator { next: head.next, tail, _t: PhantomData, _a: PhantomData }
    }

    /// The next node, none at the tail. The walk must not run off the end
    /// of the list before the tail.
    pub fn next(&mut self, arena: &Vec<ListHead<T, A>>) -> (r: Option<usize>)
        requires
            old(self).next_spec() != old(self).tail_spec() ==> (old(self).next_spec() matches Some(c)
                && c < arena@.len()),
        ensures
            final(self).tail_spec() == old(self).tail_spec(),
            old(self).next_spec() == old(self).tail_spec() ==> r is None && *final(self) == *old(self),
            old(self).next_spec() != old(self).tail_spec() ==> r == old(self).next_spec()
                && final(self).next_spec() == arena@[old(self).next_spec().unwrap() as int].next,
    {
        if self.next == self.tail {
            return None;
        }
        let current = self.next.unwrap();
        self.next = arena[current].next;
        Some(current)
    }
}

/// Walks a list backwards, from the node before a tail down to (not
/// including) a given head.
pub struct ListReverseIterator<T, A: Adapter> {
    prev: Option<usize>,
    head: Option<usize>,
    _t: PhantomData<T>,
    _a: PhantomData<A>,
}

impl<T, A: Adapter> ListReverseIterator<T, A> {
    /// The node to be given next.
    pub closed spec fn prev_spec(&self) -> Option<usize> {
        self.prev
    }

    /// Where the walk stops.
    pub closed spec fn head_spec(&self) -> Option<usize> {
        self.head
    }

    /// Starts before `tail`, stopping at `head`.
    pub fn new(tail: &ListHead<T, A>, head: Option<usize>) -> (it: Self)
        ensures
            it.prev_spec() == tail.prev,
            it.head_spec() == head,
    {
        ListReverseIterator { prev: tail.prev, head, _t: PhantomData, _a: PhantomData }
    }

    /// The next node backwards, none at the head. The walk must not run
    /// off the start of the list before the head.
    pub fn next(&mut self, arena: &Vec<ListHead<T, A>>) -> (r: Option<usize>)
        requires
            old(self).prev_spec() != old(self).head_spec() ==> (old(self).prev_spec() matches Some(c)
                && c < arena@.len()),
        ensures
            final(self).head_spec() == old(self).head_spec(),
            old(self).prev_spec() == old(self).head_spec() ==> r is None && *final(self) == *old(self),
            old(self).prev_spec() != old(self).head_spec() ==> r == old(self).prev_spec()
                && final(self).prev_spec() == arena@[old(self).prev_spec().unwrap() as int].prev,
    {
        if self.prev == self.head {
            return None;
        }
        let current = self.prev.unwrap();
        self.prev = arena[current].prev;
        Some(current)
    }
}

} // verus!
