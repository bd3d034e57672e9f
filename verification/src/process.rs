use vstd::prelude::*;
use crate::klibc::{is_cstr, strn_compare_result, strncmp};
use crate::object::{class_of, KObjectBase, NAME_MAX};

verus! {

/// The number of object classes, so of object lists a process keeps.
pub const OBJECT_CLASS_COUNT: usize = 16;

/// Whether the process keeps a list of the objects of class `c`: threads,
/// semaphores, mutexes, events, mailboxes, message queues, memory heaps,
/// memory pools, devices, timers and memory.
pub open spec fn has_object_list(c: u8) -> bool {
    c == 2 || c == 3 || c == 4 || c == 7 || c == 8 || c == 9 || c == 10 || c == 11 || c == 12
        || c == 13 || c == 14
}

/// Whether the names `a` and `b` are the same, compared as `strncmp` does
/// over `NAME_MAX` bytes.
pub open spec fn same_name(a: Seq<u8>, b: Seq<u8>) -> bool {
    strn_compare_result(a, b, NAME_MAX) == 0
}

/// The first object on `list` whose name is `name`, none if there is none.
pub open spec fn first_named(objects: Seq<KObjectBase>, list: Seq<usize>, name: Seq<u8>) -> Option<usize>
    decreases list.len(),
{
    if list.len() == 0 {
        None
    } else if same_name(objects[list[0] as int].name@, name) {
        Some(list[0])
    } else {
        first_named(objects, list.drop_first(), name)
    }
}

/// What is found is on the list.
pub proof fn lemma_first_named_on_list(objects: Seq<KObjectBase>, list: Seq<usize>, name: Seq<u8>)
    ensures
        first_named(objects, list, name) matches Some(x) ==> list.contains(x),
    decreases list.len(),
{
    if list.len() > 0 && !same_name(objects[list[0] as int].name@, name) {
        lemma_first_named_on_list(objects, list.drop_first(), name);
        match first_named(objects, list.drop_first(), name) {
            Some(x) => {
                let k = choose|k: int| 0 <= k < list.drop_first().len() && list.drop_first()[k] == x;
                assert(list[k + 1] == x);
            },
            None => {},
        }
    }
}

/// The object put on a list last is the one found under its name: a new
/// object hides older ones of the same name.
pub proof fn lemma_newest_named_found(objects: Seq<KObjectBase>, list: Seq<usize>, me: usize, name: Seq<u8>)
    requires
        same_name(objects[me as int].name@, name),
    ensures
        first_named(objects, seq![me] + list, name) == Some(me),
{
    assert((seq![me] + list)[0] == me);
}

/// An object taken off a list is no longer found on it, under any name.
pub proof fn lemma_removed_not_found(objects: Seq<KObjectBase>, list: Seq<usize>, me: usize, name: Seq<u8>)
    requires
        list.no_duplicates(),
    ensures
        first_named(objects, list.remove_value(me), name) != Some(me),
{
    list.index_of_first_ensures(me);
    let rest = list.remove_value(me);
    lemma_first_named_on_list(objects, rest, name);
    if rest.contains(me) {
        let k = choose|k: int| 0 <= k < rest.len() && rest[k] == me;
        let i = list.index_of_first(me).unwrap();
        if k < i {
            assert(rest[k] == list[k]);
        } else {
            assert(rest[k] == list[k + 1]);
        }
    }
}

/// No place is twice on the lists `v`.
pub open spec fn no_object_twice(v: Seq<Seq<usize>>) -> bool {
    forall|c: int, i: int, d: int, j: int|
        0 <= c < v.len() && 0 <= i < v[c].len() && 0 <= d < v.len() && 0 <= j < v[d].len()
            && (c != d || i != j) ==> #[trigger] v[c][i] != #[trigger] v[d][j]
}

/// Taking one place off a list keeps every place at most once on the
/// lists, and the place taken off on none of them.
proof fn lemma_remove_keeps_distinct(v: Seq<Seq<usize>>, c: int, i: int)
    requires
        no_object_twice(v),
        0 <= c < v.len(),
        0 <= i < v[c].len(),
    ensures
        no_object_twice(v.update(c, v[c].remove(i))),
        forall|d: int| 0 <= d < v.len() ==> !(#[trigger] v.update(c, v[c].remove(i))[d]).contains(v[c][i]),
{
    let w = v.update(c, v[c].remove(i));
    assert forall|a: int, x: int, d: int, y: int|
        0 <= a < w.len() && 0 <= x < w[a].len() && 0 <= d < w.len() && 0 <= y < w[d].len()
            && (a != d || x != y) implies #[trigger] w[a][x] != #[trigger] w[d][y] by {
        let xx = if a == c && x >= i { x + 1 } else { x };
        let yy = if d == c && y >= i { y + 1 } else { y };
        assert(w[a][x] == v[a][xx]);
        assert(w[d][y] == v[d][yy]);
    }
    assert forall|d: int| 0 <= d < v.len() implies !(#[trigger] w[d]).contains(v[c][i]) by {
        if w[d].contains(v[c][i]) {
            let y = choose|y: int| 0 <= y < w[d].len() && w[d][y] == v[c][i];
            let yy = if d == c && y >= i { y + 1 } else { y };
            assert(w[d][y] == v[d][yy]);
        }
    }
}

/// The kernel process: for each class of objects, the places of the
/// objects of that class, the one put in last first.
pub struct Kprocess {
    lists: Vec<Vec<usize>>,
    pid: u64,
}

impl View for Kprocess {
    type V = Seq<Seq<usize>>;

    /// The object list of each class.
    closed spec fn view(&self) -> Seq<Seq<usize>> {
        self.lists@.map_values(|l: Vec<usize>| l@)
    }
}

impl Kprocess {
    /// One list per class, and no object twice on the lists.
    pub open spec fn wf(&self) -> bool {
        &&& self@.len() == OBJECT_CLASS_COUNT
        &&& no_object_twice(self@)
    }

    /// Whether the object at place `me` is on a list.
    pub open spec fn listed(&self, me: usize) -> bool {
        exists|c: int| 0 <= c < self@.len() && #[trigger] self@[c].contains(me)
    }

    /// The lists after the object at place `me` was put first on the list
    /// of class `c`.
    pub open spec fn inserted(&self, c: u8, me: usize) -> Seq<Seq<usize>> {
        self@.update(c as int, seq![me] + self@[c as int])
    }

    /// No object is twice on one list.
    pub proof fn lemma_lists_distinct(&self, c: int)
        requires
            self.wf(),
            0 <= c < self@.len(),
        ensures
            self@[c].no_duplicates(),
    {
        assert forall|i: int, j: int| 0 <= i < self@[c].len() && 0 <= j < self@[c].len() && i != j
            implies self@[c][i] != self@[c][j] by {
            assert(self@[c][i] != self@[c][j]);
        }
    }

    /// A process with every object list empty.
    pub fn new() -> (p: Self)
        ensures
            p.wf(),
            forall|c: int| 0 <= c < OBJECT_CLASS_COUNT ==> (#[trigger] p@[c]).len() == 0,
    {
        let mut lists: Vec<Vec<usize>> = Vec::new();
        let mut c: usize = 0;
        while c < OBJECT_CLASS_COUNT
            invariant
                c <= OBJECT_CLASS_COUNT,
                lists@.len() == c,
                forall|k: int| 0 <= k < c ==> (#[trigger] lists@[k])@.len() == 0,
            decreases OBJECT_CLASS_COUNT - c,
        {
            lists.push(Vec::new());
            c = c + 1;
        }
        let p = Kprocess { lists, pid: 0 };
        assert forall|k: int| 0 <= k < OBJECT_CLASS_COUNT implies (#[trigger] p@[k]).len() == 0 by {
            assert(p@[k] == p.lists@[k]@);
        }
        p
    }

    /// The list that holds the objects of the class in `object_type`.
    pub fn get_object_list(&self, object_type: u8) -> (c: usize)
        requires
            has_object_list(class_of(object_type)),
        ensures
            c == class_of(object_type),
            c < OBJECT_CLASS_COUNT,
    {
        let t = object_type;
        assert(t & !0x80u8 == t & 0x7fu8) by (bit_vector);
        let class = object_type & !crate::object::OBJECT_CLASS_STATIC;
        class as usize
    }

    /// Puts the object at place `node` first on the list of the class in
    /// `object_tpye`.
    pub fn insert(&mut self, object_tpye: u8, node: usize)
        requires
            old(self).wf(),
            has_object_list(class_of(object_tpye)),
            !old(self).listed(node),
        ensures
            final(self).wf(),
            final(self)@ == old(self).inserted(class_of(object_tpye), node),
    {
        let c = self.get_object_list(object_tpye);
        let mut l: Vec<usize> = Vec::new();
        std::mem::swap(&mut l, &mut self.lists[c]);
        l.insert(0, node);
        self.lists.set(c, l);
        proof {
            let v0 = old(self)@;
            let v1 = self@;
            assert(v1 =~= old(self).inserted(class_of(object_tpye), node)) by {
                assert(v1[c as int] =~= seq![node] + v0[c as int]);
            }
            assert forall|a: int, i: int, d: int, j: int|
                0 <= a < v1.len() && 0 <= i < v1[a].len() && 0 <= d < v1.len() && 0 <= j < v1[d].len()
                    && (a != d || i != j) implies #[trigger] v1[a][i] != #[trigger] v1[d][j] by {
                let ii = if a == c { i - 1 } else { i };
                let jj = if d == c { j - 1 } else { j };
                if a == c && i == 0 {
                    if !(d == c && j == 0) {
                        assert(v0[d].contains(v0[d][jj]));
                    }
                } else if d == c && j == 0 {
                    assert(v0[a].contains(v0[a][ii]));
                } else {
                    assert(v1[a][i] == v0[a][ii]);
                    assert(v1[d][j] == v0[d][jj]);
                }
            }
        }
    }
}

/// Puts the object at place `node` first on the list of the class in
/// `object_tpye`.
pub fn insert(process: &mut Kprocess, object_tpye: u8, node: usize)
    requires
        old(process).wf(),
        has_object_list(class_of(object_tpye)),
        !old(process).listed(node),
    ensures
        final(process).wf(),
        final(process)@ == old(process).inserted(class_of(object_tpye), node),
{
    process.insert(object_tpye, node);
}

/// Whether two names are the same over `NAME_MAX` bytes.
fn names_equal(a: &[u8], b: &[u8]) -> (r: bool)
    requires
        is_cstr(a@),
        is_cstr(b@),
    ensures
        r == same_name(a@, b@),
{
    strncmp(a, b, NAME_MAX) == 0
}

/// Finds, on the list of the class in `object_tpye`, the first object
/// whose name is `name`; none when there is no such object. `objects`
/// holds the objects by place.
pub fn find_object(process: &Kprocess, objects: &Vec<KObjectBase>, object_tpye: u8, name: &[u8]) -> (r: Option<usize>)
    requires
        process.wf(),
        has_object_list(class_of(object_tpye)),
        is_cstr(name@),
        forall|k: int| 0 <= k < process@[class_of(object_tpye) as int].len() ==> {
            let id = #[trigger] process@[class_of(object_tpye) as int][k];
            id < objects@.len() && is_cstr(objects@[id as int].name@)
        },
    ensures
        r == first_named(objects@, process@[class_of(object_tpye) as int], name@),
{
    let c = process.get_object_list(object_tpye);
    let list = &process.lists[c];
    proof {
        assert(list@ == process@[c as int]);
        assert(list@.skip(0) =~= list@);
    }
    let mut k: usize = 0;
    while k < list.len()
        invariant
            list@ == process@[c as int],
            c == class_of(object_tpye),
            is_cstr(name@),
            k <= list@.len(),
            forall|i: int| 0 <= i < list@.len() ==> {
                let id = #[trigger] list@[i];
                id < objects@.len() && is_cstr(objects@[id as int].name@)
            },
            first_named(objects@, list@, name@) == first_named(objects@, list@.skip(k as int), name@),
        decreases list@.len() - k,
    {
        let id = list[k];
        assert(is_cstr(objects@[id as int].name@));
        proof {
            assert(list@.skip(k as int)[0] == id);
            assert(list@.skip(k as int).drop_first() =~= list@.skip(k + 1));
        }
        if names_equal(objects[id].name.as_slice(), name) {
            return Some(id);
        }
        k = k + 1;
    }
    proof {
        assert(list@.skip(k as int).len() == 0);
    }
    None
}

/// Copies into `objects` the places of the objects on the list of class
/// `object_type`, first first, until the list or `objects` runs out, and
/// says how many it copied; nothing for a type that is no class.
pub fn get_objects_by_type(process: &Kprocess, object_type: u8, objects: &mut [usize]) -> (count: usize)
    requires
        process.wf(),
        0 < object_type < 15 ==> has_object_list(object_type)
            && (old(objects)@.len() > 0 || process@[object_type as int].len() == 0),
    ensures
        !(0 < object_type < 15) ==> count == 0 && final(objects)@ == old(objects)@,
        0 < object_type < 15 ==> {
            let list = process@[object_type as int];
            &&& count == if list.len() < old(objects)@.len() { list.len() } else { old(objects)@.len() }
            &&& final(objects)@ == list.take(count as int) + old(objects)@.skip(count as int)
        },
{
    if object_type > 0 && object_type < 15 {
        let t = object_type;
        assert(t < 15 ==> t & 0x7fu8 == t) by (bit_vector);
        let mut count: usize = 0;
        let maxlen: usize = objects.len();
        let c = process.get_object_list(object_type);
        let list = &process.lists[c];
        proof {
            assert(list@ == process@[object_type as int]);
        }
        let mut k: usize = 0;
        while k < list.len()
            invariant_except_break
                k < maxlen || list@.len() == 0,
            invariant
                list@ == process@[object_type as int],
                maxlen == old(objects)@.len(),
                objects@.len() == maxlen,
                maxlen > 0 || list@.len() == 0,
                k <= list@.len(),
                k <= maxlen,
                count == k,
                objects@ == list@.take(k as int) + old(objects)@.skip(k as int),
            ensures
                count == if list@.len() < maxlen { list@.len() as int } else { maxlen as int },
                objects@ == list@.take(count as int) + old(objects)@.skip(count as int),
            decreases list@.len() - k,
        {
            objects[count] = list[k];
            count = count + 1;
            k = k + 1;
            proof {
                assert(objects@ =~= list@.take(k as int) + old(objects)@.skip(k as int));
            }
            if count >= maxlen {
                break;
            }
        }
        count
    } else {
        0
    }
}

/// The number of objects on the list of the class in `object_type`.
pub fn size(process: &Kprocess, object_type: u8) -> (n: usize)
    requires
        process.wf(),
        has_object_list(class_of(object_type)),
    ensures
        n == process@[class_of(object_type) as int].len(),
{
    let c = process.get_object_list(object_type);
    proof {
        assert(process.lists@[c as int]@ == process@[c as int]);
    }
    process.lists[c].len()
}

/// Takes the object at place `me` off the list it is on, if any.
pub fn remove(process: &mut Kprocess, me: usize)
    requires
        old(process).wf(),
    ensures
        final(process).wf(),
        final(process)@.len() == old(process)@.len(),
        forall|c: int| 0 <= c < old(process)@.len() ==> (#[trigger] final(process)@[c]) == old(process)@[c].remove_value(me),
        !final(process).listed(me),
{
    let mut c: usize = 0;
    while c < OBJECT_CLASS_COUNT
        invariant
            process.wf(),
            old(process).wf(),
            c <= OBJECT_CLASS_COUNT,
            forall|d: int| 0 <= d < c ==> (#[trigger] process@[d]) == old(process)@[d].remove_value(me),
            forall|d: int| c <= d < OBJECT_CLASS_COUNT ==> (#[trigger] process@[d]) == old(process)@[d],
            forall|d: int| 0 <= d < c ==> !(#[trigger] process@[d]).contains(me),
        decreases OBJECT_CLASS_COUNT - c,
    {
        proof {
            assert(process@[c as int] == process.lists@[c as int]@);
        }
        let ghost v0 = process@;
        let mut l: Vec<usize> = Vec::new();
        std::mem::swap(&mut l, &mut process.lists[c]);
        let ghost before = l@;
        proof {
            assert(before == old(process)@[c as int]);
        }
        let mut i: usize = 0;
        while i < l.len()
            invariant
                l@ == before,
                i <= l@.len(),
                forall|j: int| 0 <= j < i ==> l@[j] != me,
            ensures
                i <= l@.len(),
                forall|j: int| 0 <= j < i ==> l@[j] != me,
                i < l@.len() ==> l@[i as int] == me,
            decreases l@.len() - i,
        {
            if l[i] == me {
                break;
            }
            i = i + 1;
        }
        proof {
            before.index_of_first_ensures(me);
        }
        if i < l.len() {
            proof {
                assert(before.contains(before[i as int]));
                assert(before.index_of_first(me) == Some(i as int));
                assert(v0.update(c as int, before) =~= v0);
                lemma_remove_keeps_distinct(v0, c as int, i as int);
            }
            l.remove(i);
        } else {
            proof {
                assert(!before.contains(me));
                assert(before.remove_value(me) == before);
            }
        }
        let ghost lv = l@;
        process.lists.set(c, l);
        proof {
            assert(process@ =~= v0.update(c as int, lv));
            assert(lv == before.remove_value(me));
            if !(i < before.len()) {
                assert(v0.update(c as int, lv) =~= v0);
            }
        }
        c = c + 1;
    }
}

} // verus!
