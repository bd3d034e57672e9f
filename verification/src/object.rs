use vstd::prelude::*;
use crate::klibc::{cstrlen, is_cstr, strncpy};
use crate::process::{has_object_list, remove, Kprocess};

verus! {

/// The longest name a kernel object carries.
pub const NAME_MAX: usize = 8;

/// The classes of kernel objects.
#[derive(Debug, Copy, Clone, PartialEq, Eq, Structural)]
pub enum ObjectClassType {
    ObjectClassUninit,
    ObjectClassProcess,
    ObjectClassThread,
    ObjectClassSemaphore,
    ObjectClassMutex,
    ObjectClassCondVar,
    ObjectClassRwLock,
    ObjectClassEvent,
    ObjectClassMailBox,
    ObjectClassMessageQueue,
    ObjectClassMemHeap,
    ObjectClassMemPool,
    ObjectClassDevice,
    ObjectClassTimer,
    ObjectClassMemory,
    ObjectClassUnknown,
}

/// The number of a class, in the order the classes are listed.
pub open spec fn class_number(c: ObjectClassType) -> u8 {
    match c {
        ObjectClassType::ObjectClassUninit => 0,
        ObjectClassType::ObjectClassProcess => 1,
        ObjectClassType::ObjectClassThread => 2,
        ObjectClassType::ObjectClassSemaphore => 3,
        ObjectClassType::ObjectClassMutex => 4,
        ObjectClassType::ObjectClassCondVar => 5,
        ObjectClassType::ObjectClassRwLock => 6,
        ObjectClassType::ObjectClassEvent => 7,
        ObjectClassType::ObjectClassMailBox => 8,
        ObjectClassType::ObjectClassMessageQueue => 9,
        ObjectClassType::ObjectClassMemHeap => 10,
        ObjectClassType::ObjectClassMemPool => 11,
        ObjectClassType::ObjectClassDevice => 12,
        ObjectClassType::ObjectClassTimer => 13,
        ObjectClassType::ObjectClassMemory => 14,
        ObjectClassType::ObjectClassUnknown => 15,
    }
}

impl ObjectClassType {
    /// The class's number, as kept in an object's type field.
    pub fn to_u8(self) -> (n: u8)
        ensures
            n == class_number(self),
    {
        match self {
            ObjectClassType::ObjectClassUninit => 0,
            ObjectClassType::ObjectClassProcess => 1,
            ObjectClassType::ObjectClassThread => 2,
            ObjectClassType::ObjectClassSemaphore => 3,
            ObjectClassType::ObjectClassMutex => 4,
            ObjectClassType::ObjectClassCondVar => 5,
            ObjectClassType::ObjectClassRwLock => 6,
            ObjectClassType::ObjectClassEvent => 7,
            ObjectClassType::ObjectClassMailBox => 8,
            ObjectClassType::ObjectClassMessageQueue => 9,
            ObjectClassType::ObjectClassMemHeap => 10,
            ObjectClassType::ObjectClassMemPool => 11,
            ObjectClassType::ObjectClassDevice => 12,
            ObjectClassType::ObjectClassTimer => 13,
            ObjectClassType::ObjectClassMemory => 14,
            ObjectClassType::ObjectClassUnknown => 15,
        }
    }
}


/// Marks, in an object's type field, an object that was not taken from
/// the heap.
pub const OBJECT_CLASS_STATIC: u8 = 0x80;

/// The class number in a type field, without the static mark.
pub open spec fn class_of(type_: u8) -> u8 {
    type_ & 0x7f
}

/// An object's name after `src` was copied into it: at most
/// `NAME_MAX - 1` bytes of the C string, the rest of those bytes NUL, the
/// last byte as it was.
pub open spec fn named(old_name: Seq<u8>, src: Seq<u8>) -> Seq<u8> {
    Seq::new(NAME_MAX as nat, |i: int| if i < NAME_MAX - 1 {
        if i < cstrlen(src) { src[i] } else { 0u8 }
    } else {
        old_name[i]
    })
}

/// What every kernel object starts with: its name and its type.
pub struct KObjectBase {
    pub name: Vec<u8>,
    pub type_: u8,
}

impl KObjectBase {
    /// The name has its fixed length.
    pub open spec fn wf(&self) -> bool {
        self.name@.len() == NAME_MAX
    }

    /// An object of type `type_` with the name `name`.
    pub fn new(type_: u8, name: Vec<u8>) -> (o: Self)
        requires
            name@.len() == NAME_MAX,
        ensures
            o.wf(),
            o.type_ == type_,
            o.name@ == name@,
    {
        KObjectBase { name, type_ }
    }

    /// The class of the object, without the static mark.
    pub fn object_class(&self) -> (r: u8)
        ensures
            r == class_of(self.type_),
    {
        let t = self.type_;
        assert(t & !0x80u8 == t & 0x7fu8) by (bit_vector);
        self.type_ & !OBJECT_CLASS_STATIC
    }

    /// The object's name.
    pub fn name(&self) -> (r: &[u8])
        ensures
            r@ == self.name@,
    {
        self.name.as_slice()
    }

    /// Copies the C string `name` into the object's name, as `strncpy`
    /// does with `NAME_MAX - 1` bytes.
    pub fn set_name(&mut self, name: &[u8])
        requires
            old(self).wf(),
            is_cstr(name@),
        ensures
            final(self).wf(),
            final(self).type_ == old(self).type_,
            final(self).name@ == named(old(self).name@, name@),
    {
        strncpy(&mut self.name, name, NAME_MAX - 1);
        assert(self.name@ =~= named(old(self).name@, name@));
    }

    /// Whether the object was not taken from the heap.
    pub fn is_static_kobject(&self) -> (b: bool)
        ensures
            b <==> self.type_ & OBJECT_CLASS_STATIC != 0,
    {
        let obj_type = self.type_;
        if (obj_type & OBJECT_CLASS_STATIC) != 0 {
            return true;
        }
        false
    }

    /// Takes the object at place `me`, which must come from the heap, off
    /// its list and marks it unused; the caller then frees its memory.
    pub fn delete(&mut self, process: &mut Kprocess, me: usize)
        requires
            old(process).wf(),
            old(self).type_ & OBJECT_CLASS_STATIC == 0,
        ensures
            final(process).wf(),
            final(process)@.len() == old(process)@.len(),
            forall|c: int| 0 <= c < old(process)@.len() ==> (#[trigger] final(process)@[c]) == old(process)@[c].remove_value(me),
            !final(process).listed(me),
            final(self).type_ == 0,
            final(self).name@ == old(self).name@,
    {
        remove(process, me);
        self.type_ = ObjectClassType::ObjectClassUninit.to_u8();
    }

    /// Sets up an object not taken from the heap: its type carries the
    /// static mark.
    pub fn init(&mut self, process: &mut Kprocess, me: usize, type_: u8, name: &[u8])
        requires
            old(self).wf(),
            old(process).wf(),
            is_cstr(name@),
            class_of(type_ | OBJECT_CLASS_STATIC) != 1 ==> has_object_list(class_of(type_ | OBJECT_CLASS_STATIC)),
            !old(process).listed(me),
        ensures
            final(self).wf(),
            final(self).type_ == type_ | OBJECT_CLASS_STATIC,
            final(self).name@ == named(old(self).name@, name@),
            final(process).wf(),
            final(process)@ == if class_of(type_ | OBJECT_CLASS_STATIC) == 1 {
                old(process)@
            } else {
                old(process).inserted(class_of(type_ | OBJECT_CLASS_STATIC), me)
            },
    {
        self.init_internal(process, me, type_ | OBJECT_CLASS_STATIC, name);
    }

    /// Sets up an object taken from the heap.
    pub fn init_dyn(&mut self, process: &mut Kprocess, me: usize, type_: u8, name: &[u8])
        requires
            old(self).wf(),
            old(process).wf(),
            is_cstr(name@),
            class_of(type_) != 1 ==> has_object_list(class_of(type_)),
            !old(process).listed(me),
        ensures
            final(self).wf(),
            final(self).type_ == type_,
            final(self).name@ == named(old(self).name@, name@),
            final(process).wf(),
            final(process)@ == if class_of(type_) == 1 {
                old(process)@
            } else {
                old(process).inserted(class_of(type_), me)
            },
    {
        self.init_internal(process, me, type_, name);
    }

    /// Gives the object, at place `me`, its type and name, and puts it on
    /// the process's list for its class; the process itself is on none.
    pub fn init_internal(&mut self, process: &mut Kprocess, me: usize, type_: u8, name: &[u8])
        requires
            old(self).wf(),
            old(process).wf(),
            is_cstr(name@),
            class_of(type_) != 1 ==> has_object_list(class_of(type_)),
            !old(process).listed(me),
        ensures
            final(self).wf(),
            final(self).type_ == type_,
            final(self).name@ == named(old(self).name@, name@),
            final(process).wf(),
            final(process)@ == if class_of(type_) == 1 {
                old(process)@
            } else {
                old(process).inserted(class_of(type_), me)
            },
    {
        self.type_ = type_;
        self.set_name(name);
        let class = self.object_class();
        if class != ObjectClassType::ObjectClassProcess.to_u8() {
            process.insert(type_, me);
        }
    }
}

/// A memory pool object (it carries nothing yet).
pub struct Mempool;

/// A memory heap object (it carries nothing yet).
pub struct Memheap;

} // verus!
