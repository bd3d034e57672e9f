use blueos::object::{KObjectBase, ObjectClassType, NAME_MAX, OBJECT_CLASS_STATIC};
use blueos::process::{find_object, get_objects_by_type, remove, size, Kprocess};

fn blank() -> KObjectBase {
    KObjectBase::new(0, vec![0u8; NAME_MAX])
}

fn semaphores(process: &mut Kprocess, names: &[&[u8]]) -> Vec<KObjectBase> {
    let sem = ObjectClassType::ObjectClassSemaphore.to_u8();
    let mut objects = Vec::new();
    for (i, name) in names.iter().enumerate() {
        let mut o = blank();
        o.init_dyn(process, i, sem, name);
        objects.push(o);
    }
    objects
}

#[test]
fn test_find_object_by_name() {
    let mut process = Kprocess::new();
    let objects = semaphores(&mut process, &[b"sem1\0", b"sem2\0"]);
    let sem = ObjectClassType::ObjectClassSemaphore.to_u8();
    let mutex = ObjectClassType::ObjectClassMutex.to_u8();
    assert_eq!(find_object(&process, &objects, sem, b"sem2\0"), Some(1));
    assert_eq!(find_object(&process, &objects, sem, b"sem1\0"), Some(0));
    assert_eq!(find_object(&process, &objects, sem, b"sem3\0"), None);
    assert_eq!(find_object(&process, &objects, mutex, b"sem1\0"), None);
    // the static mark does not change the list searched
    assert_eq!(find_object(&process, &objects, sem | OBJECT_CLASS_STATIC, b"sem1\0"), Some(0));
}

#[test]
fn test_find_object_first_of_equal_names() {
    let mut process = Kprocess::new();
    let objects = semaphores(&mut process, &[b"same\0", b"same\0"]);
    let sem = ObjectClassType::ObjectClassSemaphore.to_u8();
    // the object put in last is first on the list
    assert_eq!(find_object(&process, &objects, sem, b"same\0"), Some(1));
}

#[test]
fn test_get_objects_by_type() {
    let mut process = Kprocess::new();
    let _objects = semaphores(&mut process, &[b"a\0", b"b\0", b"c\0"]);
    let sem = ObjectClassType::ObjectClassSemaphore.to_u8();
    let mut out = [99usize; 5];
    assert_eq!(get_objects_by_type(&process, sem, &mut out), 3);
    assert_eq!(out, [2, 1, 0, 99, 99]);
    let mut small = [99usize; 2];
    assert_eq!(get_objects_by_type(&process, sem, &mut small), 2);
    assert_eq!(small, [2, 1]);
    let mut none = [7usize; 2];
    assert_eq!(get_objects_by_type(&process, 0, &mut none), 0);
    assert_eq!(get_objects_by_type(&process, 15, &mut none), 0);
    assert_eq!(none, [7, 7]);
}

#[test]
fn test_size_and_remove() {
    let mut process = Kprocess::new();
    let objects = semaphores(&mut process, &[b"a\0", b"b\0", b"c\0"]);
    let sem = ObjectClassType::ObjectClassSemaphore.to_u8();
    assert_eq!(size(&process, sem), 3);
    remove(&mut process, 1);
    assert_eq!(size(&process, sem), 2);
    assert_eq!(find_object(&process, &objects, sem, b"b\0"), None);
    let mut out = [0usize; 3];
    assert_eq!(get_objects_by_type(&process, sem, &mut out), 2);
    assert_eq!(&out[..2], &[2, 0]);
    remove(&mut process, 1);
    assert_eq!(size(&process, sem), 2);
}

#[test]
fn test_static_object_and_class() {
    let mut process = Kprocess::new();
    let timer = ObjectClassType::ObjectClassTimer.to_u8();
    let mut o = blank();
    o.init(&mut process, 0, timer, b"tick\0");
    assert!(o.is_static_kobject());
    assert_eq!(o.type_, timer | OBJECT_CLASS_STATIC);
    assert_eq!(o.object_class(), timer);
    assert_eq!(size(&process, timer), 1);
    let mut d = blank();
    d.init_dyn(&mut process, 1, timer, b"t2\0");
    assert!(!d.is_static_kobject());
    assert_eq!(size(&process, timer), 2);
}

#[test]
fn test_process_object_is_on_no_list() {
    let mut process = Kprocess::new();
    let proc_class = ObjectClassType::ObjectClassProcess.to_u8();
    let mut o = blank();
    o.init_dyn(&mut process, 0, proc_class, b"kprocess\0");
    for c in [2u8, 3, 4, 7, 8, 9, 10, 11, 12, 13, 14] {
        assert_eq!(size(&process, c), 0);
    }
    // the name keeps its last byte: seven bytes are copied
    assert_eq!(o.name(), b"kproces\0");
}

#[test]
fn test_set_name_pads_and_truncates() {
    let mut o = blank();
    o.set_name(b"ab\0");
    assert_eq!(o.name(), b"ab\0\0\0\0\0\0");
    o.set_name(b"abcdefghij\0");
    assert_eq!(o.name(), b"abcdefg\0");
}

#[test]
fn names_are_taken_from_their_first_bytes() {
    let name = blueos::sync::ipc_common::char_ptr_to_array(b"semaphore\0");
    assert_eq!(name, b"semaphor".to_vec());
    let o = KObjectBase::new(3, name);
    assert_eq!(o.name(), b"semaphor");
}

#[test]
fn deleted_object_leaves_its_list() {
    let mut process = Kprocess::new();
    let mut objects = semaphores(&mut process, &[b"a\0", b"b\0"]);
    let sem = ObjectClassType::ObjectClassSemaphore.to_u8();
    objects[0].delete(&mut process, 0);
    assert_eq!(objects[0].type_, 0);
    assert_eq!(size(&process, sem), 1);
    assert_eq!(find_object(&process, &objects, sem, b"a\0"), None);
}
