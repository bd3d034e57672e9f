use blueos::tinyrwlock::RwLock;
use std::sync::atomic::{AtomicUsize, Ordering};
use std::sync::Arc;

#[derive(Eq, PartialEq, Debug)]
struct NonCopy(i32);

#[test]
fn smoke() {
    let mut l = RwLock::new(());
    let g = l.read();
    l.release_read(g);
    let g = l.write();
    l.release_write(g);
    let g1 = l.read();
    let g2 = l.read();
    l.release_read(g1);
    l.release_read(g2);
    let g = l.write();
    l.release_write(g);
    assert_eq!(l.reader_count(), 0);
    assert_eq!(l.writer_count(), 0);
}

#[test]
fn test_rwlock_unsized() {
    let mut rw = RwLock::new(vec![1, 2, 3]);
    {
        let g = rw.write();
        let b = rw.write_data(&g);
        b[0] = 4;
        b[2] = 5;
        rw.release_write(g);
    }
    let comp: &[i32] = &[4, 2, 5];
    let g = rw.read();
    assert_eq!(&rw.read_data(&g)[..], comp);
    rw.release_read(g);
}

#[test]
fn test_rwlock_try_write() {
    let mut lock = RwLock::new(0isize);
    let read_guard = lock.read();

    let write_result = lock.try_write();
    match write_result {
        None => (),
        Some(_) => {
            unreachable!("try_write should not succeed while read_guard is in scope")
        }
    }

    lock.release_read(read_guard);
}

#[test]
fn test_rw_try_read() {
    let mut m = RwLock::new(0);
    let _forgotten = m.write();
    assert!(m.try_read().is_none());
}

#[test]
fn test_into_inner() {
    let m = RwLock::new(NonCopy(10));
    assert_eq!(m.into_inner(), NonCopy(10));
}

struct Foo(Arc<AtomicUsize>);

impl Drop for Foo {
    fn drop(&mut self) {
        self.0.fetch_add(1, Ordering::SeqCst);
    }
}

#[test]
fn test_into_inner_drop() {
    let num_drops = Arc::new(AtomicUsize::new(0));
    let m = RwLock::new(Foo(num_drops.clone()));
    assert_eq!(num_drops.load(Ordering::SeqCst), 0);
    {
        let _inner = m.into_inner();
        assert_eq!(num_drops.load(Ordering::SeqCst), 0);
    }
    assert_eq!(num_drops.load(Ordering::SeqCst), 1);
}

#[test]
fn test_force_read_decrement() {
    let mut m = RwLock::new(());
    let _a = m.read();
    let _b = m.read();
    let _c = m.read();
    assert!(m.try_write().is_none());
    m.force_read_decrement();
    m.force_read_decrement();
    assert!(m.try_write().is_none());
    m.force_read_decrement();
    assert!(m.try_write().is_some());
}

#[test]
fn test_force_write_unlock() {
    let mut m = RwLock::new(());
    let _w = m.write();
    assert!(m.try_read().is_none());
    m.force_write_unlock();
    assert!(m.try_read().is_some());
}

#[test]
fn test_upgrade_downgrade() {
    let mut m = RwLock::new(());
    {
        let r = m.read();
        let upg = m.try_upgradeable_read().unwrap();
        assert!(m.try_read().is_none());
        assert!(m.try_write().is_none());
        let res = upg.try_upgrade(&mut m);
        assert!(res.is_err());
        if let Err(upg) = res {
            m.release_upgradeable(upg);
        }
        m.release_read(r);
    }
    {
        let w = m.write();
        assert!(m.try_upgradeable_read().is_none());
        let r = w.downgrade(&mut m);
        let u = m.try_upgradeable_read();
        assert!(u.is_some());
        m.release_upgradeable(u.unwrap());
        let r2 = m.try_read();
        assert!(r2.is_some());
        m.release_read(r2.unwrap());
        assert!(m.try_write().is_none());
        m.release_read(r);
    }
    {
        let u = m.upgradeable_read();
        assert!(m.try_upgradeable_read().is_none());
        m.release_upgradeable(u);
    }

    let u = m.try_upgradeable_read().unwrap();
    assert!(u.try_upgrade(&mut m).is_ok());
}

#[test]
fn rwlock_counts_follow_guards() {
    let mut m = RwLock::new(5u32);
    let r1 = m.read();
    let u = m.upgradeable_read();
    assert_eq!(m.reader_count(), 2);
    assert_eq!(m.writer_count(), 0);
    m.release_read(r1);
    let w = u.upgrade(&mut m);
    assert_eq!(m.writer_count(), 1);
    *m.write_data(&w) = 7;
    let u = w.downgrade_to_upgradeable(&mut m);
    assert_eq!(*m.upgradeable_data(&u), 7);
    let r = u.downgrade(&mut m);
    assert_eq!(m.reader_count(), 1);
    m.release_read(r);
    assert_eq!(*m.get_mut(), 7);
    *m.as_mut_ptr() = 9;
    assert_eq!(m.into_inner(), 9);
}
