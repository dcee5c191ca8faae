use rust_ui_core::view::persistent_storage::{PersistentStorage, PersistentStorageRef};
use std::cell::RefCell;
use std::rc::Rc;

type Cleanup = Box<dyn FnOnce()>;

fn recorder() -> Rc<RefCell<Vec<usize>>> {
    Rc::new(RefCell::new(Vec::new()))
}

fn cleanup(log: &Rc<RefCell<Vec<usize>>>, id: usize) -> Cleanup {
    let log = log.clone();
    Box::new(move || log.borrow_mut().push(id))
}

#[test]
fn insert_then_get_returns_item() {
    let mut s: PersistentStorage<String, Cleanup> = PersistentStorage::default();
    assert_eq!(s.get(3, 7), None);
    s.insert(3, 7, "hello".to_string());
    assert_eq!(s.get(3, 7), Some(&"hello".to_string()));
    assert_eq!(s.get(3, 8), None);
    assert_eq!(s.get(4, 7), None);
}

#[test]
fn insert_overrides_same_identity_and_kind() {
    let mut s: PersistentStorage<i32, Cleanup> = PersistentStorage::default();
    s.insert(1, 1, 10);
    s.insert(1, 2, 20);
    s.insert(1, 1, 11);
    assert_eq!(s.get(1, 1), Some(&11));
    assert_eq!(s.get(1, 2), Some(&20));
}

#[test]
fn get_or_init_with_runs_init_once() {
    let mut s: PersistentStorage<i32, Cleanup> = PersistentStorage::default();
    let calls = Rc::new(RefCell::new(0));
    let c1 = calls.clone();
    assert_eq!(*s.get_or_init_with(5, 0, move || { *c1.borrow_mut() += 1; 42 }), 42);
    let c2 = calls.clone();
    assert_eq!(*s.get_or_init_with(5, 0, move || { *c2.borrow_mut() += 1; 99 }), 42);
    assert_eq!(*calls.borrow(), 1);
    assert_eq!(s.get(5, 0), Some(&42));
}

#[test]
fn get_or_register_gc_registers_once() {
    let log = recorder();
    let mut s: PersistentStorage<i32, Cleanup> = PersistentStorage::default();
    let l = log.clone();
    assert_eq!(*s.get_or_register_gc(9, 1, move || (7, cleanup(&l, 9))), 7);
    let l2 = log.clone();
    assert_eq!(*s.get_or_register_gc(9, 1, move || (8, cleanup(&l2, 900))), 7);
    s.garbage_collection_unset_all();
    s.garbage_collection_cycle();
    assert_eq!(*log.borrow(), vec![9]);
    // the stored object outlives the collection of its cleanup
    assert_eq!(s.get(9, 1), Some(&7));
}

#[test]
fn fresh_registration_survives_a_cycle() {
    let log = recorder();
    let mut s: PersistentStorage<i32, Cleanup> = PersistentStorage::default();
    s.register_for_garbage_collection(1, cleanup(&log, 1));
    s.garbage_collection_cycle();
    assert!(log.borrow().is_empty());
}

#[test]
fn only_marked_views_survive_the_cycle() {
    let log = recorder();
    let mut s: PersistentStorage<i32, Cleanup> = PersistentStorage::default();
    for id in [4, 2, 8, 6] {
        s.register_for_garbage_collection(id, cleanup(&log, id));
    }
    s.garbage_collection_unset_all();
    s.garbage_collection_mark_used(6);
    s.garbage_collection_mark_used(2);
    s.garbage_collection_mark_used(100);
    s.garbage_collection_cycle();
    // collected in ascending order of identity
    assert_eq!(*log.borrow(), vec![4, 8]);
    // a second cycle collects nothing more
    s.garbage_collection_cycle();
    assert_eq!(*log.borrow(), vec![4, 8]);
    // the survivors are collected once their flags are cleared
    s.garbage_collection_unset_all();
    s.garbage_collection_cycle();
    assert_eq!(*log.borrow(), vec![4, 8, 2, 6]);
}

#[test]
fn each_view_is_collected_once() {
    let log = recorder();
    let mut s: PersistentStorage<i32, Cleanup> = PersistentStorage::default();
    s.register_for_garbage_collection(3, cleanup(&log, 3));
    s.garbage_collection_unset_all();
    s.garbage_collection_cycle();
    s.garbage_collection_unset_all();
    s.garbage_collection_cycle();
    assert_eq!(*log.borrow(), vec![3]);
}

#[test]
fn reregistration_replaces_cleanup() {
    let log = recorder();
    let mut s: PersistentStorage<i32, Cleanup> = PersistentStorage::default();
    s.register_for_garbage_collection(1, cleanup(&log, 10));
    s.register_for_garbage_collection(1, cleanup(&log, 11));
    s.garbage_collection_unset_all();
    s.garbage_collection_cycle();
    assert_eq!(*log.borrow(), vec![11]);
}

#[test]
fn storage_ref_clones_share_one_storage() {
    let a: PersistentStorageRef<i32, Cleanup> = PersistentStorageRef::default();
    let b = a.clone();
    a.borrow_mut().unwrap().insert(1, 2, 3);
    assert_eq!(b.borrow().unwrap().get(1, 2), Some(&3));
}

#[test]
fn appear_callback_fires_only_on_first_render() {
    // the `.on_appear()` modifier stores a flag under its identity and runs
    // its callback only when the flag is made
    let fired = Rc::new(RefCell::new(0));
    let mut s: PersistentStorage<bool, Cleanup> = PersistentStorage::default();
    for _ in 0..3 {
        let f = fired.clone();
        s.get_or_init_with(12, 0, move || {
            *f.borrow_mut() += 1;
            true
        });
    }
    assert_eq!(*fired.borrow(), 1);
}

#[test]
fn rendered_views_survive_the_pass() {
    // a render pass: clear the flags, mark reused views, register new ones,
    // then collect
    let log = recorder();
    let mut s: PersistentStorage<i32, Cleanup> = PersistentStorage::default();
    s.register_for_garbage_collection(1, cleanup(&log, 1));
    s.register_for_garbage_collection(2, cleanup(&log, 2));
    s.garbage_collection_unset_all();
    s.garbage_collection_mark_used(1);
    s.register_for_garbage_collection(3, cleanup(&log, 3));
    s.garbage_collection_cycle();
    assert_eq!(*log.borrow(), vec![2]);
}

#[test]
fn storage_ref_borrow_conflicts_are_errors() {
    let a: PersistentStorageRef<i32, Cleanup> = PersistentStorageRef::default();
    let b = a.clone();
    let reader = a.borrow().unwrap();
    assert!(b.borrow_mut().is_err());
    assert!(b.borrow().is_ok());
    drop(reader);
    let writer = b.borrow_mut().unwrap();
    assert!(a.borrow().is_err());
    drop(writer);
}
