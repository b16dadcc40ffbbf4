use pufferfish::{transmute_handle, ResourceManager};

#[test]
fn allocate_set_get_round_trip() {
    let mut rm: ResourceManager<u32> = ResourceManager::new();
    let h = rm.allocate(5);
    assert!(rm.is_live(h));
    assert_eq!(rm.borrow_flag(h), 0);
    rm.set(h, 42);
    let r = rm.get(h).expect("the slot was set");
    assert_eq!(*rm.read(&r), 42);
    rm.release(r);
    assert_eq!(rm.borrow_flag(h), 0);
}

#[test]
fn get_before_set_is_none() {
    let mut rm: ResourceManager<u32> = ResourceManager::new();
    let h = rm.allocate(5);
    assert!(rm.get(h).is_none());
    assert!(rm.get_mut(h).is_none());
}

#[test]
fn shared_borrows_stack() {
    let mut rm: ResourceManager<u32> = ResourceManager::new();
    let h = rm.allocate(1);
    rm.set(h, 7);
    let a = rm.get(h).unwrap();
    let b = rm.get(h).unwrap();
    assert_eq!(rm.borrow_flag(h), 2);
    assert_eq!(*rm.read(&a), 7);
    assert_eq!(*rm.read(&b), 7);
    rm.release(a);
    assert_eq!(rm.borrow_flag(h), 1);
    rm.release(b);
    assert_eq!(rm.borrow_flag(h), 0);
}

#[test]
fn exclusive_borrow_writes() {
    let mut rm: ResourceManager<u32> = ResourceManager::new();
    let h = rm.allocate(1);
    rm.set(h, 7);
    let m = rm.get_mut(h).unwrap();
    assert_eq!(rm.borrow_flag(h), -1);
    assert_eq!(*rm.read_mut(&m), 7);
    rm.write(&m, 8);
    assert_eq!(*rm.read_mut(&m), 8);
    rm.release_mut(m);
    assert_eq!(rm.borrow_flag(h), 0);
    let r = rm.get(h).unwrap();
    assert_eq!(*rm.read(&r), 8);
    rm.release(r);
}

#[test]
fn per_token_slots_are_numbered_independently() {
    let mut rm: ResourceManager<u32> = ResourceManager::new();
    let a1 = rm.allocate(1);
    let a2 = rm.allocate(1);
    let b1 = rm.allocate(2);
    assert_ne!(a1, a2);
    rm.set(a1, 10);
    rm.set(a2, 20);
    rm.set(b1, 30);
    let r = rm.get(a2).unwrap();
    assert_eq!(*rm.read(&r), 20);
    rm.release(r);
    let r = rm.get(b1).unwrap();
    assert_eq!(*rm.read(&r), 30);
    rm.release(r);
}

#[test]
fn transmuted_handle_reaches_the_other_token() {
    let mut rm: ResourceManager<u32> = ResourceManager::new();
    let a = rm.allocate(1);
    let b = rm.allocate(2);
    assert_eq!(transmute_handle(a, 2), b);
    rm.set(b, 5);
    let r = rm.get(transmute_handle(a, 2)).unwrap();
    assert_eq!(*rm.read(&r), 5);
    rm.release(r);
}

#[test]
fn unknown_handle_is_not_live() {
    let mut rm: ResourceManager<u32> = ResourceManager::new();
    let h = rm.allocate(1);
    assert!(!rm.is_live(transmute_handle(h, 9)));
}
