use std::any::TypeId;
use mefrpd::store::TypeStore;
use mefrpd::store;

#[test]
fn empty_store_holds_nothing() {
    let s: TypeStore<u64> = TypeStore::new();
    assert!(store::get(&s, &TypeId::of::<i32>()).is_none());
}

#[test]
fn get_after_set() {
    let mut s: TypeStore<u64> = TypeStore::new();
    store::set(&mut s, TypeId::of::<i32>(), 1);
    assert_eq!(store::get(&s, &TypeId::of::<i32>()), Some(&1));
}

#[test]
fn set_replaces_and_keeps_other_types() {
    let mut s: TypeStore<u64> = TypeStore::new();
    store::set(&mut s, TypeId::of::<i32>(), 1);
    store::set(&mut s, TypeId::of::<String>(), 2);
    store::set(&mut s, TypeId::of::<i32>(), 3);
    assert_eq!(store::get(&s, &TypeId::of::<i32>()), Some(&3));
    assert_eq!(store::get(&s, &TypeId::of::<String>()), Some(&2));
    assert!(store::get(&s, &TypeId::of::<u8>()).is_none());
    assert_eq!(s.len(), 2);
}
