//! The type-keyed store that RPC handlers share: one value per type, found
//! again by the type's identifier.

use std::any::TypeId;
use vstd::prelude::*;
use crate::table::{Table, TableKey};

verus! {

/// `std::any::TypeId`, the identifier of a type; the store's key.
#[verifier::external_type_specification]
#[verifier::external_body]
pub struct ExTypeId(TypeId);

/// `TypeId`'s `==`: two identifiers compare equal exactly when they are the
/// same identifier (it compares every field of both).
#[verifier::external_body]
fn type_ids_equal(a: &TypeId, b: &TypeId) -> (r: bool)
    ensures
        r == (*a == *b),
{
    *a == *b
}

impl TableKey for TypeId {
    type KeyView = TypeId;

    open spec fn key_view(&self) -> TypeId {
        *self
    }

    fn same_key(&self, other: &Self) -> (r: bool) {
        type_ids_equal(self, other)
    }
}

/// At most one value per type identifier. `V` is the type of a stored value.
pub struct TypeStore<V> {
    slots: Table<TypeId, V>,
}

impl<V> View for TypeStore<V> {
    type V = Map<TypeId, V>;

    closed spec fn view(&self) -> Map<TypeId, V> {
        self.slots.view()
    }
}

impl<V> TypeStore<V> {
    #[verifier::type_invariant]
    closed spec fn well_formed(self) -> bool {
        self.slots.wf()
    }

    /// A store that holds nothing.
    pub fn new() -> (s: Self)
        ensures
            s@ == Map::<TypeId, V>::empty(),
            s@.dom().finite(),
    {
        TypeStore { slots: Table::new() }
    }
}

impl<V> TypeStore<V> {
    /// Number of types with a stored value.
    pub fn len(&self) -> (n: usize)
        ensures
            self@.dom().finite(),
            n == self@.dom().len(),
    {
        proof {
            use_type_invariant(self);
            self.slots.lemma_view();
        }
        self.slots.len()
    }
}

/// The value stored under `key`, if any.
pub fn get<'a, V>(store: &'a TypeStore<V>, key: &TypeId) -> (r: Option<&'a V>)
    ensures
        match r {
            Some(v) => store@.contains_key(*key) && *v == store@[*key],
            None => !store@.contains_key(*key),
        },
{
    proof { use_type_invariant(store); }
    store.slots.get(key)
}

/// Stores `value` under `key`, in place of whatever was stored there.
pub fn set<V>(store: &mut TypeStore<V>, key: TypeId, value: V)
    ensures
        final(store)@ == old(store)@.insert(key, value),
        old(store)@.dom().finite(),
        final(store)@.dom().finite(),
{
    proof {
        use_type_invariant(&*store);
        store.slots.lemma_view();
    }
    let mut slots = Table::new();
    std::mem::swap(&mut slots, &mut store.slots);
    slots.insert(key, value);
    proof { slots.lemma_view(); }
    store.slots = slots;
}

/// A read gives back what the last write under the same key wrote, and a
/// write leaves every other key as it was.
pub proof fn law_get_after_set<V>(before: Map<TypeId, V>, key: TypeId, value: V, other: TypeId)
    requires
        other != key,
    ensures
        before.insert(key, value).contains_key(key),
        before.insert(key, value)[key] == value,
        before.insert(key, value).contains_key(other) == before.contains_key(other),
        before.contains_key(other) ==> before.insert(key, value)[other] == before[other],
{
}

} // verus!
