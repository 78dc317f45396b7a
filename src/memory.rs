use crate::primitive::{Primitive, SVMObject, SVMPrimitives, Version};
use dashmap::DashMap;
use vstd::prelude::*;

verus! {

#[verifier::external_type_specification]
#[verifier::external_body]
#[verifier::reject_recursive_types(K)]
#[verifier::reject_recursive_types(V)]
#[verifier::reject_recursive_types(S)]
pub struct ExDashMap<K, V, S>(DashMap<K, V, S>);

/// The entries held by a map of stored objects, keyed by the bytes of the key.
pub uninterp spec fn stored_entries(m: DashMap<Vec<u8>, SVMObject<SVMPrimitives>>) -> Map<
    Seq<u8>,
    SVMObject<Primitive>,
>;

/// Relies on `DashMap::new`: the new map holds no entry.
#[verifier::external_body]
fn objects_new() -> (r: DashMap<Vec<u8>, SVMObject<SVMPrimitives>>)
    ensures
        stored_entries(r) =~= Map::empty(),
{
    DashMap::new()
}

/// Relies on `DashMap::get`: the entry stored under `key`, if any, read out
/// through `Ref::value` and copied.
#[verifier::external_body]
fn objects_get(m: &DashMap<Vec<u8>, SVMObject<SVMPrimitives>>, key: &Vec<u8>) -> (r: Option<
    SVMObject<SVMPrimitives>,
>)
    ensures
        r is Some <==> stored_entries(*m).contains_key(key@),
        r is Some ==> r->0@ == stored_entries(*m)[key@],
{
    m.get(key).map(|entry| entry.value().clone())
}

/// Relies on `DashMap::insert`: the entry under `key` becomes `object`, and
/// every other entry stays.
#[verifier::external_body]
fn objects_insert(
    m: &mut DashMap<Vec<u8>, SVMObject<SVMPrimitives>>,
    key: Vec<u8>,
    object: SVMObject<SVMPrimitives>,
)
    ensures
        stored_entries(*final(m)) == stored_entries(*old(m)).insert(key@, object@),
{
    m.insert(key, object);
}

/// The version of `key` in a store view; 0 for a key never written.
pub open spec fn version_of(store: Map<Seq<u8>, SVMObject<Primitive>>, key: Seq<u8>) -> Version {
    if store.contains_key(key) {
        store[key].version
    } else {
        0
    }
}

/// The versioned store: each key maps to its current value and version.
pub struct SVMMemory {
    objects: DashMap<Vec<u8>, SVMObject<SVMPrimitives>>,
}

impl View for SVMMemory {
    type V = Map<Seq<u8>, SVMObject<Primitive>>;

    closed spec fn view(&self) -> Map<Seq<u8>, SVMObject<Primitive>> {
        stored_entries(self.objects)
    }
}

impl SVMMemory {
    /// An empty store.
    pub fn new() -> (r: Self)
        ensures
            r@ == Map::<Seq<u8>, SVMObject<Primitive>>::empty(),
    {
        let objects = objects_new();
        proof {
            assert(stored_entries(objects) =~= Map::empty());
        }
        SVMMemory { objects }
    }

    /// The current value and version of `key`, or `None` if it was never written.
    pub fn get(&self, key: Vec<u8>) -> (r: Option<SVMObject<SVMPrimitives>>)
        ensures
            r is Some <==> self@.contains_key(key@),
            r is Some ==> r->0@ == self@[key@],
    {
        objects_get(&self.objects, &key)
    }

    /// Overwrites the entry of `key` with `object`, whatever it held before.
    pub fn set(&mut self, key: Vec<u8>, object: SVMObject<SVMPrimitives>)
        ensures
            final(self)@ == old(self)@.insert(key@, object@),
    {
        objects_insert(&mut self.objects, key, object);
    }
}

} // verus!
