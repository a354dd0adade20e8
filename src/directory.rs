//! The object directory: what this process knows of each live server object, by id.
//!
//! The server reports removals by id alone, so the kind of a removed object has to be
//! recovered from what was recorded when it was announced.
use std::collections::HashMap;
use vstd::prelude::*;

verus! {

broadcast use vstd::std_specs::hash::group_hash_axioms;

/// The descriptor kept for a live server object.
pub enum GlobalObject {
    Node { name: String },
    Link,
    Port { node_name: String, node_id: u32, id: u32 },
}

/// Lookup from object id to descriptor.
pub struct State {
    objects: HashMap<u32, GlobalObject>,
}

impl View for State {
    type V = Map<u32, GlobalObject>;

    closed spec fn view(&self) -> Map<u32, GlobalObject> {
        self.objects@
    }
}

impl State {
    pub fn new() -> (r: Self)
        ensures
            r@ == Map::<u32, GlobalObject>::empty(),
    {
        State { objects: HashMap::new() }
    }

    pub fn get(&self, id: u32) -> (r: Option<&GlobalObject>)
        ensures
            match r {
                Some(o) => self@.contains_key(id) && *o == self@[id],
                None => !self@.contains_key(id),
            },
    {
        self.objects.get(&id)
    }

    /// Records `object` under `id`; a previous entry under the same id is replaced.
    pub fn add(&mut self, id: u32, object: GlobalObject)
        ensures
            final(self)@ == old(self)@.insert(id, object),
    {
        self.objects.insert(id, object);
    }

    pub fn remove(&mut self, id: u32) -> (r: Option<GlobalObject>)
        ensures
            final(self)@ == old(self)@.remove(id),
            match r {
                Some(o) => old(self)@.contains_key(id) && o == old(self)@[id],
                None => !old(self)@.contains_key(id),
            },
    {
        self.objects.remove(&id)
    }
}

} // verus!
