use vstd::prelude::*;
use crate::entity::EntityId;

verus! {

/// What a name denotes in a region: one entity, or a set of overloads.
#[derive(Debug)]
pub enum NamedEntities {
    Single(EntityId),
    Overloaded(Vec<EntityId>),
}

/// A scope and the entities declared immediately in it, in declaration order.
#[derive(Debug)]
pub struct Region {
    pub entries: Vec<NamedEntities>,
}

impl Region {
    pub fn new() -> (r: Region)
        ensures
            r.entries@.len() == 0,
    {
        Region { entries: Vec::new() }
    }

    pub fn add(&mut self, n: NamedEntities)
        ensures
            final(self).entries@ == old(self).entries@.push(n),
    {
        self.entries.push(n);
    }
}

} // verus!
