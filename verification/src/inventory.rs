//! What an actor carries.

use vstd::prelude::*;
use crate::entity_map::Entity;

verus! {

/// The items that an actor carries, the newest last.
#[derive(Clone, Debug, PartialEq, Eq)]
pub struct Inventory {
    pub items: Vec<Entity>,
}

impl Inventory {
    /// An empty inventory.
    pub fn new() -> (inventory: Inventory)
        ensures
            inventory.items@ == Seq::<Entity>::empty(),
    {
        Inventory { items: Vec::new() }
    }

    /// Adds an item.
    pub fn push(&mut self, entity: Entity)
        ensures
            final(self).items@ == old(self).items@.push(entity),
    {
        self.items.push(entity);
    }

    /// Takes the newest item out, if there is one.
    pub fn pop(&mut self) -> (r: Option<Entity>)
        ensures
            old(self).items@.len() == 0 ==> r.is_none() && final(self).items@ == old(self).items@,
            old(self).items@.len() > 0 ==> r == Some(old(self).items@.last())
                && final(self).items@ == old(self).items@.drop_last(),
    {
        self.items.pop()
    }

    /// The item at a place, if there is one.
    pub fn get(&self, i: usize) -> (r: Option<Entity>)
        ensures
            r == if i < self.items@.len() {
                Some(self.items@[i as int])
            } else {
                None
            },
    {
        if i < self.items.len() {
            Some(self.items[i])
        } else {
            None
        }
    }
}

} // verus!
