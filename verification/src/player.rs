//! What makes an actor a player.

use vstd::prelude::*;
use crate::entity_map::Entity;

verus! {

/// Marks an actor that the player controls.
#[derive(Copy, Clone, Debug, PartialEq, Eq, Structural)]
pub struct Player;

/// The field-of-view map of a player, by its number.
#[derive(Copy, Clone, Debug, PartialEq, Eq, Structural)]
pub struct Fov {
    pub index: usize,
}

/// What an actor has at hand.
#[derive(Copy, Clone, Debug, PartialEq, Eq)]
pub struct Equipment {
    pub active_item: Option<Entity>,
    pub passive_item: Option<Entity>,
    pub clothing: Option<Entity>,
}

impl Equipment {
    /// Nothing at hand.
    pub fn new() -> (e: Equipment)
        ensures
            e.active_item.is_none(),
            e.passive_item.is_none(),
            e.clothing.is_none(),
    {
        Equipment { active_item: None, passive_item: None, clothing: None }
    }
}

} // verus!
