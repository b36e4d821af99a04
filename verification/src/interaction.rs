//! Fixtures that react to an actor and what it has at hand.

use vstd::prelude::*;
use crate::appearance::{Color, Renderable};
use crate::entity_map::Entity;
use crate::item::{Item, ItemInstance};

verus! {

/// The fixtures of the game. A key door has the lowest level of key card
/// that opens it, and is open or closed.
#[derive(Copy, Clone, Debug, PartialEq, Eq, Structural)]
pub enum InteractableInstance {
    KeyDoor(i32, bool),
}

/// An actor has asked to interact with the fixture that carries this.
#[derive(Copy, Clone, Debug, PartialEq, Eq, Structural)]
pub struct Interaction {
    pub actor: Entity,
}

/// A fixture: its state, and the state it starts a game in.
#[derive(Copy, Clone, Debug, PartialEq, Eq, Structural)]
pub struct Interactable {
    pub state: InteractableInstance,
    pub initial_state: InteractableInstance,
}

/// Whether a key door that needs a card of `min_level` is open after an
/// actor has used `tool` on it: an open door closes; a closed door opens to
/// a key card of that level or higher, and a door of level 0 to anything.
pub open spec fn door_after(min_level: i32, open: bool, tool: Option<Item>) -> bool {
    if open {
        false
    } else {
        match tool {
            Some(Item { instance: ItemInstance::KeyCard(level) }) => level >= min_level,
            _ => min_level == 0,
        }
    }
}

/// The fixture after an actor with `active` and `passive` at hand has
/// interacted with it: the passive item is tried where the active one
/// changes nothing.
pub open spec fn interacted(
    state: InteractableInstance,
    active: Option<Item>,
    passive: Option<Item>,
) -> InteractableInstance {
    match state {
        InteractableInstance::KeyDoor(min_level, open) => {
            let first = door_after(min_level, open, active);
            InteractableInstance::KeyDoor(
                min_level,
                if first == open {
                    door_after(min_level, open, passive)
                } else {
                    first
                },
            )
        },
    }
}

/// Whether a fixture stops movement, and sight: a closed door does both.
pub open spec fn closed(state: InteractableInstance) -> bool {
    match state {
        InteractableInstance::KeyDoor(_, open) => !open,
    }
}

impl Interactable {
    pub fn new(instance: InteractableInstance) -> (i: Interactable)
        ensures
            i.state == instance,
            i.initial_state == instance,
    {
        Interactable { state: instance, initial_state: instance }
    }

    pub fn key_door_new_state(min_level: i32, open: bool, tool: Option<&Item>) -> (now_open: bool)
        ensures
            now_open == door_after(
                min_level,
                open,
                match tool {
                    Some(item) => Some(*item),
                    None => None,
                },
            ),
    {
        if open {
            false
        } else {
            if let Some(item) = tool {
                match item.instance {
                    ItemInstance::KeyCard(level) => level >= min_level,
                    _ => min_level == 0,
                }
            } else {
                min_level == 0
            }
        }
    }

    /// Lets an actor interact with the fixture. What the actor wears makes
    /// no difference.
    pub fn interact_with(
        &mut self,
        active: Option<&Item>,
        passive: Option<&Item>,
        clothing: Option<&Item>,
    )
        ensures
            final(self).initial_state == old(self).initial_state,
            final(self).state == interacted(
                old(self).state,
                match active {
                    Some(item) => Some(*item),
                    None => None,
                },
                match passive {
                    Some(item) => Some(*item),
                    None => None,
                },
            ),
    {
        self.state = match self.state {
            InteractableInstance::KeyDoor(min_level, open) => {
                let mut new_open = Interactable::key_door_new_state(min_level, open, active);
                if open == new_open {
                    new_open = Interactable::key_door_new_state(min_level, open, passive);
                }
                InteractableInstance::KeyDoor(min_level, new_open)
            },
        }
    }

    /// How the fixture is drawn: a closed door as `D`, an open one as `_`.
    pub fn get_renderable(&self) -> (r: Renderable)
        ensures
            r.color == Color::Gold,
            r.character == if closed(self.state) {
                'D'
            } else {
                '_'
            },
    {
        match self.state {
            InteractableInstance::KeyDoor(_level, open) => {
                let mut c = '_';
                if !open {
                    c = 'D';
                }
                Renderable::new(c, Color::Gold)
            },
        }
    }

    pub fn is_blocking(&self) -> (b: bool)
        ensures
            b == closed(self.state),
    {
        match self.state {
            InteractableInstance::KeyDoor(_level, open) => !open,
        }
    }

    pub fn is_sight_blocking(&self) -> (b: bool)
        ensures
            b == closed(self.state),
    {
        match self.state {
            InteractableInstance::KeyDoor(_level, open) => !open,
        }
    }

    /// Puts the fixture back into the state it starts a game in.
    pub fn reset(&mut self)
        ensures
            final(self).state == old(self).initial_state,
            final(self).initial_state == old(self).initial_state,
    {
        self.state = self.initial_state;
    }
}

} // verus!
