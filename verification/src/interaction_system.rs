//! What an interaction does to a fixture and to the level around it.

use vstd::prelude::*;
use crate::appearance::{Color, Renderable};
use crate::entity_map::{with_blocking, with_sight_blocking, Entity};
use crate::game_state::GameState;
use crate::geometry::Cell;
use crate::interaction::{closed, interacted, Interactable};
use crate::item::Item;
use crate::maps::{MapKind, Maps};
use crate::space::{is_on_map, on_map};

verus! {

/// The system that resolves interactions.
#[derive(Copy, Clone, Debug, PartialEq, Eq, Structural)]
pub struct InteractionSystem;

/// An item behind a reference, as a value.
pub open spec fn held(item: Option<&Item>) -> Option<Item> {
    match item {
        Some(i) => Some(*i),
        None => None,
    }
}

impl InteractionSystem {
    /// Lets an actor with `active` and `passive` at hand interact with the
    /// fixture `id`, which stands in `at` where it has a place on the map.
    ///
    /// The entry of the fixture in the index of characters takes over
    /// whether the fixture stops movement and sight. Where the fixture
    /// changes what it does to sight, what is in sight has to be computed
    /// anew. The result is how the fixture is drawn from now on.
    pub fn run(
        interactable: &mut Interactable,
        active: Option<&Item>,
        passive: Option<&Item>,
        clothing: Option<&Item>,
        maps: &mut Maps,
        id: &Entity,
        at: Option<Cell>,
        state: &mut GameState,
    ) -> (r: Renderable)
        requires
            old(maps).wf(),
        ensures
            final(maps).wf(),
            final(maps).tiles == old(maps).tiles,
            final(maps).items == old(maps).items,
            final(interactable).initial_state == old(interactable).initial_state,
            final(interactable).state == interacted(
                old(interactable).state,
                held(active),
                held(passive),
            ),
            r.color == Color::Gold,
            r.character == if closed(final(interactable).state) {
                'D'
            } else {
                '_'
            },
            final(state).is_turn_based == old(state).is_turn_based,
            match at {
                Some(p) if on_map(p) => {
                    let blocks = closed(final(interactable).state);
                    &&& final(maps).characters.cell(p) == with_sight_blocking(
                        with_blocking(old(maps).characters.cell(p), *id, blocks),
                        *id,
                        blocks,
                    )
                    &&& forall|q: Cell|
                        q != p ==> #[trigger] final(maps).characters.cell(q) == old(maps).characters.cell(q)
                    &&& final(state).fov_needs_update == (old(state).fov_needs_update || closed(
                        old(interactable).state,
                    ) != blocks)
                },
                _ => final(maps).characters == old(maps).characters && final(state).fov_needs_update
                    == old(state).fov_needs_update,
            },
    {
        let was_sight_blocking = interactable.is_sight_blocking();
        interactable.interact_with(active, passive, clothing);
        let renderable = interactable.get_renderable();
        if let Some(p) = at {
            if is_on_map(p) {
                maps.set_blocking(MapKind::Character, id, p, interactable.is_blocking());
                maps.set_sight_blocking(MapKind::Character, id, p, interactable.is_sight_blocking());
                if was_sight_blocking != interactable.is_sight_blocking() {
                    state.fov_needs_update = true;
                }
            }
        }
        renderable
    }
}

} // verus!
