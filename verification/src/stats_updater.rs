//! What the death of a character does to the level.

use vstd::prelude::*;
use crate::common::CharacterStats;
use crate::entity_map::{position_of, without, Entity, Entry};
use crate::event_log::{EventLog, LogEvent};
use crate::geometry::Cell;
use crate::inventory::Inventory;
use crate::maps::{MapKind, Maps};
use crate::space::on_map;

verus! {

/// The system that takes dead characters off the level.
#[derive(Copy, Clone, Debug, PartialEq, Eq, Structural)]
pub struct StatsUpdater;

/// The entries of a cell after the items given have been dropped into it,
/// each as an occupant that stops movement and lets sight pass.
pub open spec fn dropped_into(entries: Seq<Entry>, items: Seq<Entity>) -> Seq<Entry>
    decreases items.len(),
{
    if items.len() == 0 {
        entries
    } else {
        dropped_into(entries, items.drop_last()).push(Entry(items.last(), true, false))
    }
}

impl StatsUpdater {
    /// Looks at the character `id`, which stands in `at`. A character
    /// without health dies: its death is logged, it leaves the index of
    /// characters, and what it carried lies in its cell. The result says
    /// whether it died.
    pub fn run(
        maps: &mut Maps,
        id: &Entity,
        at: Cell,
        stats: &CharacterStats,
        inventory: &mut Inventory,
        log: &mut EventLog,
    ) -> (died: bool)
        requires
            old(maps).wf(),
            on_map(at),
        ensures
            final(maps).wf(),
            final(maps).tiles == old(maps).tiles,
            died == (stats.health <= 0),
            !died ==> {
                &&& final(maps).characters == old(maps).characters
                &&& final(maps).items == old(maps).items
                &&& final(inventory).items@ == old(inventory).items@
                &&& final(log).logs@ == old(log).logs@
            },
            died ==> {
                &&& final(log).logs@ == seq![LogEvent::Died(*id)] + old(log).logs@
                &&& final(inventory).items@ == Seq::<Entity>::empty()
                &&& forall|q: Cell|
                    q != at ==> #[trigger] final(maps).characters.cell(q) == old(maps).characters.cell(q)
                &&& forall|q: Cell|
                    q != at ==> #[trigger] final(maps).items.cell(q) == old(maps).items.cell(q)
                &&& final(maps).characters.cell(at) == match position_of(
                    old(maps).characters.cell(at),
                    *id,
                ) {
                    Some(i) => without(old(maps).characters.cell(at), i),
                    None => old(maps).characters.cell(at),
                }
                &&& final(maps).items.cell(at) == dropped_into(
                    old(maps).items.cell(at),
                    old(inventory).items@,
                )
            },
    {
        if !stats.is_dead() {
            return false;
        }
        log.log(LogEvent::Died(*id));
        maps.remove(MapKind::Character, id, at);
        let mut i: usize = 0;
        while i < inventory.items.len()
            invariant
                i <= inventory.items@.len(),
                inventory.items@ == old(inventory).items@,
                on_map(at),
                maps.wf(),
                maps.tiles == old(maps).tiles,
                maps.characters.cell(at) == match position_of(old(maps).characters.cell(at), *id) {
                    Some(k) => without(old(maps).characters.cell(at), k),
                    None => old(maps).characters.cell(at),
                },
                forall|q: Cell|
                    q != at ==> #[trigger] maps.characters.cell(q) == old(maps).characters.cell(q),
                forall|q: Cell| q != at ==> #[trigger] maps.items.cell(q) == old(maps).items.cell(q),
                maps.items.cell(at) == dropped_into(
                    old(maps).items.cell(at),
                    inventory.items@.take(i as int),
                ),
            decreases inventory.items@.len() - i,
        {
            let item = inventory.items[i];
            proof {
                let next = inventory.items@.take(i as int + 1);
                assert(next.drop_last() == inventory.items@.take(i as int));
                assert(next.last() == item);
            }
            maps.push(MapKind::Item, &item, at);
            i = i + 1;
        }
        assert(inventory.items@.take(i as int) == inventory.items@);
        inventory.items = Vec::new();
        true
    }
}

} // verus!
