//! What the active player does with the input of a tick: walk, attack,
//! interact, pick up, drop, equip.

use vstd::prelude::*;
use crate::common::{
    distance_cost,
    walk_cost,
    CharacterStats,
    InTurn,
    InTurnState,
    ItemStats,
};
use crate::entity_map::{with_blocking, with_sight_blocking, Entity, Entry};
use crate::event_log::{EventLog, LogEvent};
use crate::geometry::{fits, shape_cells, Cell, Rect};
use crate::inventory::Inventory;
use crate::maps::{occupants, MapKind, Maps};
use crate::player::Equipment;
use crate::space::{on_map, Viewport, MAP_HEIGHT, MAP_WIDTH, MAP_Y};

verus! {

/// The system that turns the input of the active player into actions.
#[derive(Copy, Clone, Debug, PartialEq, Eq, Structural)]
pub struct PlayerController;

/// The direction keys that are held down.
#[derive(Copy, Clone, Debug, PartialEq, Eq, Structural)]
pub struct DirectionKeys {
    pub left: bool,
    pub down: bool,
    pub up: bool,
    pub right: bool,
}

/// The direction that the keys held down add up to.
pub open spec fn delta_of(keys: DirectionKeys) -> (int, int) {
    (
        (if keys.right { 1int } else { 0 }) - (if keys.left { 1int } else { 0 }),
        (if keys.down { 1int } else { 0 }) - (if keys.up { 1int } else { 0 }),
    )
}

pub fn get_delta(keys: &DirectionKeys) -> (delta: Cell)
    ensures
        delta.0 == delta_of(*keys).0,
        delta.1 == delta_of(*keys).1,
{
    let mut x: i32 = 0;
    let mut y: i32 = 0;
    if keys.left {
        x = x - 1;
    }
    if keys.down {
        y = y + 1;
    }
    if keys.up {
        y = y - 1;
    }
    if keys.right {
        x = x + 1;
    }
    (x, y)
}

/// The cell of the map that a position on the screen points at: the
/// position is taken through the viewport and then off the panel; it must
/// lie on the map and, before the panel is taken off, in the viewport.
pub open spec fn pointed_cell(viewport: &Viewport, mouse: Cell) -> Option<Cell> {
    let x = mouse.0 + viewport.r.x1;
    let y = mouse.1 + viewport.r.y1;
    if 0 <= x < MAP_WIDTH && 0 <= y - MAP_Y < MAP_HEIGHT && viewport.r.x1 <= x < viewport.r.x2
        && viewport.r.y1 <= y < viewport.r.y2 {
        Some((x as i32, (y - MAP_Y) as i32))
    } else {
        None
    }
}

/// The first of `found` that is among `wanted`.
pub open spec fn first_among(found: Seq<Entity>, wanted: Seq<Entity>) -> Option<Entity>
    decreases found.len(),
{
    if found.len() == 0 {
        None
    } else if wanted.contains(found[0]) {
        Some(found[0])
    } else {
        first_among(found.skip(1), wanted)
    }
}

/// The three by three cells around a cell of the map.
pub open spec fn around(at: Cell) -> Rect {
    Rect {
        x1: (at.0 - 1) as i32,
        y1: (at.1 - 1) as i32,
        x2: (at.0 + 2) as i32,
        y2: (at.1 + 2) as i32,
    }
}

/// The place in the inventory that a digit key stands for: the keys 1 to 9
/// for the first nine places, the key 0 for the tenth.
pub open spec fn slot_of(digit: int) -> int {
    (digit + 9) % 10
}

impl PlayerController {
    /// The cell of the map that the mouse points at.
    pub fn target_cell(maps: &Maps, viewport: &Viewport, mouse: Cell) -> (r: Option<Cell>)
        ensures
            r == pointed_cell(viewport, mouse),
    {
        let x: i64 = mouse.0 as i64 + viewport.r.x1 as i64;
        let y: i64 = mouse.1 as i64 + viewport.r.y1 as i64;
        if x < i32::MIN as i64 || x > i32::MAX as i64 || y < i32::MIN as i64 || y > i32::MAX as i64 {
            return None;
        }
        let pos_trans: Cell = (x as i32, y as i32);
        match maps.screen_to_map(pos_trans) {
            Some(pos) => {
                if viewport.visible(pos_trans) {
                    Some(pos)
                } else {
                    None
                }
            },
            None => None,
        }
    }

    /// Plans a walk of the actor in turn from `at` to `to`. Where a walk
    /// leads there and the turn allows a walk of its length, the walk is
    /// charged to the turn and returned. Otherwise nothing changes.
    pub fn plan_walk(maps: &Maps, id: &Entity, at: Cell, to: Cell, turn: &mut InTurn) -> (r: Option<
        Vec<Cell>,
    >)
        requires
            maps.wf(),
            old(turn).action_points >= i32::MIN + 2,
        ensures
            match r {
                Some(path) => {
                    &&& path@.len() > 0
                    &&& maps.walk_joins(*id, at, to, path@)
                    &&& forall|route: Seq<Cell>|
                        maps.walk_joins(*id, at, to, route) ==> path@.len() <= route.len()
                    &&& walk_cost(path@.len() as int, old(turn).has_walked).is_some()
                    &&& *final(turn) == (InTurn {
                        state: InTurnState::Walking,
                        has_walked: true,
                        action_points: (old(turn).action_points - walk_cost(
                            path@.len() as int,
                            old(turn).has_walked,
                        ).unwrap()) as i32,
                    })
                },
                None => *final(turn) == *old(turn),
            },
            r.is_none() ==> at == to || (forall|route: Seq<Cell>|
                !maps.walk_joins(*id, at, to, route)) || (forall|route: Seq<Cell>|
                maps.walk_joins(*id, at, to, route) ==> walk_cost(
                    route.len() as int,
                    old(turn).has_walked,
                ).is_none()),
    {
        let path = maps.find_path(id, at, to);
        if path.len() == 0 {
            return None;
        }
        match distance_cost(path.len(), turn) {
            Some(cost) => {
                turn.walk(cost);
                Some(path)
            },
            None => None,
        }
    }

    /// Plans an attack of the actor in turn from `at` toward `to` with a
    /// weapon that reaches `range` cells. The target is the first character
    /// on the way. An attack takes all the action points that are left and
    /// ends at once.
    pub fn plan_attack(maps: &Maps, at: Cell, to: Cell, range: i32, turn: &mut InTurn) -> (r: Option<
        Entity,
    >)
        requires
            maps.wf(),
        ensures
            ({
                let on_way = occupants(&maps.characters, maps.ray_cells(at, to, range as int));
                if on_way.len() > 0 {
                    &&& r == Some(on_way[0])
                    &&& *final(turn) == (InTurn {
                        state: InTurnState::Idle,
                        has_walked: old(turn).has_walked,
                        action_points: 0,
                    })
                    &&& final(turn).done()
                } else {
                    r.is_none() && *final(turn) == *old(turn)
                }
            }),
    {
        let characters = maps.collect_characters_with_ray(at, to, range);
        if characters.len() > 0 {
            turn.fight();
            turn.action_done();
            Some(characters[0])
        } else {
            None
        }
    }

    /// Lets `attacker` hit `target` with a weapon, and logs the hit.
    pub fn strike(
        attacker: &Entity,
        target: &Entity,
        weapon: &ItemStats,
        stats: &mut CharacterStats,
        log: &mut EventLog,
    )
        requires
            fits(old(stats).health - weapon.damage),
        ensures
            final(stats).health == old(stats).health - weapon.damage,
            final(stats).max_health == old(stats).max_health,
            final(log).logs@ == seq![LogEvent::DidDamage(*attacker, *target, weapon.damage)] + old(log).logs@,
    {
        let damage = stats.apply_damage(weapon);
        log.log(LogEvent::DidDamage(*attacker, *target, damage));
    }

    /// The first fixture in the cell of the actor or in one of the eight
    /// cells around it, row by row.
    pub fn find_interactable(maps: &Maps, at: Cell, interactables: &Vec<Entity>) -> (r: Option<
        Entity,
    >)
        requires
            maps.wf(),
            on_map(at),
        ensures
            r == first_among(
                occupants(&maps.characters, shape_cells(around(at))),
                interactables@,
            ),
    {
        let targets = maps.collect_characters_with_shape(Rect::new(at.0 - 1, at.1 - 1, 3, 3));
        let mut i: usize = 0;
        assert(targets@.skip(0) == targets@);
        while i < targets.len()
            invariant
                i <= targets.len(),
                targets@ == occupants(&maps.characters, shape_cells(around(at))),
                first_among(targets@, interactables@) == first_among(
                    targets@.skip(i as int),
                    interactables@,
                ),
            decreases targets.len() - i,
        {
            proof {
                assert(targets@.skip(i as int).skip(1) == targets@.skip(i as int + 1));
                assert(targets@.skip(i as int)[0] == targets@[i as int]);
            }
            if crate::round_scheduler::is_among(interactables, &targets[i]) {
                return Some(targets[i]);
            }
            i = i + 1;
        }
        None
    }

    /// Picks up the newest item in the cell of the actor.
    pub fn pick_up(maps: &mut Maps, at: Cell, inventory: &mut Inventory) -> (r: Option<Entity>)
        requires
            old(maps).wf(),
            on_map(at),
        ensures
            final(maps).wf(),
            final(maps).tiles == old(maps).tiles,
            final(maps).characters == old(maps).characters,
            forall|q: Cell| q != at ==> #[trigger] final(maps).items.cell(q) == old(maps).items.cell(q),
            old(maps).items.cell(at).len() == 0 ==> {
                &&& r.is_none()
                &&& final(maps).items.cell(at) == old(maps).items.cell(at)
                &&& final(inventory).items@ == old(inventory).items@
            },
            old(maps).items.cell(at).len() > 0 ==> {
                &&& r == Some(old(maps).items.cell(at).last().0)
                &&& final(maps).items.cell(at) == old(maps).items.cell(at).drop_last()
                &&& final(inventory).items@ == old(inventory).items@.push(
                    old(maps).items.cell(at).last().0,
                )
            },
    {
        match maps.pop(MapKind::Item, at) {
            Some(entry) => {
                inventory.push(entry.0);
                Some(entry.0)
            },
            None => None,
        }
    }

    /// Drops the newest item of the inventory into the cell of the actor,
    /// where it stops neither movement nor sight.
    pub fn drop_item(maps: &mut Maps, at: Cell, inventory: &mut Inventory) -> (r: Option<Entity>)
        requires
            old(maps).wf(),
            on_map(at),
        ensures
            final(maps).wf(),
            final(maps).tiles == old(maps).tiles,
            final(maps).characters == old(maps).characters,
            forall|q: Cell| q != at ==> #[trigger] final(maps).items.cell(q) == old(maps).items.cell(q),
            old(inventory).items@.len() == 0 ==> {
                &&& r.is_none()
                &&& final(maps).items.cell(at) == old(maps).items.cell(at)
                &&& final(inventory).items@ == old(inventory).items@
            },
            old(inventory).items@.len() > 0 ==> {
                let item = old(inventory).items@.last();
                &&& r == Some(item)
                &&& final(inventory).items@ == old(inventory).items@.drop_last()
                &&& final(maps).items.cell(at) == with_sight_blocking(
                    with_blocking(
                        old(maps).items.cell(at).push(Entry(item, true, false)),
                        item,
                        false,
                    ),
                    item,
                    false,
                )
            },
    {
        match inventory.pop() {
            Some(item) => {
                maps.push(MapKind::Item, &item, at);
                maps.set_blocking(MapKind::Item, &item, at, false);
                maps.set_sight_blocking(MapKind::Item, &item, at, false);
                Some(item)
            },
            None => None,
        }
    }

    /// Takes the item that a digit key stands for to hand, where the
    /// inventory has an item at that place.
    pub fn equip(inventory: &Inventory, equipment: &mut Equipment, digit: i32)
        requires
            0 <= digit <= 9,
        ensures
            final(equipment).passive_item == old(equipment).passive_item,
            final(equipment).clothing == old(equipment).clothing,
            final(equipment).active_item == if slot_of(digit as int) < inventory.items@.len() {
                Some(inventory.items@[slot_of(digit as int)])
            } else {
                old(equipment).active_item
            },
    {
        let slot = ((digit + 9) % 10) as usize;
        if let Some(item) = inventory.get(slot) {
            equipment.active_item = Some(item);
        }
    }
}

} // verus!
