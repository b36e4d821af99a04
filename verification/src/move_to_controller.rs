//! Walking along a path, one tick at a time.
//!
//! Each tick an actor with a path makes a step toward the next cell of the
//! path. Before the step counts, the cell it leads to is tested once more:
//! where the actor can no longer plan a step onto it, the path is given up.

use vstd::prelude::*;
use crate::common::MoveToPosition;
use crate::entity_map::{position_of, without, Entity};
use crate::geometry::Cell;
use crate::maps::{MapKind, Maps};
use crate::space::{is_on_map, on_map};

verus! {

/// Where the step of this tick leads.
#[derive(Copy, Clone, Debug, PartialEq, Eq)]
pub enum Motion {
    /// The actor stands where the path leads next.
    AtTarget,
    /// The actor steps into `cell`, and with that step reaches where the
    /// path leads next, or not yet.
    Step { cell: Cell, arrives: bool },
}

/// What became of the step.
#[derive(Copy, Clone, Debug, PartialEq, Eq)]
pub enum MoveOutcome {
    /// There was no path to walk.
    Idle,
    /// The actor stood where the path led; the path leads on from there.
    Reached,
    /// The actor has stepped into the cell.
    Moved(Cell),
    /// The step was not possible; the path is given up.
    Blocked,
}

/// What a tick makes of the path and of the actor.
#[derive(Copy, Clone, Debug, PartialEq, Eq)]
pub struct MoveResult {
    pub outcome: MoveOutcome,
    /// Whether the actor has no path left.
    pub finished: bool,
}

/// The outcome of a step, where `blocked` says whether the actor cannot
/// plan a step onto the cell it leads to.
pub open spec fn outcome_of(path: Seq<Cell>, motion: Motion, blocked: bool) -> MoveOutcome {
    if path.len() == 0 {
        MoveOutcome::Idle
    } else {
        match motion {
            Motion::AtTarget => MoveOutcome::Reached,
            Motion::Step { cell, arrives } => if blocked {
                MoveOutcome::Blocked
            } else {
                MoveOutcome::Moved(cell)
            },
        }
    }
}

/// The path after a step: a cell that was reached leaves the path, and a
/// path that is blocked is given up.
pub open spec fn path_after(path: Seq<Cell>, motion: Motion, blocked: bool) -> Seq<Cell> {
    if path.len() == 0 {
        path
    } else {
        match motion {
            Motion::AtTarget => path.skip(1),
            Motion::Step { cell, arrives } => if blocked {
                Seq::empty()
            } else if arrives {
                path.skip(1)
            } else {
                path
            },
        }
    }
}

/// The system that moves actors along their paths.
#[derive(Copy, Clone, Debug, PartialEq, Eq, Structural)]
pub struct MoveToController;

impl MoveToController {
    /// The cell that the step of this tick leads to, where it is a step.
    pub open spec fn goal(motion: Motion) -> Cell {
        match motion {
            Motion::Step { cell, arrives } => cell,
            Motion::AtTarget => (0, 0),
        }
    }

    /// One tick for the actor `id`, which stands in `at`.
    ///
    /// A step that is possible moves the actor in the index of characters in
    /// the same tick.
    pub fn run(
        maps: &mut Maps,
        id: &Entity,
        at: Cell,
        movement: &mut MoveToPosition,
        motion: Motion,
    ) -> (result: MoveResult)
        requires
            old(maps).wf(),
        ensures
            final(maps).wf(),
            final(maps).tiles == old(maps).tiles,
            final(maps).items == old(maps).items,
            result.outcome == outcome_of(
                old(movement).path@,
                motion,
                old(maps).not_planable(*id, Self::goal(motion)),
            ),
            final(movement).path@ == path_after(
                old(movement).path@,
                motion,
                old(maps).not_planable(*id, Self::goal(motion)),
            ),
            result.finished == (final(movement).path@.len() == 0),
            match result.outcome {
                MoveOutcome::Moved(cell) => {
                    let from = old(maps).characters.cell(at);
                    &&& on_map(cell)
                    &&& forall|q: Cell|
                        q != at && q != cell ==> #[trigger] final(maps).characters.cell(q) == old(maps).characters.cell(q)
                    &&& match position_of(from, *id) {
                        Some(i) if at != cell => {
                            &&& final(maps).characters.cell(at) == without(from, i)
                            &&& final(maps).characters.cell(cell) == old(maps).characters.cell(
                                cell,
                            ).push(from[i])
                        },
                        _ => {
                            &&& final(maps).characters.cell(at) == from
                            &&& final(maps).characters.cell(cell) == old(maps).characters.cell(cell)
                        },
                    }
                    &&& old(maps).characters.each_once() ==> final(maps).characters.each_once()
                },
                _ => final(maps).characters == old(maps).characters,
            },
    {
        if movement.path.len() == 0 {
            return MoveResult { outcome: MoveOutcome::Idle, finished: true };
        }
        let outcome = match motion {
            Motion::AtTarget => {
                movement.path.remove(0);
                MoveOutcome::Reached
            },
            Motion::Step { cell, arrives } => {
                if maps.is_not_planable(id, cell) {
                    movement.path = Vec::new();
                    MoveOutcome::Blocked
                } else {
                    if is_on_map(at) {
                        maps.move_entity(MapKind::Character, id, at, cell);
                    }
                    if arrives {
                        movement.path.remove(0);
                    }
                    MoveOutcome::Moved(cell)
                }
            },
        };
        MoveResult { outcome, finished: movement.path.len() == 0 }
    }
}

} // verus!
