//! What the actors of the simulation carry: a description, hit points, a
//! pending path, and the state of their turn.

use vstd::prelude::*;
use crate::geometry::{fits, Cell};

verus! {

/// The name of an entity and a line about it.
#[derive(Clone, Debug, PartialEq, Eq)]
pub struct Description {
    pub name: String,
    pub description: String,
}

impl Description {
    pub fn new(name: &str, description: &str) -> (d: Description)
        ensures
            d.name@ == name@,
            d.description@ == description@,
    {
        Description { name: name.to_owned(), description: description.to_owned() }
    }
}

/// The hit points of a character.
#[derive(Copy, Clone, Debug, PartialEq, Eq, Structural)]
pub struct CharacterStats {
    pub health: i32,
    pub max_health: i32,
}

/// What a weapon does: the hit points it takes and how far it reaches.
#[derive(Copy, Clone, Debug, PartialEq, Eq, Structural)]
pub struct ItemStats {
    pub damage: i32,
    pub range: i32,
}

impl CharacterStats {
    /// Takes the damage of `item` off the health and returns the damage.
    pub fn apply_damage(&mut self, item: &ItemStats) -> (damage: i32)
        requires
            fits(old(self).health - item.damage),
        ensures
            damage == item.damage,
            final(self).health == old(self).health - item.damage,
            final(self).max_health == old(self).max_health,
    {
        let damage = item.damage;
        self.health = self.health - damage;
        damage
    }

    /// Restores full health.
    pub fn reset(&mut self)
        ensures
            final(self).health == old(self).max_health,
            final(self).max_health == old(self).max_health,
    {
        self.health = self.max_health;
    }

    /// Whether the character has no health left.
    pub fn is_dead(&self) -> (b: bool)
        ensures
            b == (self.health <= 0),
    {
        self.health <= 0
    }
}

/// A path that an actor is walking: the cells still to reach, next first.
#[derive(Clone, Debug, PartialEq, Eq)]
pub struct MoveToPosition {
    pub path: Vec<Cell>,
}

/// Marks the actor that input and the viewport follow.
#[derive(Copy, Clone, Debug, PartialEq, Eq, Structural)]
pub struct Active;

/// Marks an actor that waits for its turn.
#[derive(Copy, Clone, Debug, PartialEq, Eq, Structural)]
pub struct WaitForTurn;

/// What the actor in turn is doing.
#[derive(Copy, Clone, Debug, PartialEq, Eq, Structural)]
pub enum InTurnState {
    Idle,
    Walking,
    Fighting,
}

/// Number of action points at the start of a turn.
pub const DEFAULT_ACTION_POINTS: i32 = 2;

/// The turn of the actor that may act.
#[derive(Copy, Clone, Debug, PartialEq, Eq, Structural)]
pub struct InTurn {
    pub state: InTurnState,
    pub has_walked: bool,
    pub action_points: i32,
}

impl Default for InTurn {
    fn default() -> (t: InTurn)
        ensures
            t == InTurn::fresh(),
    {
        InTurn { state: InTurnState::Idle, has_walked: false, action_points: DEFAULT_ACTION_POINTS }
    }
}

impl InTurn {
    /// A turn at its start: idle, not walked, with the full budget.
    pub open spec fn fresh() -> InTurn {
        InTurn { state: InTurnState::Idle, has_walked: false, action_points: DEFAULT_ACTION_POINTS }
    }

    /// Whether the turn is over: the actor is idle and has no points left.
    pub open spec fn done(&self) -> bool {
        self.state == InTurnState::Idle && self.action_points <= 0
    }

    /// Starts a walk that costs `cost` points. A walking actor is never
    /// done, whatever its points.
    pub fn walk(&mut self, cost: i32)
        requires
            fits(old(self).action_points - cost),
        ensures
            final(self).state == InTurnState::Walking,
            final(self).has_walked,
            final(self).action_points == old(self).action_points - cost,
            !final(self).done(),
    {
        self.state = InTurnState::Walking;
        self.has_walked = true;
        self.action_points = self.action_points - cost;
    }

    /// Starts a fight, which takes all the points that are left.
    pub fn fight(&mut self)
        ensures
            final(self).state == InTurnState::Fighting,
            final(self).has_walked == old(self).has_walked,
            final(self).action_points == 0,
            !final(self).done(),
    {
        self.state = InTurnState::Fighting;
        self.action_points = 0;
    }

    pub fn is_done(&self) -> (b: bool)
        ensures
            b == self.done(),
    {
        self.state == InTurnState::Idle && self.action_points <= 0
    }

    /// Ends the action under way: the actor is idle again, and done if it
    /// has no points left.
    pub fn action_done(&mut self)
        ensures
            final(self).state == InTurnState::Idle,
            final(self).has_walked == old(self).has_walked,
            final(self).action_points == old(self).action_points,
            final(self).done() == (old(self).action_points <= 0),
    {
        self.state = InTurnState::Idle;
    }
}

/// What a walk of `dist` steps costs: one point for a short walk, two for
/// a longer one if the actor has not walked this turn; a walk beyond that
/// is not allowed.
pub open spec fn walk_cost(dist: int, has_walked: bool) -> Option<i32> {
    if dist < SHORT_WALK {
        Some(1i32)
    } else if dist < LONG_WALK && !has_walked {
        Some(2i32)
    } else {
        None
    }
}

/// Number of steps from which a walk is no longer short.
pub const SHORT_WALK: usize = 5;

/// Number of steps from which a walk is too long for one turn.
pub const LONG_WALK: usize = 10;

pub fn distance_cost(dist: usize, turn: &InTurn) -> (cost: Option<i32>)
    ensures
        cost == walk_cost(dist as int, turn.has_walked),
{
    if dist < SHORT_WALK {
        return Some(1);
    } else if dist < LONG_WALK && !turn.has_walked {
        return Some(2);
    }
    None
}

/// Whether the actor is done once a walk of `cost` points has come to its
/// end: exactly if the walk has used up its points.
pub proof fn lemma_done_after_walk(turn: InTurn, cost: i32)
    requires
        fits(turn.action_points - cost),
    ensures
        ({
            let walking = InTurn {
                state: InTurnState::Walking,
                has_walked: true,
                action_points: (turn.action_points - cost) as i32,
            };
            let arrived = InTurn { state: InTurnState::Idle, ..walking };
            !walking.done() && (arrived.done() <==> turn.action_points - cost <= 0)
        }),
{
}

} // verus!
