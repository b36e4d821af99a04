//! Whose turn it is.
//!
//! In turn-based mode one actor at a time is in turn; the others wait in a
//! queue. When the actor in turn is done, or ends its turn, it goes to the
//! back of the queue and the actor at the front is in turn, with a fresh
//! budget of action points.

use vstd::prelude::*;
use crate::common::{InTurn, InTurnState};
use crate::entity_map::Entity;
use crate::event_log::{EventLog, LogEvent};
use crate::game_state::GameState;

verus! {

/// What the player asked of the scheduler in one tick.
#[derive(Copy, Clone, Debug, PartialEq, Eq, Structural)]
pub struct SchedulerInput {
    /// Switch between real time and turns.
    pub toggle: bool,
    /// End the turn under way.
    pub end_turn: bool,
    /// Make the next player the active one.
    pub cycle: bool,
}

/// The actor in turn and its turn.
#[derive(Copy, Clone, Debug, PartialEq, Eq, Structural)]
pub struct Acting {
    pub entity: Entity,
    pub turn: InTurn,
}

/// The state of the scheduler as plain values.
pub struct Turns {
    pub in_turn: Option<Acting>,
    pub waiting: Seq<Entity>,
    pub active: Option<Entity>,
}

/// The entities of `roster` other than `skip`, in the same order.
pub open spec fn others(roster: Seq<Entity>, skip: Option<Entity>) -> Seq<Entity>
    decreases roster.len(),
{
    if roster.len() == 0 {
        Seq::empty()
    } else if skip == Some(roster.last()) {
        others(roster.drop_last(), skip)
    } else {
        others(roster.drop_last(), skip).push(roster.last())
    }
}

/// The place of the first occurrence of `entity` in `roster`, or the length
/// of `roster` where it does not occur.
pub open spec fn place_of(roster: Seq<Entity>, entity: Entity) -> int
    decreases roster.len(),
{
    if roster.len() == 0 {
        0
    } else if roster[0] == entity {
        0
    } else {
        1 + place_of(roster.skip(1), entity)
    }
}

/// The player after the active one in the roster, the first after the
/// last; the first where no player is active. None where there is no
/// player.
pub open spec fn next_player(roster: Seq<Entity>, active: Option<Entity>) -> Option<Entity> {
    if roster.len() == 0 {
        None
    } else {
        match active {
            Some(a) => {
                let i = place_of(roster, a);
                if i + 1 < roster.len() {
                    Some(roster[i + 1])
                } else {
                    Some(roster[0])
                }
            },
            None => Some(roster[0]),
        }
    }
}

impl Turns {
    /// Whether no actor is both in turn and waiting, or waiting twice.
    pub open spec fn distinct(&self) -> bool {
        &&& self.waiting.no_duplicates()
        &&& match self.in_turn {
            Some(a) => !self.waiting.contains(a.entity),
            None => true,
        }
    }

    /// The state after a switch to turns: the active player is in turn,
    /// the other players wait in the order of the roster.
    pub open spec fn switched_on(&self, roster: Seq<Entity>) -> Turns {
        let first = match self.active {
            Some(a) if roster.contains(a) => Some(Acting { entity: a, turn: InTurn::fresh() }),
            _ => None,
        };
        Turns {
            in_turn: first,
            waiting: others(roster, if first.is_some() { self.active } else { None }),
            active: self.active,
        }
    }

    /// The state after a switch to real time: nobody is in turn or waits.
    pub open spec fn switched_off(&self) -> Turns {
        Turns { in_turn: None, waiting: Seq::empty(), active: self.active }
    }

    /// The state after movement has been looked at: an actor that was
    /// walking and has no path left is idle.
    pub open spec fn settled(&self, moving: Seq<Entity>) -> Turns {
        match self.in_turn {
            Some(a) if a.turn.state == InTurnState::Walking && !moving.contains(a.entity) => Turns {
                in_turn: Some(
                    Acting { entity: a.entity, turn: InTurn { state: InTurnState::Idle, ..a.turn } },
                ),
                ..*self
            },
            _ => *self,
        }
    }

    /// Whether the turn under way is to end: nobody is in turn, the actor
    /// in turn is done, or it was told to end its turn.
    pub open spec fn turn_over(&self, end_turn: bool) -> bool {
        match self.in_turn {
            Some(a) => a.turn.done() || end_turn,
            None => true,
        }
    }

    /// The queue with the actor in turn at its back.
    pub open spec fn queue(&self) -> Seq<Entity> {
        match self.in_turn {
            Some(a) => self.waiting.push(a.entity),
            None => self.waiting,
        }
    }

    /// The state after a rotation: the actor in turn goes to the back of
    /// the queue, the actor at the front is in turn with a fresh budget, and
    /// is the active actor if it is a player. With nobody there, nothing
    /// changes.
    pub open spec fn rotated(&self, roster: Seq<Entity>) -> Turns {
        let queue = self.queue();
        if queue.len() == 0 {
            *self
        } else {
            Turns {
                in_turn: Some(Acting { entity: queue[0], turn: InTurn::fresh() }),
                waiting: queue.skip(1),
                active: if roster.contains(queue[0]) {
                    Some(queue[0])
                } else {
                    self.active
                },
            }
        }
    }

    /// The state after the next player has been made the active one.
    pub open spec fn cycled(&self, roster: Seq<Entity>) -> Turns {
        match next_player(roster, self.active) {
            Some(p) => Turns { active: Some(p), ..*self },
            None => *self,
        }
    }

    /// The state after one tick in turn-based mode.
    pub open spec fn advanced(&self, end_turn: bool, roster: Seq<Entity>, moving: Seq<Entity>) -> Turns {
        let settled = self.settled(moving);
        if settled.turn_over(end_turn) {
            settled.rotated(roster)
        } else {
            settled
        }
    }
}

/// What one tick of the scheduler makes of the mode and the turns.
pub open spec fn ticked(
    turns: Turns,
    turn_based: bool,
    input: SchedulerInput,
    roster: Seq<Entity>,
    moving: Seq<Entity>,
) -> (Turns, bool) {
    let mode = if input.toggle {
        !turn_based
    } else {
        turn_based
    };
    let switched = if !input.toggle {
        turns
    } else if mode {
        turns.switched_on(roster)
    } else {
        turns.switched_off()
    };
    let advanced = if mode {
        switched.advanced(input.end_turn, roster, moving)
    } else {
        switched
    };
    let cycled = if input.cycle {
        advanced.cycled(roster)
    } else {
        advanced
    };
    (cycled, mode)
}

/// What one tick of the scheduler makes of the log: where a turn ends, its
/// end is logged.
pub open spec fn ticked_log(
    turns: Turns,
    turn_based: bool,
    input: SchedulerInput,
    roster: Seq<Entity>,
    moving: Seq<Entity>,
    log: Seq<LogEvent>,
) -> Seq<LogEvent> {
    let mode = if input.toggle {
        !turn_based
    } else {
        turn_based
    };
    let switched = if !input.toggle {
        turns
    } else if mode {
        turns.switched_on(roster)
    } else {
        turns.switched_off()
    };
    if mode && switched.settled(moving).turn_over(input.end_turn) {
        rotation_log(switched.settled(moving), log)
    } else {
        log
    }
}

/// The event that a rotation logs: the end of the turn that was under way.
pub open spec fn rotation_log(turns: Turns, log: Seq<LogEvent>) -> Seq<LogEvent> {
    match turns.in_turn {
        Some(a) => seq![LogEvent::FinishedTurn(a.entity)] + log,
        None => log,
    }
}

/// Tests whether `entity` is among `entities`.
pub fn is_among(entities: &Vec<Entity>, entity: &Entity) -> (b: bool)
    ensures
        b == entities@.contains(*entity),
{
    let mut i: usize = 0;
    while i < entities.len()
        invariant
            i <= entities.len(),
            forall|j: int| 0 <= j < i ==> entities@[j] != *entity,
        decreases entities.len() - i,
    {
        if entities[i] == *entity {
            return true;
        }
        i = i + 1;
    }
    false
}

/// The scheduler of turns.
pub struct RoundScheduler {
    pub in_turn: Option<Acting>,
    pub waiting: Vec<Entity>,
    pub active: Option<Entity>,
}

impl View for RoundScheduler {
    type V = Turns;

    open spec fn view(&self) -> Turns {
        Turns { in_turn: self.in_turn, waiting: self.waiting@, active: self.active }
    }
}

impl RoundScheduler {
    /// A scheduler with nobody in turn, nobody waiting and nobody active.
    pub fn new() -> (s: RoundScheduler)
        ensures
            s@.in_turn.is_none(),
            s@.waiting == Seq::<Entity>::empty(),
            s@.active.is_none(),
    {
        RoundScheduler { in_turn: None, waiting: Vec::new(), active: None }
    }

    /// Switches to turns: the active player is in turn, the others wait.
    pub fn switch_on(&mut self, players: &Vec<Entity>)
        ensures
            final(self)@ == old(self)@.switched_on(players@),
    {
        let mut skip: Option<Entity> = None;
        self.in_turn = None;
        if let Some(a) = self.active {
            if is_among(players, &a) {
                self.in_turn = Some(Acting { entity: a, turn: InTurn::default() });
                skip = Some(a);
            }
        }
        self.waiting = Vec::new();
        let mut i: usize = 0;
        while i < players.len()
            invariant
                i <= players.len(),
                self.waiting@ == others(players@.take(i as int), skip),
                self.in_turn == old(self)@.switched_on(players@).in_turn,
                self.active == old(self).active,
                skip == if old(self)@.switched_on(players@).in_turn.is_some() {
                    old(self).active
                } else {
                    None
                },
            decreases players.len() - i,
        {
            let p = players[i];
            proof {
                let next = players@.take(i as int + 1);
                assert(next.drop_last() == players@.take(i as int));
                assert(next.last() == p);
            }
            let skipped = match skip {
                Some(s) => s == p,
                None => false,
            };
            if !skipped {
                self.waiting.push(p);
            }
            i = i + 1;
        }
        assert(players@.take(i as int) == players@);
    }

    /// Switches to real time: nobody is in turn or waits.
    pub fn switch_off(&mut self)
        ensures
            final(self)@ == old(self)@.switched_off(),
    {
        self.waiting = Vec::new();
        self.in_turn = None;
    }

    /// Looks at movement: an actor that was walking and has no path left
    /// is idle.
    pub fn settle(&mut self, moving: &Vec<Entity>)
        ensures
            final(self)@ == old(self)@.settled(moving@),
    {
        if let Some(a) = self.in_turn {
            if a.turn.state == InTurnState::Walking && !is_among(moving, &a.entity) {
                let mut turn = a.turn;
                turn.action_done();
                self.in_turn = Some(Acting { entity: a.entity, turn });
            }
        }
    }

    /// Ends the turn under way and starts the next: the actor in turn goes
    /// to the back of the queue, the actor at the front is in turn.
    pub fn rotate(&mut self, players: &Vec<Entity>, log: &mut EventLog)
        ensures
            final(self)@ == old(self)@.rotated(players@),
            final(log).logs@ == rotation_log(old(self)@, old(log).logs@),
    {
        if let Some(a) = self.in_turn {
            log.log(LogEvent::FinishedTurn(a.entity));
            self.waiting.push(a.entity);
            self.in_turn = None;
        }
        if self.waiting.len() > 0 {
            let next = self.waiting.remove(0);
            assert(self.waiting@ == old(self)@.queue().skip(1));
            self.in_turn = Some(Acting { entity: next, turn: InTurn::default() });
            if is_among(players, &next) {
                self.active = Some(next);
            }
        }
    }

    /// Makes the player after the active one the active one.
    pub fn cycle_active(&mut self, players: &Vec<Entity>)
        ensures
            final(self)@ == old(self)@.cycled(players@),
    {
        if players.len() == 0 {
            return ;
        }
        let mut next = players[0];
        if let Some(a) = self.active {
            let mut i: usize = 0;
            assert(players@.skip(0) == players@);
            while i < players.len() && players[i] != a
                invariant
                    i <= players.len(),
                    place_of(players@, a) == i + place_of(players@.skip(i as int), a),
                decreases players.len() - i,
            {
                proof {
                    assert(players@.skip(i as int).skip(1) == players@.skip(i as int + 1));
                    assert(players@.skip(i as int)[0] == players@[i as int]);
                }
                i = i + 1;
            }
            proof {
                if i < players.len() {
                    assert(players@.skip(i as int)[0] == players@[i as int]);
                }
                assert(place_of(players@, a) == i);
            }
            if i < players.len() && i + 1 < players.len() {
                next = players[i + 1];
            }
        }
        self.active = Some(next);
    }

    /// One tick of the scheduler.
    pub fn run(
        &mut self,
        state: &mut GameState,
        input: SchedulerInput,
        players: &Vec<Entity>,
        moving: &Vec<Entity>,
        log: &mut EventLog,
    )
        ensures
            final(self)@ == ticked(old(self)@, old(state).is_turn_based, input, players@, moving@).0,
            final(state).is_turn_based == ticked(
                old(self)@,
                old(state).is_turn_based,
                input,
                players@,
                moving@,
            ).1,
            final(state).fov_needs_update == old(state).fov_needs_update,
            final(log).logs@ == ticked_log(
                old(self)@,
                old(state).is_turn_based,
                input,
                players@,
                moving@,
                old(log).logs@,
            ),
    {
        if input.toggle {
            state.is_turn_based = !state.is_turn_based;
            if state.is_turn_based {
                self.switch_on(players);
            } else {
                self.switch_off();
            }
        }
        if state.is_turn_based {
            self.settle(moving);
            let over = match self.in_turn {
                Some(a) => a.turn.is_done() || input.end_turn,
                None => true,
            };
            if over {
                self.rotate(players, log);
            }
        }
        if input.cycle {
            self.cycle_active(players);
        }
    }
}

/// Turns go round: after a rotation the actor at the front of the queue is
/// in turn, alone, and the others wait in their order, the actor whose turn
/// has ended last. While another actor waits, no actor is in turn twice in
/// a row; and no actor is ever in two places.
pub proof fn lemma_round_robin(turns: Turns, roster: Seq<Entity>)
    requires
        turns.distinct(),
        turns.queue().len() > 0,
    ensures
        turns.rotated(roster).distinct(),
        turns.rotated(roster).in_turn == Some(
            Acting { entity: turns.queue()[0], turn: InTurn::fresh() },
        ),
        turns.rotated(roster).waiting.len() == turns.queue().len() - 1,
        turns.rotated(roster).queue().to_multiset() == turns.queue().to_multiset(),
        turns.waiting.len() > 0 ==> turns.rotated(roster).in_turn.unwrap().entity
            == turns.waiting[0],
        turns.waiting.len() > 0 && turns.in_turn.is_some() ==> turns.rotated(
            roster,
        ).in_turn.unwrap().entity != turns.in_turn.unwrap().entity
            && turns.rotated(roster).waiting.last() == turns.in_turn.unwrap().entity,
{
    let queue = turns.queue();
    let after = turns.rotated(roster);
    assert(queue.no_duplicates()) by {
        assert forall|i: int, j: int| 0 <= i < queue.len() && 0 <= j < queue.len() && i
            != j implies queue[i] != queue[j] by {
            if turns.in_turn.is_some() {
                if i == queue.len() - 1 {
                    assert(turns.waiting[j] == queue[j]);
                } else if j == queue.len() - 1 {
                    assert(turns.waiting[i] == queue[i]);
                }
            }
        }
    }
    assert(!after.waiting.contains(queue[0])) by {
        if after.waiting.contains(queue[0]) {
            let j = choose|j: int| 0 <= j < after.waiting.len() && after.waiting[j] == queue[0];
            assert(queue[j + 1] == queue[0]);
        }
    }
    assert(after.queue() == queue.skip(1).push(queue[0]));
    assert(queue == seq![queue[0]] + queue.skip(1));
    vstd::seq_lib::lemma_multiset_commutative(seq![queue[0]], queue.skip(1));
    vstd::seq_lib::lemma_multiset_commutative(queue.skip(1), seq![queue[0]]);
    assert(queue.skip(1).push(queue[0]) == queue.skip(1) + seq![queue[0]]);
}

/// The others of a roster are its entities but for the one left out, and
/// none of them comes twice where none does in the roster.
pub proof fn lemma_others(roster: Seq<Entity>, skip: Option<Entity>)
    ensures
        forall|e: Entity|
            #[trigger] others(roster, skip).contains(e) <==> roster.contains(e) && skip != Some(e),
        roster.no_duplicates() ==> others(roster, skip).no_duplicates(),
    decreases roster.len(),
{
    if roster.len() > 0 {
        let front = roster.drop_last();
        let last = roster.last();
        let kept = others(front, skip);
        lemma_others(front, skip);
        assert forall|e: Entity| roster.contains(e) <==> front.contains(e) || e == last by {
            if roster.contains(e) {
                let i = choose|i: int| 0 <= i < roster.len() && roster[i] == e;
                if i < front.len() {
                    assert(front[i] == e);
                }
            }
            if front.contains(e) {
                let i = choose|i: int| 0 <= i < front.len() && front[i] == e;
                assert(roster[i] == e);
            }
            if e == last {
                assert(roster[roster.len() - 1] == e);
            }
        }
        if skip != Some(last) {
            let all = kept.push(last);
            assert forall|e: Entity| all.contains(e) <==> kept.contains(e) || e == last by {
                if all.contains(e) {
                    let i = choose|i: int| 0 <= i < all.len() && all[i] == e;
                    if i < kept.len() {
                        assert(kept[i] == e);
                    }
                }
                if kept.contains(e) {
                    let i = choose|i: int| 0 <= i < kept.len() && kept[i] == e;
                    assert(all[i] == e);
                }
                if e == last {
                    assert(all[kept.len() as int] == e);
                }
            }
            if roster.no_duplicates() {
                assert(front.no_duplicates());
                assert(!front.contains(last)) by {
                    if front.contains(last) {
                        let i = choose|i: int| 0 <= i < front.len() && front[i] == last;
                        assert(roster[i] == roster[roster.len() - 1]);
                    }
                }
                assert forall|i: int, j: int|
                    0 <= i < all.len() && 0 <= j < all.len() && i != j implies all[i] != all[j] by {
                    if i < kept.len() {
                        assert(kept.contains(kept[i]));
                    }
                    if j < kept.len() {
                        assert(kept.contains(kept[j]));
                    }
                }
            }
        } else if roster.no_duplicates() {
            assert(front.no_duplicates());
        }
    }
}

/// No tick puts an actor in two places: where no actor is both in turn and
/// waiting, or waiting twice, and no player comes twice in the roster, the
/// same holds after the tick.
pub proof fn lemma_tick_keeps_distinct(
    turns: Turns,
    turn_based: bool,
    input: SchedulerInput,
    roster: Seq<Entity>,
    moving: Seq<Entity>,
)
    requires
        turns.distinct(),
        roster.no_duplicates(),
    ensures
        ticked(turns, turn_based, input, roster, moving).0.distinct(),
{
    let mode = if input.toggle {
        !turn_based
    } else {
        turn_based
    };
    let switched = if !input.toggle {
        turns
    } else if mode {
        turns.switched_on(roster)
    } else {
        turns.switched_off()
    };
    if input.toggle && mode {
        let skip = if switched.in_turn.is_some() {
            turns.active
        } else {
            None
        };
        lemma_others(roster, skip);
    }
    assert(switched.distinct());
    let settled = switched.settled(moving);
    assert(settled.distinct());
    if mode && settled.turn_over(input.end_turn) && settled.queue().len() > 0 {
        lemma_round_robin(settled, roster);
    }
}

} // verus!
