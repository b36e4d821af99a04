use tower_tactics::common::{distance_cost, InTurn, InTurnState};
use tower_tactics::entity_map::Entity;
use tower_tactics::event_log::{EventLog, LogEvent};
use tower_tactics::game_state::GameState;
use tower_tactics::round_scheduler::{Acting, RoundScheduler, SchedulerInput};

fn e(index: u32) -> Entity {
    Entity { index, generation: 0 }
}

fn quiet() -> SchedulerInput {
    SchedulerInput { toggle: false, end_turn: false, cycle: false }
}

fn in_turn(s: &RoundScheduler) -> Option<Entity> {
    s.in_turn.map(|a| a.entity)
}

#[test]
fn turn_defaults() {
    let t = InTurn::default();
    assert_eq!(t, InTurn { state: InTurnState::Idle, has_walked: false, action_points: 2 });
    assert!(!t.is_done());
}

#[test]
fn walking_actor_is_never_done() {
    let mut t = InTurn::default();
    t.walk(2);
    assert_eq!(t, InTurn { state: InTurnState::Walking, has_walked: true, action_points: 0 });
    assert!(!t.is_done());
    t.walk(5);
    assert_eq!(t.action_points, -5);
    assert!(!t.is_done());
    t.action_done();
    assert!(t.is_done());
}

#[test]
fn actor_with_points_left_is_not_done() {
    let mut t = InTurn::default();
    t.walk(1);
    t.action_done();
    assert_eq!(t, InTurn { state: InTurnState::Idle, has_walked: true, action_points: 1 });
    assert!(!t.is_done());
    t.walk(1);
    t.action_done();
    assert!(t.is_done());
}

#[test]
fn fight_takes_all_points() {
    let mut t = InTurn::default();
    t.fight();
    assert_eq!(t, InTurn { state: InTurnState::Fighting, has_walked: false, action_points: 0 });
    assert!(!t.is_done());
    t.action_done();
    assert!(t.is_done());
}

#[test]
fn walk_costs_have_two_tiers() {
    let fresh = InTurn::default();
    let mut walked = InTurn::default();
    walked.walk(1);
    assert_eq!(distance_cost(0, &fresh), Some(1));
    assert_eq!(distance_cost(4, &fresh), Some(1));
    assert_eq!(distance_cost(5, &fresh), Some(2));
    assert_eq!(distance_cost(9, &fresh), Some(2));
    assert_eq!(distance_cost(10, &fresh), None);
    assert_eq!(distance_cost(4, &walked), Some(1));
    assert_eq!(distance_cost(5, &walked), None);
    assert_eq!(distance_cost(usize::MAX, &walked), None);
}

#[test]
fn turns_go_round() {
    let (a, b, c) = (e(1), e(2), e(3));
    let players = vec![a, b, c];
    let mut log = EventLog::default();
    let mut s = RoundScheduler::new();
    s.waiting = vec![a, b, c];
    s.rotate(&players, &mut log);
    assert_eq!(in_turn(&s), Some(a));
    assert_eq!(s.in_turn.unwrap().turn, InTurn::default());
    assert_eq!(s.waiting, vec![b, c]);
    assert_eq!(s.active, Some(a));
    assert!(log.logs.is_empty());
    s.rotate(&players, &mut log);
    assert_eq!(in_turn(&s), Some(b));
    assert_eq!(s.waiting, vec![c, a]);
    assert_eq!(log.logs, vec![LogEvent::FinishedTurn(a)]);
    s.rotate(&players, &mut log);
    assert_eq!(in_turn(&s), Some(c));
    assert_eq!(s.waiting, vec![a, b]);
    s.rotate(&players, &mut log);
    assert_eq!(in_turn(&s), Some(a));
    assert_eq!(s.waiting, vec![b, c]);
    assert_eq!(
        log.logs,
        vec![LogEvent::FinishedTurn(c), LogEvent::FinishedTurn(b), LogEvent::FinishedTurn(a)]
    );
}

#[test]
fn done_actor_rotates_out_on_the_next_tick() {
    let (a, b, c) = (e(1), e(2), e(3));
    let players = vec![a, b, c];
    let mut state = GameState::default();
    state.is_turn_based = true;
    let mut log = EventLog::default();
    let mut s = RoundScheduler::new();
    s.waiting = vec![a, b, c];
    s.run(&mut state, quiet(), &players, &vec![], &mut log);
    assert_eq!(in_turn(&s), Some(a));
    assert_eq!(s.waiting, vec![b, c]);
    // Nothing happens while the actor has points left.
    s.run(&mut state, quiet(), &players, &vec![], &mut log);
    assert_eq!(in_turn(&s), Some(a));
    // A walk that takes the points, still under way.
    let mut turn = s.in_turn.unwrap().turn;
    turn.walk(2);
    s.in_turn = Some(Acting { entity: a, turn });
    s.run(&mut state, quiet(), &players, &vec![a], &mut log);
    assert_eq!(in_turn(&s), Some(a));
    assert_eq!(s.in_turn.unwrap().turn.state, InTurnState::Walking);
    // The walk has come to its end.
    s.run(&mut state, quiet(), &players, &vec![], &mut log);
    assert_eq!(in_turn(&s), Some(b));
    assert_eq!(s.in_turn.unwrap().turn, InTurn::default());
    assert_eq!(s.waiting, vec![c, a]);
    assert_eq!(s.active, Some(b));
    assert_eq!(log.logs, vec![LogEvent::FinishedTurn(a)]);
}

#[test]
fn walk_with_points_left_ends_idle() {
    let a = e(1);
    let players = vec![a, e(2)];
    let mut state = GameState::default();
    state.is_turn_based = true;
    let mut log = EventLog::default();
    let mut s = RoundScheduler::new();
    let mut turn = InTurn::default();
    turn.walk(1);
    s.in_turn = Some(Acting { entity: a, turn });
    s.waiting = vec![e(2)];
    s.run(&mut state, quiet(), &players, &vec![], &mut log);
    assert_eq!(
        s.in_turn,
        Some(Acting {
            entity: a,
            turn: InTurn { state: InTurnState::Idle, has_walked: true, action_points: 1 }
        })
    );
    assert!(log.logs.is_empty());
}

#[test]
fn player_can_end_its_turn() {
    let (a, b) = (e(1), e(2));
    let players = vec![a, b];
    let mut state = GameState::default();
    state.is_turn_based = true;
    let mut log = EventLog::default();
    let mut s = RoundScheduler::new();
    s.in_turn = Some(Acting { entity: a, turn: InTurn::default() });
    s.waiting = vec![b];
    s.active = Some(a);
    let end = SchedulerInput { toggle: false, end_turn: true, cycle: false };
    s.run(&mut state, end, &players, &vec![], &mut log);
    assert_eq!(in_turn(&s), Some(b));
    assert_eq!(s.waiting, vec![a]);
    assert_eq!(s.active, Some(b));
}

#[test]
fn lone_actor_is_in_turn_again() {
    let a = e(1);
    let mut log = EventLog::default();
    let mut s = RoundScheduler::new();
    s.waiting = vec![a];
    s.rotate(&vec![a], &mut log);
    s.rotate(&vec![a], &mut log);
    assert_eq!(in_turn(&s), Some(a));
    assert!(s.waiting.is_empty());
}

#[test]
fn empty_roster_is_no_trouble() {
    let mut state = GameState::default();
    let mut log = EventLog::default();
    let mut s = RoundScheduler::new();
    let all = SchedulerInput { toggle: true, end_turn: true, cycle: true };
    s.run(&mut state, all, &vec![], &vec![], &mut log);
    assert!(state.is_turn_based);
    assert_eq!(s.in_turn, None);
    assert!(s.waiting.is_empty());
    assert_eq!(s.active, None);
    s.rotate(&vec![], &mut log);
    s.run(&mut state, quiet(), &vec![], &vec![], &mut log);
    assert_eq!(s.in_turn, None);
    assert!(log.logs.is_empty());
}

#[test]
fn switching_to_turns_and_back() {
    let (a, b, c) = (e(1), e(2), e(3));
    let players = vec![a, b, c];
    let mut state = GameState::default();
    let mut log = EventLog::default();
    let mut s = RoundScheduler::new();
    s.active = Some(b);
    let toggle = SchedulerInput { toggle: true, end_turn: false, cycle: false };
    s.run(&mut state, toggle, &players, &vec![], &mut log);
    assert!(state.is_turn_based);
    assert_eq!(s.in_turn, Some(Acting { entity: b, turn: InTurn::default() }));
    assert_eq!(s.waiting, vec![a, c]);
    assert_eq!(s.active, Some(b));
    s.run(&mut state, toggle, &players, &vec![], &mut log);
    assert!(!state.is_turn_based);
    assert_eq!(s.in_turn, None);
    assert!(s.waiting.is_empty());
    assert_eq!(s.active, Some(b));
    // In real time nothing rotates.
    s.run(&mut state, quiet(), &players, &vec![], &mut log);
    assert_eq!(s.in_turn, None);
    // Without an active player the first of the roster gets the first turn.
    s.active = None;
    s.run(&mut state, toggle, &players, &vec![], &mut log);
    assert_eq!(in_turn(&s), Some(a));
    assert_eq!(s.waiting, vec![b, c]);
    assert_eq!(s.active, Some(a));
}

#[test]
fn actor_that_is_no_player_does_not_become_active() {
    let (a, n) = (e(1), e(9));
    let mut log = EventLog::default();
    let mut s = RoundScheduler::new();
    s.active = Some(a);
    s.in_turn = Some(Acting { entity: a, turn: InTurn::default() });
    s.waiting = vec![n];
    s.rotate(&vec![a], &mut log);
    assert_eq!(in_turn(&s), Some(n));
    assert_eq!(s.active, Some(a));
}

#[test]
fn cycling_the_active_player() {
    let (a, b, c) = (e(1), e(2), e(3));
    let players = vec![a, b, c];
    let mut s = RoundScheduler::new();
    s.cycle_active(&players);
    assert_eq!(s.active, Some(a));
    s.cycle_active(&players);
    assert_eq!(s.active, Some(b));
    s.cycle_active(&players);
    assert_eq!(s.active, Some(c));
    s.cycle_active(&players);
    assert_eq!(s.active, Some(a));
    s.active = Some(e(7));
    s.cycle_active(&players);
    assert_eq!(s.active, Some(a));
    s.cycle_active(&vec![]);
    assert_eq!(s.active, Some(a));
}

#[test]
fn events_are_logged_newest_first() {
    let mut log = EventLog::default();
    log.log(LogEvent::Died(e(1)));
    log.log(LogEvent::DidDamage(e(2), e(1), 20));
    assert_eq!(log.logs, vec![LogEvent::DidDamage(e(2), e(1), 20), LogEvent::Died(e(1))]);
}
