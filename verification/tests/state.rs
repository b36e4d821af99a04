use tower_tactics::game_state::GameState;

#[test]
fn success() {
    assert!(true);
}

#[test]
fn game_state_resets_to_real_time() {
    let mut state = GameState::default();
    assert!(!state.is_turn_based);
    assert!(state.fov_needs_update);
    state.is_turn_based = true;
    state.fov_needs_update = false;
    state.reset();
    assert_eq!(state, GameState::default());
}
