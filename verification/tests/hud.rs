use terminal_snake::game::GameState;
use terminal_snake::ui::hud::hint_for;

#[test]
fn every_state_has_a_hint() {
    for s in [
        GameState::AwaitingStart,
        GameState::Running,
        GameState::Dead,
        GameState::Won,
    ] {
        assert!(!hint_for(s).is_empty());
    }
}

#[test]
fn the_hints_name_their_keys() {
    assert_eq!(hint_for(GameState::AwaitingStart), "press an arrow key or WASD to start");
    assert!(hint_for(GameState::Dead).contains("r to play again"));
    assert!(hint_for(GameState::Won).contains("filled the board"));
    assert!(hint_for(GameState::Running).contains("q quit"));
}
