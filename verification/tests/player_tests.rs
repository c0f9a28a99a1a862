use sos::game_enums::Cell;
use sos::player::Player;

#[test]
fn new_player_keeps_its_settings() {
    let p = Player::new(Cell::O, true);
    assert!(p.pmove == Cell::O && p.computer);
}

#[test]
fn new_human_player_is_not_computer() {
    let p = Player::new(Cell::S, false);
    assert!(p.pmove == Cell::S && !p.computer);
}
