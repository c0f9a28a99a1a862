use sos::board::OutOfBounds;
use sos::game::Game;
use sos::game_enums::{Cell, Mode, State, Turn};

fn count_filled(g: &Game) -> usize {
    let n = g.get_board_size();
    let mut count = 0;
    for y in 0..n {
        for x in 0..n {
            if g.get_cell(x, y).unwrap() != Cell::Empty {
                count += 1;
            }
        }
    }
    count
}

fn all_empty(g: &Game) -> bool {
    count_filled(g) == 0
}

#[test]
fn game_starts_at_given_size() {
    let g = Game::new(Mode::Classic, 10);
    assert!(g.get_board_size() == 10 && g.get_cell(9, 0) == Ok(Cell::Empty));
}

#[test]
fn game_turn_starts_on_left() {
    let g = Game::new(Mode::Simple, 10);
    assert_eq!(g.turn, Turn::Left);
}

#[test]
fn game_switch_turn_left_to_right() {
    let mut g = Game::new(Mode::Simple, 10);
    g.switch_turn();
    assert_eq!(g.turn, Turn::Right);
}

#[test]
fn game_switch_turn_right_to_left() {
    let mut g = Game::new(Mode::Simple, 10);
    g.switch_turn();
    g.switch_turn();
    assert_eq!(g.turn, Turn::Left);
}

#[test]
fn can_make_move_when_coord_empty() {
    let mut g = Game::new(Mode::Simple, 10);
    g.state = State::Playing; // must be in Playing state before make_move is called
    g.make_move(Cell::S, 6, 4);
    assert_eq!(g.get_cell(4, 6), Ok(Cell::S));
}

#[test]
fn make_random_move_makes_single_move() {
    let mut g = Game::new(Mode::Simple, 10);
    g.state = State::Playing; // must be in Playing state before make_move is called
    g.make_random_move();

    assert_eq!(count_filled(&g), 1);
}

#[test]
fn make_random_move_does_not_make_move_when_game_not_started() {
    let mut g = Game::new(Mode::Simple, 10);
    g.make_random_move();

    assert!(all_empty(&g));
}

#[test]
fn switches_turn_when_valid_move_made() {
    // Game starts on Turn::Left
    let mut g = Game::new(Mode::Simple, 10);
    g.state = State::Playing;
    g.make_move(Cell::S, 6, 4);
    assert_eq!(g.turn, Turn::Right);
}

#[test]
fn do_not_make_move_when_coord_not_empty() {
    let mut g = Game::new(Mode::Simple, 10);
    g.state = State::Playing;
    g.make_move(Cell::S, 6, 4);
    g.make_move(Cell::O, 6, 4);
    assert_eq!(g.get_cell(4, 6), Ok(Cell::S));
}

#[test]
fn does_not_switch_turn_when_coord_not_empty() {
    // Game starts on Turn::Left
    let mut g = Game::new(Mode::Simple, 10);
    g.state = State::Playing;
    g.make_move(Cell::S, 6, 4);
    g.make_move(Cell::O, 6, 4);
    assert_eq!(g.turn, Turn::Right);
}

#[test]
fn do_not_make_move_when_coord_invalid() {
    let mut g = Game::new(Mode::Simple, 5);
    g.state = State::Playing;
    g.make_move(Cell::S, 6, 4);
    assert!(all_empty(&g));
}

#[test]
fn does_not_switch_turn_when_invalid_move_made() {
    // Game starts on Turn::Left
    let mut g = Game::new(Mode::Simple, 10);
    g.state = State::Playing;
    g.make_move(Cell::S, 6, 10);
    assert_eq!(g.turn, Turn::Left);
}

#[test]
fn clear_grid_does_not_change_size() {
    let mut g = Game::new(Mode::Simple, 10);
    g.state = State::Playing;
    g.make_move(Cell::S, 6, 4);
    g.make_move(Cell::O, 5, 5);
    g.clear_grid();
    assert!(g.get_board_size() == 10 && all_empty(&g));
}

// Clearing the grid resets the filled-cell counter with the cells it counts:
// after eight of nine cells are filled and cleared, one further move leaves
// the board far from full, so the Classic policy keeps play on.
#[test]
fn clear_grid_resets_fill_count() {
    let mut g = Game::new(Mode::Classic, 3);
    g.state = State::Playing;
    g.make_move(Cell::S, 0, 0);
    g.make_move(Cell::S, 0, 1);
    g.make_move(Cell::S, 0, 2);
    g.make_move(Cell::S, 1, 0);
    g.make_move(Cell::S, 1, 1);
    g.make_move(Cell::S, 1, 2);
    g.make_move(Cell::S, 2, 0);
    g.make_move(Cell::S, 2, 1);
    assert_eq!(g.state, State::Playing);
    g.clear_grid();
    g.make_move(Cell::S, 0, 0);
    assert_eq!(g.state, State::Playing);
}

#[test]
fn get_cell_out_of_bounds_creates_error() {
    let g = Game::new(Mode::Simple, 10);
    let result = g.get_cell(9, 10);
    assert_eq!(result, Err(OutOfBounds));
}

#[test]
fn get_cell_in_bounds_returns_correct_value() {
    let mut g = Game::new(Mode::Simple, 10);
    g.state = State::Playing;
    g.make_move(Cell::S, 4, 5);
    let result = g.get_cell(5, 4);
    assert_eq!(result, Ok(Cell::S));
}

#[test]
fn left_player_wins_simple_game() {
    let mut g = Game::new(Mode::Simple, 10);
    g.state = State::Playing;
    g.make_move(Cell::O, 2, 1); // Left
    g.make_move(Cell::S, 1, 0); // Right

    g.make_move(Cell::O, 1, 1); // Left
    g.make_move(Cell::S, 2, 2); // Right

    g.make_move(Cell::S, 3, 2); // Left

    assert_eq!(g.state, State::LeftWin);
}

#[test]
fn right_player_wins_simple_game() {
    let mut g = Game::new(Mode::Simple, 10);
    g.state = State::Playing;
    g.make_move(Cell::O, 2, 1); // Left
    g.make_move(Cell::S, 1, 0); // Right

    g.make_move(Cell::O, 1, 1); // Left
    g.make_move(Cell::S, 3, 2); // Right

    assert_eq!(g.state, State::RightWin);
}

#[test]
fn players_draw_simple_game() {
    let mut g = Game::new(Mode::Simple, 3);
    g.state = State::Playing;

    g.make_move(Cell::S, 0, 0);
    g.make_move(Cell::S, 1, 0);
    g.make_move(Cell::S, 2, 0);
    g.make_move(Cell::S, 0, 1);
    g.make_move(Cell::S, 1, 1);
    g.make_move(Cell::S, 2, 1);
    g.make_move(Cell::S, 0, 2);
    g.make_move(Cell::S, 1, 2);
    g.make_move(Cell::S, 2, 2);

    assert_eq!(g.state, State::Draw);
}

#[test]
fn left_player_wins_classic_game() {
    let mut g = Game::new(Mode::Classic, 3);
    g.state = State::Playing;
    g.make_move(Cell::S, 0, 0); // Left
    g.make_move(Cell::O, 1, 0); // Right

    g.make_move(Cell::S, 2, 0); // Left
    g.make_move(Cell::O, 0, 1); // Right

    g.make_move(Cell::S, 1, 1); // Left
    g.make_move(Cell::S, 2, 1); // Right

    g.make_move(Cell::O, 0, 2); // Left
    g.make_move(Cell::S, 1, 2); // Right

    g.make_move(Cell::S, 2, 2); // Left

    assert_eq!(g.state, State::LeftWin);
}

#[test]
fn right_player_wins_classic_game() {
    let mut g = Game::new(Mode::Classic, 3);
    g.state = State::Playing;
    g.make_move(Cell::S, 2, 2); // Left
    g.make_move(Cell::O, 1, 0); // Right

    g.make_move(Cell::S, 2, 0); // Left
    g.make_move(Cell::S, 2, 1); // Right

    g.make_move(Cell::S, 1, 1); // Left
    g.make_move(Cell::O, 0, 1); // Right

    g.make_move(Cell::O, 0, 2); // Left
    g.make_move(Cell::S, 0, 0); // Right

    g.make_move(Cell::S, 1, 2); // Left

    assert_eq!(g.state, State::RightWin);
}

// A board filled without a single S-O-S leaves the scores equal, and the
// Classic policy then draws on the full board.
#[test]
fn players_draw_classic_game() {
    let mut g = Game::new(Mode::Classic, 3);
    g.state = State::Playing;

    g.make_move(Cell::S, 0, 0);
    g.make_move(Cell::S, 1, 0);
    g.make_move(Cell::S, 2, 0);
    g.make_move(Cell::S, 0, 1);
    g.make_move(Cell::S, 1, 1);
    g.make_move(Cell::S, 2, 1);
    g.make_move(Cell::S, 0, 2);
    g.make_move(Cell::S, 1, 2);
    g.make_move(Cell::S, 2, 2);

    assert_eq!(g.state, State::Draw);
}

// A full 3x3 Classic game: the third move completes the one S-O-S of the
// game, the vertical line through the O in column 0, so the left player ends
// one ahead and wins once the board is full.
#[test]
fn classic_game_final_scores() {
    let mut g = Game::new(Mode::Classic, 3);
    g.state = State::Playing;
    g.make_move(Cell::S, 0, 0); // Left
    g.make_move(Cell::O, 1, 0); // Right
    g.make_move(Cell::S, 2, 0); // Left scores and moves again
    g.make_move(Cell::O, 0, 1); // Left
    g.make_move(Cell::S, 1, 1); // Right
    g.make_move(Cell::S, 2, 1); // Left
    g.make_move(Cell::O, 0, 2); // Right
    g.make_move(Cell::S, 1, 2); // Left
    g.make_move(Cell::S, 2, 2); // Right
    assert!(g.state == State::LeftWin && g.left_score == 1 && g.right_score == 0);
}

// An empty in-bounds read on a fresh 10x10 board: (9,9) is on the board and
// empty, while (9,10) is off the board.
#[test]
fn empty_board_bounds_reads() {
    let g = Game::new(Mode::Classic, 10);
    assert!(g.get_cell(9, 10) == Err(OutOfBounds) && g.get_cell(9, 9) == Ok(Cell::Empty));
}

// A move that completes an S-O-S keeps the turn with the same player.
#[test]
fn scoring_move_grants_another_turn() {
    let mut g = Game::new(Mode::Simple, 10);
    g.state = State::Playing;
    g.make_move(Cell::S, 0, 0); // Left
    g.make_move(Cell::O, 0, 1); // Right
    assert_eq!(g.turn, Turn::Left);
    g.make_move(Cell::S, 0, 2); // Left completes S-O-S
    assert!(g.state == State::LeftWin && g.left_score == 1 && g.turn == Turn::Left);
}

// Every accepted move is recorded, in order; rejected moves are not.
#[test]
fn moves_are_recorded_in_order() {
    let mut g = Game::new(Mode::Classic, 10);
    g.state = State::Playing;
    g.make_move(Cell::S, 6, 4);
    g.make_move(Cell::O, 6, 4); // rejected: occupied
    g.make_move(Cell::O, 5, 5);
    assert!(g.recording.moves.len() == 2);
    let first = g.recording.next_move().unwrap();
    let second = g.recording.next_move().unwrap();
    assert!(first.cell == Cell::S && first.row == 6 && first.col == 4);
    assert!(second.cell == Cell::O && second.row == 5 && second.col == 5);
}

// Moves played after the game has been won are silently ignored.
#[test]
fn no_moves_after_win() {
    let mut g = Game::new(Mode::Simple, 10);
    g.state = State::Playing;
    g.make_move(Cell::S, 0, 0); // Left
    g.make_move(Cell::O, 0, 1); // Right
    g.make_move(Cell::S, 0, 2); // Left completes S-O-S: LeftWin
    assert_eq!(g.state, State::LeftWin);
    g.make_move(Cell::S, 5, 5);
    assert!(g.get_cell(5, 5) == Ok(Cell::Empty) && g.recording.moves.len() == 3);
}

// An O in the middle of a row with an S on each side scores exactly one.
#[test]
fn o_placement_completes_horizontal_sos() {
    let mut g = Game::new(Mode::Simple, 5);
    g.state = State::Playing;
    g.make_move(Cell::S, 2, 0); // Left
    g.make_move(Cell::S, 2, 2); // Right
    g.make_move(Cell::O, 2, 1); // Left completes S-O-S horizontally
    assert!(g.left_score == 1 && g.right_score == 0 && g.state == State::LeftWin);
}
