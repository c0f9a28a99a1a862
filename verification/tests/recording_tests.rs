use sos::game_enums::{Cell, Mode};
use sos::recording::Recording;

#[test]
fn add_move_increases_vector_size() {
    let mut recording = Recording::new(Mode::Simple, 5);
    recording.add_move(Cell::S, 1, 1);
    assert_eq!(recording.moves.len(), 1);
}

#[test]
fn next_move_reads_first_move() {
    let mut recording = Recording::new(Mode::Simple, 5);
    recording.add_move(Cell::S, 1, 2);
    let m = recording.next_move().unwrap();
    assert!(m.row == 1 && m.col == 2);
}

#[test]
fn next_move_reads_second_move() {
    let mut recording = Recording::new(Mode::Simple, 5);
    recording.add_move(Cell::S, 1, 2);
    recording.add_move(Cell::S, 3, 4);
    recording.next_move();
    let m = recording.next_move().unwrap();
    assert!(m.row == 3 && m.col == 4);
}

#[test]
fn next_move_returns_none_if_empty() {
    let mut recording = Recording::new(Mode::Simple, 5);
    let m = recording.next_move();
    assert_eq!(m, None);
}

#[test]
fn next_move_returns_none_if_end_reached() {
    let mut recording = Recording::new(Mode::Simple, 5);
    recording.add_move(Cell::S, 1, 2);
    recording.next_move();
    let m = recording.next_move();
    assert_eq!(m, None);
}

// N + 1 playback requests on a recording of N moves yield the N moves in
// order, then exhaustion.
#[test]
fn replay_yields_all_moves_then_none() {
    let mut recording = Recording::new(Mode::Classic, 4);
    recording.add_move(Cell::S, 0, 0);
    recording.add_move(Cell::O, 1, 2);
    recording.add_move(Cell::S, 3, 3);
    let first = recording.next_move().unwrap();
    let second = recording.next_move().unwrap();
    let third = recording.next_move().unwrap();
    assert!(first.cell == Cell::S && first.row == 0 && first.col == 0);
    assert!(second.cell == Cell::O && second.row == 1 && second.col == 2);
    assert!(third.cell == Cell::S && third.row == 3 && third.col == 3);
    assert_eq!(recording.next_move(), None);
}

// Resetting the cursor replays from the start without touching the log.
#[test]
fn reset_restarts_replay() {
    let mut recording = Recording::new(Mode::Simple, 5);
    recording.add_move(Cell::O, 2, 2);
    recording.next_move();
    assert_eq!(recording.next_move(), None);
    recording.reset();
    let m = recording.next_move().unwrap();
    assert!(m.cell == Cell::O && m.row == 2 && m.col == 2 && recording.moves.len() == 1);
}
