use sos::game_enums::{Cell, Mode};
use sos::recording::Recording;

// The exact serialized text: header `<mode-code>,<board_size>`, then one
// `<cell-code>,<row>,<col>` line per move.
#[test]
fn as_string_renders_exact_format() {
    let mut recording = Recording::new(Mode::Classic, 3);
    recording.add_move(Cell::S, 1, 2);
    recording.add_move(Cell::O, 0, 1);
    assert_eq!(recording.as_string(), "C,3\nS,1,2\nO,0,1");
}

#[test]
fn as_string_simple_mode_header() {
    let recording = Recording::new(Mode::Simple, 10);
    assert_eq!(recording.as_string(), "S,10");
}

// Round trip: serializing and reading back reproduces mode, board size and
// the ordered move sequence.
#[test]
fn round_trip_reproduces_recording() {
    let mut recording = Recording::new(Mode::Simple, 7);
    recording.add_move(Cell::S, 0, 6);
    recording.add_move(Cell::O, 3, 3);
    recording.add_move(Cell::S, 6, 0);
    let text = recording.as_string();
    let back = Recording::from_string(&text).unwrap();
    assert_eq!(back.mode, Mode::Simple);
    assert_eq!(back.board_size, 7);
    assert_eq!(back.moves, recording.moves);
}

#[test]
fn round_trip_of_empty_recording() {
    let recording = Recording::new(Mode::Classic, 12);
    let back = Recording::from_string(&recording.as_string()).unwrap();
    assert!(back.mode == Mode::Classic && back.board_size == 12 && back.moves.len() == 0);
}

#[test]
fn from_string_reads_moves_in_order() {
    let rec = Recording::from_string("C,5\nS,1,2\nO,3,4").unwrap();
    assert_eq!(rec.mode, Mode::Classic);
    assert_eq!(rec.board_size, 5);
    assert_eq!(rec.moves.len(), 2);
    assert!(rec.moves[0].cell == Cell::S && rec.moves[0].row == 1 && rec.moves[0].col == 2);
    assert!(rec.moves[1].cell == Cell::O && rec.moves[1].row == 3 && rec.moves[1].col == 4);
}

// Windows line endings are tolerated.
#[test]
fn from_string_tolerates_crlf() {
    let rec = Recording::from_string("S,4\r\nO,0,0\r\nS,2,1").unwrap();
    assert_eq!(rec.mode, Mode::Simple);
    assert_eq!(rec.board_size, 4);
    assert_eq!(rec.moves.len(), 2);
    assert!(rec.moves[0].cell == Cell::O && rec.moves[1].cell == Cell::S);
}

// An unknown mode tag defaults to Classic on read.
#[test]
fn from_string_unknown_mode_defaults_to_classic() {
    let rec = Recording::from_string("X,6").unwrap();
    assert_eq!(rec.mode, Mode::Classic);
}

// An unknown cell tag defaults to the empty cell on read.
#[test]
fn from_string_unknown_cell_defaults_to_empty() {
    let rec = Recording::from_string("C,6\nQ,1,1").unwrap();
    assert_eq!(rec.moves[0].cell, Cell::Empty);
}

// A header without a board size yields nothing.
#[test]
fn from_string_rejects_header_without_size() {
    assert!(Recording::from_string("C").is_none());
}

// A non-numeric board size yields nothing.
#[test]
fn from_string_rejects_bad_size() {
    assert!(Recording::from_string("C,abc").is_none());
}

// Empty text yields nothing.
#[test]
fn from_string_rejects_empty_text() {
    assert!(Recording::from_string("").is_none());
}

// A move line with too few fields aborts the whole parse.
#[test]
fn from_string_rejects_short_move_line() {
    assert!(Recording::from_string("C,5\nS,1").is_none());
}

// A move line with a malformed coordinate aborts the whole parse, even when
// earlier lines were fine.
#[test]
fn from_string_rejects_bad_coordinate() {
    assert!(Recording::from_string("C,5\nS,1,2\nO,x,4").is_none());
}

// A number too large for the machine aborts the parse.
#[test]
fn from_string_rejects_oversized_number() {
    assert!(Recording::from_string("C,99999999999999999999999999").is_none());
}

// The cursor of a recording read back starts at the first move.
#[test]
fn from_string_cursor_starts_at_first_move() {
    let mut rec = Recording::from_string("C,5\nS,1,2").unwrap();
    let m = rec.next_move().unwrap();
    assert!(m.cell == Cell::S && m.row == 1 && m.col == 2);
}

// Leading zeros are read as the same number.
#[test]
fn from_string_accepts_leading_zeros() {
    let rec = Recording::from_string("C,007").unwrap();
    assert_eq!(rec.board_size, 7);
}
