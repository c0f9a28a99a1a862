//! The recording's line-oriented text format, as mathematics.
//!
//! A serialized recording is a header line `<mode-code>,<board_size>`
//! followed by one line `<cell-code>,<row>,<col>` per move, separated by
//! single newlines and with no trailing metadata. Parsing is all-or-nothing:
//! any malformed line makes the whole text unreadable.

use vstd::prelude::*;
use crate::game_enums::{Cell, Mode};
use crate::recording::Move;
use crate::text::{
    all_digits, dec_str, is_digit, lemma_dec_str_digits, lemma_parse_count_of_dec_str,
    lemma_split_append, lemma_split_no_sep, parse_count, spec_split, strip_cr,
};

verus! {

/// The one-character tag of a mode: `C` for Classic, `S` for Simple.
pub open spec fn mode_code(m: Mode) -> Seq<char> {
    match m {
        Mode::Classic => seq!['C'],
        Mode::Simple => seq!['S'],
    }
}

/// The mode a header field denotes: `S` is Simple, anything else Classic.
pub open spec fn mode_of_code(f: Seq<char>) -> Mode {
    if f == seq!['S'] {
        Mode::Simple
    } else {
        Mode::Classic
    }
}

/// The tag of a cell: `S`, `O`, or nothing for an empty-cell move.
pub open spec fn cell_code(c: Cell) -> Seq<char> {
    match c {
        Cell::S => seq!['S'],
        Cell::O => seq!['O'],
        Cell::Empty => Seq::<char>::empty(),
    }
}

/// The cell a move field denotes: `S` or `O`, anything else the empty cell.
pub open spec fn cell_of_code(f: Seq<char>) -> Cell {
    if f == seq!['S'] {
        Cell::S
    } else if f == seq!['O'] {
        Cell::O
    } else {
        Cell::Empty
    }
}

/// The header line of a recording: mode tag, a comma, the board size.
pub open spec fn header_line(mode: Mode, board_size: nat) -> Seq<char> {
    mode_code(mode) + seq![','] + dec_str(board_size)
}

/// The line of one move: cell tag, row and column, comma-separated.
pub open spec fn move_line(m: Move) -> Seq<char> {
    cell_code(m.cell) + seq![','] + dec_str(m.row as nat) + seq![','] + dec_str(m.col as nat)
}

/// The move lines, each preceded by the newline that separates it from the
/// line before.
pub open spec fn moves_text(moves: Seq<Move>) -> Seq<char>
    decreases moves.len(),
{
    if moves.len() == 0 {
        Seq::<char>::empty()
    } else {
        moves_text(moves.drop_last()) + seq!['\n'] + move_line(moves.last())
    }
}

/// The full serialized text of a recording.
pub open spec fn spec_serialize(mode: Mode, board_size: nat, moves: Seq<Move>) -> Seq<char> {
    header_line(mode, board_size) + moves_text(moves)
}

/// Read mode and board size from a header line, `None` if the line has no
/// second field or its second field is not a machine-sized number.
pub open spec fn parse_header(l: Seq<char>) -> Option<(Mode, nat)> {
    let fields = spec_split(l, ',');
    if fields.len() < 2 {
        None
    } else {
        match parse_count(fields[1]) {
            Some(size) => Some((mode_of_code(fields[0]), size)),
            None => None,
        }
    }
}

/// Read one move from a line, `None` if the line has fewer than three fields
/// or its row or column is not a machine-sized number.
pub open spec fn parse_move_line(l: Seq<char>) -> Option<Move> {
    let fields = spec_split(l, ',');
    if fields.len() < 3 {
        None
    } else {
        match (parse_count(fields[1]), parse_count(fields[2])) {
            (Some(r), Some(c)) => Some(
                Move { cell: cell_of_code(fields[0]), row: r as usize, col: c as usize },
            ),
            _ => None,
        }
    }
}

/// Read the move lines in order, each tolerating one trailing carriage
/// return; any unreadable line makes the whole sequence unreadable.
pub open spec fn parse_moves(lines: Seq<Seq<char>>) -> Option<Seq<Move>>
    decreases lines.len(),
{
    if lines.len() == 0 {
        Some(Seq::<Move>::empty())
    } else {
        match parse_moves(lines.drop_last()) {
            None => None,
            Some(ms) => match parse_move_line(strip_cr(lines.last())) {
                None => None,
                Some(m) => Some(ms.push(m)),
            },
        }
    }
}

/// Read a whole recording text: mode and board size from the first line,
/// then one move per following line. All-or-nothing.
pub open spec fn spec_deserialize(text: Seq<char>) -> Option<(Mode, nat, Seq<Move>)> {
    let lines = spec_split(text, '\n');
    match parse_header(strip_cr(lines[0])) {
        None => None,
        Some((mode, size)) => match parse_moves(lines.drop_first()) {
            None => None,
            Some(moves) => Some((mode, size, moves)),
        },
    }
}

/// Whether `c` occurs nowhere in `s`.
pub open spec fn free_of(s: Seq<char>, c: char) -> bool {
    forall|i: int| 0 <= i < s.len() ==> #[trigger] s[i] != c
}

/// A digit string contains no separator and no carriage return.
proof fn lemma_digits_free(s: Seq<char>)
    requires
        all_digits(s),
    ensures
        free_of(s, ','),
        free_of(s, '\n'),
        free_of(s, '\r'),
{
    assert forall|i: int| 0 <= i < s.len() implies #[trigger] s[i] != ',' && s[i] != '\n'
        && s[i] != '\r' by {
        assert(is_digit(s[i]));
    }
}

/// A header line contains no newline and does not end in a carriage return.
proof fn lemma_header_line_clean(mode: Mode, board_size: nat)
    ensures
        free_of(header_line(mode, board_size), '\n'),
        strip_cr(header_line(mode, board_size)) == header_line(mode, board_size),
{
    let h = header_line(mode, board_size);
    lemma_dec_str_digits(board_size);
    lemma_digits_free(dec_str(board_size));
    assert forall|i: int| 0 <= i < h.len() implies #[trigger] h[i] != '\n' by {
        if i >= (mode_code(mode) + seq![',']).len() {
            assert(h[i] == dec_str(board_size)[i - (mode_code(mode) + seq![',']).len()]);
        }
    }
    assert(h.last() == dec_str(board_size).last());
    assert(is_digit(h.last()));
}

/// A move line contains no newline and does not end in a carriage return.
proof fn lemma_move_line_clean(m: Move)
    ensures
        free_of(move_line(m), '\n'),
        strip_cr(move_line(m)) == move_line(m),
{
    let l = move_line(m);
    let prefix = cell_code(m.cell) + seq![','] + dec_str(m.row as nat) + seq![','];
    lemma_dec_str_digits(m.row as nat);
    lemma_dec_str_digits(m.col as nat);
    lemma_digits_free(dec_str(m.row as nat));
    lemma_digits_free(dec_str(m.col as nat));
    assert forall|i: int| 0 <= i < l.len() implies #[trigger] l[i] != '\n' by {
        if i < prefix.len() {
            if i < (cell_code(m.cell) + seq![',']).len() {
            } else if i < (cell_code(m.cell) + seq![','] + dec_str(m.row as nat)).len() {
                assert(l[i] == dec_str(m.row as nat)[i - (cell_code(m.cell)
                    + seq![',']).len()]);
            }
        } else {
            assert(l[i] == dec_str(m.col as nat)[i - prefix.len()]);
        }
    }
    assert(l.last() == dec_str(m.col as nat).last());
    assert(is_digit(l.last()));
}

/// The serialized text splits at newlines into the header line followed by
/// the move lines, in order.
proof fn lemma_split_serialized(mode: Mode, board_size: nat, moves: Seq<Move>)
    ensures
        spec_split(spec_serialize(mode, board_size, moves), '\n') == seq![
            header_line(mode, board_size),
        ] + moves.map_values(|m: Move| move_line(m)),
    decreases moves.len(),
{
    let header = header_line(mode, board_size);
    lemma_header_line_clean(mode, board_size);
    if moves.len() == 0 {
        assert(spec_serialize(mode, board_size, moves) =~= header);
        lemma_split_no_sep(header, '\n');
        assert(spec_split(spec_serialize(mode, board_size, moves), '\n') =~~= seq![header]
            + moves.map_values(|m: Move| move_line(m)));
    } else {
        let ms = moves.drop_last();
        let m = moves.last();
        lemma_split_serialized(mode, board_size, ms);
        lemma_move_line_clean(m);
        lemma_split_no_sep(move_line(m), '\n');
        assert(spec_serialize(mode, board_size, moves) =~= spec_serialize(mode, board_size, ms)
            + seq!['\n'] + move_line(m));
        lemma_split_append(spec_serialize(mode, board_size, ms), move_line(m), '\n');
        assert(moves.map_values(|mv: Move| move_line(mv)) =~= ms.map_values(
            |mv: Move| move_line(mv),
        ).push(move_line(m)));
        assert(spec_split(spec_serialize(mode, board_size, moves), '\n') =~~= seq![header]
            + moves.map_values(|mv: Move| move_line(mv)));
    }
}

/// A serialized header line reads back as the mode and size it was made from.
proof fn lemma_parse_header_of_serialized(mode: Mode, board_size: nat)
    requires
        board_size <= usize::MAX as nat,
    ensures
        parse_header(strip_cr(header_line(mode, board_size))) == Some((mode, board_size)),
{
    let h = header_line(mode, board_size);
    lemma_header_line_clean(mode, board_size);
    lemma_dec_str_digits(board_size);
    lemma_digits_free(dec_str(board_size));
    assert(free_of(mode_code(mode), ','));
    lemma_split_no_sep(mode_code(mode), ',');
    lemma_split_no_sep(dec_str(board_size), ',');
    lemma_split_append(mode_code(mode), dec_str(board_size), ',');
    let fields = spec_split(h, ',');
    assert(fields =~~= seq![mode_code(mode), dec_str(board_size)]);
    lemma_parse_count_of_dec_str(board_size);
    assert(mode_of_code(mode_code(mode)) == mode) by {
        if mode == Mode::Classic {
            assert(seq!['C'][0] == 'C');
            assert(seq!['S'][0] == 'S');
            assert(mode_code(mode) != seq!['S']);
        } else {
            assert(mode_code(mode) == seq!['S']);
        }
    }
}

/// A serialized move line reads back as the move it was made from.
proof fn lemma_parse_move_line_of_serialized(m: Move)
    ensures
        parse_move_line(strip_cr(move_line(m))) == Some(m),
{
    let l = move_line(m);
    lemma_move_line_clean(m);
    lemma_dec_str_digits(m.row as nat);
    lemma_dec_str_digits(m.col as nat);
    lemma_digits_free(dec_str(m.row as nat));
    lemma_digits_free(dec_str(m.col as nat));
    assert(free_of(cell_code(m.cell), ','));
    lemma_split_no_sep(cell_code(m.cell), ',');
    lemma_split_no_sep(dec_str(m.row as nat), ',');
    lemma_split_no_sep(dec_str(m.col as nat), ',');
    lemma_split_append(dec_str(m.row as nat), dec_str(m.col as nat), ',');
    lemma_split_append(
        cell_code(m.cell),
        dec_str(m.row as nat) + seq![','] + dec_str(m.col as nat),
        ',',
    );
    assert(l =~= cell_code(m.cell) + seq![','] + (dec_str(m.row as nat) + seq![','] + dec_str(
        m.col as nat,
    )));
    let fields = spec_split(l, ',');
    assert(fields =~~= seq![cell_code(m.cell), dec_str(m.row as nat), dec_str(m.col as nat)]);
    lemma_parse_count_of_dec_str(m.row as nat);
    lemma_parse_count_of_dec_str(m.col as nat);
    assert(cell_of_code(cell_code(m.cell)) == m.cell) by {
        assert(seq!['S'][0] == 'S');
        assert(seq!['O'][0] == 'O');
        assert(seq!['S'].len() == 1);
        assert(seq!['O'].len() == 1);
        assert(Seq::<char>::empty().len() == 0);
        match m.cell {
            Cell::S => {
                assert(cell_code(m.cell) != seq!['O']);
            },
            Cell::O => {
                assert(cell_code(m.cell) != seq!['S']);
            },
            Cell::Empty => {
                assert(cell_code(m.cell) != seq!['S']);
                assert(cell_code(m.cell) != seq!['O']);
            },
        }
    }
}

/// Serialized move lines read back as the moves they were made from.
proof fn lemma_parse_moves_of_serialized(moves: Seq<Move>)
    ensures
        parse_moves(moves.map_values(|m: Move| move_line(m))) == Some(moves),
    decreases moves.len(),
{
    let lines = moves.map_values(|m: Move| move_line(m));
    if moves.len() == 0 {
        assert(lines.len() == 0);
        assert(parse_moves(lines) == Some(Seq::<Move>::empty()));
        assert(Some(Seq::<Move>::empty()) == Some(moves)) by {
            assert(moves =~= Seq::<Move>::empty());
        }
    } else {
        let ms = moves.drop_last();
        let m = moves.last();
        lemma_parse_moves_of_serialized(ms);
        lemma_parse_move_line_of_serialized(m);
        assert(lines.drop_last() =~= ms.map_values(|mv: Move| move_line(mv)));
        assert(lines.last() == move_line(m));
        assert(ms.push(m) =~= moves);
    }
}

/// If some prefix of the lines is unreadable, so is the whole.
pub proof fn lemma_parse_moves_none_extends(a: Seq<Seq<char>>, b: Seq<Seq<char>>)
    requires
        parse_moves(a) is None,
    ensures
        parse_moves(a + b) is None,
    decreases b.len(),
{
    if b.len() == 0 {
        assert(a + b =~= a);
    } else {
        lemma_parse_moves_none_extends(a, b.drop_last());
        assert((a + b).drop_last() =~= a + b.drop_last());
        assert((a + b).len() > 0);
    }
}

/// Round trip: the serialized text of any recording deserializes to exactly
/// the mode, board size and ordered move sequence it was made from.
pub proof fn lemma_round_trip(mode: Mode, board_size: usize, moves: Seq<Move>)
    ensures
        spec_deserialize(spec_serialize(mode, board_size as nat, moves)) == Some(
            (mode, board_size as nat, moves),
        ),
{
    let text = spec_serialize(mode, board_size as nat, moves);
    let header = header_line(mode, board_size as nat);
    let move_lines = moves.map_values(|m: Move| move_line(m));
    lemma_split_serialized(mode, board_size as nat, moves);
    let lines = spec_split(text, '\n');
    assert(lines[0] == header);
    assert(lines.drop_first() =~= move_lines);
    lemma_parse_header_of_serialized(mode, board_size as nat);
    lemma_parse_moves_of_serialized(moves);
}

/// The mode tag as a borrowed string.
pub fn mode_str(m: Mode) -> (r: &'static str)
    ensures
        r@ == mode_code(m),
{
    proof {
        reveal_strlit("C");
        reveal_strlit("S");
    }
    let r = match m {
        Mode::Classic => "C",
        Mode::Simple => "S",
    };
    proof {
        assert(r@ =~= mode_code(m));
    }
    r
}

/// The cell tag as a borrowed string.
pub fn cell_str(c: Cell) -> (r: &'static str)
    ensures
        r@ == cell_code(c),
{
    proof {
        reveal_strlit("S");
        reveal_strlit("O");
        reveal_strlit("");
    }
    let r = match c {
        Cell::S => "S",
        Cell::O => "O",
        Cell::Empty => "",
    };
    proof {
        assert(r@ =~= cell_code(c));
    }
    r
}

/// The mode a header field denotes.
pub fn mode_from(f: &Vec<char>) -> (r: Mode)
    ensures
        r == mode_of_code(f@),
{
    if f.len() == 1 && f[0] == 'S' {
        proof {
            assert(f@ =~= seq!['S']);
        }
        Mode::Simple
    } else {
        proof {
            assert(seq!['S'].len() == 1);
            assert(seq!['S'][0] == 'S');
            assert(f@ != seq!['S']);
        }
        Mode::Classic
    }
}

/// The cell a move field denotes.
pub fn cell_from(f: &Vec<char>) -> (r: Cell)
    ensures
        r == cell_of_code(f@),
{
    proof {
        assert(seq!['S'].len() == 1);
        assert(seq!['S'][0] == 'S');
        assert(seq!['O'].len() == 1);
        assert(seq!['O'][0] == 'O');
    }
    if f.len() == 1 && f[0] == 'S' {
        proof {
            assert(f@ =~= seq!['S']);
        }
        Cell::S
    } else if f.len() == 1 && f[0] == 'O' {
        proof {
            assert(f@ =~= seq!['O']);
            assert(f@ != seq!['S']);
        }
        Cell::O
    } else {
        proof {
            assert(f@ != seq!['S']);
            assert(f@ != seq!['O']);
        }
        Cell::Empty
    }
}

/// The length of `v` without a trailing carriage return, if it ends in one.
pub fn line_end(v: &Vec<char>) -> (n: usize)
    ensures
        n <= v@.len(),
        v@.take(n as int) == strip_cr(v@),
{
    if v.len() > 0 && v[v.len() - 1] == '\r' {
        proof {
            assert(v@.take(v@.len() - 1) =~= v@.drop_last());
        }
        v.len() - 1
    } else {
        proof {
            assert(v@.take(v@.len() as int) =~= v@);
        }
        v.len()
    }
}

} // verus!
