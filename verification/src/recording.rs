//! An append-only log of the moves of one game, with sequential replay and
//! an exact text serialization.

use vstd::prelude::*;
use vstd::string::*;
use crate::game_enums::{Cell, Mode};
use crate::codec::{
    cell_from, cell_str, header_line, lemma_parse_moves_none_extends, line_end, mode_from,
    mode_str, parse_header, parse_move_line, parse_moves, spec_deserialize, spec_serialize,
};
use crate::text::{chars_of, parse_usize, spec_split, split_chars, strip_cr, to_dec};

verus! {

/// One recorded move: who-played-what is carried by the cell symbol, where by
/// the (row, col) coordinate.
#[derive(Clone, Copy, PartialEq, Eq, Structural, Debug)]
pub struct Move {
    pub cell: Cell,
    pub row: usize,
    pub col: usize,
}

/// An ordered, replayable log of moves tied to a fixed mode and board size.
///
/// Moves are only ever appended, in play order. The replay cursor is the
/// index of the next move to yield; it is advanced by [`Recording::next_move`]
/// and set back to the start by [`Recording::reset`].
pub struct Recording {
    pub mode: Mode,
    pub board_size: usize,
    pub moves: Vec<Move>,
    current_move: usize,
}

/// The mathematical content of a [`Recording`].
#[verifier::ext_equal]
pub struct RecordingModel {
    pub mode: Mode,
    pub board_size: nat,
    pub moves: Seq<Move>,
    pub cursor: nat,
}

impl View for Recording {
    type V = RecordingModel;

    closed spec fn view(&self) -> RecordingModel {
        RecordingModel {
            mode: self.mode,
            board_size: self.board_size as nat,
            moves: self.moves@,
            cursor: self.current_move as nat,
        }
    }
}

/// What one playback request yields and where it leaves the cursor: the move
/// under the cursor and the advanced cursor, or `None` with the cursor left
/// alone once every move has been yielded.
pub open spec fn next_move_spec(moves: Seq<Move>, cursor: nat) -> (nat, Option<Move>) {
    if cursor < moves.len() {
        ((cursor + 1) as nat, Some(moves[cursor as int]))
    } else {
        (cursor, None::<Move>)
    }
}

/// The cursor after `k` playback requests on a recording that started at the
/// beginning and has not been reset in between.
pub open spec fn cursor_after(moves: Seq<Move>, k: nat) -> nat
    decreases k,
{
    if k == 0 {
        0
    } else {
        next_move_spec(moves, cursor_after(moves, (k - 1) as nat)).0
    }
}

/// Replay yields every move once, in order, then reports exhaustion: counting
/// playback requests from zero on a recording of N moves, request `k` yields
/// move `k` for `k < N`, and `None` for every `k >= N`. In particular N + 1
/// requests yield the N moves in order and then `None`.
pub proof fn lemma_replay_in_order(moves: Seq<Move>, k: nat)
    ensures
        cursor_after(moves, k) == if k <= moves.len() { k as int } else { moves.len() as int },
        k < moves.len() ==> next_move_spec(moves, cursor_after(moves, k)).1
            == Some(moves[k as int]),
        k >= moves.len() ==> next_move_spec(moves, cursor_after(moves, k)).1 is None,
    decreases k,
{
    if k > 0 {
        lemma_replay_in_order(moves, (k - 1) as nat);
    }
}

impl Recording {
    /// An empty recording for a game of the given mode and board size.
    pub fn new(mode: Mode, board_size: usize) -> (r: Self)
        ensures
            r@ == (RecordingModel {
                mode,
                board_size: board_size as nat,
                moves: Seq::<Move>::empty(),
                cursor: 0,
            }),
    {
        let r = Recording { mode, board_size, moves: Vec::new(), current_move: 0 };
        proof {
            assert(r.moves@ =~= Seq::<Move>::empty());
        }
        r
    }

    /// Append a move to the log. Never removes or reorders prior entries.
    pub fn add_move(&mut self, cell: Cell, row: usize, col: usize)
        ensures
            final(self)@ == (RecordingModel {
                moves: old(self)@.moves.push(Move { cell, row, col }),
                ..old(self)@
            }),
    {
        self.moves.push(Move { cell, row, col });
    }

    /// Yield the move at the cursor and advance the cursor, or `None` once
    /// the cursor is at or past the end of the log.
    pub fn next_move(&mut self) -> (r: Option<Move>)
        ensures
            final(self)@ == (RecordingModel {
                cursor: next_move_spec(old(self)@.moves, old(self)@.cursor).0,
                ..old(self)@
            }),
            r == next_move_spec(old(self)@.moves, old(self)@.cursor).1,
    {
        if self.moves.len() > self.current_move {
            self.current_move = self.current_move + 1;
            return Some(self.moves[self.current_move - 1]);
        }
        None
    }

    /// Set the cursor back to the start without altering the move log.
    pub fn reset(&mut self)
        ensures
            final(self)@ == (RecordingModel { cursor: 0, ..old(self)@ }),
    {
        self.current_move = 0;
    }

    /// The recording as its line-oriented text: the header line
    /// `<mode-code>,<board_size>`, then one line `<cell-code>,<row>,<col>`
    /// per move, newline-separated with no trailing metadata.
    pub fn as_string(&self) -> (r: String)
        ensures
            r@ == spec_serialize(self@.mode, self@.board_size, self@.moves),
    {
        let mut s = String::from_str(mode_str(self.mode));
        s.append(",");
        let num = to_dec(self.board_size);
        s.append(num.as_str());
        proof {
            reveal_strlit(",");
            assert(s@ =~= header_line(self@.mode, self@.board_size));
            assert(self@.moves.take(0) =~= Seq::<Move>::empty());
            assert(s@ =~= spec_serialize(self@.mode, self@.board_size, self@.moves.take(0)));
        }
        let end = self.moves.len();
        let mut i: usize = 0;
        while i < end
            invariant
                i <= end,
                end == self@.moves.len(),
                s@ == spec_serialize(self@.mode, self@.board_size, self@.moves.take(i as int)),
            decreases end - i,
        {
            let m = self.moves[i];
            s.append("\n");
            s.append(cell_str(m.cell));
            s.append(",");
            let row_text = to_dec(m.row);
            s.append(row_text.as_str());
            s.append(",");
            let col_text = to_dec(m.col);
            s.append(col_text.as_str());
            proof {
                reveal_strlit("\n");
                reveal_strlit(",");
                assert(self@.moves.take(i + 1).drop_last() =~= self@.moves.take(i as int));
                assert(self@.moves.take(i + 1).last() == self@.moves[i as int]);
                assert(s@ =~= spec_serialize(
                    self@.mode,
                    self@.board_size,
                    self@.moves.take(i + 1),
                ));
            }
            i = i + 1;
        }
        proof {
            assert(self@.moves.take(end as int) =~= self@.moves);
        }
        s
    }

    /// Read a recording back from its line-oriented text. The inverse of
    /// [`Recording::as_string`]: returns `None`, never a partial recording,
    /// whenever any line is malformed; tolerates `\r\n` line endings; the
    /// cursor of a recording read back starts at the beginning.
    pub fn from_string(text: &str) -> (r: Option<Recording>)
        ensures
            (match spec_deserialize(text@) {
                None => r is None,
                Some((mode, size, moves)) => (match r {
                    Some(rec) => rec@ == (RecordingModel {
                        mode,
                        board_size: size,
                        moves,
                        cursor: 0,
                    }),
                    None => false,
                }),
            }),
    {
        let cs = chars_of(text);
        let lines = split_chars(&cs, cs.len(), '\n');
        let ghost llines = lines@.map_values(|f: Vec<char>| f@);
        proof {
            assert(cs@.take(cs@.len() as int) =~= cs@);
            assert(llines == spec_split(text@, '\n'));
            assert(llines[0] == lines@[0]@);
        }
        let header = &lines[0];
        let hn = line_end(header);
        let hfields = split_chars(header, hn, ',');
        proof {
            assert(hfields@.map_values(|f: Vec<char>| f@) == spec_split(
                strip_cr(llines[0]),
                ',',
            ));
        }
        if hfields.len() < 2 {
            return None;
        }
        proof {
            assert(hfields@[1]@ == hfields@.map_values(|f: Vec<char>| f@)[1]);
            assert(hfields@[0]@ == hfields@.map_values(|f: Vec<char>| f@)[0]);
        }
        let size = match parse_usize(&hfields[1]) {
            Some(v) => v,
            None => {
                return None;
            },
        };
        let mode = mode_from(&hfields[0]);
        proof {
            assert(parse_header(strip_cr(llines[0])) == Some((mode, size as nat)));
        }
        let mut rec = Recording::new(mode, size);
        let n = lines.len();
        let mut i: usize = 1;
        while i < n
            invariant
                1 <= i <= n,
                n == lines@.len(),
                llines == lines@.map_values(|f: Vec<char>| f@),
                llines == spec_split(text@, '\n'),
                parse_header(strip_cr(llines[0])) == Some((mode, size as nat)),
                parse_moves(llines.subrange(1, i as int)) == Some(rec@.moves),
                rec@.mode == mode,
                rec@.board_size == size as nat,
                rec@.cursor == 0,
            decreases n - i,
        {
            let line = &lines[i];
            proof {
                assert(llines[i as int] == lines@[i as int]@);
            }
            let ln = line_end(line);
            let fields = split_chars(line, ln, ',');
            let ghost sfields = spec_split(strip_cr(llines[i as int]), ',');
            proof {
                assert(fields@.map_values(|f: Vec<char>| f@) == sfields);
                assert(llines.subrange(1, i + 1).drop_last() =~= llines.subrange(1, i as int));
                assert(llines.subrange(1, i + 1).last() == llines[i as int]);
            }
            if fields.len() < 3 {
                proof {
                    Self::lemma_bad_line(llines, i as int, rec@.moves);
                }
                return None;
            }
            proof {
                assert(fields@[0]@ == sfields[0]);
                assert(fields@[1]@ == sfields[1]);
                assert(fields@[2]@ == sfields[2]);
            }
            let row = match parse_usize(&fields[1]) {
                Some(v) => v,
                None => {
                    proof {
                        Self::lemma_bad_line(llines, i as int, rec@.moves);
                    }
                    return None;
                },
            };
            let col = match parse_usize(&fields[2]) {
                Some(v) => v,
                None => {
                    proof {
                        Self::lemma_bad_line(llines, i as int, rec@.moves);
                    }
                    return None;
                },
            };
            let cell = cell_from(&fields[0]);
            rec.add_move(cell, row, col);
            proof {
                assert(parse_move_line(strip_cr(llines[i as int])) == Some(
                    Move { cell, row, col },
                ));
                assert(parse_moves(llines.subrange(1, i + 1)) == Some(rec@.moves));
            }
            i = i + 1;
        }
        proof {
            assert(llines.subrange(1, n as int) =~= llines.drop_first());
        }
        Some(rec)
    }

    /// If line `i` does not parse while every line before it did, the whole
    /// tail of move lines does not parse.
    proof fn lemma_bad_line(llines: Seq<Seq<char>>, i: int, ms: Seq<Move>)
        requires
            1 <= i < llines.len(),
            parse_moves(llines.subrange(1, i)) == Some(ms),
            parse_move_line(strip_cr(llines[i])) is None,
        ensures
            parse_moves(llines.drop_first()) is None,
    {
        assert(llines.subrange(1, i + 1).drop_last() =~= llines.subrange(1, i));
        assert(llines.subrange(1, i + 1).last() == llines[i]);
        assert(parse_moves(llines.subrange(1, i + 1)) is None);
        lemma_parse_moves_none_extends(
            llines.subrange(1, i + 1),
            llines.subrange(i + 1, llines.len() as int),
        );
        assert(llines.subrange(1, i + 1) + llines.subrange(i + 1, llines.len() as int)
            =~= llines.drop_first());
    }
}

} // verus!
