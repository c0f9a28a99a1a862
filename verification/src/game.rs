//! The SOS game engine: board state, turn order, scoring, the win-condition
//! state machine, and the recording of every accepted move.

use vstd::prelude::*;
use rand::Rng;
use crate::board::OutOfBounds;
use crate::game_enums::{other_turn, Cell, Mode, State, Turn};
use crate::recording::{Move, Recording, RecordingModel};

verus! {

/// The mathematical content of a [`Game`].
#[verifier::ext_equal]
pub struct GameModel {
    pub board: Seq<Seq<Cell>>,
    pub turn: Turn,
    pub mode: Mode,
    pub cells_filled: nat,
    pub left_score: nat,
    pub right_score: nat,
    pub state: State,
    pub recording: RecordingModel,
}

impl GameModel {
    /// The side length of the board.
    pub open spec fn size(self) -> nat {
        self.board.len()
    }

    /// The board is square: every row is as long as there are rows.
    pub open spec fn square(self) -> bool {
        forall|y: int| 0 <= y < self.board.len() ==> (#[trigger] self.board[y]).len()
            == self.board.len()
    }

    /// Whether column `x`, row `y` lies on the board.
    pub open spec fn valid(self, x: int, y: int) -> bool {
        0 <= x < self.size() && 0 <= y < self.size()
    }

    /// Well-formedness, established by [`Game::new`] and preserved by every
    /// engine operation: a square board small enough that neither the fill
    /// counter nor a score can outgrow its machine word, scores bounded by
    /// the moves played so far, a board with room left while play is on, and
    /// a recording tagged like the game.
    pub open spec fn wf(self) -> bool {
        &&& self.square()
        &&& self.cells_filled <= self.size() * self.size()
        &&& 8 * self.size() * self.size() <= u32::MAX as nat
        &&& self.size() * self.size() <= usize::MAX as nat
        &&& self.left_score <= 8 * self.cells_filled
        &&& self.right_score <= 8 * self.cells_filled
        &&& (self.state == State::Playing ==> self.cells_filled < self.size() * self.size())
        &&& self.recording.mode == self.mode
        &&& self.recording.board_size == self.size()
    }
}

/// An all-empty square board of the given side length.
pub open spec fn empty_board(size: nat) -> Seq<Seq<Cell>> {
    Seq::new(size, |y: int| Seq::new(size, |x: int| Cell::Empty))
}

/// Whether column `x`, row `y` lies on a square board of side `n`.
pub open spec fn in_sq(n: int, x: int, y: int) -> bool {
    0 <= x < n && 0 <= y < n
}

/// One point if the cell at (x, y) is the middle of an S-O-S line in the
/// direction (dx, dy): both neighbours on that line are in bounds and `S`.
pub open spec fn line_hit(b: Seq<Seq<Cell>>, x: int, y: int, dx: int, dy: int) -> nat {
    let n = b.len() as int;
    if in_sq(n, x - dx, y - dy) && in_sq(n, x + dx, y + dy) && b[y - dy][x - dx] == Cell::S
        && b[y + dy][x + dx] == Cell::S {
        1
    } else {
        0
    }
}

/// One point if the cell at (x, y) is the outer end of an S-O-S line running
/// in the direction (dx, dy): the neighbour one step out is `O` and the cell
/// two steps out is in bounds and `S`.
pub open spec fn ray_hit(b: Seq<Seq<Cell>>, x: int, y: int, dx: int, dy: int) -> nat {
    let n = b.len() as int;
    if in_sq(n, x + 2 * dx, y + 2 * dy) && b[y + dy][x + dx] == Cell::O && b[y + 2 * dy][x + 2
        * dx] == Cell::S {
        1
    } else {
        0
    }
}

/// The number of S-O-S lines completed by the symbol standing at column `x`,
/// row `y`: an `O` centers up to four lines, an `S` ends up to eight; each
/// matching line counts exactly once.
pub open spec fn sos_at(b: Seq<Seq<Cell>>, x: int, y: int) -> nat {
    match b[y][x] {
        Cell::O => line_hit(b, x, y, 0, 1) + line_hit(b, x, y, 1, -1) + line_hit(b, x, y, 1, 1)
            + line_hit(b, x, y, 1, 0),
        Cell::S => ray_hit(b, x, y, 0, -1) + ray_hit(b, x, y, -1, -1) + ray_hit(b, x, y, 1, -1)
            + ray_hit(b, x, y, 0, 1) + ray_hit(b, x, y, -1, 1) + ray_hit(b, x, y, 1, 1)
            + ray_hit(b, x, y, -1, 0) + ray_hit(b, x, y, 1, 0),
        Cell::Empty => 0,
    }
}

/// The status the chosen policy derives from scores and board fullness.
///
/// Classic: play goes on until the board is full, then the higher score wins
/// and equal scores draw. Simple: a score lead wins at once, even with empty
/// cells remaining; a full board with equal scores draws.
pub open spec fn game_status(mode: Mode, left: nat, right: nat, filled: nat, size: nat) -> State {
    match mode {
        Mode::Classic => if filled != size * size {
            State::Playing
        } else if left > right {
            State::LeftWin
        } else if right > left {
            State::RightWin
        } else {
            State::Draw
        },
        Mode::Simple => if left > right {
            State::LeftWin
        } else if right > left {
            State::RightWin
        } else if filled == size * size {
            State::Draw
        } else {
            State::Playing
        },
    }
}

/// Whether the engine accepts a move at (row, col): the coordinate is on the
/// board, the cell there is empty, and play is on.
pub open spec fn accepts(g: GameModel, row: int, col: int) -> bool {
    &&& g.valid(col, row)
    &&& g.board[row][col] == Cell::Empty
    &&& g.state == State::Playing
}

/// The game after an accepted move: the symbol is written, the fill counter
/// steps, the mover's score grows by the S-O-S lines the move completed, the
/// move is recorded, the policy re-derives the status, and the turn passes
/// exactly when the move scored nothing.
pub open spec fn apply_move(g: GameModel, input: Cell, row: usize, col: usize) -> GameModel {
    let board = g.board.update(row as int, g.board[row as int].update(col as int, input));
    let sos = sos_at(board, col as int, row as int);
    let left: nat = if g.turn == Turn::Left { g.left_score + sos } else { g.left_score };
    let right: nat = if g.turn == Turn::Right { g.right_score + sos } else { g.right_score };
    GameModel {
        board,
        turn: if sos == 0 { other_turn(g.turn) } else { g.turn },
        mode: g.mode,
        cells_filled: g.cells_filled + 1,
        left_score: left,
        right_score: right,
        state: game_status(g.mode, left, right, g.cells_filled + 1, g.size()),
        recording: (RecordingModel {
            moves: g.recording.moves.push(Move { cell: input, row, col }),
            ..g.recording
        }),
    }
}

/// Contains game data such as board state, game mode, and player turn.
pub struct Game {
    board: Vec<Vec<Cell>>,
    pub turn: Turn,
    mode: Mode,
    cells_filled: usize,
    pub left_score: u32,
    pub right_score: u32,
    pub state: State,
    pub recording: Recording,
}

impl View for Game {
    type V = GameModel;

    closed spec fn view(&self) -> GameModel {
        GameModel {
            board: self.board@.map_values(|row: Vec<Cell>| row@),
            turn: self.turn,
            mode: self.mode,
            cells_filled: self.cells_filled as nat,
            left_score: self.left_score as nat,
            right_score: self.right_score as nat,
            state: self.state,
            recording: self.recording@,
        }
    }
}

impl Game {
    /// A fresh, not-yet-started game: an all-empty board, the left player to
    /// move, zero scores, and an empty recording tagged with the same mode
    /// and board size.
    ///
    /// The size bound keeps every score a move could ever reach inside its
    /// machine word.
    pub fn new(mode: Mode, board_size: usize) -> (g: Self)
        requires
            8 * board_size * board_size <= u32::MAX,
            board_size * board_size <= usize::MAX,
        ensures
            g@ == (GameModel {
                board: empty_board(board_size as nat),
                turn: Turn::Left,
                mode,
                cells_filled: 0,
                left_score: 0,
                right_score: 0,
                state: State::NotStarted,
                recording: RecordingModel {
                    mode,
                    board_size: board_size as nat,
                    moves: Seq::<Move>::empty(),
                    cursor: 0,
                },
            }),
            g@.wf(),
    {
        let mut board: Vec<Vec<Cell>> = Vec::new();
        let mut y: usize = 0;
        while y < board_size
            invariant
                y <= board_size,
                board@.len() == y,
                forall|j: int| 0 <= j < y ==> (#[trigger] board@[j])@ =~= Seq::new(
                    board_size as nat,
                    |x: int| Cell::Empty,
                ),
            decreases board_size - y,
        {
            let mut row: Vec<Cell> = Vec::new();
            let mut x: usize = 0;
            while x < board_size
                invariant
                    x <= board_size,
                    row@.len() == x,
                    forall|i: int| 0 <= i < x ==> #[trigger] row@[i] == Cell::Empty,
                decreases board_size - x,
            {
                row.push(Cell::Empty);
                x = x + 1;
            }
            proof {
                assert(row@ =~= Seq::new(board_size as nat, |x: int| Cell::Empty));
            }
            board.push(row);
            y = y + 1;
        }
        let g = Game {
            board,
            turn: Turn::Left,
            mode,
            cells_filled: 0,
            left_score: 0,
            right_score: 0,
            state: State::NotStarted,
            recording: Recording::new(mode, board_size),
        };
        proof {
            assert(g@.board =~~= empty_board(board_size as nat));
            assert(g@ =~~= (GameModel {
                board: empty_board(board_size as nat),
                turn: Turn::Left,
                mode,
                cells_filled: 0,
                left_score: 0,
                right_score: 0,
                state: State::NotStarted,
                recording: RecordingModel {
                    mode,
                    board_size: board_size as nat,
                    moves: Seq::<Move>::empty(),
                    cursor: 0,
                },
            }));
        }
        g
    }

    /// Start play: the status becomes `Playing`, whatever it was. Guarding
    /// against a double start is the caller's responsibility; the engine
    /// itself only gates moves on the status.
    pub fn start(&mut self)
        ensures
            final(self)@ == (GameModel { state: State::Playing, ..old(self)@ }),
            (old(self)@.wf() && old(self)@.cells_filled < old(self)@.size() * old(self)@.size())
                ==> final(self)@.wf(),
    {
        self.state = State::Playing;
        proof {
            assert(self@ =~~= (GameModel { state: State::Playing, ..old(self)@ }));
        }
    }

    /// The side length of the board.
    pub fn get_board_size(&self) -> (n: usize)
        ensures
            n == self@.size(),
    {
        self.board.len()
    }

    /// Reset every cell to empty, keeping the board size. The filled-cell
    /// counter goes back to zero with the board it counts; scores, turn,
    /// status and the recording are deliberately left as they are — only a
    /// new game resets those.
    pub fn clear_grid(&mut self)
        ensures
            final(self)@ == (GameModel {
                board: empty_board(old(self)@.size()),
                cells_filled: 0,
                ..old(self)@
            }),
    {
        let board_len = self.board.len();
        let mut fresh: Vec<Vec<Cell>> = Vec::new();
        let mut y: usize = 0;
        while y < board_len
            invariant
                y <= board_len,
                fresh@.len() == y,
                forall|j: int| 0 <= j < y ==> (#[trigger] fresh@[j])@ =~= Seq::new(
                    board_len as nat,
                    |x: int| Cell::Empty,
                ),
            decreases board_len - y,
        {
            let mut row: Vec<Cell> = Vec::new();
            let mut x: usize = 0;
            while x < board_len
                invariant
                    x <= board_len,
                    row@.len() == x,
                    forall|i: int| 0 <= i < x ==> #[trigger] row@[i] == Cell::Empty,
                decreases board_len - x,
            {
                row.push(Cell::Empty);
                x = x + 1;
            }
            proof {
                assert(row@ =~= Seq::new(board_len as nat, |x: int| Cell::Empty));
            }
            fresh.push(row);
            y = y + 1;
        }
        self.board = fresh;
        self.cells_filled = 0;
        proof {
            assert(self@.board =~~= empty_board(old(self)@.size()));
            assert(self@ =~~= (GameModel {
                board: empty_board(old(self)@.size()),
                cells_filled: 0,
                ..old(self)@
            }));
        }
    }

    /// The cell at column `x`, row `y` of a coordinate known to be on the
    /// board.
    fn cell_at(&self, x: usize, y: usize) -> (c: Cell)
        requires
            self@.square(),
            self@.valid(x as int, y as int),
        ensures
            c == self@.board[y as int][x as int],
    {
        proof {
            assert(self@.board[y as int] == self.board@[y as int]@);
        }
        self.board[y][x]
    }

    /// Whether column `col`, row `row` lies on the board.
    fn valid_cell(&self, col: usize, row: usize) -> (r: bool)
        ensures
            r == self@.valid(col as int, row as int),
    {
        col < self.board.len() && row < self.board.len()
    }

    /// Bounds-checked read of the cell at column `x`, row `y`.
    ///
    /// Returns `Err(OutOfBounds)` exactly when the coordinate is off the
    /// board.
    pub fn get_cell(&self, x: usize, y: usize) -> (r: Result<Cell, OutOfBounds>)
        requires
            self@.square(),
        ensures
            self@.valid(x as int, y as int) ==> r == Ok::<Cell, OutOfBounds>(
                self@.board[y as int][x as int],
            ),
            !self@.valid(x as int, y as int) ==> r == Err::<Cell, OutOfBounds>(OutOfBounds),
    {
        match self.valid_cell(x, y) {
            true => Ok(self.cell_at(x, y)),
            false => Err(OutOfBounds),
        }
    }

    /// Hand the turn to the other player.
    pub fn switch_turn(&mut self)
        ensures
            final(self)@ == (GameModel { turn: other_turn(old(self)@.turn), ..old(self)@ }),
    {
        self.turn = match self.turn {
            Turn::Left => Turn::Right,
            Turn::Right => Turn::Left,
        };
        proof {
            assert(self@ =~~= (GameModel { turn: other_turn(old(self)@.turn), ..old(self)@ }));
        }
    }

    /// Whether every cell of the board has been filled.
    fn board_full(&self) -> (r: bool)
        requires
            self@.size() * self@.size() <= usize::MAX,
        ensures
            r == (self@.cells_filled == self@.size() * self@.size()),
    {
        self.cells_filled == self.board.len() * self.board.len()
    }

    /// The Classic policy: play goes on until the board is full; then the
    /// higher score wins, equal scores draw. [`lemma_classic_policy`] states
    /// the policy's case analysis in full generality over [`game_status`].
    pub fn classic_game_state(&self) -> (r: State)
        requires
            self@.size() * self@.size() <= usize::MAX,
        ensures
            r == game_status(
                Mode::Classic,
                self@.left_score,
                self@.right_score,
                self@.cells_filled,
                self@.size(),
            ),
    {
        // Game not yet over
        if !self.board_full() {
            return State::Playing;
        }
        // If game board is full, game is over
        if self.left_score > self.right_score {
            State::LeftWin
        } else if self.right_score > self.left_score {
            State::RightWin
        } else {
            State::Draw
        }
    }

    /// The Simple policy: a score lead wins at once; a full board with equal
    /// scores draws. [`lemma_simple_policy`] states the policy's case
    /// analysis in full generality over [`game_status`].
    pub fn simple_game_state(&self) -> (r: State)
        requires
            self@.size() * self@.size() <= usize::MAX,
        ensures
            r == game_status(
                Mode::Simple,
                self@.left_score,
                self@.right_score,
                self@.cells_filled,
                self@.size(),
            ),
    {
        if self.left_score > self.right_score {
            return State::LeftWin;
        } else if self.right_score > self.left_score {
            return State::RightWin;
        } else if self.board_full() {
            return State::Draw;
        }
        State::Playing
    }

    /// The status the game's own policy derives from its current state.
    pub fn get_game_state(&self) -> (r: State)
        requires
            self@.size() * self@.size() <= usize::MAX,
        ensures
            r == game_status(
                self@.mode,
                self@.left_score,
                self@.right_score,
                self@.cells_filled,
                self@.size(),
            ),
    {
        match self.mode {
            Mode::Classic => self.classic_game_state(),
            Mode::Simple => self.simple_game_state(),
        }
    }

    /// The number of S-O-S lines the symbol at column `x`, row `y` completes.
    #[verifier::rlimit(50)]
    fn sos_made(&self, x: usize, y: usize) -> (count: u32)
        requires
            self@.square(),
            self@.valid(x as int, y as int),
        ensures
            count == sos_at(self@.board, x as int, y as int),
    {
        let ghost b = self@.board;
        let ghost xi = x as int;
        let ghost yi = y as int;
        let mut count: u32 = 0;
        let n = self.board.len();
        match self.cell_at(x, y) {
            Cell::O => {
                if y > 0 && y + 1 < n {
                    if self.cell_at(x, y - 1) == Cell::S && self.cell_at(x, y + 1) == Cell::S {
                        count = count + 1;
                    }
                    proof {
                        assert(count == line_hit(b, xi, yi, 0, 1));
                    }
                    if x > 0 && x + 1 < n {
                        if self.cell_at(x + 1, y - 1) == Cell::S && self.cell_at(x - 1, y + 1)
                            == Cell::S {
                            count = count + 1;
                        }
                        proof {
                            assert(count == line_hit(b, xi, yi, 0, 1) + line_hit(
                                b,
                                xi,
                                yi,
                                1,
                                -1,
                            ));
                        }
                        if self.cell_at(x + 1, y + 1) == Cell::S && self.cell_at(x - 1, y - 1)
                            == Cell::S {
                            count = count + 1;
                        }
                    }
                }
                proof {
                    assert(count == line_hit(b, xi, yi, 0, 1) + line_hit(b, xi, yi, 1, -1)
                        + line_hit(b, xi, yi, 1, 1));
                }
                if x > 0 && x + 1 < n {
                    if self.cell_at(x + 1, y) == Cell::S && self.cell_at(x - 1, y) == Cell::S {
                        count = count + 1;
                    }
                }
                proof {
                    assert(count == sos_at(b, xi, yi));
                }
            },
            Cell::S => {
                if y > 1 {
                    if self.cell_at(x, y - 1) == Cell::O && self.cell_at(x, y - 2) == Cell::S {
                        count = count + 1;
                    }
                    proof {
                        assert(count == ray_hit(b, xi, yi, 0, -1));
                    }
                    if x > 1 {
                        if self.cell_at(x - 1, y - 1) == Cell::O && self.cell_at(x - 2, y - 2)
                            == Cell::S {
                            count = count + 1;
                        }
                    }
                    proof {
                        assert(count == ray_hit(b, xi, yi, 0, -1) + ray_hit(b, xi, yi, -1, -1));
                    }
                    if n - x > 2 {
                        if self.cell_at(x + 1, y - 1) == Cell::O && self.cell_at(x + 2, y - 2)
                            == Cell::S {
                            count = count + 1;
                        }
                    }
                }
                proof {
                    assert(count == ray_hit(b, xi, yi, 0, -1) + ray_hit(b, xi, yi, -1, -1)
                        + ray_hit(b, xi, yi, 1, -1));
                }
                if n - y > 2 {
                    if self.cell_at(x, y + 1) == Cell::O && self.cell_at(x, y + 2) == Cell::S {
                        count = count + 1;
                    }
                    proof {
                        assert(count == ray_hit(b, xi, yi, 0, -1) + ray_hit(b, xi, yi, -1, -1)
                            + ray_hit(b, xi, yi, 1, -1) + ray_hit(b, xi, yi, 0, 1));
                    }
                    if x > 1 {
                        if self.cell_at(x - 1, y + 1) == Cell::O && self.cell_at(x - 2, y + 2)
                            == Cell::S {
                            count = count + 1;
                        }
                    }
                    proof {
                        assert(count == ray_hit(b, xi, yi, 0, -1) + ray_hit(b, xi, yi, -1, -1)
                            + ray_hit(b, xi, yi, 1, -1) + ray_hit(b, xi, yi, 0, 1) + ray_hit(
                            b,
                            xi,
                            yi,
                            -1,
                            1,
                        ));
                    }
                    if n - x > 2 {
                        if self.cell_at(x + 1, y + 1) == Cell::O && self.cell_at(x + 2, y + 2)
                            == Cell::S {
                            count = count + 1;
                        }
                    }
                }
                proof {
                    assert(count == ray_hit(b, xi, yi, 0, -1) + ray_hit(b, xi, yi, -1, -1)
                        + ray_hit(b, xi, yi, 1, -1) + ray_hit(b, xi, yi, 0, 1) + ray_hit(
                        b,
                        xi,
                        yi,
                        -1,
                        1,
                    ) + ray_hit(b, xi, yi, 1, 1));
                }
                if x > 1 {
                    if self.cell_at(x - 1, y) == Cell::O && self.cell_at(x - 2, y) == Cell::S {
                        count = count + 1;
                    }
                }
                proof {
                    assert(count == ray_hit(b, xi, yi, 0, -1) + ray_hit(b, xi, yi, -1, -1)
                        + ray_hit(b, xi, yi, 1, -1) + ray_hit(b, xi, yi, 0, 1) + ray_hit(
                        b,
                        xi,
                        yi,
                        -1,
                        1,
                    ) + ray_hit(b, xi, yi, 1, 1) + ray_hit(b, xi, yi, -1, 0));
                }
                if n - x > 2 {
                    if self.cell_at(x + 1, y) == Cell::O && self.cell_at(x + 2, y) == Cell::S {
                        count = count + 1;
                    }
                }
                proof {
                    assert(count == sos_at(b, xi, yi));
                }
            },
            Cell::Empty => {},
        }
        count
    }

    /// Make a move on the game board.
    ///
    /// A move is accepted only while play is on, at an in-bounds coordinate
    /// whose cell is empty; then the game steps exactly by [`apply_move`].
    /// Any other move is a silent no-op: board, scores, turn, status and
    /// recording are all left untouched.
    pub fn make_move(&mut self, input: Cell, row: usize, col: usize)
        requires
            old(self)@.wf(),
        ensures
            final(self)@.wf(),
            accepts(old(self)@, row as int, col as int) ==> final(self)@ == apply_move(
                old(self)@,
                input,
                row,
                col,
            ),
            !accepts(old(self)@, row as int, col as int) ==> final(self)@ == old(self)@,
    {
        if self.valid_cell(col, row) {
            let occupied = self.cell_at(col, row);
            if occupied == Cell::Empty && self.state == State::Playing {
                proof {
                    assert(self@.board[row as int] == self.board@[row as int]@);
                }
                self.board[row][col] = input;
                proof {
                    assert(self@.board =~~= old(self)@.board.update(
                        row as int,
                        old(self)@.board[row as int].update(col as int, input),
                    ));
                    assert(self@.square());
                    assert(self@.size() == old(self)@.size());
                    assert(old(self)@.cells_filled < old(self)@.size() * old(self)@.size());
                    assert(self@.size() * self@.size() <= usize::MAX as nat);
                }
                self.cells_filled = self.cells_filled + 1;
                let sos = self.sos_made(col, row);
                proof {
                    assert(sos <= 8);
                    assert(self@.cells_filled == old(self)@.cells_filled + 1);
                    assert(self@.cells_filled <= self@.size() * self@.size());
                    assert(old(self)@.left_score <= 8 * old(self)@.cells_filled);
                    assert(old(self)@.right_score <= 8 * old(self)@.cells_filled);
                    assert(8 * self@.cells_filled <= 8 * self@.size() * self@.size())
                        by (nonlinear_arith)
                        requires
                            self@.cells_filled <= self@.size() * self@.size(),
                    ;
                    assert(self@.left_score + sos <= u32::MAX);
                    assert(self@.right_score + sos <= u32::MAX);
                }
                match self.turn {
                    Turn::Left => self.left_score = self.left_score + sos,
                    Turn::Right => self.right_score = self.right_score + sos,
                }
                self.recording.add_move(input, row, col);
                let next = self.get_game_state();
                self.state = next;
                if sos == 0 {
                    self.switch_turn();
                }
                proof {
                    assert(self@ =~~= apply_move(old(self)@, input, row, col));
                }
            }
        }
    }

    /// Make a uniformly random move for the player whose turn it is: a
    /// uniformly chosen `S` or `O` at a uniformly chosen empty cell. Does
    /// nothing unless play is on, or if no cell is empty.
    pub fn make_random_move(&mut self)
        requires
            old(self)@.wf(),
        ensures
            final(self)@.wf(),
            old(self)@.state != State::Playing ==> final(self)@ == old(self)@,
            (old(self)@.state == State::Playing && (exists|y: int, x: int|
                old(self)@.valid(x, y) && old(self)@.board[y][x] == Cell::Empty)) ==> exists|
                r: usize,
                c: usize,
                cl: Cell,
            |
                accepts(old(self)@, r as int, c as int) && (cl == Cell::S || cl == Cell::O)
                    && final(self)@ == apply_move(old(self)@, cl, r, c),
            (old(self)@.state == State::Playing && !(exists|y: int, x: int|
                old(self)@.valid(x, y) && old(self)@.board[y][x] == Cell::Empty))
                ==> final(self)@ == old(self)@,
    {
        if self.state != State::Playing {
            return ;
        }
        let input = if rand_below(2) == 0 {
            Cell::S
        } else {
            Cell::O
        };
        let n = self.board.len();
        let mut empties: Vec<(usize, usize)> = Vec::new();
        let mut y: usize = 0;
        while y < n
            invariant
                y <= n,
                n == self@.size(),
                self@.wf(),
                forall|k: int|
                    0 <= k < empties@.len() ==> {
                        &&& (#[trigger] empties@[k]).0 < n
                        &&& empties@[k].1 < n
                        &&& self@.board[empties@[k].0 as int][empties@[k].1 as int]
                            == Cell::Empty
                    },
                empties@.len() == 0 ==> forall|yy: int, xx: int|
                    0 <= yy < y && 0 <= xx < n ==> self@.board[yy][xx] != Cell::Empty,
            decreases n - y,
        {
            let mut x: usize = 0;
            while x < n
                invariant
                    y < n,
                    x <= n,
                    n == self@.size(),
                    self@.wf(),
                    forall|k: int|
                        0 <= k < empties@.len() ==> {
                            &&& (#[trigger] empties@[k]).0 < n
                            &&& empties@[k].1 < n
                            &&& self@.board[empties@[k].0 as int][empties@[k].1 as int]
                                == Cell::Empty
                        },
                    empties@.len() == 0 ==> forall|yy: int, xx: int|
                        0 <= yy < y && 0 <= xx < n ==> self@.board[yy][xx] != Cell::Empty,
                    empties@.len() == 0 ==> forall|xx: int|
                        0 <= xx < x ==> self@.board[y as int][xx] != Cell::Empty,
                decreases n - x,
            {
                if self.cell_at(x, y) == Cell::Empty {
                    empties.push((y, x));
                }
                x = x + 1;
            }
            y = y + 1;
        }
        if empties.len() == 0 {
            proof {
                assert(!(exists|yy: int, xx: int|
                    self@.valid(xx, yy) && self@.board[yy][xx] == Cell::Empty));
            }
            return ;
        }
        let idx = rand_below(empties.len());
        let pick = empties[idx];
        let row = pick.0;
        let col = pick.1;
        let ghost pre = self@;
        self.make_move(input, row, col);
        proof {
            assert(accepts(pre, row as int, col as int));
            assert(self@ == apply_move(pre, input, row, col));
        }
    }
}

/// Relies on `rand::thread_rng` and `rand::Rng::gen_range`: a uniformly
/// chosen index strictly below `n`. Nothing is assumed beyond the bound.
#[verifier::external_body]
fn rand_below(n: usize) -> (r: usize)
    requires
        n > 0,
    ensures
        r < n,
{
    rand::thread_rng().gen_range(0..n)
}

/// An accepted move writes its symbol at its coordinate, leaves every other
/// cell as it was, steps the fill counter by one, appends exactly one move to
/// the recording, and passes the turn precisely when it scored no S-O-S line.
pub proof fn lemma_accepted_move_effects(g: GameModel, input: Cell, row: usize, col: usize)
    requires
        g.wf(),
        accepts(g, row as int, col as int),
    ensures
        apply_move(g, input, row, col).board[row as int][col as int] == input,
        forall|y: int, x: int|
            0 <= y < g.size() && 0 <= x < g.size() && !(y == row as int && x == col as int)
                ==> apply_move(g, input, row, col).board[y][x] == #[trigger] g.board[y][x],
        apply_move(g, input, row, col).cells_filled == g.cells_filled + 1,
        apply_move(g, input, row, col).recording.moves == g.recording.moves.push(
            Move { cell: input, row, col },
        ),
        sos_at(apply_move(g, input, row, col).board, col as int, row as int) == 0
            ==> apply_move(g, input, row, col).turn == other_turn(g.turn),
        sos_at(apply_move(g, input, row, col).board, col as int, row as int) >= 1
            ==> apply_move(g, input, row, col).turn == g.turn,
{
}

/// The Classic policy keeps play on until the board is full, however far the
/// scores drift apart; on a full board it matches the score comparison
/// exactly.
pub proof fn lemma_classic_policy(left: nat, right: nat, filled: nat, size: nat)
    ensures
        filled != size * size ==> game_status(Mode::Classic, left, right, filled, size)
            == State::Playing,
        filled == size * size && left > right ==> game_status(
            Mode::Classic,
            left,
            right,
            filled,
            size,
        ) == State::LeftWin,
        filled == size * size && right > left ==> game_status(
            Mode::Classic,
            left,
            right,
            filled,
            size,
        ) == State::RightWin,
        filled == size * size && left == right ==> game_status(
            Mode::Classic,
            left,
            right,
            filled,
            size,
        ) == State::Draw,
{
}

/// The Simple policy flips to a win the instant one score exceeds the other,
/// even with empty cells remaining; equal scores draw exactly on a full
/// board and otherwise leave play on.
pub proof fn lemma_simple_policy(left: nat, right: nat, filled: nat, size: nat)
    ensures
        left > right ==> game_status(Mode::Simple, left, right, filled, size) == State::LeftWin,
        right > left ==> game_status(Mode::Simple, left, right, filled, size) == State::RightWin,
        left == right && filled == size * size ==> game_status(
            Mode::Simple,
            left,
            right,
            filled,
            size,
        ) == State::Draw,
        left == right && filled != size * size ==> game_status(
            Mode::Simple,
            left,
            right,
            filled,
            size,
        ) == State::Playing,
{
}

} // verus!
