use vstd::prelude::*;

verus! {

/// Number of rows, and of columns, of the board.
pub const BOARD_SIZE: usize = 3;

/// One of the two players' markers.
#[derive(Debug, Clone, Copy, PartialEq, Eq, Hash, Structural)]
pub enum Piece {
    X,
    O,
}

impl Piece {
    /// The piece of the other player.
    pub open spec fn spec_other(self) -> Piece {
        match self {
            Piece::X => Piece::O,
            Piece::O => Piece::X,
        }
    }

    /// Returns the opposite piece.
    pub fn other(self) -> (r: Piece)
        ensures
            r == self.spec_other(),
            r != self,
    {
        match self {
            Piece::X => Piece::O,
            Piece::O => Piece::X,
        }
    }
}

/// A board cell: empty, or holding exactly one piece.
pub type Tile = Option<Piece>;

/// The fixed 3x3 grid, indexed by row and then column.
pub type Tiles = [[Tile; BOARD_SIZE]; BOARD_SIZE];

/// The terminal result of a finished game.
#[derive(Debug, Clone, Copy, PartialEq, Eq, Hash, Structural)]
pub enum Winner {
    X,
    O,
    Tie,
}

/// Why a move was refused. A refused move leaves the game unchanged.
#[derive(Debug, Clone, PartialEq, Eq, Structural)]
pub enum MoveError {
    /// The game already has an outcome.
    GameAlreadyOver,
    /// The row or the column is outside `0..3`.
    InvalidPosition { row: usize, col: usize },
    /// The tile already holds `other_piece`.
    TileNotEmpty { other_piece: Piece, row: usize, col: usize },
}

/// The winner that owns a completed line of `p`.
pub open spec fn winner_of(p: Piece) -> Winner {
    match p {
        Piece::X => Winner::X,
        Piece::O => Winner::O,
    }
}

/// The winner of a line of three tiles: the piece that holds all three, if any.
pub open spec fn line_winner(a: Tile, b: Tile, c: Tile) -> Option<Winner> {
    if a == b && b == c {
        match a {
            Some(p) => Some(winner_of(p)),
            None => None,
        }
    } else {
        None
    }
}

/// A board as rows of tiles.
pub open spec fn board_of(tiles: Tiles) -> Seq<Seq<Tile>> {
    tiles@.map_values(|line: [Tile; BOARD_SIZE]| line@)
}

/// The board has three rows of three tiles.
pub open spec fn board_shaped(board: Seq<Seq<Tile>>) -> bool {
    &&& board.len() == 3
    &&& forall|r: int| 0 <= r < 3 ==> (#[trigger] board[r]).len() == 3
}

/// Every tile of the board is occupied.
pub open spec fn board_full(board: Seq<Seq<Tile>>) -> bool {
    forall|r: int, c: int| 0 <= r < 3 && 0 <= c < 3 ==> (#[trigger] board[r][c]) is Some
}

/// 1 for an occupied tile, 0 for an empty one.
pub open spec fn tile_count(t: Tile) -> nat {
    if t is Some {
        1
    } else {
        0
    }
}

/// The number of occupied tiles in a row.
pub open spec fn row_count(line: Seq<Tile>) -> nat {
    tile_count(line[0]) + tile_count(line[1]) + tile_count(line[2])
}

/// The number of occupied tiles on the board.
pub open spec fn occupied_count(board: Seq<Seq<Tile>>) -> nat {
    row_count(board[0]) + row_count(board[1]) + row_count(board[2])
}

/// The board with `p` put on the tile at (`row`, `col`).
pub open spec fn placed(board: Seq<Seq<Tile>>, row: int, col: int, p: Piece) -> Seq<Seq<Tile>> {
    board.update(row, board[row].update(col, Some(p)))
}

/// The first of two candidate results that is present.
pub open spec fn first_present(a: Option<Winner>, b: Option<Winner>) -> Option<Winner> {
    if a is Some {
        a
    } else {
        b
    }
}

/// The winner of a line through (`row`, `col`), lines taken in the order row,
/// column, main diagonal, anti-diagonal. Only lines through the last played
/// tile are looked at: a move can only complete a line that contains it, so
/// from a board where no piece holds a line this gives what a scan of all
/// eight lines gives (`laws::lemma_pivot_check_matches_scan`). That rests on
/// tiles only ever being filled, one per move.
pub open spec fn pivot_winner(board: Seq<Seq<Tile>>, row: int, col: int) -> Option<Winner> {
    let by_row = line_winner(board[row][0], board[row][1], board[row][2]);
    let by_col = line_winner(board[0][col], board[1][col], board[2][col]);
    let by_diagonal = if row == col {
        line_winner(board[0][0], board[1][1], board[2][2])
    } else {
        None
    };
    let by_anti_diagonal = if row + col == 2 {
        line_winner(board[0][2], board[1][1], board[2][0])
    } else {
        None
    };
    first_present(first_present(first_present(by_row, by_col), by_diagonal), by_anti_diagonal)
}

/// The outcome after a move at (`row`, `col`) that led to `board`: a completed
/// line through that tile, else a tie when the board is full, else none.
#[verifier::opaque]
pub open spec fn outcome_at(board: Seq<Seq<Tile>>, row: int, col: int) -> Option<Winner> {
    let w = pivot_winner(board, row, col);
    if w is Some {
        w
    } else if board_full(board) {
        Some(Winner::Tie)
    } else {
        None
    }
}

/// The abstract state of a game.
pub struct GameView {
    pub board: Seq<Seq<Tile>>,
    pub current: Piece,
    pub winner: Option<Winner>,
}

impl GameView {
    /// The state of a new game: empty board, `X` to move, no outcome.
    pub open spec fn initial() -> GameView {
        GameView {
            board: Seq::new(3, |r: int| Seq::new(3, |c: int| None::<Piece>)),
            current: Piece::X,
            winner: None,
        }
    }

    /// The outcome is present.
    pub open spec fn finished(self) -> bool {
        self.winner is Some
    }

    /// Why a move at (`row`, `col`) is refused, checked in this order: the
    /// game is over, the position is off the board, the tile is occupied.
    pub open spec fn rejection(self, row: usize, col: usize) -> Option<MoveError> {
        if self.winner is Some {
            Some(MoveError::GameAlreadyOver)
        } else if row >= 3 || col >= 3 {
            Some(MoveError::InvalidPosition { row, col })
        } else if self.board[row as int][col as int] is Some {
            Some(
                MoveError::TileNotEmpty {
                    other_piece: self.board[row as int][col as int]->Some_0,
                    row,
                    col,
                },
            )
        } else {
            None
        }
    }

    /// A move at (`row`, `col`) is accepted.
    pub open spec fn accepts(self, row: int, col: int) -> bool {
        &&& self.winner is None
        &&& 0 <= row < 3
        &&& 0 <= col < 3
        &&& self.board[row][col] is None
    }

    /// The state after an accepted move at (`row`, `col`): the current piece
    /// is placed, the turn passes, and the outcome is evaluated at that tile.
    pub open spec fn after_move(self, row: int, col: int) -> GameView {
        let board = placed(self.board, row, col, self.current);
        GameView { board, current: self.current.spec_other(), winner: outcome_at(board, row, col) }
    }
}

/// A game in progress or finished. Its state changes only through `make_move`.
#[derive(Debug, Clone)]
pub struct Game {
    tiles: Tiles,
    current_piece: Piece,
    winner: Option<Winner>,
}

impl View for Game {
    type V = GameView;

    closed spec fn view(&self) -> GameView {
        GameView { board: board_of(self.tiles), current: self.current_piece, winner: self.winner }
    }
}

/// The winner of a line of three tiles, if one piece holds all three.
fn check_winner(line: &[Tile; BOARD_SIZE]) -> (r: Option<Winner>)
    ensures
        r == line_winner(line[0], line[1], line[2]),
{
    match (line[0], line[1], line[2]) {
        (Some(a), Some(b), Some(c)) => {
            if a == b && b == c {
                match a {
                    Piece::X => Some(Winner::X),
                    Piece::O => Some(Winner::O),
                }
            } else {
                None
            }
        },
        _ => None,
    }
}

/// Whether every tile of the board is occupied.
fn tiles_full(tiles: &Tiles) -> (r: bool)
    ensures
        r == board_full(board_of(*tiles)),
{
    let mut i: usize = 0;
    while i < BOARD_SIZE
        invariant
            i <= BOARD_SIZE,
            forall|r: int, c: int|
                0 <= r < i && 0 <= c < 3 ==> (#[trigger] board_of(*tiles)[r][c]) is Some,
        decreases BOARD_SIZE - i,
    {
        let line = tiles[i];
        if line[0].is_none() || line[1].is_none() || line[2].is_none() {
            assert(board_of(*tiles)[i as int] == line@);
            return false;
        }
        assert(board_of(*tiles)[i as int] == line@);
        i += 1;
    }
    true
}

/// The board of every game has three rows of three tiles.
pub proof fn lemma_board_shaped(game: &Game)
    ensures
        board_shaped(game@.board),
{
    assert(forall|r: int| 0 <= r < 3 ==> #[trigger] game@.board[r] == game.tiles[r]@);
}

impl Game {
    /// A new game: empty board, `X` to move, no outcome.
    pub fn new() -> (r: Self)
        ensures
            r@ == GameView::initial(),
    {
        let r = Self {
            tiles: [[None, None, None], [None, None, None], [None, None, None]],
            current_piece: Piece::X,
            winner: None,
        };
        assert(r@.board =~~= GameView::initial().board);
        r
    }

    /// Places the current piece at (`row`, `col`) and passes the turn, then
    /// evaluates the outcome at that tile. A move to a finished game, off the
    /// board, or onto an occupied tile is refused, in that order of checks,
    /// and leaves the game unchanged.
    pub fn make_move(&mut self, row: usize, col: usize) -> (r: Result<(), MoveError>)
        ensures
            match old(self)@.rejection(row, col) {
                Some(e) => r == Err::<(), MoveError>(e) && *final(self) == *old(self),
                None => r == Ok::<(), MoveError>(()) && final(self)@ == old(self)@.after_move(
                    row as int,
                    col as int,
                ),
            },
    {
        if self.is_finished() {
            return Err(MoveError::GameAlreadyOver);
        } else if row >= BOARD_SIZE || col >= BOARD_SIZE {
            return Err(MoveError::InvalidPosition { row, col });
        } else if let Some(other_piece) = self.tiles[row][col] {
            assert(board_of(self.tiles)[row as int] == self.tiles[row as int]@);
            return Err(MoveError::TileNotEmpty { other_piece, row, col });
        }
        assert(board_of(self.tiles)[row as int] == self.tiles[row as int]@);
        let ghost before = self@;
        self.tiles[row][col] = Some(self.current_piece);
        self.current_piece = self.current_piece.other();
        assert(board_of(self.tiles) =~~= placed(before.board, row as int, col as int, before.current));
        self.update_winner(row, col);
        Ok(())
    }

    /// Sets the outcome, if none is set yet, from the lines through
    /// (`row`, `col`), or to a tie when the board is full.
    fn update_winner(&mut self, row: usize, col: usize)
        requires
            row < BOARD_SIZE,
            col < BOARD_SIZE,
        ensures
            final(self).tiles == old(self).tiles,
            final(self).current_piece == old(self).current_piece,
            final(self).winner == first_present(
                old(self).winner,
                outcome_at(board_of(old(self).tiles), row as int, col as int),
            ),
    {
        let tiles_row = self.tiles[row];
        let tiles_col = [self.tiles[0][col], self.tiles[1][col], self.tiles[2][col]];
        let tiles_diagonal_1 = if row == col {
            [self.tiles[0][0], self.tiles[1][1], self.tiles[2][2]]
        } else {
            [None, None, None]
        };
        let tiles_diagonal_2 = if BOARD_SIZE - row - 1 == col {
            [self.tiles[0][2], self.tiles[1][1], self.tiles[2][0]]
        } else {
            [None, None, None]
        };
        let ghost board = board_of(self.tiles);
        proof {
            reveal(outcome_at);
        }
        assert(forall|r: int| 0 <= r < 3 ==> board[r] == #[trigger] self.tiles[r]@);
        let mut w = self.winner;
        if w.is_none() {
            w = check_winner(&tiles_row);
        }
        if w.is_none() {
            w = check_winner(&tiles_col);
        }
        if w.is_none() {
            w = check_winner(&tiles_diagonal_1);
        }
        if w.is_none() {
            w = check_winner(&tiles_diagonal_2);
        }
        if w.is_none() && tiles_full(&self.tiles) {
            w = Some(Winner::Tie);
        }
        self.winner = w;
    }

    /// Whether the game has an outcome.
    pub fn is_finished(&self) -> (r: bool)
        ensures
            r == self@.finished(),
    {
        self.winner.is_some()
    }

    /// The outcome, absent while the game is in progress.
    pub fn winner(&self) -> (r: Option<Winner>)
        ensures
            r == self@.winner,
    {
        self.winner
    }

    /// The piece to move next.
    pub fn current_piece(&self) -> (r: Piece)
        ensures
            r == self@.current,
    {
        self.current_piece
    }

    /// A read-only view of the board.
    pub fn tiles(&self) -> (r: &Tiles)
        ensures
            board_of(*r) == self@.board,
    {
        &self.tiles
    }
}

} // verus!
