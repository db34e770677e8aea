use vstd::prelude::*;
use crate::game::{
    board_full, board_shaped, occupied_count, outcome_at, pivot_winner, placed, row_count, tile_count, winner_of, GameView, Piece,
    Tile, Winner,
};

verus! {

/// `states` is a game played from the start: `states[0]` is a new game and
/// each next state follows from an accepted move, the `i`-th move being
/// `moves[i]` as (row, column).
pub open spec fn is_run(states: Seq<GameView>, moves: Seq<(int, int)>) -> bool {
    &&& states.len() == moves.len() + 1
    &&& states[0] == GameView::initial()
    &&& forall|i: int|
        0 <= i < moves.len() ==> {
            &&& (#[trigger] states[i]).accepts(moves[i].0, moves[i].1)
            &&& states[i + 1] == states[i].after_move(moves[i].0, moves[i].1)
        }
}

/// 1 for a tile that holds `p`, 0 otherwise.
pub open spec fn holds_count(t: Tile, p: Piece) -> nat {
    if t == Some(p) {
        1
    } else {
        0
    }
}

/// The number of tiles in a row that hold `p`.
pub open spec fn row_piece_count(line: Seq<Tile>, p: Piece) -> nat {
    holds_count(line[0], p) + holds_count(line[1], p) + holds_count(line[2], p)
}

/// The number of tiles on the board that hold `p`.
pub open spec fn piece_count(board: Seq<Seq<Tile>>, p: Piece) -> nat {
    row_piece_count(board[0], p) + row_piece_count(board[1], p) + row_piece_count(board[2], p)
}

/// The three tiles at (`r0`, `c0`), (`r1`, `c1`), (`r2`, `c2`) all hold `p`.
pub open spec fn line_of(
    board: Seq<Seq<Tile>>,
    p: Piece,
    r0: int,
    c0: int,
    r1: int,
    c1: int,
    r2: int,
    c2: int,
) -> bool {
    board[r0][c0] == Some(p) && board[r1][c1] == Some(p) && board[r2][c2] == Some(p)
}

/// `p` holds a whole row, column or diagonal of the board.
pub open spec fn has_line(board: Seq<Seq<Tile>>, p: Piece) -> bool {
    ||| line_of(board, p, 0, 0, 0, 1, 0, 2)
    ||| line_of(board, p, 1, 0, 1, 1, 1, 2)
    ||| line_of(board, p, 2, 0, 2, 1, 2, 2)
    ||| line_of(board, p, 0, 0, 1, 0, 2, 0)
    ||| line_of(board, p, 0, 1, 1, 1, 2, 1)
    ||| line_of(board, p, 0, 2, 1, 2, 2, 2)
    ||| line_of(board, p, 0, 0, 1, 1, 2, 2)
    ||| line_of(board, p, 0, 2, 1, 1, 2, 0)
}

/// The outcome read off a whole board by looking at all eight lines: a win
/// for the one piece that holds a line, a tie for a full board without any
/// line, else none.
pub open spec fn scanned_outcome(board: Seq<Seq<Tile>>) -> Option<Winner> {
    let x = has_line(board, Piece::X);
    let o = has_line(board, Piece::O);
    if x && !o {
        Some(Winner::X)
    } else if o && !x {
        Some(Winner::O)
    } else if !x && !o && board_full(board) {
        Some(Winner::Tie)
    } else {
        None
    }
}

/// An accepted move changes exactly one tile, the one played, which then
/// holds the piece that moved; so the number of occupied tiles grows by one.
pub proof fn lemma_move_changes_one_tile(g: GameView, row: int, col: int)
    requires
        board_shaped(g.board),
        g.accepts(row, col),
    ensures
        board_shaped(g.after_move(row, col).board),
        g.after_move(row, col).board[row][col] == Some(g.current),
        forall|r: int, c: int|
            0 <= r < 3 && 0 <= c < 3 && (r != row || c != col) ==> (#[trigger] g.after_move(
                row,
                col,
            ).board[r][c]) == g.board[r][c],
        occupied_count(g.after_move(row, col).board) == occupied_count(g.board) + 1,
        piece_count(g.after_move(row, col).board, g.current) == piece_count(g.board, g.current)
            + 1,
        piece_count(g.after_move(row, col).board, g.current.spec_other()) == piece_count(
            g.board,
            g.current.spec_other(),
        ),
{
    let h = g.after_move(row, col);
    assert(row_count(h.board[row]) == row_count(g.board[row]) + 1) by {
        assert(tile_count(h.board[row][col]) == tile_count(g.board[row][col]) + 1);
    }
    assert(row_piece_count(h.board[row], g.current) == row_piece_count(g.board[row], g.current)
        + 1);
    assert(row_piece_count(h.board[row], g.current.spec_other()) == row_piece_count(
        g.board[row],
        g.current.spec_other(),
    ));
}

/// The state after `i` moves of a game played from the start has `i`
/// occupied tiles.
proof fn lemma_run_state_occupied(states: Seq<GameView>, moves: Seq<(int, int)>, i: int)
    requires
        is_run(states, moves),
        0 <= i < states.len(),
    ensures
        board_shaped(states[i].board),
        occupied_count(states[i].board) == i,
    decreases i,
{
    if i == 0 {
        assert(occupied_count(states[0].board) == 0);
    } else {
        lemma_run_state_occupied(states, moves, i - 1);
        assert(states[i - 1].accepts(moves[i - 1].0, moves[i - 1].1));
        lemma_move_changes_one_tile(states[i - 1], moves[i - 1].0, moves[i - 1].1);
    }
}

/// Along a game played from the start, the number of occupied tiles equals
/// the number of moves made so far.
pub proof fn lemma_run_occupied_equals_moves(states: Seq<GameView>, moves: Seq<(int, int)>)
    requires
        is_run(states, moves),
    ensures
        forall|i: int|
            0 <= i < states.len() ==> board_shaped((#[trigger] states[i]).board)
                && occupied_count(states[i].board) == i,
{
    assert forall|i: int| 0 <= i < states.len() implies board_shaped(
        (#[trigger] states[i]).board,
    ) && occupied_count(states[i].board) == i by {
        lemma_run_state_occupied(states, moves, i);
    }
}

/// The piece to move after `i` moves of a game played from the start.
proof fn lemma_run_state_turn(states: Seq<GameView>, moves: Seq<(int, int)>, i: int)
    requires
        is_run(states, moves),
        0 <= i < states.len(),
    ensures
        states[i].current == if i % 2 == 0 {
            Piece::X
        } else {
            Piece::O
        },
    decreases i,
{
    if i > 0 {
        lemma_run_state_turn(states, moves, i - 1);
        let prev = states[i - 1];
        assert(states[i] == prev.after_move(moves[i - 1].0, moves[i - 1].1));
        assert(states[i].current == prev.current.spec_other());
        assert(i % 2 == 0 <==> (i - 1) % 2 == 1);
    }
}

/// How `(k + 1) / 2` and `k / 2` grow from `k` to `k + 1`.
proof fn lemma_halves_step(k: int)
    requires
        k >= 0,
    ensures
        k % 2 == 0 ==> (k + 1) / 2 + 1 == (k + 2) / 2 && k / 2 == (k + 1) / 2,
        k % 2 == 1 ==> (k + 1) / 2 == (k + 2) / 2 && k / 2 + 1 == (k + 1) / 2,
{
}

/// How many tiles each piece holds after `i` moves of a game played from the
/// start.
proof fn lemma_run_state_pieces(states: Seq<GameView>, moves: Seq<(int, int)>, i: int)
    requires
        is_run(states, moves),
        0 <= i < states.len(),
    ensures
        board_shaped(states[i].board),
        piece_count(states[i].board, Piece::X) == (i + 1) / 2,
        piece_count(states[i].board, Piece::O) == i / 2,
    decreases i,
{
    if i == 0 {
        assert(piece_count(states[0].board, Piece::X) == 0);
        assert(piece_count(states[0].board, Piece::O) == 0);
    } else {
        let k = i - 1;
        lemma_run_state_pieces(states, moves, k);
        lemma_run_state_turn(states, moves, k);
        let prev = states[k];
        assert(prev.accepts(moves[k].0, moves[k].1));
        lemma_move_changes_one_tile(prev, moves[k].0, moves[k].1);
        let next = prev.after_move(moves[k].0, moves[k].1);
        assert(states[i] == next);
        let xs = piece_count(prev.board, Piece::X);
        let os = piece_count(prev.board, Piece::O);
        if k % 2 == 0 {
            assert(prev.current == Piece::X);
            assert(piece_count(next.board, Piece::X) == xs + 1);
            assert(piece_count(next.board, Piece::O) == os);
            lemma_halves_step(k);
        } else {
            assert(prev.current == Piece::O);
            assert(piece_count(next.board, Piece::X) == xs);
            assert(piece_count(next.board, Piece::O) == os + 1);
            lemma_halves_step(k);
        }
    }
}

/// Along a game played from the start, the turn alternates strictly: `X`
/// moves first, then `O`, then `X`, and so on; so after `i` moves `X` holds
/// `(i + 1) / 2` tiles and `O` holds `i / 2`.
pub proof fn lemma_run_turns_alternate(states: Seq<GameView>, moves: Seq<(int, int)>)
    requires
        is_run(states, moves),
    ensures
        forall|i: int|
            0 <= i < states.len() ==> (#[trigger] states[i]).current == if i % 2 == 0 {
                Piece::X
            } else {
                Piece::O
            },
        forall|i: int|
            0 <= i < states.len() ==> piece_count((#[trigger] states[i]).board, Piece::X) == (i
                + 1) / 2 && piece_count(states[i].board, Piece::O) == i / 2,
{
    assert forall|i: int| 0 <= i < states.len() implies {
        &&& (#[trigger] states[i]).current == if i % 2 == 0 {
            Piece::X
        } else {
            Piece::O
        }
        &&& piece_count(states[i].board, Piece::X) == (i + 1) / 2
        &&& piece_count(states[i].board, Piece::O) == i / 2
    } by {
        lemma_run_state_turn(states, moves, i);
        lemma_run_state_pieces(states, moves, i);
    }
}

/// From a board where no piece holds a line, an accepted move sets the
/// outcome that a scan of all eight lines gives, and leaves at most one piece
/// holding a line. This is why looking only at the lines through the played
/// tile is enough.
pub proof fn lemma_pivot_check_matches_scan(g: GameView, row: int, col: int)
    requires
        board_shaped(g.board),
        g.accepts(row, col),
        !has_line(g.board, Piece::X),
        !has_line(g.board, Piece::O),
    ensures
        g.after_move(row, col).winner == scanned_outcome(g.after_move(row, col).board),
        !(has_line(g.after_move(row, col).board, Piece::X) && has_line(
            g.after_move(row, col).board,
            Piece::O,
        )),
{
    let p = g.current;
    let b = placed(g.board, row, col, p);
    lemma_move_changes_one_tile(g, row, col);
    reveal(outcome_at);
    assert(!has_line(b, p.spec_other()));
    assert(has_line(b, p) <==> pivot_winner(b, row, col) == Some(winner_of(p))) by {
        if row == 0 && col == 0 {
        } else if row == 0 && col == 1 {
        } else if row == 0 && col == 2 {
        } else if row == 1 && col == 0 {
        } else if row == 1 && col == 1 {
        } else if row == 1 && col == 2 {
        } else if row == 2 && col == 0 {
        } else if row == 2 && col == 1 {
        } else {
        }
    }
    assert(pivot_winner(b, row, col) is Some ==> pivot_winner(b, row, col) == Some(winner_of(p)));
}

/// The outcome after `i` moves of a game played from the start agrees with a
/// scan of the whole board, and no two pieces hold a line at once.
proof fn lemma_run_state_outcome(states: Seq<GameView>, moves: Seq<(int, int)>, i: int)
    requires
        is_run(states, moves),
        0 <= i < states.len(),
    ensures
        board_shaped(states[i].board),
        states[i].winner == scanned_outcome(states[i].board),
        !(has_line(states[i].board, Piece::X) && has_line(states[i].board, Piece::O)),
    decreases i,
{
    if i == 0 {
        assert(states[0].board[0][0] is None);
    } else {
        lemma_run_state_outcome(states, moves, i - 1);
        let prev = states[i - 1];
        assert(prev.accepts(moves[i - 1].0, moves[i - 1].1));
        lemma_move_changes_one_tile(prev, moves[i - 1].0, moves[i - 1].1);
        lemma_pivot_check_matches_scan(prev, moves[i - 1].0, moves[i - 1].1);
    }
}

/// Along a game played from the start, the outcome is a win for a piece
/// exactly when that piece holds a row, column or diagonal and the other does
/// not, a tie exactly when the board is full and no piece holds a line, and
/// absent otherwise.
pub proof fn lemma_run_outcome_scans_board(states: Seq<GameView>, moves: Seq<(int, int)>)
    requires
        is_run(states, moves),
    ensures
        forall|i: int|
            0 <= i < states.len() ==> (#[trigger] states[i]).winner == scanned_outcome(
                states[i].board,
            ),
{
    assert forall|i: int| 0 <= i < states.len() implies (#[trigger] states[i]).winner
        == scanned_outcome(states[i].board) by {
        lemma_run_state_outcome(states, moves, i);
    }
}

/// A full board has nine occupied tiles.
proof fn lemma_full_board_count(b: Seq<Seq<Tile>>)
    requires
        board_full(b),
    ensures
        occupied_count(b) == 9,
{
    assert(b[0][0] is Some && b[0][1] is Some && b[0][2] is Some);
    assert(b[1][0] is Some && b[1][1] is Some && b[1][2] is Some);
    assert(b[2][0] is Some && b[2][1] is Some && b[2][2] is Some);
}

/// Along a game played from the start, a tie is declared only once the ninth
/// move has filled the board.
pub proof fn lemma_run_tie_only_at_ninth_move(states: Seq<GameView>, moves: Seq<(int, int)>)
    requires
        is_run(states, moves),
    ensures
        forall|i: int|
            0 <= i < states.len() && (#[trigger] states[i]).winner == Some(Winner::Tie) ==> i
                == 9,
{
    assert forall|i: int|
        0 <= i < states.len() && (#[trigger] states[i]).winner == Some(Winner::Tie) implies i
        == 9 by {
        lemma_run_state_outcome(states, moves, i);
        lemma_run_state_occupied(states, moves, i);
        lemma_full_board_count(states[i].board);
    }
}

} // verus!
