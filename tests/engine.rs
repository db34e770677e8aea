use tictactoe::{Game, MoveError, Piece, Tiles, Winner};

fn occupied(tiles: &Tiles) -> usize {
    tiles.iter().map(|row| row.iter().filter(|t| t.is_some()).count()).sum()
}

fn play(game: &mut Game, moves: &[(usize, usize)]) {
    for &(row, col) in moves {
        assert_eq!(game.make_move(row, col), Ok(()));
    }
}

#[test]
fn other_swaps_pieces() {
    assert_eq!(Piece::X.other(), Piece::O);
    assert_eq!(Piece::O.other(), Piece::X);
}

#[test]
fn new_game_is_empty() {
    let game = Game::new();
    assert!(!game.is_finished());
    assert_eq!(game.winner(), None);
    assert_eq!(game.current_piece(), Piece::X);
    assert_eq!(occupied(game.tiles()), 0);
}

#[test]
fn each_move_fills_one_tile() {
    let mut game = Game::new();
    let moves = [(0, 0), (1, 1), (2, 2), (0, 1), (2, 1)];
    for (i, &(row, col)) in moves.iter().enumerate() {
        let before = *game.tiles();
        let piece = game.current_piece();
        assert_eq!(game.make_move(row, col), Ok(()));
        let after = *game.tiles();
        assert_eq!(occupied(&after), i + 1);
        for r in 0..3 {
            for c in 0..3 {
                if (r, c) == (row, col) {
                    assert_eq!(after[r][c], Some(piece));
                } else {
                    assert_eq!(after[r][c], before[r][c]);
                }
            }
        }
    }
}

#[test]
fn finished_game_refuses_moves() {
    let mut game = Game::new();
    play(&mut game, &[(0, 0), (1, 1), (0, 1), (2, 2), (0, 2)]);
    let tiles = *game.tiles();
    let piece = game.current_piece();
    assert_eq!(game.make_move(2, 0), Err(MoveError::GameAlreadyOver));
    assert_eq!(game.make_move(7, 0), Err(MoveError::GameAlreadyOver));
    assert_eq!(game.make_move(0, 0), Err(MoveError::GameAlreadyOver));
    assert_eq!(*game.tiles(), tiles);
    assert_eq!(game.current_piece(), piece);
    assert_eq!(game.winner(), Some(Winner::X));
}

#[test]
fn off_board_moves_are_refused() {
    let mut game = Game::new();
    play(&mut game, &[(1, 1)]);
    assert_eq!(game.make_move(3, 0), Err(MoveError::InvalidPosition { row: 3, col: 0 }));
    assert_eq!(game.make_move(0, 3), Err(MoveError::InvalidPosition { row: 0, col: 3 }));
    assert_eq!(
        game.make_move(usize::MAX, usize::MAX),
        Err(MoveError::InvalidPosition { row: usize::MAX, col: usize::MAX })
    );
    assert_eq!(occupied(game.tiles()), 1);
    assert_eq!(game.current_piece(), Piece::O);
    assert!(!game.is_finished());
}

#[test]
fn occupied_tile_is_refused() {
    let mut game = Game::new();
    play(&mut game, &[(1, 1), (0, 2)]);
    assert_eq!(
        game.make_move(1, 1),
        Err(MoveError::TileNotEmpty { other_piece: Piece::X, row: 1, col: 1 })
    );
    assert_eq!(
        game.make_move(0, 2),
        Err(MoveError::TileNotEmpty { other_piece: Piece::O, row: 0, col: 2 })
    );
    assert_eq!(occupied(game.tiles()), 2);
    assert_eq!(game.current_piece(), Piece::X);
}

#[test]
fn turns_alternate() {
    let mut game = Game::new();
    let moves = [(0, 0), (0, 1), (0, 2), (1, 1), (1, 0), (1, 2), (2, 1), (2, 0), (2, 2)];
    for (i, &(row, col)) in moves.iter().enumerate() {
        let expected = if i % 2 == 0 { Piece::X } else { Piece::O };
        assert_eq!(game.current_piece(), expected);
        assert_eq!(game.make_move(row, col), Ok(()));
        assert_eq!(game.tiles()[row][col], Some(expected));
    }
}

#[test]
fn refused_move_keeps_turn() {
    let mut game = Game::new();
    play(&mut game, &[(0, 0)]);
    assert!(game.make_move(0, 0).is_err());
    assert_eq!(game.current_piece(), Piece::O);
    assert_eq!(game.make_move(1, 0), Ok(()));
    assert_eq!(game.tiles()[1][0], Some(Piece::O));
}

#[test]
fn top_row_win() {
    let mut game = Game::new();
    play(&mut game, &[(0, 0), (1, 1), (0, 1), (2, 2), (0, 2)]);
    assert!(game.is_finished());
    assert_eq!(game.winner(), Some(Winner::X));
}

#[test]
fn full_board_without_line_is_tie() {
    let mut game = Game::new();
    play(
        &mut game,
        &[(0, 0), (0, 2), (0, 1), (1, 0), (1, 2), (1, 1), (2, 0), (2, 1), (2, 2)],
    );
    assert!(game.is_finished());
    assert_eq!(game.winner(), Some(Winner::Tie));
}

#[test]
fn second_move_on_same_tile() {
    let mut game = Game::new();
    assert_eq!(game.make_move(0, 0), Ok(()));
    assert_eq!(
        game.make_move(0, 0),
        Err(MoveError::TileNotEmpty { other_piece: Piece::X, row: 0, col: 0 })
    );
    assert_eq!(occupied(game.tiles()), 1);
}

#[test]
fn tie_only_after_ninth_move() {
    let mut game = Game::new();
    let moves = [(0, 0), (0, 2), (0, 1), (1, 0), (1, 2), (1, 1), (2, 0), (2, 1), (2, 2)];
    for (i, &(row, col)) in moves.iter().enumerate() {
        assert!(!game.is_finished());
        assert_eq!(game.make_move(row, col), Ok(()));
        if i < 8 {
            assert_eq!(game.winner(), None);
        }
    }
    assert_eq!(game.winner(), Some(Winner::Tie));
}

#[test]
fn main_diagonal_win() {
    let mut game = Game::new();
    play(&mut game, &[(0, 0), (0, 1), (1, 1), (1, 0), (2, 2)]);
    assert!(game.is_finished());
    assert_eq!(game.winner(), Some(Winner::X));
}

#[test]
fn anti_diagonal_win_for_o() {
    let mut game = Game::new();
    play(&mut game, &[(0, 0), (0, 2), (0, 1), (1, 1), (2, 2), (2, 0)]);
    assert!(game.is_finished());
    assert_eq!(game.winner(), Some(Winner::O));
}

#[test]
fn column_win() {
    let mut game = Game::new();
    play(&mut game, &[(0, 1), (0, 0), (1, 1), (2, 2), (2, 1)]);
    assert_eq!(game.winner(), Some(Winner::X));
}

#[test]
fn win_on_last_tile_is_not_tie() {
    let mut game = Game::new();
    play(
        &mut game,
        &[(0, 0), (0, 1), (0, 2), (1, 1), (1, 0), (1, 2), (2, 1), (2, 0), (2, 2)],
    );
    assert_eq!(game.winner(), Some(Winner::Tie));
    let mut game = Game::new();
    play(
        &mut game,
        &[(0, 0), (0, 1), (0, 2), (1, 1), (1, 0), (1, 2), (2, 1), (2, 2), (2, 0)],
    );
    assert_eq!(game.winner(), Some(Winner::X));
}

#[test]
fn two_in_a_row_is_no_win() {
    let mut game = Game::new();
    play(&mut game, &[(0, 0), (1, 0), (0, 1), (1, 1)]);
    assert_eq!(game.winner(), None);
    assert_eq!(game.make_move(2, 2), Ok(()));
    assert_eq!(game.winner(), None);
}

fn count_of(tiles: &Tiles, piece: Piece) -> usize {
    tiles.iter().map(|row| row.iter().filter(|t| **t == Some(piece)).count()).sum()
}

fn has_line(tiles: &Tiles, piece: Piece) -> bool {
    let lines = [
        [(0, 0), (0, 1), (0, 2)],
        [(1, 0), (1, 1), (1, 2)],
        [(2, 0), (2, 1), (2, 2)],
        [(0, 0), (1, 0), (2, 0)],
        [(0, 1), (1, 1), (2, 1)],
        [(0, 2), (1, 2), (2, 2)],
        [(0, 0), (1, 1), (2, 2)],
        [(0, 2), (1, 1), (2, 0)],
    ];
    lines.iter().any(|line| line.iter().all(|&(r, c)| tiles[r][c] == Some(piece)))
}

fn scanned(tiles: &Tiles) -> Option<Winner> {
    let x = has_line(tiles, Piece::X);
    let o = has_line(tiles, Piece::O);
    if x && !o {
        Some(Winner::X)
    } else if o && !x {
        Some(Winner::O)
    } else if !x && !o && occupied(tiles) == 9 {
        Some(Winner::Tie)
    } else {
        None
    }
}

#[test]
fn piece_counts_follow_turns() {
    let mut game = Game::new();
    let moves = [(1, 1), (1, 1), (0, 0), (5, 5), (2, 2), (0, 2), (0, 2), (2, 0)];
    let mut accepted = 0;
    for &(row, col) in moves.iter() {
        if game.make_move(row, col).is_ok() {
            accepted += 1;
        }
        assert_eq!(count_of(game.tiles(), Piece::X), (accepted + 1) / 2);
        assert_eq!(count_of(game.tiles(), Piece::O), accepted / 2);
    }
    assert_eq!(accepted, 5);
}

#[test]
fn outcome_agrees_with_full_scan() {
    let games: [&[(usize, usize)]; 4] = [
        &[(0, 0), (1, 1), (0, 1), (2, 2), (0, 2)],
        &[(0, 0), (0, 2), (0, 1), (1, 1), (2, 2), (2, 0)],
        &[(0, 0), (0, 2), (0, 1), (1, 0), (1, 2), (1, 1), (2, 0), (2, 1), (2, 2)],
        &[(0, 0), (0, 1), (0, 2), (1, 1), (1, 0), (1, 2), (2, 1), (2, 2), (2, 0)],
    ];
    for moves in games.iter() {
        let mut game = Game::new();
        for &(row, col) in moves.iter() {
            assert_eq!(game.make_move(row, col), Ok(()));
            assert_eq!(game.winner(), scanned(game.tiles()));
        }
    }
}
