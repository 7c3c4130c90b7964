use tictactoe::board::{play_move, Pieces};
use tictactoe::detect::{has_won, is_full};
use tictactoe::moves::available_moves;
use tictactoe::search::minimax;

const E: Pieces = Pieces::EMPTY;
const O: Pieces = Pieces::NOUGHT;
const X: Pieces = Pieces::CROSS;

/// Score and lowest best cell by a plain scan over all nine cells.
fn plain_search(board: [Pieces; 9], maximizing: bool) -> (i32, i32) {
    if has_won(board, X) {
        return (-1, -1);
    }
    if has_won(board, O) {
        return (1, -1);
    }
    if is_full(board) {
        return (0, -1);
    }
    let mut best: Option<(i32, i32)> = None;
    for cell in 0..9usize {
        if board[cell] != E {
            continue;
        }
        let mut next = board;
        next[cell] = if maximizing { O } else { X };
        let (score, _) = plain_search(next, !maximizing);
        let better = match best {
            None => true,
            Some((so_far, _)) => {
                if maximizing {
                    score > so_far
                } else {
                    score < so_far
                }
            }
        };
        if better {
            best = Some((score, cell as i32));
        }
    }
    best.unwrap()
}

/// Worst score for crosses over every line of play by noughts, crosses
/// answering with the search.
fn worst_for_crosses(board: [Pieces; 9], noughts_to_move: bool) -> i32 {
    if has_won(board, X) {
        return -1;
    }
    if has_won(board, O) {
        return 1;
    }
    if is_full(board) {
        return 0;
    }
    if noughts_to_move {
        let mut worst = -1;
        for m in available_moves(board) {
            let mut next = board;
            assert!(play_move(&mut next, m, O));
            worst = worst.max(worst_for_crosses(next, false));
        }
        worst
    } else {
        let (_, cell) = minimax(board, false);
        let mut next = board;
        assert!(play_move(&mut next, cell, X));
        worst_for_crosses(next, true)
    }
}

#[test]
fn minimax_scores_drawn_board_zero() {
    let board = [O, X, O, O, X, X, X, O, O];
    assert_eq!(minimax(board, true), (0, -1));
    assert_eq!(minimax(board, false), (0, -1));
}

#[test]
fn minimax_scores_nought_line_plus_one() {
    for board in [
        [O, O, O, X, X, E, E, E, E],
        [X, X, E, O, O, O, E, E, E],
        [X, X, E, E, E, E, O, O, O],
        [O, X, X, O, E, E, O, E, E],
        [X, O, X, E, O, E, E, O, E],
        [X, X, O, E, E, O, E, E, O],
        [O, X, X, E, O, E, E, E, O],
        [X, X, O, E, O, E, O, E, E],
        [O, X, O, X, O, X, X, O, O],
    ] {
        assert_eq!(minimax(board, true), (1, -1));
        assert_eq!(minimax(board, false), (1, -1));
    }
}

#[test]
fn minimax_scores_cross_line_minus_one() {
    for board in [
        [X, X, X, O, O, E, E, E, E],
        [O, O, E, X, X, X, E, E, E],
        [O, O, E, E, E, E, X, X, X],
        [X, O, O, X, E, E, X, E, E],
        [O, X, O, E, X, E, E, X, E],
        [O, O, X, E, E, X, E, E, X],
        [X, O, O, E, X, E, E, E, X],
        [O, O, X, E, X, E, X, E, E],
        [X, O, X, O, X, O, O, X, X],
    ] {
        assert_eq!(minimax(board, true), (-1, -1));
        assert_eq!(minimax(board, false), (-1, -1));
    }
}

#[test]
fn minimax_cross_line_counts_before_nought_line() {
    let board = [O, O, O, X, X, X, E, E, E];
    assert_eq!(minimax(board, true), (-1, -1));
    assert_eq!(minimax(board, false), (-1, -1));
}

#[test]
fn minimax_finds_the_forced_win() {
    let board = [X, X, E, O, O, E, E, E, E];
    assert_eq!(minimax(board, false), (-1, 2));
    // Noughts win by 5 at once, and by 2 as well: 2 is the lower cell.
    assert_eq!(minimax(board, true), (1, 2));
    // Cell 6 only draws for noughts, cell 7 wins.
    let board = [X, O, X, X, O, O, E, E, X];
    assert_eq!(minimax(board, true), (1, 7));
    assert_eq!(minimax(board, false), (-1, 6));
}

#[test]
fn minimax_blocks_a_threat() {
    let board = [O, O, E, E, X, E, E, E, E];
    assert_eq!(minimax(board, false), (0, 2));
}

#[test]
fn minimax_single_cell_left() {
    let board = [O, X, O, O, X, X, X, O, E];
    assert_eq!(minimax(board, true), (0, 8));
    assert_eq!(minimax(board, false), (0, 8));
    let board = [O, X, X, E, O, X, X, O, O];
    assert_eq!(minimax(board, true), (1, -1));
    let board = [O, O, X, X, X, O, E, O, X];
    assert_eq!(minimax(board, false), (-1, 6));
    assert_eq!(minimax(board, true), (0, 6));
}

#[test]
fn minimax_empty_board_is_a_draw() {
    let (score, cell) = minimax([E; 9], false);
    assert_eq!(score, 0);
    assert_eq!(cell, 0);
    let (score, cell) = minimax([E; 9], true);
    assert_eq!(score, 0);
    assert_eq!(cell, 0);
}

#[test]
fn minimax_ties_go_to_lowest_cell() {
    // Noughts threaten cells 3 and 8 at once: every reply of crosses loses.
    let board = [O, X, E, E, O, O, X, E, E];
    for cell in [2usize, 3, 7, 8] {
        let mut next = board;
        next[cell] = X;
        assert_eq!(minimax(next, true).0, 1);
    }
    assert_eq!(minimax(board, false), (1, 2));
    // Every cell of the empty board draws: the first one is kept.
    for cell in 0..9usize {
        let mut next = [E; 9];
        next[cell] = O;
        assert_eq!(minimax(next, false).0, 0);
    }
    assert_eq!(minimax([E; 9], true), (0, 0));
}

#[test]
fn minimax_agrees_with_plain_scan_after_two_moves() {
    for a in 0..9usize {
        for b in 0..9usize {
            if a == b {
                continue;
            }
            let mut board = [E; 9];
            board[a] = O;
            board[b] = X;
            assert_eq!(minimax(board, true), plain_search(board, true));
            assert_eq!(minimax(board, false), plain_search(board, false));
        }
    }
}

#[test]
fn minimax_leaves_its_argument_usable() {
    let board = [O, E, E, E, X, E, E, E, E];
    let before = board;
    let (_, cell) = minimax(board, true);
    assert_eq!(board, before);
    assert!(board[cell as usize] == E);
}

#[test]
fn optimal_play_from_empty_board_ends_in_draw() {
    let mut board = [E; 9];
    let mut maximizing = true;
    loop {
        let (score, cell) = minimax(board, maximizing);
        assert_eq!(score, 0);
        if cell == -1 {
            break;
        }
        let piece = if maximizing { O } else { X };
        assert!(play_move(&mut board, cell, piece));
        maximizing = !maximizing;
    }
    assert!(is_full(board));
    assert!(!has_won(board, O));
    assert!(!has_won(board, X));
}

#[test]
fn crosses_first_then_optimal_play_ends_in_draw() {
    let mut board = [E; 9];
    let (score, cell) = minimax(board, false);
    assert_eq!(score, 0);
    assert!(play_move(&mut board, cell, X));
    let mut maximizing = true;
    loop {
        let (score, cell) = minimax(board, maximizing);
        assert_eq!(score, 0);
        if cell == -1 {
            break;
        }
        let piece = if maximizing { O } else { X };
        assert!(play_move(&mut board, cell, piece));
        maximizing = !maximizing;
    }
    assert!(!has_won(board, O));
    assert!(!has_won(board, X));
}

#[test]
fn crosses_never_lose_to_any_line_of_play() {
    assert!(worst_for_crosses([E; 9], true) <= 0);
}
