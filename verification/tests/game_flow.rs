use tictactoe::board::Pieces;
use tictactoe::detect::{has_won, is_full};
use tictactoe::game::{phase_after, take_input, Game, Phase};
use tictactoe::moves::available_moves;
use tictactoe::render::render_board;
use tictactoe::search::minimax;

const E: Pieces = Pieces::EMPTY;
const O: Pieces = Pieces::NOUGHT;
const X: Pieces = Pieces::CROSS;

#[test]
fn take_input_keeps_cells_on_the_board() {
    for value in 0..=8 {
        assert_eq!(take_input(value), value);
    }
}

#[test]
fn take_input_maps_other_numbers_to_minus_one() {
    for value in [-1, -2, 9, 10, 100, i32::MIN, i32::MAX] {
        assert_eq!(take_input(value), -1);
    }
}

#[test]
fn new_game_starts_with_the_person() {
    let game = Game::new();
    assert_eq!(game.board(), [E; 9]);
    assert_eq!(game.turn(), 0);
    assert_eq!(game.phase(), Phase::HumanTurn);
}

#[test]
fn human_turn_refuses_entries_off_the_board() {
    let mut game = Game::new();
    for entry in [-1, 9, 42, i32::MIN, i32::MAX] {
        assert!(!game.human_turn(entry));
        assert_eq!(game.board(), [E; 9]);
        assert_eq!(game.turn(), 0);
        assert_eq!(game.phase(), Phase::HumanTurn);
    }
}

#[test]
fn human_turn_refuses_taken_cells() {
    let mut game = Game::new();
    assert!(game.human_turn(4));
    assert_eq!(game.phase(), Phase::ComputerTurn);
    assert_eq!(game.computer_turn(), 0);
    assert_eq!(game.phase(), Phase::HumanTurn);
    let before = game.board();
    assert_eq!(before, [X, E, E, E, O, E, E, E, E]);
    assert!(!game.human_turn(4));
    assert!(!game.human_turn(0));
    assert_eq!(game.board(), before);
    assert_eq!(game.turn(), 2);
    assert_eq!(game.phase(), Phase::HumanTurn);
}

#[test]
fn computer_answers_a_corner_with_the_centre() {
    let mut game = Game::new();
    assert!(game.human_turn(0));
    assert_eq!(game.turn(), 1);
    assert_eq!(game.computer_turn(), 4);
    assert_eq!(game.turn(), 2);
    assert_eq!(game.board(), [O, E, E, E, X, E, E, E, E]);
}

#[test]
fn careless_play_loses_to_the_computer() {
    let mut game = Game::new();
    assert!(game.human_turn(0));
    assert_eq!(game.computer_turn(), 4);
    assert!(game.human_turn(1));
    assert_eq!(game.computer_turn(), 2);
    assert!(game.human_turn(3));
    assert_eq!(game.phase(), Phase::ComputerTurn);
    assert_eq!(game.computer_turn(), 6);
    assert_eq!(game.board(), [O, O, X, O, X, E, X, E, E]);
    assert_eq!(game.turn(), 6);
    assert_eq!(game.phase(), Phase::Won);
    assert!(has_won(game.board(), X));
    assert!(!has_won(game.board(), O));
}

#[test]
fn computer_plays_the_cell_of_the_search() {
    let mut game = Game::new();
    while game.phase() == Phase::HumanTurn {
        let lowest = available_moves(game.board())[0];
        assert!(game.human_turn(lowest));
        if game.phase() != Phase::ComputerTurn {
            break;
        }
        let before = game.board();
        let turn = game.turn();
        let (_, expected) = minimax(before, false);
        let cell = game.computer_turn();
        assert_eq!(cell, expected);
        let mut after = before;
        after[cell as usize] = X;
        assert_eq!(game.board(), after);
        assert_eq!(game.turn(), turn + 1);
    }
    assert_eq!(game.phase(), Phase::Won);
}

#[test]
fn best_play_by_both_ends_drawn() {
    let mut game = Game::new();
    loop {
        match game.phase() {
            Phase::HumanTurn => {
                let (score, cell) = minimax(game.board(), true);
                assert_eq!(score, 0);
                assert!(game.human_turn(cell));
            }
            Phase::ComputerTurn => {
                game.computer_turn();
            }
            Phase::Won | Phase::Drawn => break,
        }
    }
    assert_eq!(game.phase(), Phase::Drawn);
    assert_eq!(game.turn(), 9);
    assert!(is_full(game.board()));
    assert!(!has_won(game.board(), O));
    assert!(!has_won(game.board(), X));
}

#[test]
fn phase_after_classifies_boards() {
    assert_eq!(phase_after([E; 9], 0), Phase::HumanTurn);
    assert_eq!(phase_after([O, E, E, E, E, E, E, E, E], 1), Phase::ComputerTurn);
    assert_eq!(phase_after([O, E, E, E, X, E, E, E, E], 2), Phase::HumanTurn);
    assert_eq!(phase_after([O, O, O, X, X, E, E, E, E], 5), Phase::Won);
    assert_eq!(phase_after([O, O, X, O, X, E, X, E, E], 6), Phase::Won);
    assert_eq!(phase_after([O, X, O, O, X, X, X, O, O], 9), Phase::Drawn);
    assert_eq!(phase_after([O, X, O, X, O, X, X, O, O], 9), Phase::Won);
}

#[test]
fn render_empty_board() {
    assert_eq!(render_board([E; 9]), "|   ||   ||   |\n|   ||   ||   |\n|   ||   ||   |\n");
}

#[test]
fn render_marks() {
    let board = [O, X, E, E, O, X, X, E, O];
    assert_eq!(render_board(board), "| O || X ||   |\n|   || O || X |\n| X ||   || O |\n");
    assert_eq!(render_board(board).len(), 48);
    assert_eq!(render_board([X; 9]), "| X || X || X |\n| X || X || X |\n| X || X || X |\n");
}
