//! The rules of a game between a person, who plays noughts and moves first,
//! and the search engine, which plays crosses.

use crate::board::{play_move, Pieces};
use crate::detect::{full, has_won, is_full, won};
use crate::search::{minimax, search_result, terminal, vacancies};
use vstd::prelude::*;

verus! {

/// Where a game stands.
#[derive(Copy, Clone, Debug, PartialEq, Eq, Structural)]
pub enum Phase {
    /// The person is to move.
    HumanTurn,
    /// The engine is to move.
    ComputerTurn,
    /// One side has completed a line.
    Won,
    /// The board is full and no line is complete.
    Drawn,
}

/// The phase of a game with board `b` after `turn` accepted moves: a
/// completed line ends it, then a full board; otherwise the person moves on
/// even turns and the engine on odd ones.
pub open spec fn phase_of(b: Seq<Pieces>, turn: int) -> Phase {
    if won(b, Pieces::NOUGHT) || won(b, Pieces::CROSS) {
        Phase::Won
    } else if full(b) {
        Phase::Drawn
    } else if turn % 2 == 0 {
        Phase::HumanTurn
    } else {
        Phase::ComputerTurn
    }
}

/// What a number entered by the person stands for: the cell itself when it
/// lies on the board, otherwise -1, which asks for another entry.
pub open spec fn entry_cell(value: int) -> int {
    if 0 <= value <= 8 {
        value
    } else {
        -1
    }
}

/// Maps an entered number to a cell of the board, or to -1 where it names
/// none.
pub fn take_input(value: i32) -> (cell: i32)
    ensures
        cell == entry_cell(value as int),
{
    if value < 0 || value > 8 {
        return -1;
    }
    value
}

/// A game in progress: the board, the number of moves made, and the phase.
pub struct Game {
    board: [Pieces; 9],
    turn: u8,
    phase: Phase,
}

impl Game {
    /// The board of the game.
    pub closed spec fn cells(&self) -> Seq<Pieces> {
        self.board@
    }

    /// The number of moves made so far.
    pub closed spec fn moves_made(&self) -> int {
        self.turn as int
    }

    /// The phase of the game.
    pub closed spec fn stage(&self) -> Phase {
        self.phase
    }

    /// A game is well formed when its turn counter counts the marks on the
    /// board and its phase is the one that board and counter give.
    pub open spec fn wf(&self) -> bool {
        &&& self.cells().len() == 9
        &&& self.moves_made() == 9 - vacancies(self.cells())
        &&& self.stage() == phase_of(self.cells(), self.moves_made())
    }

    /// A new game: an empty board, with the person to move.
    pub fn new() -> (game: Game)
        ensures
            game.wf(),
            game.cells() == Seq::new(9, |i: int| Pieces::EMPTY),
            game.moves_made() == 0,
            game.stage() == Phase::HumanTurn,
    {
        let board: [Pieces; 9] = [Pieces::EMPTY; 9];
        proof {
            assert(board@ =~= Seq::new(9, |i: int| Pieces::EMPTY));
            lemma_no_win_on_empty_board(board@);
            assert(board@[0] == Pieces::EMPTY);
        }
        Game { board, turn: 0, phase: Phase::HumanTurn }
    }

    /// The board.
    pub fn board(&self) -> (board: [Pieces; 9])
        ensures
            board@ == self.cells(),
    {
        self.board
    }

    /// The number of moves made so far.
    pub fn turn(&self) -> (turn: u8)
        ensures
            turn == self.moves_made(),
    {
        self.turn
    }

    /// The phase.
    pub fn phase(&self) -> (phase: Phase)
        ensures
            phase == self.stage(),
    {
        self.phase
    }

    /// Takes the person's entry. An entry off the board, or on a taken cell,
    /// is refused and changes nothing, so that the person is asked again.
    /// An accepted entry puts a nought on the cell and moves the game on.
    pub fn human_turn(&mut self, entry: i32) -> (accepted: bool)
        requires
            old(self).wf(),
            old(self).stage() == Phase::HumanTurn,
        ensures
            final(self).wf(),
            accepted == (0 <= entry <= 8 && old(self).cells()[entry as int] == Pieces::EMPTY),
            accepted ==> final(self).cells() == old(self).cells().update(
                entry as int,
                Pieces::NOUGHT,
            ) && final(self).moves_made() == old(self).moves_made() + 1,
            accepted ==> final(self).stage() == phase_of(
                final(self).cells(),
                final(self).moves_made(),
            ) && final(self).stage() != Phase::HumanTurn,
            !accepted ==> final(self).cells() == old(self).cells() && final(self).moves_made()
                == old(self).moves_made() && final(self).stage() == Phase::HumanTurn,
    {
        if entry < 0 || entry > 8 {
            return false;
        }
        if !play_move(&mut self.board, entry, Pieces::NOUGHT) {
            return false;
        }
        self.turn = self.turn + 1;
        self.phase = phase_after(self.board, self.turn);
        true
    }

    /// Lets the engine move: it puts a cross on the cell that the search
    /// picks for the minimising side and moves the game on. Returns the
    /// cell.
    pub fn computer_turn(&mut self) -> (cell: i32)
        requires
            old(self).wf(),
            old(self).stage() == Phase::ComputerTurn,
        ensures
            final(self).wf(),
            cell == search_result(old(self).cells(), false).1,
            0 <= cell <= 8,
            old(self).cells()[cell as int] == Pieces::EMPTY,
            final(self).cells() == old(self).cells().update(cell as int, Pieces::CROSS),
            final(self).moves_made() == old(self).moves_made() + 1,
            final(self).stage() == phase_of(final(self).cells(), final(self).moves_made()),
            final(self).stage() != Phase::ComputerTurn,
    {
        assert(!terminal(self.board@));
        let (_, best_idx) = minimax(self.board, false);
        play_move(&mut self.board, best_idx, Pieces::CROSS);
        self.turn = self.turn + 1;
        self.phase = phase_after(self.board, self.turn);
        best_idx
    }
}

/// No mark has a line on a board without marks.
pub proof fn lemma_no_win_on_empty_board(b: Seq<Pieces>)
    requires
        b.len() == 9,
        forall|i: int| 0 <= i < 9 ==> b[i] == Pieces::EMPTY,
    ensures
        !won(b, Pieces::NOUGHT),
        !won(b, Pieces::CROSS),
        !full(b),
{
    assert(b[0] == Pieces::EMPTY);
}

/// The phase that board and turn counter give.
pub fn phase_after(board: [Pieces; 9], turn: u8) -> (phase: Phase)
    ensures
        phase == phase_of(board@, turn as int),
{
    if has_won(board, Pieces::NOUGHT) || has_won(board, Pieces::CROSS) {
        Phase::Won
    } else if is_full(board) {
        Phase::Drawn
    } else if turn % 2 == 0 {
        Phase::HumanTurn
    } else {
        Phase::ComputerTurn
    }
}

} // verus!
