//! The board and the rule for putting a mark on it.

use vstd::prelude::*;

verus! {

/// What a cell of the board holds.
#[derive(Copy, Clone, Debug, PartialEq, Eq, Structural)]
pub enum Pieces {
    EMPTY,
    NOUGHT,
    CROSS,
}

/// A board, as contracts see it: nine cells, index `i` being row `i / 3`,
/// column `i % 3`.
pub open spec fn is_board(b: Seq<Pieces>) -> bool {
    b.len() == 9
}

/// Whether `piece` may be put on cell `space` of `b`: a real mark needs an
/// empty cell, while emptying a cell is always allowed.
pub open spec fn accepts(b: Seq<Pieces>, space: int, piece: Pieces) -> bool {
    piece == Pieces::EMPTY || b[space] == Pieces::EMPTY
}

/// The board after an attempt to put `piece` on cell `space`: the cell is
/// overwritten where the move is accepted, and nothing changes otherwise.
pub open spec fn after_move(b: Seq<Pieces>, space: int, piece: Pieces) -> Seq<Pieces> {
    if accepts(b, space, piece) {
        b.update(space, piece)
    } else {
        b
    }
}

/// Puts `piece` on cell `space`, or refuses when a real mark would land on
/// an occupied cell. Returns whether the board took the move.
pub fn play_move(board: &mut [Pieces; 9], space: i32, piece: Pieces) -> (placed: bool)
    requires
        0 <= space < 9,
    ensures
        placed == accepts(old(board)@, space as int, piece),
        final(board)@ == after_move(old(board)@, space as int, piece),
        placed ==> final(board)@ == old(board)@.update(space as int, piece),
        !placed ==> *final(board) == *old(board),
        piece != Pieces::EMPTY && old(board)@[space as int] != Pieces::EMPTY ==> !placed
            && final(board)@ == old(board)@,
        piece == Pieces::EMPTY ==> placed,
{
    let at: usize = space as usize;
    if piece != Pieces::EMPTY && board[at] != Pieces::EMPTY {
        return false;
    }
    board[at] = piece;
    true
}

/// Undoing a move restores the board: a mark put on an empty cell and then
/// cleared again leaves every cell as it was.
pub proof fn lemma_undo_restores(b: Seq<Pieces>, space: int, piece: Pieces)
    requires
        is_board(b),
        0 <= space < 9,
        b[space] == Pieces::EMPTY,
    ensures
        accepts(b, space, piece),
        accepts(after_move(b, space, piece), space, Pieces::EMPTY),
        after_move(after_move(b, space, piece), space, Pieces::EMPTY) == b,
{
    assert(after_move(after_move(b, space, piece), space, Pieces::EMPTY) =~= b);
}

/// A real mark never lands on an occupied cell: the attempt is refused and
/// the board stays as it was.
pub proof fn lemma_occupied_refused(b: Seq<Pieces>, space: int, piece: Pieces)
    requires
        is_board(b),
        0 <= space < 9,
        piece != Pieces::EMPTY,
        b[space] != Pieces::EMPTY,
    ensures
        !accepts(b, space, piece),
        after_move(b, space, piece) == b,
{
}

} // verus!
