//! The cells that are still free.

use crate::board::{is_board, Pieces};
use crate::detect::full;
use vstd::prelude::*;

verus! {

/// The indices below `n` whose cell is empty, in ascending order.
pub open spec fn open_cells(b: Seq<Pieces>, n: int) -> Seq<i32>
    decreases n,
{
    if n <= 0 {
        Seq::empty()
    } else if b[n - 1] == Pieces::EMPTY {
        open_cells(b, n - 1).push((n - 1) as i32)
    } else {
        open_cells(b, n - 1)
    }
}

/// What [`open_cells`] holds: empty cells below `n` only, each of them, and
/// in strictly ascending order.
pub proof fn lemma_open_cells(b: Seq<Pieces>, n: int)
    requires
        is_board(b),
        0 <= n <= 9,
    ensures
        open_cells(b, n).len() <= n,
        forall|k: int|
            0 <= k < open_cells(b, n).len() ==> 0 <= #[trigger] open_cells(b, n)[k] < n && b[open_cells(
                b,
                n,
            )[k] as int] == Pieces::EMPTY,
        forall|k: int, l: int|
            0 <= k < l < open_cells(b, n).len() ==> #[trigger] open_cells(b, n)[k]
                < #[trigger] open_cells(b, n)[l],
        forall|i: int|
            0 <= i < n && #[trigger] b[i] == Pieces::EMPTY ==> open_cells(b, n).contains(i as i32),
    decreases n,
{
    if n > 0 {
        lemma_open_cells(b, n - 1);
        let prev = open_cells(b, n - 1);
        let cur = open_cells(b, n);
        assert forall|i: int| 0 <= i < n && #[trigger] b[i] == Pieces::EMPTY implies cur.contains(
            i as i32,
        ) by {
            if i == n - 1 {
                assert(cur[cur.len() - 1] == i as i32);
            } else {
                assert(prev.contains(i as i32));
                let k = choose|k: int| 0 <= k < prev.len() && prev[k] == i as i32;
                assert(cur[k] == i as i32);
            }
        }
    }
}

/// The board is full exactly when no cell is open.
pub proof fn lemma_full_iff_no_open_cell(b: Seq<Pieces>)
    requires
        is_board(b),
    ensures
        full(b) <==> open_cells(b, 9).len() == 0,
{
    lemma_open_cells(b, 9);
    let cells = open_cells(b, 9);
    if cells.len() > 0 {
        assert(b[cells[0] as int] == Pieces::EMPTY);
    }
    if !full(b) {
        let i = choose|i: int| 0 <= i < b.len() && b[i] == Pieces::EMPTY;
        assert(cells.contains(i as i32));
    }
}

/// The indices of the empty cells, in ascending order; none when the board
/// is full.
pub fn available_moves(board: [Pieces; 9]) -> (moves: Vec<i32>)
    ensures
        moves@ == open_cells(board@, 9),
        moves@.len() <= 9,
        (moves@.len() == 0) == full(board@),
        forall|k: int|
            0 <= k < moves@.len() ==> 0 <= #[trigger] moves@[k] < 9 && board@[moves@[k] as int]
                == Pieces::EMPTY,
        forall|k: int, l: int| 0 <= k < l < moves@.len() ==> #[trigger] moves@[k] < #[trigger] moves@[l],
        forall|i: int| 0 <= i < 9 && #[trigger] board@[i] == Pieces::EMPTY ==> moves@.contains(i as i32),
{
    let mut moves: Vec<i32> = Vec::new();
    let mut i: usize = 0;
    while i < 9
        invariant
            i <= 9,
            moves@ == open_cells(board@, i as int),
        decreases 9 - i,
    {
        if board[i] == Pieces::EMPTY {
            moves.push(i as i32);
        }
        i += 1;
    }
    proof {
        lemma_open_cells(board@, 9);
        lemma_full_iff_no_open_cell(board@);
    }
    moves
}

} // verus!
