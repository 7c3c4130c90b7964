//! Exhaustive minimax over the whole game tree. Noughts maximise the score,
//! crosses minimise it: +1 is a win for noughts, -1 a win for crosses, 0 a
//! draw.

use crate::board::{is_board, play_move, Pieces};
use crate::detect::{full, has_won, is_full, won};
use crate::moves::{available_moves, lemma_open_cells, open_cells};
use vstd::prelude::*;

verus! {

/// 1 where cell `i` of `b` is empty, else 0.
pub open spec fn cell_open(b: Seq<Pieces>, i: int) -> nat {
    if b[i] == Pieces::EMPTY {
        1
    } else {
        0
    }
}

/// The number of empty cells of a board.
pub open spec fn vacancies(b: Seq<Pieces>) -> nat {
    cell_open(b, 0) + cell_open(b, 1) + cell_open(b, 2) + cell_open(b, 3) + cell_open(b, 4)
        + cell_open(b, 5) + cell_open(b, 6) + cell_open(b, 7) + cell_open(b, 8)
}

/// The mark of the side to move: noughts maximise, crosses minimise.
pub open spec fn mover(maximizing: bool) -> Pieces {
    if maximizing {
        Pieces::NOUGHT
    } else {
        Pieces::CROSS
    }
}

/// Whether play has ended on `b`: the board is full or a line is complete.
pub open spec fn terminal(b: Seq<Pieces>) -> bool {
    full(b) || won(b, Pieces::CROSS) || won(b, Pieces::NOUGHT)
}

/// The score of a board on which play has ended. A line of crosses counts
/// before a line of noughts.
pub open spec fn leaf_score(b: Seq<Pieces>) -> int {
    if won(b, Pieces::CROSS) {
        -1
    } else if won(b, Pieces::NOUGHT) {
        1
    } else {
        0
    }
}

/// Whether score `a` is strictly better than score `b` for the side to move.
pub open spec fn improves(maximizing: bool, a: int, b: int) -> bool {
    if maximizing {
        a > b
    } else {
        a < b
    }
}

/// The score with which a scan starts: worse for the mover than any score
/// of a game.
pub open spec fn worst_score(maximizing: bool) -> int {
    if maximizing {
        i32::MIN as int
    } else {
        i32::MAX as int
    }
}

/// The value of `b` with the given side to move, under best play by both.
pub open spec fn game_value(b: Seq<Pieces>, maximizing: bool) -> int
    decreases vacancies(b), 10int,
{
    if !is_board(b) {
        0
    } else if terminal(b) {
        leaf_score(b)
    } else {
        best_reply(b, maximizing, 9).0
    }
}

/// The value of the board that the mover reaches from `b` by taking the
/// empty cell `i`.
pub open spec fn reply_value(b: Seq<Pieces>, maximizing: bool, i: int) -> int
    decreases vacancies(b), 0int,
{
    if is_board(b) && 0 <= i < 9 && b[i] == Pieces::EMPTY {
        game_value(b.update(i, mover(maximizing)), !maximizing)
    } else {
        0
    }
}

/// The best score among the mover's replies on the empty cells below `n`,
/// and the cell that gives it: the lowest such cell, since a later cell
/// replaces an earlier one only with a strictly better score. With no empty
/// cell below `n` the score is the worst one and the cell is -1.
pub open spec fn best_reply(b: Seq<Pieces>, maximizing: bool, n: int) -> (int, int)
    decreases vacancies(b), n,
{
    if !is_board(b) || n <= 0 || n > 9 {
        (worst_score(maximizing), -1)
    } else {
        let prev = best_reply(b, maximizing, n - 1);
        if b[n - 1] == Pieces::EMPTY && improves(
            maximizing,
            reply_value(b, maximizing, n - 1),
            prev.0,
        ) {
            (reply_value(b, maximizing, n - 1), n - 1)
        } else {
            prev
        }
    }
}

/// What the search returns on `b`: score and cell. On a board where play has
/// ended the cell is -1.
pub open spec fn search_result(b: Seq<Pieces>, maximizing: bool) -> (int, int) {
    if terminal(b) {
        (leaf_score(b), -1)
    } else {
        best_reply(b, maximizing, 9)
    }
}

/// Every value of a game is a loss, a draw or a win.
pub proof fn lemma_value_bounds(b: Seq<Pieces>, maximizing: bool)
    ensures
        -1 <= game_value(b, maximizing) <= 1,
    decreases vacancies(b), 10int,
{
    if is_board(b) && !terminal(b) {
        lemma_best_reply(b, maximizing, 9);
        let i = choose|i: int| 0 <= i < b.len() && b[i] == Pieces::EMPTY;
        assert(b[i] == Pieces::EMPTY);
    }
}

/// What [`best_reply`] finds below `n`. Without an empty cell there it is
/// the worst score and -1. Otherwise the cell is empty, its reply has the
/// score, no reply on an empty cell below `n` is strictly better for the
/// mover, and no lower empty cell reaches the same score.
pub proof fn lemma_best_reply(b: Seq<Pieces>, maximizing: bool, n: int)
    requires
        is_board(b),
        0 <= n <= 9,
    ensures
        (forall|j: int| 0 <= j < n ==> #[trigger] b[j] != Pieces::EMPTY) ==> best_reply(
            b,
            maximizing,
            n,
        ) == (worst_score(maximizing), -1int),
        (exists|j: int| 0 <= j < n && #[trigger] b[j] == Pieces::EMPTY) ==> {
            let (score, cell) = best_reply(b, maximizing, n);
            &&& 0 <= cell < n
            &&& b[cell] == Pieces::EMPTY
            &&& score == reply_value(b, maximizing, cell)
            &&& -1 <= score <= 1
        },
        forall|j: int|
            0 <= j < n && #[trigger] b[j] == Pieces::EMPTY ==> {
                let (score, cell) = best_reply(b, maximizing, n);
                &&& !improves(maximizing, reply_value(b, maximizing, j), score)
                &&& j < cell ==> reply_value(b, maximizing, j) != score
            },
    decreases vacancies(b), n,
{
    if n > 0 {
        lemma_best_reply(b, maximizing, n - 1);
        let prev = best_reply(b, maximizing, n - 1);
        if b[n - 1] == Pieces::EMPTY {
            lemma_value_bounds(b.update(n - 1, mover(maximizing)), !maximizing);
        }
        let cur = best_reply(b, maximizing, n);
        let v = reply_value(b, maximizing, n - 1);
        if !exists|j: int| 0 <= j < n - 1 && #[trigger] b[j] == Pieces::EMPTY {
            assert(prev == (worst_score(maximizing), -1int));
            assert(b[n - 1] == Pieces::EMPTY ==> cur == (v, n - 1));
        }
    }
}

/// The cell after the open cell before the `t`-th one, or 0 for the first.
spec fn gap_start(b: Seq<Pieces>, t: int) -> int {
    if t <= 0 {
        0
    } else {
        open_cells(b, 9)[t - 1] + 1
    }
}

/// The `t`-th open cell, or 9 past the last one.
spec fn gap_end(b: Seq<Pieces>, t: int) -> int {
    if t < open_cells(b, 9).len() {
        open_cells(b, 9)[t] as int
    } else {
        9
    }
}

/// Between one open cell and the next every cell is taken: with
/// `cells = open_cells(b, 9)`, from the cell after `cells[t - 1]` (or from
/// cell 0) up to `cells[t]` (or to the end of the board).
proof fn lemma_gap_taken(b: Seq<Pieces>, t: int)
    requires
        is_board(b),
        0 <= t <= open_cells(b, 9).len(),
    ensures
        0 <= gap_start(b, t) <= gap_end(b, t) <= 9,
        t < open_cells(b, 9).len() ==> gap_end(b, t) < 9 && b[gap_end(b, t)] == Pieces::EMPTY,
        forall|j: int| gap_start(b, t) <= j < gap_end(b, t) ==> #[trigger] b[j] != Pieces::EMPTY,
{
    lemma_open_cells(b, 9);
    let cells = open_cells(b, 9);
    assert forall|j: int| gap_start(b, t) <= j < gap_end(b, t) implies #[trigger] b[j]
        != Pieces::EMPTY by {
        if b[j] == Pieces::EMPTY {
            assert(cells.contains(j as i32));
            let k = choose|k: int| 0 <= k < cells.len() && cells[k] == j as i32;
            if k < t {
                assert(k < t - 1 ==> cells[k] < cells[t - 1]);
            } else {
                assert(k > t ==> cells[t] < cells[k]);
            }
        }
    }
    if 0 < t < cells.len() {
        assert(cells[t - 1] < cells[t]);
    }
}

/// Cells that are taken do not change what a scan has found.
pub proof fn lemma_skip_taken(b: Seq<Pieces>, maximizing: bool, lo: int, hi: int)
    requires
        is_board(b),
        0 <= lo <= hi <= 9,
        forall|j: int| lo <= j < hi ==> #[trigger] b[j] != Pieces::EMPTY,
    ensures
        best_reply(b, maximizing, hi) == best_reply(b, maximizing, lo),
    decreases hi - lo,
{
    if lo < hi {
        lemma_skip_taken(b, maximizing, lo, hi - 1);
    }
}

/// One step of a scan along the open cells: the `t`-th open cell is an
/// empty cell of the board, the scan before it has covered every cell below
/// it, and the scan behind it covers every cell below the next open cell.
proof fn lemma_scan_step(b: Seq<Pieces>, maximizing: bool, t: int)
    requires
        is_board(b),
        0 <= t < open_cells(b, 9).len(),
    ensures
        0 <= gap_end(b, t) < 9,
        b[gap_end(b, t)] == Pieces::EMPTY,
        best_reply(b, maximizing, gap_end(b, t + 1)) == best_reply(
            b,
            maximizing,
            gap_end(b, t) + 1,
        ),
{
    lemma_gap_taken(b, t);
    lemma_gap_taken(b, t + 1);
    lemma_skip_taken(b, maximizing, gap_end(b, t) + 1, gap_end(b, t + 1));
}

/// A scan that has not reached the first open cell has found nothing.
proof fn lemma_scan_start(b: Seq<Pieces>, maximizing: bool)
    requires
        is_board(b),
    ensures
        best_reply(b, maximizing, gap_end(b, 0)) == (worst_score(maximizing), -1int),
{
    lemma_gap_taken(b, 0);
    lemma_skip_taken(b, maximizing, 0, gap_end(b, 0));
}

/// A mark put on an empty cell leaves one empty cell fewer.
proof fn lemma_mark_fills(b: Seq<Pieces>, i: int, piece: Pieces)
    requires
        is_board(b),
        0 <= i < 9,
        b[i] == Pieces::EMPTY,
        piece != Pieces::EMPTY,
    ensures
        vacancies(b.update(i, piece)) == vacancies(b) - 1,
{
}

/// No reply is better for the mover than the value of the board: the value
/// is the best that the mover can reach.
pub proof fn lemma_no_reply_beats_value(b: Seq<Pieces>, maximizing: bool, i: int)
    requires
        is_board(b),
        !terminal(b),
        0 <= i < 9,
        b[i] == Pieces::EMPTY,
    ensures
        reply_value(b, maximizing, i) == game_value(b.update(i, mover(maximizing)), !maximizing),
        !improves(maximizing, reply_value(b, maximizing, i), game_value(b, maximizing)),
{
    lemma_best_reply(b, maximizing, 9);
}

/// The cell that the search picks is empty, and taking it keeps the value of
/// the board.
pub proof fn lemma_search_keeps_value(b: Seq<Pieces>, maximizing: bool)
    requires
        is_board(b),
        !terminal(b),
    ensures
        0 <= search_result(b, maximizing).1 < 9,
        b[search_result(b, maximizing).1] == Pieces::EMPTY,
        search_result(b, maximizing).0 == game_value(b, maximizing),
        game_value(b.update(search_result(b, maximizing).1, mover(maximizing)), !maximizing)
            == game_value(b, maximizing),
{
    lemma_best_reply(b, maximizing, 9);
    let i = choose|i: int| 0 <= i < b.len() && b[i] == Pieces::EMPTY;
    assert(b[i] == Pieces::EMPTY);
}

/// Whether crosses, taking at each of their turns the cell that the search
/// picks, are never beaten on `b`, whatever cells noughts take: every board
/// on which such play can end is a draw or holds a line of crosses.
pub open spec fn crosses_hold(b: Seq<Pieces>, noughts_to_move: bool) -> bool
    decreases vacancies(b),
{
    if !is_board(b) {
        false
    } else if terminal(b) {
        leaf_score(b) <= 0
    } else if noughts_to_move {
        forall|i: int|
            0 <= i < 9 && #[trigger] b[i] == Pieces::EMPTY ==> crosses_hold(
                b.update(i, Pieces::NOUGHT),
                false,
            )
    } else {
        let cell = search_result(b, false).1;
        if 0 <= cell < 9 && b[cell] == Pieces::EMPTY {
            crosses_hold(b.update(cell, Pieces::CROSS), true)
        } else {
            false
        }
    }
}

/// The engine does not lose a game that it need not lose: from a board
/// whose value is a draw or a win for crosses, crosses that follow the
/// search are never beaten, whatever noughts play.
pub proof fn lemma_crosses_never_lose(b: Seq<Pieces>, noughts_to_move: bool)
    requires
        is_board(b),
        game_value(b, noughts_to_move) <= 0,
    ensures
        crosses_hold(b, noughts_to_move),
    decreases vacancies(b),
{
    if !terminal(b) {
        if noughts_to_move {
            assert forall|i: int| 0 <= i < 9 && #[trigger] b[i] == Pieces::EMPTY implies crosses_hold(
                b.update(i, Pieces::NOUGHT),
                false,
            ) by {
                lemma_no_reply_beats_value(b, true, i);
                lemma_crosses_never_lose(b.update(i, Pieces::NOUGHT), false);
            }
        } else {
            lemma_search_keeps_value(b, false);
            lemma_crosses_never_lose(b.update(search_result(b, false).1, Pieces::CROSS), true);
        }
    }
}

/// The board on which play ends when both sides, from `b` on, take the
/// cell that the search picks.
pub open spec fn best_play_end(b: Seq<Pieces>, maximizing: bool) -> Seq<Pieces>
    decreases vacancies(b),
{
    if !is_board(b) || terminal(b) {
        b
    } else {
        let cell = search_result(b, maximizing).1;
        if 0 <= cell < 9 && b[cell] == Pieces::EMPTY {
            best_play_end(b.update(cell, mover(maximizing)), !maximizing)
        } else {
            b
        }
    }
}

/// Best play by both sides ends with the value of the board it started
/// from: on a board of value 0 it ends in a draw, and neither side loses.
pub proof fn lemma_best_play_reaches_value(b: Seq<Pieces>, maximizing: bool)
    requires
        is_board(b),
    ensures
        is_board(best_play_end(b, maximizing)),
        terminal(best_play_end(b, maximizing)),
        leaf_score(best_play_end(b, maximizing)) == game_value(b, maximizing),
    decreases vacancies(b),
{
    if !terminal(b) {
        lemma_search_keeps_value(b, maximizing);
        lemma_best_play_reaches_value(
            b.update(search_result(b, maximizing).1, mover(maximizing)),
            !maximizing,
        );
    }
}

/// Searches the whole game tree below the board and returns the score under
/// best play together with the mover's best cell. `player` says who moves:
/// `true` for noughts, who maximise, `false` for crosses, who minimise.
///
/// Where play has ended the cell is -1 and the score is -1 for a line of
/// crosses, else 1 for a line of noughts, else 0. Otherwise the cell is the
/// lowest empty cell whose reply reaches the best score.
pub fn minimax(board: [Pieces; 9], player: bool) -> (r: (i32, i32))
    ensures
        (r.0 as int, r.1 as int) == search_result(board@, player),
        r.0 == game_value(board@, player),
        -1 <= r.0 <= 1,
        terminal(board@) ==> r.1 == -1,
        won(board@, Pieces::CROSS) ==> r == (-1i32, -1i32),
        won(board@, Pieces::NOUGHT) && !won(board@, Pieces::CROSS) ==> r == (1i32, -1i32),
        full(board@) && !won(board@, Pieces::CROSS) && !won(board@, Pieces::NOUGHT) ==> r == (
            0i32,
            -1i32,
        ),
        !terminal(board@) ==> {
            &&& 0 <= r.1 < 9
            &&& board@[r.1 as int] == Pieces::EMPTY
            &&& r.0 == reply_value(board@, player, r.1 as int)
            &&& forall|j: int|
                0 <= j < 9 && #[trigger] board@[j] == Pieces::EMPTY ==> {
                    &&& !improves(player, reply_value(board@, player, j), r.0 as int)
                    &&& j < r.1 ==> reply_value(board@, player, j) != r.0
                }
        },
    decreases vacancies(board@),
{
    let ai_won: bool = has_won(board, Pieces::CROSS);
    let player_won: bool = has_won(board, Pieces::NOUGHT);
    if is_full(board) || ai_won || player_won {
        if ai_won {
            (-1, -1)
        } else if player_won {
            (1, -1)
        } else {
            (0, -1)
        }
    } else {
        let mut work: [Pieces; 9] = board;
        let mut best_idx: i32 = -1;
        let mut best: i32 = if player { i32::MIN } else { i32::MAX };
        let moves: Vec<i32> = available_moves(board);
        let piece: Pieces = if player { Pieces::NOUGHT } else { Pieces::CROSS };
        let ghost b = board@;
        let mut t: usize = 0;
        proof {
            lemma_scan_start(b, player);
        }
        while t < moves.len()
            invariant
                t <= moves@.len(),
                is_board(b),
                b == board@,
                work@ == b,
                piece == mover(player),
                moves@ == open_cells(b, 9),
                (best as int, best_idx as int) == best_reply(b, player, gap_end(b, t as int)),
            decreases moves@.len() - t,
        {
            proof {
                lemma_scan_step(b, player, t as int);
            }
            let m: i32 = moves[t];
            play_move(&mut work, m, piece);
            proof {
                lemma_mark_fills(b, m as int, piece);
            }
            let (score, _) = minimax(work, !player);
            play_move(&mut work, m, Pieces::EMPTY);
            assert(work@ =~= b);
            assert(score == reply_value(b, player, m as int));
            if player {
                if score > best {
                    best = score;
                    best_idx = m;
                }
            } else {
                if score < best {
                    best = score;
                    best_idx = m;
                }
            }
            assert((best as int, best_idx as int) == best_reply(b, player, m + 1));
            t += 1;
        }
        proof {
            lemma_best_reply(b, player, 9);
            let i = choose|i: int| 0 <= i < b.len() && b[i] == Pieces::EMPTY;
            assert(b[i] == Pieces::EMPTY);
        }
        (best, best_idx)
    }
}

} // verus!
