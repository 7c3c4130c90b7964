//! The board as text: three rows of three cells.

use crate::board::Pieces;
use vstd::prelude::*;
use vstd::string::StringExecFns;

verus! {

/// The character that shows a mark: `O`, `X`, or a space for an empty cell.
pub open spec fn mark_char(piece: Pieces) -> char {
    match piece {
        Pieces::EMPTY => ' ',
        Pieces::NOUGHT => 'O',
        Pieces::CROSS => 'X',
    }
}

/// The text of cell `i` holding `piece`: the mark between two bars, and a
/// line break behind the last cell of a row.
pub open spec fn cell_text(piece: Pieces, i: int) -> Seq<char> {
    let cell = seq!['|', ' ', mark_char(piece), ' ', '|'];
    if (i + 1) % 3 == 0 {
        cell.push('\n')
    } else {
        cell
    }
}

/// The text of the first `n` cells of `b`.
pub open spec fn board_text(b: Seq<Pieces>, n: int) -> Seq<char>
    decreases n,
{
    if n <= 0 {
        Seq::empty()
    } else {
        board_text(b, n - 1) + cell_text(b[n - 1], n - 1)
    }
}

/// Renders the board as three lines of text, each cell as `| O |`, `| X |`
/// or `|   |`.
pub fn render_board(board: [Pieces; 9]) -> (text: String)
    ensures
        text@ == board_text(board@, 9),
        text@.len() == 48,
{
    let mut text: String = String::new();
    let mut i: usize = 0;
    while i < 9
        invariant
            i <= 9,
            text@ == board_text(board@, i as int),
            text@.len() == 5 * i + i / 3,
        decreases 9 - i,
    {
        let ghost before = text@;
        proof {
            reveal_strlit("| ");
            reveal_strlit(" ");
            reveal_strlit("O");
            reveal_strlit("X");
            reveal_strlit(" |");
            reveal_strlit("\n");
        }
        text.append("| ");
        match board[i] {
            Pieces::EMPTY => text.append(" "),
            Pieces::NOUGHT => text.append("O"),
            Pieces::CROSS => text.append("X"),
        }
        text.append(" |");
        if (i + 1) % 3 == 0 {
            text.append("\n");
        }
        assert(text@ =~= before + cell_text(board@[i as int], i as int));
        i += 1;
    }
    text
}

} // verus!
