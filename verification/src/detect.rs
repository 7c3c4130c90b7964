//! Detection of a completed line and of a full board.

use crate::board::{is_board, Pieces};
use vstd::prelude::*;

verus! {

/// The eight lines of the board as nine-bit masks: rows, columns, then the
/// two diagonals. Cell `i` is bit `8 - i`.
pub const WINNING_PATTERNS: [u32; 8] = [
    0b111000000,
    0b000111000,
    0b000000111,
    0b100100100,
    0b010010010,
    0b001001001,
    0b100010001,
    0b001010100,
];

/// The three cells of line `k`, for `k` from 0 to 7, in the order of
/// [`WINNING_PATTERNS`].
pub open spec fn line_cells(k: int) -> (int, int, int) {
    if k == 0 {
        (0, 1, 2)
    } else if k == 1 {
        (3, 4, 5)
    } else if k == 2 {
        (6, 7, 8)
    } else if k == 3 {
        (0, 3, 6)
    } else if k == 4 {
        (1, 4, 7)
    } else if k == 5 {
        (2, 5, 8)
    } else if k == 6 {
        (0, 4, 8)
    } else {
        (2, 4, 6)
    }
}

/// The mask of line `k`, for `k` from 0 to 7.
pub open spec fn pattern(k: int) -> u32 {
    if k == 0 {
        0b111000000
    } else if k == 1 {
        0b000111000
    } else if k == 2 {
        0b000000111
    } else if k == 3 {
        0b100100100
    } else if k == 4 {
        0b010010010
    } else if k == 5 {
        0b001001001
    } else if k == 6 {
        0b100010001
    } else {
        0b001010100
    }
}

/// Whether all three cells of line `k` hold `piece`.
pub open spec fn holds_line(b: Seq<Pieces>, piece: Pieces, k: int) -> bool {
    let (x, y, z) = line_cells(k);
    b[x] == piece && b[y] == piece && b[z] == piece
}

/// Whether `piece` fills one of the eight lines of `b`.
pub open spec fn won(b: Seq<Pieces>, piece: Pieces) -> bool {
    exists|k: int| 0 <= k < 8 && #[trigger] holds_line(b, piece, k)
}

/// Whether no cell of `b` is empty.
pub open spec fn full(b: Seq<Pieces>) -> bool {
    forall|i: int| 0 <= i < b.len() ==> #[trigger] b[i] != Pieces::EMPTY
}

/// Whether bit `k` of `m` is set.
pub open spec fn bit_set(m: u32, k: u32) -> bool {
    (m >> k) & 1 == 1
}

/// The mask of the first `n` cells of `b`: bit `8 - i` is set exactly where
/// cell `i`, below `n`, holds `piece`.
pub open spec fn board_mask(b: Seq<Pieces>, piece: Pieces, n: int) -> u32
    decreases n,
{
    if n <= 0 {
        0
    } else {
        let s: u32 = if b[n - 1] == piece { 1 } else { 0 };
        board_mask(b, piece, n - 1) | (s << ((9 - n) as u32))
    }
}

proof fn lemma_or_shift(m: u32, s: u32, k: u32, j: u32)
    requires
        s <= 1,
        k < 9,
        j < 9,
    ensures
        bit_set(m | (s << k), j) == (bit_set(m, j) || (j == k && s == 1)),
{
    assert((((m | (s << k)) >> j) & 1 == 1) == (((m >> j) & 1 == 1) || (j == k && s == 1)))
        by (bit_vector)
        requires
            s <= 1,
            k < 9,
            j < 9,
    ;
}

/// Bit `8 - j` of the mask of the first `n` cells says whether cell `j` lies
/// below `n` and holds `piece`.
pub proof fn lemma_mask_bits(b: Seq<Pieces>, piece: Pieces, n: int)
    requires
        is_board(b),
        0 <= n <= 9,
    ensures
        forall|j: int|
            0 <= j < 9 ==> (#[trigger] bit_set(board_mask(b, piece, n), (8 - j) as u32) <==> j < n
                && b[j] == piece),
    decreases n,
{
    if n <= 0 {
        assert forall|j: int| 0 <= j < 9 implies !#[trigger] bit_set(
            board_mask(b, piece, n),
            (8 - j) as u32,
        ) by {
            let k = (8 - j) as u32;
            assert((0u32 >> k) & 1 == 0) by (bit_vector);
        }
    } else {
        lemma_mask_bits(b, piece, n - 1);
        let s: u32 = if b[n - 1] == piece { 1 } else { 0 };
        let m = board_mask(b, piece, n - 1);
        assert forall|j: int| 0 <= j < 9 implies (#[trigger] bit_set(
            board_mask(b, piece, n),
            (8 - j) as u32,
        ) <==> j < n && b[j] == piece) by {
            lemma_or_shift(m, s, (9 - n) as u32, (8 - j) as u32);
        }
    }
}

proof fn lemma_pattern_bits(m: u32, k: int)
    requires
        0 <= k < 8,
    ensures
        (pattern(k) & m == pattern(k)) <==> (bit_set(m, (8 - line_cells(k).0) as u32) && bit_set(
            m,
            (8 - line_cells(k).1) as u32,
        ) && bit_set(m, (8 - line_cells(k).2) as u32)),
{
    if k == 0 {
        assert((0b111000000u32 & m == 0b111000000u32) <==> ((m >> 8u32) & 1 == 1 && (m >> 7u32) & 1
            == 1 && (m >> 6u32) & 1 == 1)) by (bit_vector);
    } else if k == 1 {
        assert((0b000111000u32 & m == 0b000111000u32) <==> ((m >> 5u32) & 1 == 1 && (m >> 4u32) & 1
            == 1 && (m >> 3u32) & 1 == 1)) by (bit_vector);
    } else if k == 2 {
        assert((0b000000111u32 & m == 0b000000111u32) <==> ((m >> 2u32) & 1 == 1 && (m >> 1u32) & 1
            == 1 && (m >> 0u32) & 1 == 1)) by (bit_vector);
    } else if k == 3 {
        assert((0b100100100u32 & m == 0b100100100u32) <==> ((m >> 8u32) & 1 == 1 && (m >> 5u32) & 1
            == 1 && (m >> 2u32) & 1 == 1)) by (bit_vector);
    } else if k == 4 {
        assert((0b010010010u32 & m == 0b010010010u32) <==> ((m >> 7u32) & 1 == 1 && (m >> 4u32) & 1
            == 1 && (m >> 1u32) & 1 == 1)) by (bit_vector);
    } else if k == 5 {
        assert((0b001001001u32 & m == 0b001001001u32) <==> ((m >> 6u32) & 1 == 1 && (m >> 3u32) & 1
            == 1 && (m >> 0u32) & 1 == 1)) by (bit_vector);
    } else if k == 6 {
        assert((0b100010001u32 & m == 0b100010001u32) <==> ((m >> 8u32) & 1 == 1 && (m >> 4u32) & 1
            == 1 && (m >> 0u32) & 1 == 1)) by (bit_vector);
    } else {
        assert((0b001010100u32 & m == 0b001010100u32) <==> ((m >> 6u32) & 1 == 1 && (m >> 4u32) & 1
            == 1 && (m >> 2u32) & 1 == 1)) by (bit_vector);
    }
}

/// A line's mask lies within the board's mask for `piece` exactly when the
/// line's three cells all hold `piece`: with the mark on those three cells
/// the line is found, and with at most two of them it is not.
pub proof fn lemma_pattern_matches_line(b: Seq<Pieces>, piece: Pieces, k: int)
    requires
        is_board(b),
        0 <= k < 8,
    ensures
        (pattern(k) & board_mask(b, piece, 9) == pattern(k)) <==> holds_line(b, piece, k),
        holds_line(b, piece, k) ==> won(b, piece),
{
    let m = board_mask(b, piece, 9);
    lemma_mask_bits(b, piece, 9);
    lemma_pattern_bits(m, k);
    let (x, y, z) = line_cells(k);
    assert(bit_set(m, (8 - x) as u32) <==> b[x] == piece);
    assert(bit_set(m, (8 - y) as u32) <==> b[y] == piece);
    assert(bit_set(m, (8 - z) as u32) <==> b[z] == piece);
}

/// Where on every line at most two cells hold `piece`, `piece` has not won.
pub proof fn lemma_no_line_no_win(b: Seq<Pieces>, piece: Pieces)
    requires
        is_board(b),
        forall|k: int| 0 <= k < 8 ==> !#[trigger] holds_line(b, piece, k),
    ensures
        !won(b, piece),
{
}

/// Whether `piece` fills a row, a column or a diagonal of the board.
pub fn has_won(board: [Pieces; 9], piece: Pieces) -> (r: bool)
    ensures
        r == won(board@, piece),
        r == (exists|k: int|
            0 <= k < 8 && (#[trigger] pattern(k)) & board_mask(board@, piece, 9) == pattern(k)),
{
    let mut board_state: u32 = 0;
    let mut i: usize = 0;
    while i < 9
        invariant
            i <= 9,
            board_state == board_mask(board@, piece, i as int),
        decreases 9 - i,
    {
        let s: u32 = if board[i] == piece { 1 } else { 0 };
        board_state = board_state | (s << ((8 - i) as u32));
        i += 1;
    }
    let mut k: usize = 0;
    while k < 8
        invariant
            k <= 8,
            board_state == board_mask(board@, piece, 9),
            forall|j: int| 0 <= j < k ==> !#[trigger] holds_line(board@, piece, j),
            forall|j: int| 0 <= j < k ==> (#[trigger] pattern(j)) & board_state != pattern(j),
        decreases 8 - k,
    {
        let winning_pattern: u32 = WINNING_PATTERNS[k];
        assert(winning_pattern == pattern(k as int));
        proof {
            lemma_pattern_matches_line(board@, piece, k as int);
        }
        if winning_pattern & board_state == winning_pattern {
            return true;
        }
        k += 1;
    }
    false
}

/// Whether every cell of the board is taken.
pub fn is_full(board: [Pieces; 9]) -> (r: bool)
    ensures
        r == full(board@),
{
    let mut i: usize = 0;
    while i < 9
        invariant
            i <= 9,
            forall|j: int| 0 <= j < i ==> #[trigger] board@[j] != Pieces::EMPTY,
        decreases 9 - i,
    {
        if board[i] == Pieces::EMPTY {
            return false;
        }
        i += 1;
    }
    true
}

} // verus!
