//! From a mouse position to a square of the board.
use vstd::prelude::*;

use crate::engine::board::Square;
use crate::ui::layout::BoardLayout;

verus! {

/// The square under the terminal cell at `(col, row)`, the board drawn with rank 8 on top.
pub open spec fn square_under(col: u16, row: u16, board: BoardLayout) -> Option<Square> {
    if col < board.rect.x || row < board.rect.y || board.cell_width == 0 || board.cell_height == 0 {
        None
    } else {
        let file = (col - board.rect.x) / (board.cell_width as int);
        let rank_from_bottom = (row - board.rect.y) / (board.cell_height as int);
        if file >= 8 || rank_from_bottom >= 8 {
            None
        } else {
            Some(((7 - rank_from_bottom) * 8 + file) as Square)
        }
    }
}

pub fn pixel_to_square(col: u16, row: u16, board: &BoardLayout) -> (r: Option<Square>)
    ensures
        r == square_under(col, row, *board),
{
    if col < board.rect.x || row < board.rect.y {
        return None;
    }
    let rel_x = col - board.rect.x;
    let rel_y = row - board.rect.y;
    if board.cell_width == 0 || board.cell_height == 0 {
        return None;
    }
    let file = rel_x / board.cell_width;
    let rank_from_bottom = rel_y / board.cell_height;
    if file >= 8 || rank_from_bottom >= 8 {
        return None;
    }
    let rank = 7 - rank_from_bottom;
    Some(rank as usize * 8 + file as usize)
}

/// The square under a cell, if any, is a square of the board.
pub proof fn lemma_square_under_on_board(col: u16, row: u16, board: BoardLayout)
    ensures
        square_under(col, row, board) matches Some(sq) ==> sq < 64,
{
}

/// A click inside the cell where a square is drawn lands on that square: the cell in row
/// `rank` from the top and column `file` spans `cell_width` columns from
/// `x + file * cell_width` and `cell_height` rows from `y + rank * cell_height`, and every
/// terminal cell in it is over square `(7 - rank) * 8 + file`, rank 8 being on top.
pub proof fn lemma_click_lands_on_drawn_square(board: BoardLayout, rank: int, file: int, col: u16, row: u16)
    requires
        0 <= rank < 8,
        0 <= file < 8,
        board.cell_width > 0,
        board.cell_height > 0,
        board.rect.x + file * board.cell_width <= col < board.rect.x + file * board.cell_width
            + board.cell_width,
        board.rect.y + rank * board.cell_height <= row < board.rect.y + rank * board.cell_height
            + board.cell_height,
    ensures
        square_under(col, row, board) == Some(((7 - rank) * 8 + file) as Square),
{
    let w = board.cell_width as int;
    let h = board.cell_height as int;
    let dx = col - board.rect.x;
    let dy = row - board.rect.y;
    assert(file * w >= 0) by (nonlinear_arith)
        requires
            file >= 0,
            w > 0,
    ;
    assert(rank * h >= 0) by (nonlinear_arith)
        requires
            rank >= 0,
            h > 0,
    ;
    assert(dx / w == file) by (nonlinear_arith)
        requires
            file * w <= dx < file * w + w,
            w > 0,
    ;
    assert(dy / h == rank) by (nonlinear_arith)
        requires
            rank * h <= dy < rank * h + h,
            h > 0,
    ;
}

} // verus!
