//! Where the three panels and the board go on the screen.
use vstd::prelude::*;

use ratatui::layout::{Constraint, Direction, Layout, Rect};

use crate::ui::theme::Theme;

verus! {

/// A rectangle of terminal cells.
#[derive(Debug, Clone, Copy, PartialEq, Eq, Structural)]
pub struct ScreenRect {
    pub x: u16,
    pub y: u16,
    pub width: u16,
    pub height: u16,
}

/// `a + b`, held at `u16::MAX`.
pub open spec fn saturating_add_u16(a: u16, b: u16) -> u16 {
    if a + b > u16::MAX {
        u16::MAX
    } else {
        (a + b) as u16
    }
}

/// Whether the cell `(col, row)` lies in `r`; the right and bottom edges are held at
/// `u16::MAX`.
pub open spec fn rect_contains(r: ScreenRect, col: u16, row: u16) -> bool {
    r.x <= col < saturating_add_u16(r.x, r.width) && r.y <= row < saturating_add_u16(r.y, r.height)
}

impl ScreenRect {
    pub fn contains(&self, col: u16, row: u16) -> (b: bool)
        ensures
            b == rect_contains(*self, col, row),
    {
        let right = if self.x as u32 + self.width as u32 > 65535 {
            65535
        } else {
            self.x + self.width
        };
        let bottom = if self.y as u32 + self.height as u32 > 65535 {
            65535
        } else {
            self.y + self.height
        };
        col >= self.x && col < right && row >= self.y && row < bottom
    }
}

/// The board's place on the screen: its rectangle and the size of one square in cells.
#[derive(Debug, Clone, Copy, PartialEq, Eq, Structural)]
pub struct BoardLayout {
    pub rect: ScreenRect,
    pub cell_width: u16,
    pub cell_height: u16,
}

/// The board laid out in `rect`: eight squares a side, each an eighth of the width and of
/// the height.
pub open spec fn board_in(rect: ScreenRect) -> BoardLayout {
    BoardLayout { rect, cell_width: (rect.width / 8) as u16, cell_height: (rect.height / 8) as u16 }
}

/// The three parts of the screen: the history panel, the board, the information panel.
#[derive(Debug, Clone, Copy, PartialEq, Eq, Structural)]
pub struct AppChunks {
    pub left: ScreenRect,
    pub board: BoardLayout,
    pub right: ScreenRect,
}

/// What the layout solver makes of `area` split across into three columns of the given
/// percentages, which sum to a hundred; as a tuple of rectangles, each as
/// `(x, y, width, height)`.
pub uninterp spec fn column_split(
    area: (u16, u16, u16, u16),
    percents: (u16, u16, u16),
) -> ((u16, u16, u16, u16), (u16, u16, u16, u16), (u16, u16, u16, u16));

pub open spec fn rect_tuple(r: ScreenRect) -> (u16, u16, u16, u16) {
    (r.x, r.y, r.width, r.height)
}

/// `ratatui`'s `Layout::split` of `area` across into three columns of the given
/// percentages. What the solver computes is named, not stated. The percentages must sum to
/// a hundred: then the solver's optimum is unique, whereas over-constrained percentages
/// leave the split to the solver's internal order.
#[verifier::external_body]
fn split_columns(area: ScreenRect, percents: (u16, u16, u16)) -> (r: (ScreenRect, ScreenRect, ScreenRect))
    requires
        percents.0 + percents.1 + percents.2 == 100,
    ensures
        (rect_tuple(r.0), rect_tuple(r.1), rect_tuple(r.2)) == column_split(rect_tuple(area), percents),
{
    let chunks = Layout::default().direction(Direction::Horizontal).constraints([
        Constraint::Percentage(percents.0),
        Constraint::Percentage(percents.1),
        Constraint::Percentage(percents.2),
    ]).split(Rect { x: area.x, y: area.y, width: area.width, height: area.height });
    let (a, b, c) = (chunks[0], chunks[1], chunks[2]);
    (
        ScreenRect { x: a.x, y: a.y, width: a.width, height: a.height },
        ScreenRect { x: b.x, y: b.y, width: b.width, height: b.height },
        ScreenRect { x: c.x, y: c.y, width: c.width, height: c.height },
    )
}

/// What `Rect::new` makes of a rectangle whose area passes `u16::MAX` cells: it shrinks the
/// sides, keeping their ratio, with floating-point arithmetic.
pub uninterp spec fn shrunk_rect(w: u16, h: u16) -> (u16, u16);

/// `ratatui`'s `Rect::new`: the position is kept, and so are the sides when the area fits in
/// `u16::MAX` cells; otherwise the sides are shrunk, keeping their ratio. A square too
/// large shrinks to 255 by 255: its ratio is 1 and the square root of `u16::MAX` is just
/// below 256.
#[verifier::external_body]
fn new_rect(x: u16, y: u16, width: u16, height: u16) -> (r: ScreenRect)
    ensures
        r.x == x,
        r.y == y,
        width * height <= u16::MAX ==> r.width == width && r.height == height,
        width * height > u16::MAX ==> (r.width, r.height) == shrunk_rect(width, height),
        width == height && width * height > u16::MAX ==> r.width == 255 && r.height == 255,
{
    let r = Rect::new(x, y, width, height);
    ScreenRect { x: r.x, y: r.y, width: r.width, height: r.height }
}

pub open spec fn min_u16(a: u16, b: u16) -> u16 {
    if a < b {
        a
    } else {
        b
    }
}

/// Whether the board, a square centred in the middle column, has its corner within
/// `u16::MAX`.
pub open spec fn centred_square_fits(middle: (u16, u16, u16, u16)) -> bool {
    let side = min_u16(middle.2, middle.3);
    middle.0 + (middle.2 - side) / 2 <= u16::MAX && middle.1 + (middle.3 - side) / 2 <= u16::MAX
}

/// The corner and side of the largest square centred in `middle`.
pub open spec fn centred_square(middle: (u16, u16, u16, u16)) -> (u16, u16, u16) {
    let side = min_u16(middle.2, middle.3);
    (
        (middle.0 + (middle.2 - side) / 2) as u16,
        (middle.1 + (middle.3 - side) / 2) as u16,
        side,
    )
}

/// The screen laid out in `area`, given the layout solver's three columns `cols`: the outer
/// columns as they are, the board the square centred in the middle one.
pub open spec fn layout_of(
    cols: ((u16, u16, u16, u16), (u16, u16, u16, u16), (u16, u16, u16, u16)),
    board_rect: ScreenRect,
) -> AppChunks {
    AppChunks {
        left: ScreenRect { x: cols.0.0, y: cols.0.1, width: cols.0.2, height: cols.0.3 },
        board: board_in(board_rect),
        right: ScreenRect { x: cols.2.0, y: cols.2.1, width: cols.2.2, height: cols.2.3 },
    }
}

/// The three columns of the screen: a quarter, a half, a quarter.
pub open spec fn screen_columns(area: ScreenRect) -> (
    (u16, u16, u16, u16),
    (u16, u16, u16, u16),
    (u16, u16, u16, u16),
) {
    column_split(rect_tuple(area), (25, 50, 25))
}

/// Lays the screen out: the history panel on the left quarter, the board a square centred
/// in the middle half, the information panel on the right quarter.
pub fn create_layout(area: ScreenRect, _theme: &Theme) -> (chunks: AppChunks)
    requires
        centred_square_fits(screen_columns(area).1),
    ensures
        ({
            let sq = centred_square(screen_columns(area).1);
            let board_rect = ScreenRect {
                x: sq.0,
                y: sq.1,
                width: if sq.2 * sq.2 <= u16::MAX { sq.2 } else { 255 },
                height: if sq.2 * sq.2 <= u16::MAX { sq.2 } else { 255 },
            };
            chunks == layout_of(screen_columns(area), board_rect)
        }),
{
    let (left, board_area, right) = split_columns(area, (25, 50, 25));
    let board_width = if board_area.width < board_area.height {
        board_area.width
    } else {
        board_area.height
    };
    let board_height = board_width;
    let board_x = board_area.x + (board_area.width - board_width) / 2;
    let board_y = board_area.y + (board_area.height - board_height) / 2;
    let board_rect = new_rect(board_x, board_y, board_width, board_height);
    AppChunks { left, board: board_layout(board_rect), right }
}

/// The layout, or none where the board's corner would pass `u16::MAX`.
pub fn try_create_layout(area: ScreenRect, theme: &Theme) -> (chunks: Option<AppChunks>)
    ensures
        chunks is Some <==> centred_square_fits(screen_columns(area).1),
        chunks matches Some(c) ==> ({
            let sq = centred_square(screen_columns(area).1);
            let board_rect = ScreenRect {
                x: sq.0,
                y: sq.1,
                width: if sq.2 * sq.2 <= u16::MAX { sq.2 } else { 255 },
                height: if sq.2 * sq.2 <= u16::MAX { sq.2 } else { 255 },
            };
            c == layout_of(screen_columns(area), board_rect)
        }),
{
    let (_, board_area, _) = split_columns(area, (25, 50, 25));
    let side = if board_area.width < board_area.height {
        board_area.width
    } else {
        board_area.height
    };
    if board_area.x as u32 + ((board_area.width - side) / 2) as u32 > 65535 || board_area.y as u32
        + ((board_area.height - side) / 2) as u32 > 65535 {
        None
    } else {
        Some(create_layout(area, theme))
    }
}

/// The board laid out in `rect`.
pub fn board_layout(rect: ScreenRect) -> (b: BoardLayout)
    ensures
        b == board_in(rect),
{
    BoardLayout { rect, cell_width: rect.width / 8, cell_height: rect.height / 8 }
}

} // verus!
