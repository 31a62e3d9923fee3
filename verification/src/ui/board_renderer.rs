//! What each square of the drawn board shows.
use vstd::prelude::*;

use crate::engine::board::{Color, Occupant, Piece, Square};
use crate::engine::moves::Move;
use crate::states::UiState;
use crate::ui::layout::{BoardLayout, ScreenRect};

verus! {

/// The chess symbol of a piece: outlined for White, filled for Black.
pub open spec fn piece_symbol(color: Color, piece: Piece) -> char {
    match (color, piece) {
        (Color::White, Piece::King) => '♔',
        (Color::White, Piece::Queen) => '♕',
        (Color::White, Piece::Rook) => '♖',
        (Color::White, Piece::Bishop) => '♗',
        (Color::White, Piece::Knight) => '♘',
        (Color::White, Piece::Pawn) => '♙',
        (Color::Black, Piece::King) => '♚',
        (Color::Black, Piece::Queen) => '♛',
        (Color::Black, Piece::Rook) => '♜',
        (Color::Black, Piece::Bishop) => '♝',
        (Color::Black, Piece::Knight) => '♞',
        (Color::Black, Piece::Pawn) => '♟',
    }
}

pub fn piece_to_unicode(color: Color, piece: Piece) -> (c: char)
    ensures
        c == piece_symbol(color, piece),
{
    match (color, piece) {
        (Color::White, Piece::King) => '♔',
        (Color::White, Piece::Queen) => '♕',
        (Color::White, Piece::Rook) => '♖',
        (Color::White, Piece::Bishop) => '♗',
        (Color::White, Piece::Knight) => '♘',
        (Color::White, Piece::Pawn) => '♙',
        (Color::Black, Piece::King) => '♚',
        (Color::Black, Piece::Queen) => '♛',
        (Color::Black, Piece::Rook) => '♜',
        (Color::Black, Piece::Bishop) => '♝',
        (Color::Black, Piece::Knight) => '♞',
        (Color::Black, Piece::Pawn) => '♟',
    }
}

/// The background of a square on the drawn board.
#[derive(Debug, Clone, Copy, PartialEq, Eq, Structural)]
pub enum SquareShade {
    Light,
    Dark,
    Selection,
    MoveHint,
}

/// The background of the square drawn at row `rank` from the top and column `file`: a
/// destination of the selected piece's moves, else the selected square, else light or dark
/// by the square's parity.
pub open spec fn shade_of(state: UiState, rank: int, file: int) -> SquareShade {
    let sq = (7 - rank) * 8 + file;
    match state {
        UiState::PieceSelected { from, legal_moves, .. } => {
            if exists|i: int| 0 <= i < legal_moves@.len() && legal_moves@[i].to == sq {
                SquareShade::MoveHint
            } else if sq == from {
                SquareShade::Selection
            } else if (rank + file) % 2 == 0 {
                SquareShade::Light
            } else {
                SquareShade::Dark
            }
        },
        _ => if (rank + file) % 2 == 0 {
            SquareShade::Light
        } else {
            SquareShade::Dark
        },
    }
}

/// Whether some move of `moves` goes to `sq`.
fn any_move_to(moves: &Vec<Move>, sq: Square) -> (r: bool)
    ensures
        r == exists|i: int| 0 <= i < moves@.len() && moves@[i].to == sq,
{
    let mut i: usize = 0;
    while i < moves.len()
        invariant
            i <= moves@.len(),
            forall|j: int| 0 <= j < i ==> moves@[j].to != sq,
        decreases moves@.len() - i,
    {
        if moves[i].to == sq {
            return true;
        }
        i += 1;
    }
    false
}

/// The background of the square drawn at row `rank` from the top and column `file`.
pub fn square_shade(ui_state: &UiState, rank: usize, file: usize) -> (shade: SquareShade)
    requires
        rank < 8,
        file < 8,
    ensures
        shade == shade_of(*ui_state, rank as int, file as int),
{
    let sq = (7 - rank) * 8 + file;
    let is_light = (rank + file) % 2 == 0;
    let mut bg = if is_light {
        SquareShade::Light
    } else {
        SquareShade::Dark
    };
    if let UiState::PieceSelected { from, .. } = ui_state {
        if sq == *from {
            bg = SquareShade::Selection;
        }
    }
    if let UiState::PieceSelected { legal_moves, .. } = ui_state {
        if any_move_to(legal_moves, sq) {
            bg = SquareShade::MoveHint;
        }
    }
    bg
}

/// The symbol drawn on a square: the piece's, or a space.
pub open spec fn occupant_symbol(o: Occupant) -> char {
    match o {
        Some((c, p)) => piece_symbol(c, p),
        None => ' ',
    }
}

pub fn occupant_to_unicode(o: Occupant) -> (c: char)
    ensures
        c == occupant_symbol(o),
{
    match o {
        Some((c, p)) => piece_to_unicode(c, p),
        None => ' ',
    }
}

/// Whether the cell rectangles of the board stay within `u16`.
pub open spec fn cells_fit(board: BoardLayout) -> bool {
    board.rect.x + 7 * board.cell_width <= u16::MAX && board.rect.y + 7 * board.cell_height
        <= u16::MAX
}

/// The rectangle of the square drawn at row `rank` from the top and column `file`.
pub fn cell_rect(board: &BoardLayout, rank: u16, file: u16) -> (r: ScreenRect)
    requires
        rank < 8,
        file < 8,
        cells_fit(*board),
    ensures
        r == (ScreenRect {
            x: (board.rect.x + file * board.cell_width) as u16,
            y: (board.rect.y + rank * board.cell_height) as u16,
            width: board.cell_width,
            height: board.cell_height,
        }),
{
    assert(file * board.cell_width <= 7 * board.cell_width) by (nonlinear_arith)
        requires
            file < 8,
    ;
    assert(rank * board.cell_height <= 7 * board.cell_height) by (nonlinear_arith)
        requires
            rank < 8,
    ;
    ScreenRect {
        x: board.rect.x + file * board.cell_width,
        y: board.rect.y + rank * board.cell_height,
        width: board.cell_width,
        height: board.cell_height,
    }
}

/// `n` spaces.
pub open spec fn spaces(n: nat) -> Seq<char> {
    Seq::new(n, |i: int| ' ')
}

/// The text lines of a square's cell: blank lines, the middle one holding the symbol
/// centred with `(width - 1) / 2` spaces on each side.
pub open spec fn cell_text(symbol: char, width: u16, height: u16) -> Seq<Seq<char>> {
    let pad = ((width - 1) / 2) as nat;
    Seq::new(
        height as nat,
        |i: int|
            if i == height / 2 {
                spaces(pad) + seq![symbol] + spaces(pad)
            } else {
                spaces(width as nat)
            },
    )
}

/// A text of `n` spaces.
fn space_text(n: usize) -> (r: String)
    ensures
        r@ == spaces(n as nat),
{
    let mut r = String::from_str("");
    proof {
        reveal_strlit("");
        reveal_strlit(" ");
    }
    let mut i: usize = 0;
    while i < n
        invariant
            i <= n,
            r@ == spaces(i as nat),
            " "@ == seq![' '],
        decreases n - i,
    {
        r.append(" ");
        assert(r@ =~= spaces((i + 1) as nat));
        i += 1;
    }
    r
}

/// std's `format!` with padded empty fields: `symbol` with `pad` spaces on each side. A
/// width from an argument must fit in 16 bits, or the formatting panics.
#[verifier::external_body]
fn padded_symbol(symbol: char, pad: usize) -> (r: String)
    requires
        pad <= u16::MAX,
    ensures
        r@ == spaces(pad as nat) + seq![symbol] + spaces(pad as nat),
{
    format!("{:>pad$}{}{:pad$}", "", symbol, "", pad = pad)
}

/// The text lines of a square's cell.
pub fn cell_lines(symbol: char, cell_width: u16, cell_height: u16) -> (lines: Vec<String>)
    requires
        cell_width > 0,
    ensures
        lines@.len() == cell_height,
        forall|i: int| 0 <= i < cell_height ==> #[trigger] lines@[i]@ == cell_text(symbol, cell_width, cell_height)[i],
{
    let empty_line = space_text(cell_width as usize);
    let padding = (cell_width as usize - 1) / 2;
    let mut lines: Vec<String> = Vec::new();
    let mut i: u16 = 0;
    while i < cell_height
        invariant
            i <= cell_height,
            cell_width > 0,
            padding == (cell_width - 1) / 2,
            padding <= u16::MAX,
            empty_line@ == spaces(cell_width as nat),
            lines@.len() == i,
            forall|j: int| 0 <= j < i ==> #[trigger] lines@[j]@ == cell_text(symbol, cell_width, cell_height)[j],
        decreases cell_height - i,
    {
        let line = if i == cell_height / 2 {
            padded_symbol(symbol, padding)
        } else {
            empty_line.clone()
        };
        lines.push(line);
        i += 1;
    }
    lines
}

} // verus!
