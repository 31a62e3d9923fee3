use vstd::prelude::*;

use crate::engine::board::{Board, Piece, Square};

verus! {

/// Which side of the board a castling move goes to.
#[derive(Debug, Clone, Copy, PartialEq, Eq, Structural)]
pub enum CastlingType {
    KingSide,
    QueenSide,
}

/// A move from one square to another, with the flags that the rules need.
#[derive(Debug, Clone, Copy, PartialEq, Eq)]
pub struct Move {
    pub from: Square,
    pub to: Square,
    pub promotion: Option<Piece>,
    pub is_en_passant: bool,
    pub is_castling: Option<CastlingType>,
}

/// The plain move from `from` to `to`: no promotion, no en passant, no castling.
pub open spec fn simple_move(from: Square, to: Square) -> Move {
    Move { from, to, promotion: None, is_en_passant: false, is_castling: None }
}

impl Move {
    pub fn simple(from: Square, to: Square) -> (m: Move)
        ensures
            m == simple_move(from, to),
    {
        Move { from, to, promotion: None, is_en_passant: false, is_castling: None }
    }
}

/// The letter of the file of square `sq`, `a` to `h` on the board.
pub open spec fn file_char(sq: Square) -> char {
    (((sq % 8) as u8) + 97) as char
}

/// The digit of the rank of square `sq`, `1` to `8` on the board.
pub open spec fn rank_char(sq: Square) -> char {
    (((sq / 8) as u8) + 49) as char
}

/// The letter that names a promotion, empty for none (and for a promotion to a king or pawn).
pub open spec fn promotion_suffix(p: Option<Piece>) -> Seq<char> {
    match p {
        Some(Piece::Queen) => "q"@,
        Some(Piece::Rook) => "r"@,
        Some(Piece::Bishop) => "b"@,
        Some(Piece::Knight) => "n"@,
        _ => ""@,
    }
}

/// The coordinate notation of a move: origin and destination squares, then the promotion.
pub open spec fn algebraic(m: Move) -> Seq<char> {
    seq![file_char(m.from), rank_char(m.from), file_char(m.to), rank_char(m.to)]
        + promotion_suffix(m.promotion)
}

/// Whether the rank digits of a move's squares fit in a byte.
pub open spec fn algebraic_in_range(m: Move) -> bool {
    ((m.from / 8) as u8) + 49 <= 255 && ((m.to / 8) as u8) + 49 <= 255
}

/// std's `format!` of four characters and a text: the characters in order, then the text.
#[verifier::external_body]
fn format_coordinates(a: char, b: char, c: char, d: char, rest: &str) -> (r: String)
    ensures
        r@ == seq![a, b, c, d] + rest@,
{
    format!("{}{}{}{}{}", a, b, c, d, rest)
}

impl Move {
    /// The move in coordinate notation, such as `e2e4` or `e7e8q`.
    pub fn to_algebraic(&self, _board: &Board) -> (r: String)
        requires
            algebraic_in_range(*self),
        ensures
            r@ == algebraic(*self),
    {
        let from_file = (self.from % 8) as u8 + 97;
        let from_rank = (self.from / 8) as u8 + 49;
        let to_file = (self.to % 8) as u8 + 97;
        let to_rank = (self.to / 8) as u8 + 49;
        let prom = match self.promotion {
            Some(Piece::Queen) => "q",
            Some(Piece::Rook) => "r",
            Some(Piece::Bishop) => "b",
            Some(Piece::Knight) => "n",
            _ => "",
        };
        format_coordinates(from_file as char, from_rank as char, to_file as char, to_rank as char, prom)
    }
}

/// A move's notation has four characters, five with a promotion to a queen, rook, bishop or
/// knight.
pub proof fn lemma_algebraic_length(m: Move)
    ensures
        algebraic(m).len() == if m.promotion matches Some(p) && p != Piece::King && p != Piece::Pawn {
            5int
        } else {
            4int
        },
{
    reveal_strlit("q");
    reveal_strlit("r");
    reveal_strlit("b");
    reveal_strlit("n");
    reveal_strlit("");
}

/// A move's notation names its squares and its promotion: the file letter (`a` to `h`) and
/// rank digit (`1` to `8`) of the origin, then those of the destination, then, for a
/// promotion, the lower-case letter of the piece chosen: `q` for a queen, `r` for a rook, `b`
/// for a bishop, `n` for a knight.
pub proof fn lemma_algebraic_names_the_move(m: Move)
    requires
        m.from < 64,
        m.to < 64,
    ensures
        algebraic(m)[0] as u32 == 97 + m.from % 8,
        algebraic(m)[1] as u32 == 49 + m.from / 8,
        algebraic(m)[2] as u32 == 97 + m.to % 8,
        algebraic(m)[3] as u32 == 49 + m.to / 8,
        m.promotion == Some(Piece::Queen) ==> algebraic(m).len() == 5 && algebraic(m)[4] == 'q',
        m.promotion == Some(Piece::Rook) ==> algebraic(m).len() == 5 && algebraic(m)[4] == 'r',
        m.promotion == Some(Piece::Bishop) ==> algebraic(m).len() == 5 && algebraic(m)[4] == 'b',
        m.promotion == Some(Piece::Knight) ==> algebraic(m).len() == 5 && algebraic(m)[4] == 'n',
        m.promotion is None ==> algebraic(m).len() == 4,
{
    reveal_strlit("q");
    reveal_strlit("r");
    reveal_strlit("b");
    reveal_strlit("n");
    reveal_strlit("");
}

} // verus!
