use vstd::prelude::*;

use crate::engine::moves::{CastlingType, Move};

verus! {

/// A square index: `a1` is 0, `h1` is 7, `a8` is 56 and `h8` is 63.
pub type Square = usize;

#[derive(Debug, Clone, Copy, PartialEq, Eq, Structural)]
pub enum Color {
    White,
    Black,
}

pub open spec fn opposite_color(c: Color) -> Color {
    match c {
        Color::White => Color::Black,
        Color::Black => Color::White,
    }
}

impl Color {
    pub fn opposite(self) -> (r: Color)
        ensures
            r == opposite_color(self),
    {
        match self {
            Color::White => Color::Black,
            Color::Black => Color::White,
        }
    }
}

#[derive(Debug, Clone, Copy, PartialEq, Eq, Structural)]
pub enum Piece {
    Pawn,
    Knight,
    Bishop,
    Rook,
    Queen,
    King,
}

#[derive(Debug, Clone, Copy, PartialEq, Eq, Structural)]
pub enum GameStatus {
    Ongoing,
    Check,
    Checkmate,
    Stalemate,
    Draw,
}

#[derive(Debug, Clone, Copy, PartialEq, Eq, Structural)]
pub struct CastlingRights {
    pub white_king: bool,
    pub white_queen: bool,
    pub black_king: bool,
    pub black_queen: bool,
}

/// Every castling right still held.
pub open spec fn full_castling_rights() -> CastlingRights {
    CastlingRights { white_king: true, white_queen: true, black_king: true, black_queen: true }
}

impl Default for CastlingRights {
    fn default() -> (r: CastlingRights)
        ensures
            r == full_castling_rights(),
    {
        CastlingRights { white_king: true, white_queen: true, black_king: true, black_queen: true }
    }
}

/// What stands on one square.
pub type Occupant = Option<(Color, Piece)>;

pub struct Board {
    pub squares: [Occupant; 64],
    pub castling: CastlingRights,
    pub en_passant: Option<Square>,
    pub half_move_clock: u32,
    pub full_move_number: u32,
    pub side_to_move: Color,
}

/// The mathematical value of a board: its squares as a sequence and its counters as
/// natural numbers.
pub ghost struct BoardModel {
    pub squares: Seq<Occupant>,
    pub castling: CastlingRights,
    pub en_passant: Option<Square>,
    pub half_move_clock: nat,
    pub full_move_number: nat,
    pub side_to_move: Color,
}

impl View for Board {
    type V = BoardModel;

    open spec fn view(&self) -> BoardModel {
        BoardModel {
            squares: self.squares@,
            castling: self.castling,
            en_passant: self.en_passant,
            half_move_clock: self.half_move_clock as nat,
            full_move_number: self.full_move_number as nat,
            side_to_move: self.side_to_move,
        }
    }
}

/// The piece that starts on file `file` of a back rank.
pub open spec fn back_rank_piece(file: int) -> Piece {
    if file == 0 || file == 7 {
        Piece::Rook
    } else if file == 1 || file == 6 {
        Piece::Knight
    } else if file == 2 || file == 5 {
        Piece::Bishop
    } else if file == 3 {
        Piece::Queen
    } else {
        Piece::King
    }
}

/// What stands on square `i` in the standard starting position.
pub open spec fn start_square(i: int) -> Occupant {
    if 0 <= i < 8 {
        Some((Color::White, back_rank_piece(i)))
    } else if 8 <= i < 16 {
        Some((Color::White, Piece::Pawn))
    } else if 48 <= i < 56 {
        Some((Color::Black, Piece::Pawn))
    } else if 56 <= i < 64 {
        Some((Color::Black, back_rank_piece(i - 56)))
    } else {
        None
    }
}

/// The standard starting position, White to move, every castling right held.
pub open spec fn start_position() -> BoardModel {
    BoardModel {
        squares: Seq::new(64, |i: int| start_square(i)),
        castling: full_castling_rights(),
        en_passant: None,
        half_move_clock: 0,
        full_move_number: 1,
        side_to_move: Color::White,
    }
}

/// The castling rights after a move of `piece` from `from`: a king move loses both rights
/// of its side, a rook move from its corner loses that corner's right.
pub open spec fn castling_after(c: CastlingRights, piece: (Color, Piece), from: int) -> CastlingRights {
    if piece.1 == Piece::King {
        match piece.0 {
            Color::White => CastlingRights { white_king: false, white_queen: false, ..c },
            Color::Black => CastlingRights { black_king: false, black_queen: false, ..c },
        }
    } else if piece.1 == Piece::Rook {
        if piece.0 == Color::White && from == 0 {
            CastlingRights { white_queen: false, ..c }
        } else if piece.0 == Color::White && from == 7 {
            CastlingRights { white_king: false, ..c }
        } else if piece.0 == Color::Black && from == 56 {
            CastlingRights { black_queen: false, ..c }
        } else if piece.0 == Color::Black && from == 63 {
            CastlingRights { black_king: false, ..c }
        } else {
            c
        }
    } else {
        c
    }
}

/// The square whose pawn an en passant capture by `color` onto `to` removes.
pub open spec fn en_passant_victim(color: Color, to: int) -> int {
    if color == Color::White {
        to - 8
    } else {
        to + 8
    }
}

/// The squares after an ordinary (not castling) move of `piece`: the en passant victim is
/// removed, the piece lands on `to` (promoted if the move says so) and leaves `from`.
pub open spec fn squares_after(b: BoardModel, m: Move, piece: (Color, Piece)) -> Seq<Occupant> {
    let s1 = if m.is_en_passant {
        b.squares.update(en_passant_victim(piece.0, m.to as int), None)
    } else {
        b.squares
    };
    let s2 = s1.update(m.to as int, Some(piece)).update(m.from as int, None);
    match m.promotion {
        Some(p) => s2.update(m.to as int, Some((piece.0, p))),
        None => s2,
    }
}

/// Whether the distance between two squares is two ranks exactly.
pub open spec fn is_double_step(from: int, to: int) -> bool {
    to - from == 16 || from - to == 16
}

/// Whether an ordinary move resets the half-move clock: a pawn move, or a move after which
/// its destination holds a piece. The test is made once the piece has landed, so the
/// destination always holds a piece and every ordinary move resets the clock.
pub open spec fn resets_half_move_clock(b: BoardModel, m: Move, piece: (Color, Piece)) -> bool {
    piece.1 == Piece::Pawn || squares_after(b, m, piece)[m.to as int] is Some
}

/// The first square of the back rank of `c`: 0 for White, 56 for Black.
pub open spec fn back_rank_start(c: Color) -> int {
    if c == Color::White {
        0
    } else {
        56
    }
}

/// The squares a castling of `c` on side `ct` uses: where the king stands and goes, and
/// where the rook stands and goes.
pub open spec fn castling_squares(c: Color, ct: CastlingType) -> (int, int, int, int) {
    let base = back_rank_start(c);
    match ct {
        CastlingType::KingSide => (base + 4, base + 6, base + 7, base + 5),
        CastlingType::QueenSide => (base + 4, base + 2, base, base + 3),
    }
}

/// The squares once `c` castles on side `ct`: the king goes two squares towards the rook,
/// and the rook lands on the square the king crossed.
pub open spec fn castled_squares(s: Seq<Occupant>, c: Color, ct: CastlingType) -> Seq<Occupant> {
    let (kf, kt, rf, rt) = castling_squares(c, ct);
    s.update(kt, s[kf]).update(kf, None).update(rt, s[rf]).update(rf, None)
}

/// The castling rights once `c` has castled: both of its rights are gone.
pub open spec fn rights_after_castling(r: CastlingRights, c: Color) -> CastlingRights {
    match c {
        Color::White => CastlingRights { white_king: false, white_queen: false, ..r },
        Color::Black => CastlingRights { black_king: false, black_queen: false, ..r },
    }
}

/// What `apply_move` makes of a board: the new board, or the message of the error.
pub open spec fn apply_outcome(b: BoardModel, m: Move) -> Result<BoardModel, Seq<char>> {
    match b.squares[m.from as int] {
        None => Err("No piece"@),
        Some(piece) => match m.is_castling {
            Some(ct) => Ok(
                BoardModel {
                    squares: castled_squares(b.squares, piece.0, ct),
                    castling: rights_after_castling(b.castling, piece.0),
                    en_passant: None,
                    half_move_clock: b.half_move_clock,
                    full_move_number: if piece.0 == Color::Black {
                        b.full_move_number + 1
                    } else {
                        b.full_move_number
                    },
                    side_to_move: b.side_to_move,
                },
            ),
            None => Ok(
                BoardModel {
                    squares: squares_after(b, m, piece),
                    castling: castling_after(b.castling, piece, m.from as int),
                    en_passant: if piece.1 == Piece::Pawn && is_double_step(
                        m.from as int,
                        m.to as int,
                    ) {
                        Some(((m.from + m.to) / 2) as Square)
                    } else {
                        None
                    },
                    half_move_clock: if resets_half_move_clock(b, m, piece) {
                        0
                    } else {
                        b.half_move_clock + 1
                    },
                    full_move_number: if piece.0 == Color::Black {
                        b.full_move_number + 1
                    } else {
                        b.full_move_number
                    },
                    side_to_move: b.side_to_move,
                },
            ),
        },
    }
}

/// Whether `apply_move` can run on `m` without an index out of range or a counter past
/// `u32::MAX`.
pub open spec fn apply_in_range(b: BoardModel, m: Move) -> bool {
    &&& m.from < 64
    &&& match b.squares[m.from as int] {
        None => true,
        Some(piece) => if m.is_castling is Some {
            piece.0 == Color::Black ==> b.full_move_number < u32::MAX
        } else {
            &&& m.to < 64
            &&& m.is_en_passant ==> 0 <= en_passant_victim(piece.0, m.to as int) < 64
            &&& !resets_half_move_clock(b, m, piece) ==> b.half_move_clock < u32::MAX
            &&& piece.0 == Color::Black ==> b.full_move_number < u32::MAX
        },
    }
}

impl Clone for Board {
    fn clone(&self) -> (r: Board)
        ensures
            r@ == self@,
    {
        self.copy()
    }
}

impl Board {
    /// The standard starting position.
    pub fn new() -> (b: Board)
        ensures
            b@ == start_position(),
    {
        let w = Color::White;
        let k = Color::Black;
        let squares: [Occupant; 64] = [
            Some((w, Piece::Rook)), Some((w, Piece::Knight)), Some((w, Piece::Bishop)),
            Some((w, Piece::Queen)), Some((w, Piece::King)), Some((w, Piece::Bishop)),
            Some((w, Piece::Knight)), Some((w, Piece::Rook)),
            Some((w, Piece::Pawn)), Some((w, Piece::Pawn)), Some((w, Piece::Pawn)),
            Some((w, Piece::Pawn)), Some((w, Piece::Pawn)), Some((w, Piece::Pawn)),
            Some((w, Piece::Pawn)), Some((w, Piece::Pawn)),
            None, None, None, None, None, None, None, None,
            None, None, None, None, None, None, None, None,
            None, None, None, None, None, None, None, None,
            None, None, None, None, None, None, None, None,
            Some((k, Piece::Pawn)), Some((k, Piece::Pawn)), Some((k, Piece::Pawn)),
            Some((k, Piece::Pawn)), Some((k, Piece::Pawn)), Some((k, Piece::Pawn)),
            Some((k, Piece::Pawn)), Some((k, Piece::Pawn)),
            Some((k, Piece::Rook)), Some((k, Piece::Knight)), Some((k, Piece::Bishop)),
            Some((k, Piece::Queen)), Some((k, Piece::King)), Some((k, Piece::Bishop)),
            Some((k, Piece::Knight)), Some((k, Piece::Rook)),
        ];
        let b = Board {
            squares,
            castling: CastlingRights::default(),
            en_passant: None,
            half_move_clock: 0,
            full_move_number: 1,
            side_to_move: Color::White,
        };
        assert(b@.squares =~= start_position().squares);
        b
    }

    pub fn piece_at(&self, sq: Square) -> (r: Occupant)
        requires
            sq < 64,
        ensures
            r == self@.squares[sq as int],
    {
        self.squares[sq]
    }

    pub fn set_piece(&mut self, sq: Square, piece: Occupant)
        requires
            sq < 64,
        ensures
            final(self)@ == (BoardModel { squares: old(self)@.squares.update(sq as int, piece), ..old(self)@ }),
    {
        self.squares[sq] = piece;
    }

    pub fn is_empty(&self, sq: Square) -> (r: bool)
        requires
            sq < 64,
        ensures
            r == (self@.squares[sq as int] is None),
    {
        self.squares[sq].is_none()
    }

    pub fn side_to_move(&self) -> (r: Color)
        ensures
            r == self@.side_to_move,
    {
        self.side_to_move
    }

    pub fn switch_turn(&mut self)
        ensures
            final(self)@ == (BoardModel {
                side_to_move: opposite_color(old(self)@.side_to_move),
                ..old(self)@
            }),
    {
        self.side_to_move = self.side_to_move.opposite();
    }

    /// An exact copy of the board.
    pub fn copy(&self) -> (r: Board)
        ensures
            r@ == self@,
    {
        Board {
            squares: self.squares,
            castling: self.castling,
            en_passant: self.en_passant,
            half_move_clock: self.half_move_clock,
            full_move_number: self.full_move_number,
            side_to_move: self.side_to_move,
        }
    }

    pub fn apply_move(&mut self, m: &Move) -> (r: Result<(), String>)
        requires
            apply_in_range(old(self)@, *m),
        ensures
            match apply_outcome(old(self)@, *m) {
                Ok(b) => r is Ok && final(self)@ == b,
                Err(e) => r matches Err(s) && s@ == e && final(self)@ == old(self)@,
            },
    {
        let piece = match self.squares[m.from] {
            Some(p) => p,
            None => return Err(String::from_str("No piece")),
        };
        // Castling moves king and rook at once.
        if let Some(castling) = m.is_castling {
            self.castle(piece.0, castling);
            return Ok(());
        }
        self.apply_ordinary(m, piece);
        Ok(())
    }

    /// Castles `color` on side `side`: the king goes two squares towards the rook, the rook
    /// lands on the square the king crossed, and `color` loses both castling rights; the en
    /// passant square is cleared and the half-move clock kept.
    fn castle(&mut self, color: Color, side: CastlingType)
        requires
            color == Color::Black ==> old(self)@.full_move_number < u32::MAX,
            old(self)@.squares.len() == 64,
        ensures
            final(self)@ == (BoardModel {
                squares: castled_squares(old(self)@.squares, color, side),
                castling: rights_after_castling(old(self)@.castling, color),
                en_passant: None,
                half_move_clock: old(self)@.half_move_clock,
                full_move_number: if color == Color::Black {
                    old(self)@.full_move_number + 1
                } else {
                    old(self)@.full_move_number
                },
                side_to_move: old(self)@.side_to_move,
            }),
    {
        let ghost s0 = self@.squares;
        let base: usize = if color == Color::White {
            0
        } else {
            56
        };
        let (king_from, king_to, rook_from, rook_to) = match side {
            CastlingType::KingSide => (base + 4, base + 6, base + 7, base + 5),
            CastlingType::QueenSide => (base + 4, base + 2, base, base + 3),
        };
        let king = self.squares[king_from];
        let rook = self.squares[rook_from];
        self.squares[king_to] = king;
        self.squares[king_from] = None;
        self.squares[rook_to] = rook;
        self.squares[rook_from] = None;
        assert(self@.squares =~= castled_squares(s0, color, side));
        match color {
            Color::White => {
                self.castling.white_king = false;
                self.castling.white_queen = false;
            },
            Color::Black => {
                self.castling.black_king = false;
                self.castling.black_queen = false;
                self.full_move_number = self.full_move_number + 1;
            },
        }
        self.en_passant = None;
    }

    /// The part of `apply_move` after the checks, for a move that is not castling.
    fn apply_ordinary(&mut self, m: &Move, piece: (Color, Piece))
        requires
            apply_in_range(old(self)@, *m),
            old(self)@.squares[m.from as int] == Some(piece),
            m.is_castling is None,
        ensures
            apply_outcome(old(self)@, *m) == Ok::<BoardModel, Seq<char>>(final(self)@),
    {
        let ghost b0 = self@;
        self.move_piece(m, piece);
        self.castling = castling_rights_after(self.castling, piece, m.from);
        // A pawn's double step leaves the square it passed open to en passant.
        let distance = if m.to >= m.from {
            m.to - m.from
        } else {
            m.from - m.to
        };
        self.en_passant = if piece.1 == Piece::Pawn && distance == 16 {
            Some((m.from + m.to) / 2)
        } else {
            None
        };
        self.half_move_clock = if piece.1 == Piece::Pawn || self.squares[m.to].is_some() {
            0
        } else {
            self.half_move_clock + 1
        };
        if piece.0 == Color::Black {
            self.full_move_number = self.full_move_number + 1;
        }
        assert(self@ == apply_outcome(b0, *m)->Ok_0);
    }

    /// Moves the piece of an ordinary move, removing an en passant victim and promoting.
    fn move_piece(&mut self, m: &Move, piece: (Color, Piece))
        requires
            m.from < 64,
            m.to < 64,
            m.is_en_passant ==> 0 <= en_passant_victim(piece.0, m.to as int) < 64,
        ensures
            final(self)@ == (BoardModel { squares: squares_after(old(self)@, *m, piece), ..old(self)@ }),
    {
        let ghost b0 = self@;
        // An en passant capture removes the pawn beside the destination.
        if m.is_en_passant {
            let captured_sq = if piece.0 == Color::White {
                m.to - 8
            } else {
                m.to + 8
            };
            self.squares[captured_sq] = None;
        }
        self.squares[m.to] = Some(piece);
        self.squares[m.from] = None;
        if let Some(prom) = m.promotion {
            self.squares[m.to] = Some((piece.0, prom));
        }
        assert(self@.squares =~= squares_after(b0, *m, piece));
    }
}

/// The castling rights after a move of `piece` from `from`.
fn castling_rights_after(c: CastlingRights, piece: (Color, Piece), from: Square) -> (r: CastlingRights)
    ensures
        r == castling_after(c, piece, from as int),
{
    let mut c = c;
    if piece.1 == Piece::King {
        match piece.0 {
            Color::White => {
                c.white_king = false;
                c.white_queen = false;
            },
            Color::Black => {
                c.black_king = false;
                c.black_queen = false;
            },
        }
    } else if piece.1 == Piece::Rook {
        match (piece.0, from) {
            (Color::White, 0) => c.white_queen = false,
            (Color::White, 7) => c.white_king = false,
            (Color::Black, 56) => c.black_queen = false,
            (Color::Black, 63) => c.black_king = false,
            _ => {},
        }
    }
    c
}

/// The file and the rank of a square, each as a byte.
pub fn square_to_file_rank(sq: Square) -> (r: (u8, u8))
    ensures
        r == ((sq % 8) as u8, (sq / 8) as u8),
{
    let file = (sq % 8) as u8;
    let rank = (sq / 8) as u8;
    (file, rank)
}

/// The square on a file and a rank.
pub fn file_rank_to_square(file: u8, rank: u8) -> (sq: Square)
    ensures
        sq == rank * 8 + file,
{
    rank as usize * 8 + file as usize
}

/// A square's file and rank give the square back, and a file and rank within the board give
/// themselves back.
pub proof fn lemma_square_coordinates_round_trip(sq: Square, file: u8, rank: u8)
    ensures
        sq < 64 ==> ((sq / 8) as u8) * 8 + ((sq % 8) as u8) == sq,
        file < 8 && rank < 8 ==> (rank * 8 + file) % 8 == file && (rank * 8 + file) / 8 == rank,
{
}

/// Passing the turn twice gives the board back.
pub proof fn lemma_switch_turn_twice(b: BoardModel)
    ensures
        (BoardModel {
            side_to_move: opposite_color((BoardModel { side_to_move: opposite_color(b.side_to_move), ..b }).side_to_move),
            ..b
        }) == b,
{
}

} // verus!
