use vstd::prelude::*;

use crate::engine::board::{
    apply_outcome, Board, BoardModel, Color, GameStatus, opposite_color, Piece, Square,
    start_position,
};
use crate::engine::moves::{CastlingType, Move};
use crate::engine::soundness::{
    lemma_legal_move_keeps_sound, lemma_pseudo_moves_sound, lemma_sound_position_playable,
    lemma_start_position_ongoing, lemma_start_position_sound, sound_move, sound_position,
};
use crate::engine::rules::{
    abs_int, attacked, bishop_lines, black_king_side_ok, black_queen_side_ok, castle_move,
    castling_moves, generable, holds, in_check_on, keeps_king_safe, king_hit, king_moves_upto,
    king_offset, king_square, king_square_from, king_step, knight_attacks, knight_hit,
    knight_moves_upto, knight_offset, knight_step, legal_moves_of, line_attacks, line_hit,
    line_step, moves_playable, on_board, pawn_arrivals, pawn_attacks, pawn_captures, pawn_dir,
    pawn_moves, pawn_pushes, piece_moves, piece_moves_upto, pseudo_moves, queen_lines,
    ray_attacks, ray_room, rook_lines, slide_moves, slide_moves_upto, slide_ray, square_moves,
    status_of, unit_step, white_king_side_ok, white_queen_side_ok,
};

verus! {

/// A game in progress: the board, the status after the last move, and the result once
/// the game has ended.
pub struct Game {
    board: Board,
    result: Option<GameStatus>,
    status: GameStatus,
}

/// A board seen by the move generator: the searches that compute moves, checks and
/// status all read the board alone.
struct Position<'a> {
    board: &'a Board,
}

/// The knight's jump number `i`.
fn knight_offset_at(i: usize) -> (r: i32)
    requires
        i < 8,
    ensures
        r == knight_offset(i as int),
{
    match i {
        0 => -17,
        1 => -15,
        2 => -10,
        3 => -6,
        4 => 6,
        5 => 10,
        6 => 15,
        _ => 17,
    }
}

/// The step of line number `i`.
fn line_step_at(i: usize) -> (r: (i32, i32))
    requires
        i < 8,
    ensures
        r.0 == line_step(i as int).0,
        r.1 == line_step(i as int).1,
{
    match i {
        0 => (1, 0),
        1 => (-1, 0),
        2 => (0, 1),
        3 => (0, -1),
        4 => (1, 1),
        5 => (1, -1),
        6 => (-1, 1),
        _ => (-1, -1),
    }
}

fn abs_i32(x: i32) -> (r: i32)
    requires
        x > i32::MIN,
    ensures
        r == abs_int(x as int),
{
    if x < 0 {
        -x
    } else {
        x
    }
}

impl Game {
    /// Whether a pawn of `color` stands on `target`, `target` being any integer.
    fn pawn_on(board: &Board, target: i32, color: Color) -> (r: bool)
        ensures
            r == holds(board@.squares, target as int, color, Piece::Pawn),
    {
        if target >= 0 && target < 64 {
            match board.squares[target as usize] {
                Some((c, Piece::Pawn)) => c == color,
                _ => false,
            }
        } else {
            false
        }
    }

    /// Whether walking from `sq` by `(df, dr)` meets first a piece of `attacker` that
    /// strikes along this line.
    fn ray_attacked(board: &Board, sq: Square, df: i32, dr: i32, attacker: Color) -> (r: bool)
        requires
            sq < 64,
            unit_step(df as int, dr as int),
        ensures
            r == ray_attacks(board@.squares, sq as int % 8, sq as int / 8, df as int, dr as int, attacker),
    {
        let ghost s = board@.squares;
        let mut f: i32 = (sq % 8) as i32;
        let mut r: i32 = (sq / 8) as i32;
        loop
            invariant
                on_board(f as int, r as int),
                unit_step(df as int, dr as int),
                s == board@.squares,
                ray_attacks(s, sq as int % 8, sq as int / 8, df as int, dr as int, attacker)
                    == ray_attacks(s, f as int, r as int, df as int, dr as int, attacker),
            decreases ray_room(f as int, r as int, df as int, dr as int),
        {
            f += df;
            r += dr;
            if f < 0 || f > 7 || r < 0 || r > 7 {
                return false;
            }
            let idx = (r * 8 + f) as usize;
            if let Some((c, p)) = board.squares[idx] {
                if c == attacker {
                    let is_rook = df == 0 || dr == 0;
                    let is_bishop = df != 0 && dr != 0;
                    if p == Piece::Queen || (p == Piece::Rook && is_rook) || (p == Piece::Bishop
                        && is_bishop) {
                        return true;
                    }
                }
                return false;
            }
        }
    }

    /// Whether `attacker` attacks square `sq` of `board`.
    fn is_square_attacked_by_color(board: &Board, sq: Square, attacker: Color) -> (r: bool)
        requires
            sq < 64,
        ensures
            r == attacked(board@.squares, sq as int, attacker),
    {
        let ghost s = board@.squares;
        let sq_i32 = sq as i32;
        // Pawn attacks
        let pawn_dir: i32 = if attacker == Color::White {
            -8
        } else {
            8
        };
        if sq % 8 < 7 && Self::pawn_on(board, sq_i32 + pawn_dir + 1, attacker) {
            return true;
        }
        if sq % 8 > 0 && Self::pawn_on(board, sq_i32 + pawn_dir - 1, attacker) {
            return true;
        }
        // Knight attacks
        let mut i: usize = 0;
        while i < 8
            invariant
                i <= 8,
                sq < 64,
                sq_i32 == sq,
                s == board@.squares,
                !pawn_attacks(s, sq as int, attacker),
                forall|j: int| 0 <= j < i ==> !#[trigger] knight_hit(s, sq as int, attacker, j),
            decreases 8 - i,
        {
            let target = sq_i32 + knight_offset_at(i);
            if target >= 0 && target < 64 {
                let dx = abs_i32(sq_i32 % 8 - target % 8);
                let dy = abs_i32(sq_i32 / 8 - target / 8);
                if (dx == 1 && dy == 2) || (dx == 2 && dy == 1) {
                    match board.squares[target as usize] {
                        Some((c, Piece::Knight)) => {
                            if c == attacker {
                                assert(knight_hit(s, sq as int, attacker, i as int));
                                return true;
                            }
                        },
                        _ => {},
                    }
                }
            }
            assert(!knight_hit(s, sq as int, attacker, i as int));
            i += 1;
        }
        // Sliding attacks (bishop, rook, queen)
        let mut i: usize = 0;
        while i < 8
            invariant
                i <= 8,
                sq < 64,
                s == board@.squares,
                !pawn_attacks(s, sq as int, attacker),
                !knight_attacks(s, sq as int, attacker),
                forall|j: int| 0 <= j < i ==> !#[trigger] line_hit(s, sq as int, attacker, j),
            decreases 8 - i,
        {
            let (df, dr) = line_step_at(i);
            if Self::ray_attacked(board, sq, df, dr, attacker) {
                assert(line_hit(s, sq as int, attacker, i as int));
                return true;
            }
            assert(!line_hit(s, sq as int, attacker, i as int));
            i += 1;
        }
        // The king, on a square next to `sq`
        let mut i: usize = 0;
        while i < 8
            invariant
                i <= 8,
                sq < 64,
                sq_i32 == sq,
                s == board@.squares,
                !pawn_attacks(s, sq as int, attacker),
                !knight_attacks(s, sq as int, attacker),
                !line_attacks(s, sq as int, attacker),
                forall|j: int| 0 <= j < i ==> !#[trigger] king_hit(s, sq as int, attacker, j),
            decreases 8 - i,
        {
            let target = sq_i32 + king_offset_at(i);
            if target >= 0 && target < 64 {
                let dx = abs_i32(sq_i32 % 8 - target % 8);
                let dy = abs_i32(sq_i32 / 8 - target / 8);
                if dx <= 1 && dy <= 1 {
                    match board.squares[target as usize] {
                        Some((c, Piece::King)) => {
                            if c == attacker {
                                assert(king_hit(s, sq as int, attacker, i as int));
                                return true;
                            }
                        },
                        _ => {},
                    }
                }
            }
            assert(!king_hit(s, sq as int, attacker, i as int));
            i += 1;
        }
        false
    }
}

/// The king's step number `i`.
fn king_offset_at(i: usize) -> (r: i32)
    requires
        i < 8,
    ensures
        r == king_offset(i as int),
{
    match i {
        0 => -9,
        1 => -8,
        2 => -7,
        3 => -1,
        4 => 1,
        5 => 7,
        6 => 8,
        _ => 9,
    }
}

/// The lines of a sliding piece as integers.
pub open spec fn lines_of(dirs: Seq<(i32, i32)>) -> Seq<(int, int)> {
    dirs.map_values(|d: (i32, i32)| (d.0 as int, d.1 as int))
}

/// Pushes the moves of a pawn of `color` arriving on `to`: the four promotions on the last
/// rank, else the plain move.
fn push_pawn_arrivals(from: Square, to: Square, color: Color, moves: &mut Vec<Move>)
    ensures
        final(moves)@ == old(moves)@ + pawn_arrivals(from as int, to as int, color),
{
    let promotion_rank: usize = if color == Color::White {
        7
    } else {
        0
    };
    if to / 8 == promotion_rank {
        moves.push(Move { from, to, promotion: Some(Piece::Queen), is_en_passant: false, is_castling: None });
        moves.push(Move { from, to, promotion: Some(Piece::Rook), is_en_passant: false, is_castling: None });
        moves.push(Move { from, to, promotion: Some(Piece::Bishop), is_en_passant: false, is_castling: None });
        moves.push(Move { from, to, promotion: Some(Piece::Knight), is_en_passant: false, is_castling: None });
    } else {
        moves.push(Move::simple(from, to));
    }
    assert(final(moves)@ =~= old(moves)@ + pawn_arrivals(from as int, to as int, color));
}

impl<'a> Position<'a> {
    /// The captures of a pawn towards `from + offset`, en passant included.
    fn pawn_captures_toward(&self, from: Square, color: Color, offset: i32, moves: &mut Vec<Move>)
        requires
            from < 64,
            -9 <= offset <= 9,
            generable(self.board@, color),
        ensures
            final(moves)@ == old(moves)@ + pawn_captures(
                self.board@.squares,
                self.board@.en_passant,
                from as int,
                color,
                offset as int,
            ),
    {
        let ghost s = self.board@.squares;
        let ghost m0 = moves@;
        let target = from as i32 + offset;
        let file_step = abs_i32(target % 8 - from as i32 % 8);
        if target >= 0 && target < 64 && file_step == 1 {
            let to = target as usize;
            if let Some((c, _)) = self.board.piece_at(to) {
                if c != color {
                    push_pawn_arrivals(from, to, color, moves);
                }
            }
            if let Some(ep) = self.board.en_passant {
                if target == ep as i32 {
                    moves.push(Move { from, to: ep, promotion: None, is_en_passant: true, is_castling: None });
                }
            }
            assert(moves@ =~= m0 + pawn_captures(
                s,
                self.board@.en_passant,
                from as int,
                color,
                offset as int,
            ));
        }
    }

    /// The advances of a pawn: one square, and two from its starting rank.
    fn pawn_pushes(&self, from: Square, color: Color, moves: &mut Vec<Move>)
        requires
            from < 64,
            generable(self.board@, color),
            self.board@.squares[from as int] == Some((color, Piece::Pawn)),
        ensures
            final(moves)@ == old(moves)@ + pawn_pushes(self.board@.squares, from as int, color),
    {
        let ghost s = self.board@.squares;
        let ghost m0 = moves@;
        let direction: i32 = if color == Color::White {
            8
        } else {
            -8
        };
        let start_rank: usize = if color == Color::White {
            1
        } else {
            6
        };
        let to = (from as i32 + direction) as usize;
        if self.board.is_empty(to) {
            push_pawn_arrivals(from, to, color, moves);
            // double push
            if from / 8 == start_rank {
                let to2 = (from as i32 + 2 * direction) as usize;
                if self.board.is_empty(to2) {
                    moves.push(Move::simple(from, to2));
                }
            }
        }
        assert(moves@ =~= m0 + pawn_pushes(s, from as int, color));
    }

    fn pawn_moves(&self, from: Square, color: Color, moves: &mut Vec<Move>)
        requires
            from < 64,
            generable(self.board@, color),
            self.board@.squares[from as int] == Some((color, Piece::Pawn)),
        ensures
            final(moves)@ == old(moves)@ + pawn_moves(
                self.board@.squares,
                self.board@.en_passant,
                from as int,
                color,
            ),
    {
        let ghost s = self.board@.squares;
        let ghost m0 = moves@;
        let direction: i32 = if color == Color::White {
            8
        } else {
            -8
        };
        let ghost ep = self.board@.en_passant;
        self.pawn_pushes(from, color, moves);
        let ghost a = pawn_pushes(s, from as int, color);
        // captures
        self.pawn_captures_toward(from, color, direction + 1, moves);
        let ghost c1 = pawn_captures(s, ep, from as int, color, pawn_dir(color) + 1);
        self.pawn_captures_toward(from, color, direction - 1, moves);
        let ghost c2 = pawn_captures(s, ep, from as int, color, pawn_dir(color) - 1);
        assert(pawn_moves(s, ep, from as int, color) == a + c1 + c2);
        assert(m0 + a + c1 + c2 =~= m0 + (a + c1 + c2));
    }

    fn knight_moves(&self, from: Square, color: Color, moves: &mut Vec<Move>)
        requires
            from < 64,
            self.board@.squares.len() == 64,
        ensures
            final(moves)@ == old(moves)@ + knight_moves_upto(self.board@.squares, from as int, color, 8),
    {
        let ghost s = self.board@.squares;
        let ghost m0 = moves@;
        let mut i: usize = 0;
        while i < 8
            invariant
                i <= 8,
                from < 64,
                s == self.board@.squares,
                s.len() == 64,
                moves@ == m0 + knight_moves_upto(s, from as int, color, i as nat),
            decreases 8 - i,
        {
            let ghost before = moves@;
            let target = from as i32 + knight_offset_at(i);
            if target >= 0 && target < 64 {
                let to = target as usize;
                let dx = abs_i32(from as i32 % 8 - to as i32 % 8);
                let dy = abs_i32(from as i32 / 8 - to as i32 / 8);
                if (dx == 1 && dy == 2) || (dx == 2 && dy == 1) {
                    let open = match self.board.piece_at(to) {
                        None => true,
                        Some((c, _)) => c != color,
                    };
                    if open {
                        moves.push(Move::simple(from, to));
                    }
                }
            }
            assert(moves@ =~= before + knight_step(s, from as int, color, i as int));
            i += 1;
        }
    }

    fn king_moves(&self, from: Square, color: Color, moves: &mut Vec<Move>)
        requires
            from < 64,
            self.board@.squares.len() == 64,
        ensures
            final(moves)@ == old(moves)@ + king_moves_upto(self.board@.squares, from as int, color, 8),
    {
        let ghost s = self.board@.squares;
        let ghost m0 = moves@;
        let mut i: usize = 0;
        while i < 8
            invariant
                i <= 8,
                from < 64,
                s == self.board@.squares,
                s.len() == 64,
                moves@ == m0 + king_moves_upto(s, from as int, color, i as nat),
            decreases 8 - i,
        {
            let ghost before = moves@;
            let target = from as i32 + king_offset_at(i);
            if target >= 0 && target < 64 {
                let to = target as usize;
                let dx = abs_i32(from as i32 % 8 - to as i32 % 8);
                let dy = abs_i32(from as i32 / 8 - to as i32 / 8);
                if dx <= 1 && dy <= 1 {
                    let open = match self.board.piece_at(to) {
                        None => true,
                        Some((c, _)) => c != color,
                    };
                    if open {
                        moves.push(Move::simple(from, to));
                    }
                }
            }
            assert(moves@ =~= before + king_step(s, from as int, color, i as int));
            i += 1;
        }
    }

    /// The moves of a sliding piece along one line.
    fn slide_along(&self, from: Square, color: Color, df: i32, dr: i32, moves: &mut Vec<Move>)
        requires
            from < 64,
            unit_step(df as int, dr as int),
            self.board@.squares.len() == 64,
        ensures
            final(moves)@ == old(moves)@ + slide_ray(
                self.board@.squares,
                from as int,
                color,
                from as int % 8,
                from as int / 8,
                df as int,
                dr as int,
            ),
    {
        let ghost s = self.board@.squares;
        let ghost m0 = moves@;
        let mut f: i32 = (from % 8) as i32;
        let mut r: i32 = (from / 8) as i32;
        loop
            invariant
                from < 64,
                on_board(f as int, r as int),
                unit_step(df as int, dr as int),
                s == self.board@.squares,
                s.len() == 64,
                m0 == old(moves)@,
                m0 + slide_ray(s, from as int, color, from as int % 8, from as int / 8, df as int, dr as int)
                    == moves@ + slide_ray(s, from as int, color, f as int, r as int, df as int, dr as int),
            decreases ray_room(f as int, r as int, df as int, dr as int),
        {
            let ghost (f0, r0) = (f as int, r as int);
            let ghost before = moves@;
            f += df;
            r += dr;
            if f < 0 || f > 7 || r < 0 || r > 7 {
                assert(moves@ =~= m0 + slide_ray(s, from as int, color, from as int % 8, from as int / 8, df as int, dr as int));
                return;
            }
            let to = (r * 8 + f) as usize;
            if let Some((c, _)) = self.board.piece_at(to) {
                if c != color {
                    moves.push(Move::simple(from, to));
                }
                assert(moves@ =~= m0 + slide_ray(s, from as int, color, from as int % 8, from as int / 8, df as int, dr as int));
                return;
            }
            moves.push(Move::simple(from, to));
            assert(moves@ + slide_ray(s, from as int, color, f as int, r as int, df as int, dr as int)
                =~= before + slide_ray(s, from as int, color, f0, r0, df as int, dr as int));
        }
    }

    fn sliding_moves(&self, from: Square, color: Color, directions: &[(i32, i32)], moves: &mut Vec<Move>)
        requires
            from < 64,
            self.board@.squares.len() == 64,
            forall|i: int| 0 <= i < directions@.len() ==> unit_step(#[trigger] directions@[i].0 as int, directions@[i].1 as int),
        ensures
            final(moves)@ == old(moves)@ + slide_moves(self.board@.squares, from as int, color, lines_of(directions@)),
    {
        let ghost s = self.board@.squares;
        let ghost m0 = moves@;
        let ghost dirs = lines_of(directions@);
        let mut i: usize = 0;
        while i < directions.len()
            invariant
                i <= directions@.len(),
                from < 64,
                s == self.board@.squares,
                s.len() == 64,
                dirs == lines_of(directions@),
                forall|i: int| 0 <= i < directions@.len() ==> unit_step(#[trigger] directions@[i].0 as int, directions@[i].1 as int),
                moves@ == m0 + slide_moves_upto(s, from as int, color, dirs, i as nat),
            decreases directions@.len() - i,
        {
            let ghost before = moves@;
            let (df, dr) = directions[i];
            self.slide_along(from, color, df, dr, moves);
            assert(moves@ =~= m0 + slide_moves_upto(s, from as int, color, dirs, (i + 1) as nat));
            i += 1;
        }
    }
}

/// The mathematical value of a game.
pub ghost struct GameModel {
    pub board: BoardModel,
    pub result: Option<GameStatus>,
    pub status: GameStatus,
}

impl View for Game {
    type V = GameModel;

    closed spec fn view(&self) -> GameModel {
        GameModel { board: self.board@, result: self.result, status: self.status }
    }
}

/// Whether two moves are the same move.
fn same_move(a: &Move, b: &Move) -> (r: bool)
    ensures
        r == (*a == *b),
{
    let same_promotion = match (a.promotion, b.promotion) {
        (None, None) => true,
        (Some(p), Some(q)) => p == q,
        _ => false,
    };
    let same_castling = match (a.is_castling, b.is_castling) {
        (None, None) => true,
        (Some(p), Some(q)) => p == q,
        _ => false,
    };
    a.from == b.from && a.to == b.to && same_promotion && a.is_en_passant == b.is_en_passant
        && same_castling
}

/// Whether `moves` holds `m`.
fn contains_move(moves: &Vec<Move>, m: &Move) -> (r: bool)
    ensures
        r == moves@.contains(*m),
{
    let mut i: usize = 0;
    while i < moves.len()
        invariant
            i <= moves@.len(),
            forall|j: int| 0 <= j < i ==> moves@[j] != *m,
        decreases moves@.len() - i,
    {
        if same_move(&moves[i], m) {
            return true;
        }
        i += 1;
    }
    false
}

impl<'a> Position<'a> {
    /// Whether `board` holds a piece of kind `p` and colour `c` on `sq`.
    fn holds_at(board: &Board, sq: Square, c: Color, p: Piece) -> (r: bool)
        requires
            sq < 64,
        ensures
            r == (board@.squares[sq as int] == Some((c, p))),
    {
        match board.squares[sq] {
            Some((oc, op)) => oc == c && op == p,
            None => false,
        }
    }

    fn generate_piece_moves(&self, from: Square, color: Color, piece: Piece, moves: &mut Vec<Move>)
        requires
            from < 64,
            generable(self.board@, color),
            self.board@.squares[from as int] == Some((color, piece)),
        ensures
            final(moves)@ == old(moves)@ + piece_moves(
                self.board@.squares,
                self.board@.en_passant,
                from as int,
                color,
                piece,
            ),
    {
        match piece {
            Piece::Pawn => self.pawn_moves(from, color, moves),
            Piece::Knight => self.knight_moves(from, color, moves),
            Piece::Bishop => {
                let lines: [(i32, i32); 4] = [(1, 1), (1, -1), (-1, 1), (-1, -1)];
                assert(lines_of(lines@) =~= bishop_lines());
                self.sliding_moves(from, color, &lines, moves)
            },
            Piece::Rook => {
                let lines: [(i32, i32); 4] = [(0, 1), (0, -1), (1, 0), (-1, 0)];
                assert(lines_of(lines@) =~= rook_lines());
                self.sliding_moves(from, color, &lines, moves)
            },
            Piece::Queen => {
                let lines: [(i32, i32); 8] = [(1, 1), (1, -1), (-1, 1), (-1, -1), (0, 1), (0, -1), (1, 0), (-1, 0)];
                assert(lines_of(lines@) =~= queen_lines());
                self.sliding_moves(from, color, &lines, moves)
            },
            Piece::King => self.king_moves(from, color, moves),
        }
    }

    fn generate_pseudo_moves(&self, color: Color) -> (moves: Vec<Move>)
        requires
            generable(self.board@, color),
        ensures
            moves@ == pseudo_moves(self.board@, color),
    {
        let ghost b = self.board@;
        let mut moves: Vec<Move> = Vec::new();
        let mut sq: usize = 0;
        while sq < 64
            invariant
                sq <= 64,
                b == self.board@,
                generable(b, color),
                moves@ == piece_moves_upto(b.squares, b.en_passant, color, sq as nat),
            decreases 64 - sq,
        {
            let ghost before = moves@;
            if let Some((pc, piece)) = self.board.piece_at(sq) {
                if pc == color {
                    self.generate_piece_moves(sq, pc, piece, &mut moves);
                }
            }
            assert(moves@ =~= before + square_moves(b.squares, b.en_passant, color, sq as int));
            sq += 1;
        }
        self.push_castling_moves(color, &mut moves);
        moves
    }

    /// Pushes the castling moves of `color`, king side first.
    fn push_castling_moves(&self, color: Color, moves: &mut Vec<Move>)
        requires
            self.board@.squares.len() == 64,
        ensures
            final(moves)@ == old(moves)@ + castling_moves(self.board@, color),
    {
        let ghost b = self.board@;
        let ghost m0 = moves@;
        let board = self.board;
        if color == Color::White {
            if self.board.castling.white_king {
                if board.squares[5].is_none() && board.squares[6].is_none() && Self::holds_at(
                    board,
                    4,
                    Color::White,
                    Piece::King,
                ) && Self::holds_at(board, 7, Color::White, Piece::Rook)
                    && !self.is_square_attacked(4, Color::Black) && !self.is_square_attacked(
                    5,
                    Color::Black,
                ) && !self.is_square_attacked(6, Color::Black) {
                    moves.push(Move { from: 4, to: 6, promotion: None, is_en_passant: false, is_castling: Some(CastlingType::KingSide) });
                }
            }
            assert(white_king_side_ok(b) ==> moves@ == m0 + seq![castle_move(4, 6, CastlingType::KingSide)]);
            assert(!white_king_side_ok(b) ==> moves@ == m0);
            let ghost m1 = moves@;
            if self.board.castling.white_queen {
                if board.squares[3].is_none() && board.squares[2].is_none()
                    && board.squares[1].is_none() && Self::holds_at(board, 4, Color::White, Piece::King)
                    && Self::holds_at(board, 0, Color::White, Piece::Rook)
                    && !self.is_square_attacked(4, Color::Black) && !self.is_square_attacked(
                    3,
                    Color::Black,
                ) && !self.is_square_attacked(2, Color::Black) {
                    moves.push(Move { from: 4, to: 2, promotion: None, is_en_passant: false, is_castling: Some(CastlingType::QueenSide) });
                }
            }
            assert(white_queen_side_ok(b) ==> moves@ == m1 + seq![castle_move(4, 2, CastlingType::QueenSide)]);
            assert(!white_queen_side_ok(b) ==> moves@ == m1);
        } else {
            if self.board.castling.black_king {
                if board.squares[61].is_none() && board.squares[62].is_none() && Self::holds_at(
                    board,
                    60,
                    Color::Black,
                    Piece::King,
                ) && Self::holds_at(board, 63, Color::Black, Piece::Rook)
                    && !self.is_square_attacked(60, Color::White) && !self.is_square_attacked(
                    61,
                    Color::White,
                ) && !self.is_square_attacked(62, Color::White) {
                    moves.push(Move { from: 60, to: 62, promotion: None, is_en_passant: false, is_castling: Some(CastlingType::KingSide) });
                }
            }
            assert(black_king_side_ok(b) ==> moves@ == m0 + seq![castle_move(60, 62, CastlingType::KingSide)]);
            assert(!black_king_side_ok(b) ==> moves@ == m0);
            let ghost m1 = moves@;
            if self.board.castling.black_queen {
                if board.squares[59].is_none() && board.squares[58].is_none()
                    && board.squares[57].is_none() && Self::holds_at(board, 60, Color::Black, Piece::King)
                    && Self::holds_at(board, 56, Color::Black, Piece::Rook)
                    && !self.is_square_attacked(60, Color::White) && !self.is_square_attacked(
                    59,
                    Color::White,
                ) && !self.is_square_attacked(58, Color::White) {
                    moves.push(Move { from: 60, to: 58, promotion: None, is_en_passant: false, is_castling: Some(CastlingType::QueenSide) });
                }
            }
            assert(black_queen_side_ok(b) ==> moves@ == m1 + seq![castle_move(60, 58, CastlingType::QueenSide)]);
            assert(!black_queen_side_ok(b) ==> moves@ == m1);
        }
        assert(moves@ =~= m0 + castling_moves(b, color));
    }

    fn is_square_attacked(&self, sq: Square, attacker_color: Color) -> (r: bool)
        requires
            sq < 64,
        ensures
            r == attacked(self.board@.squares, sq as int, attacker_color),
    {
        Game::is_square_attacked_by_color(self.board, sq, attacker_color)
    }

    /// The first square of `board` that holds the king of `color`.
    fn king_position(board: &Board, color: Color) -> (r: Square)
        requires
            king_square(board@.squares, color) < 64,
        ensures
            r == king_square(board@.squares, color),
    {
        let ghost s = board@.squares;
        let mut i: usize = 0;
        while i < 64
            invariant
                i <= 64,
                s == board@.squares,
                king_square(s, color) == king_square_from(s, color, i as int),
                king_square(s, color) < 64,
            decreases 64 - i,
        {
            if Self::holds_at(board, i, color, Piece::King) {
                return i;
            }
            i += 1;
        }
        i
    }

    fn find_king(&self, color: Color) -> (r: Square)
        requires
            king_square(self.board@.squares, color) < 64,
        ensures
            r == king_square(self.board@.squares, color),
    {
        Self::king_position(self.board, color)
    }

    fn is_in_check(&self, color: Color) -> (r: bool)
        requires
            king_square(self.board@.squares, color) < 64,
        ensures
            r == in_check_on(self.board@.squares, color),
    {
        let king_sq = self.find_king(color);
        self.is_square_attacked(king_sq, color.opposite())
    }

    fn is_in_check_after_move(&self, board: &Board, color: Color) -> (r: bool)
        requires
            king_square(board@.squares, color) < 64,
        ensures
            r == in_check_on(board@.squares, color),
    {
        let king_sq = Self::king_position(board, color);
        Game::is_square_attacked_by_color(board, king_sq, color.opposite())
    }

    /// The legal moves of the side to move, in the order the generator finds them.
    fn legal_moves_on(&self) -> (moves: Vec<Move>)
        requires
            moves_playable(self.board@),
        ensures
            moves@ == legal_moves_of(self.board@),
    {
        let ghost b = self.board@;
        let turn = self.board.side_to_move;
        let pseudo = self.generate_pseudo_moves(turn);
        let ghost keep = |m: Move| keeps_king_safe(b, m);
        let mut kept: Vec<Move> = Vec::new();
        let mut i: usize = 0;
        while i < pseudo.len()
            invariant
                i <= pseudo@.len(),
                b == self.board@,
                turn == b.side_to_move,
                moves_playable(b),
                pseudo@ == pseudo_moves(b, turn),
                keep == (|m: Move| keeps_king_safe(b, m)),
                kept@ == pseudo@.take(i as int).filter(keep),
            decreases pseudo@.len() - i,
        {
            let m = pseudo[i];
            let mut copy = self.board.copy();
            let ok = match copy.apply_move(&m) {
                Err(_) => false,
                Ok(()) => !self.is_in_check_after_move(&copy, turn),
            };
            if ok {
                kept.push(m);
            }
            proof {
                reveal_with_fuel(Seq::<_>::filter, 1);
                assert(pseudo@.take(i + 1).drop_last() =~= pseudo@.take(i as int));
            }
            i += 1;
        }
        assert(pseudo@.take(pseudo@.len() as int) =~= pseudo@);
        kept
    }

    fn compute_status(&self) -> (st: GameStatus)
        requires
            sound_position(self.board@),
            moves_playable(self.board@),
        ensures
            st == status_of(self.board@),
    {
        let color = self.board.side_to_move;
        let moves = self.legal_moves_on();
        if self.is_in_check(color) {
            if moves.len() == 0 {
                GameStatus::Checkmate
            } else {
                GameStatus::Check
            }
        } else if moves.len() == 0 {
            GameStatus::Stalemate
        } else {
            GameStatus::Ongoing
        }
    }
}

/// The legal moves of `b` that start on `sq`.
pub open spec fn legal_moves_from_of(b: BoardModel, sq: Square) -> Seq<Move> {
    legal_moves_of(b).filter(|m: Move| m.from == sq)
}

/// The board after a move is made and the turn passes.
pub open spec fn board_after(b: BoardModel, m: Move) -> BoardModel {
    BoardModel { side_to_move: opposite_color(b.side_to_move), ..apply_outcome(b, m)->Ok_0 }
}

/// A game once a legal move is made: the board after the move, its status, and the status
/// as the result once the game has ended.
pub open spec fn game_after_move(g: GameModel, m: Move) -> GameModel {
    let after = board_after(g.board, m);
    GameModel {
        board: after,
        status: status_of(after),
        result: if status_of(after) != GameStatus::Ongoing {
            Some(status_of(after))
        } else {
            g.result
        },
    }
}

/// Every legal move of a sound position goes from a square to another square.
pub proof fn lemma_legal_moves_on_board(b: BoardModel, m: Move)
    requires
        sound_position(b),
        legal_moves_of(b).contains(m),
    ensures
        m.from < 64,
        m.to < 64,
        m.from != m.to,
{
    let keep = |mv: Move| keeps_king_safe(b, mv);
    pseudo_moves(b, b.side_to_move).lemma_filter_contains_rev(keep, m);
    lemma_pseudo_moves_sound(b, b.side_to_move);
    let j = pseudo_moves(b, b.side_to_move).index_of(m);
    assert(sound_move(b, b.side_to_move, pseudo_moves(b, b.side_to_move)[j]));
}

/// Whether computing the legal moves of `b` keeps the move counter in range: Black's moves
/// count up the full-move number.
pub open spec fn counter_room(b: BoardModel) -> bool {
    b.side_to_move == Color::Black ==> b.full_move_number < u32::MAX
}

impl Game {
    #[verifier::type_invariant]
    spec fn reachable(self) -> bool {
        &&& sound_position(self.board@)
        &&& self.status == status_of(self.board@)
        &&& self.result matches Some(r) ==> r != GameStatus::Ongoing
    }

    /// A new game from the standard starting position.
    pub fn new() -> (g: Game)
        ensures
            g@.board == start_position(),
            g@.result is None,
            g@.status == GameStatus::Ongoing,
            sound_position(g@.board),
    {
        let board = Board::new();
        proof {
            lemma_start_position_sound();
            lemma_start_position_ongoing();
        }
        Game { board, result: None, status: GameStatus::Ongoing }
    }

    pub fn board(&self) -> (b: &Board)
        ensures
            b@ == self@.board,
            sound_position(b@),
    {
        proof {
            use_type_invariant(self);
        }
        &self.board
    }

    pub fn current_turn(&self) -> (c: Color)
        ensures
            c == self@.board.side_to_move,
    {
        self.board.side_to_move
    }

    /// The status of the position on the board: the status is always that of the current
    /// position.
    pub fn status(&self) -> (st: GameStatus)
        ensures
            st == self@.status,
            st == status_of(self@.board),
    {
        proof {
            use_type_invariant(self);
        }
        self.status
    }

    /// The legal moves of the side to move.
    pub fn legal_moves(&self) -> (moves: Vec<Move>)
        requires
            counter_room(self@.board),
        ensures
            moves@ == legal_moves_of(self@.board),
    {
        proof {
            use_type_invariant(self);
            lemma_sound_position_playable(self.board@);
        }
        Position { board: &self.board }.legal_moves_on()
    }

    /// The legal moves that start on `sq`.
    pub fn legal_moves_from(&self, sq: Square) -> (moves: Vec<Move>)
        requires
            counter_room(self@.board),
        ensures
            moves@ == legal_moves_from_of(self@.board, sq),
            sound_position(self@.board),
    {
        proof {
            use_type_invariant(self);
        }
        let all = self.legal_moves();
        let ghost keep = |m: Move| m.from == sq;
        let mut moves: Vec<Move> = Vec::new();
        let mut i: usize = 0;
        while i < all.len()
            invariant
                i <= all@.len(),
                keep == (|m: Move| m.from == sq),
                moves@ == all@.take(i as int).filter(keep),
            decreases all@.len() - i,
        {
            if all[i].from == sq {
                moves.push(all[i]);
            }
            proof {
                reveal_with_fuel(Seq::<_>::filter, 1);
                assert(all@.take(i + 1).drop_last() =~= all@.take(i as int));
            }
            i += 1;
        }
        assert(all@.take(all@.len() as int) =~= all@);
        moves
    }

    /// Makes a legal move: the turn passes, and the status and result follow the new
    /// position. Any other move is refused and leaves the game as it was.
    pub fn make_move(&mut self, m: &Move) -> (r: Result<(), String>)
        requires
            (old(self)@.board.side_to_move == Color::Black || legal_moves_of(old(self)@.board).contains(*m))
                ==> old(self)@.board.full_move_number < u32::MAX,
        ensures
            !legal_moves_of(old(self)@.board).contains(*m) ==> (r matches Err(e) && e@
                == "Illegal move"@ && final(self)@ == old(self)@),
            legal_moves_of(old(self)@.board).contains(*m) ==> {
                &&& m.from < 64 && m.to < 64
                &&& r is Ok
                &&& apply_outcome(old(self)@.board, *m) is Ok
                &&& final(self)@ == game_after_move(old(self)@, *m)
                &&& sound_position(final(self)@.board)
            },
    {
        proof {
            use_type_invariant(&*self);
        }
        let ghost b = self.board@;
        let moves = self.legal_moves();
        if !contains_move(&moves, m) {
            return Err(String::from_str("Illegal move"));
        }
        proof {
            let keep = |mv: Move| keeps_king_safe(b, mv);
            pseudo_moves(b, b.side_to_move).lemma_filter_contains_rev(keep, *m);
            let i = pseudo_moves(b, b.side_to_move).filter(keep).index_of(*m);
            pseudo_moves(b, b.side_to_move).lemma_filter_pred(keep, i);
            lemma_pseudo_moves_sound(b, b.side_to_move);
            let j = pseudo_moves(b, b.side_to_move).index_of(*m);
            assert(sound_move(b, b.side_to_move, pseudo_moves(b, b.side_to_move)[j]));
            lemma_sound_position_playable(b);
            assert(pseudo_moves(b, b.side_to_move)[j] == *m);
            lemma_legal_move_keeps_sound(b, *m);
            lemma_legal_moves_on_board(b, *m);
        }
        let mut board = self.board.copy();
        match board.apply_move(m) {
            Ok(()) => {},
            Err(e) => return Err(e),
        }
        board.switch_turn();
        proof {
            lemma_sound_position_playable(board@);
        }
        let status = Position { board: &board }.compute_status();
        let result = if status != GameStatus::Ongoing {
            Some(status)
        } else {
            self.result
        };
        *self = Game { board, result, status };
        Ok(())
    }
}

} // verus!
