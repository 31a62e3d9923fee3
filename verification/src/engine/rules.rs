//! The rules of movement and attack as mathematical definitions: pawns capture one file
//! aside, knights jump, sliding pieces move along open lines, kings step one square, and
//! the four castlings. Moves are listed in the order the engine finds them, so that its
//! results can be stated exactly.
use vstd::prelude::*;

use crate::engine::board::{
    apply_in_range, apply_outcome, opposite_color, BoardModel, Color, GameStatus, Occupant, Piece, Square,
};
use crate::engine::moves::{simple_move, CastlingType, Move};


verus! {

/// Whether `(f, r)` names a square: file and rank both within 0..=7.
pub open spec fn on_board(f: int, r: int) -> bool {
    0 <= f <= 7 && 0 <= r <= 7
}

/// The square on file `f` and rank `r`.
pub open spec fn square_of(f: int, r: int) -> int {
    r * 8 + f
}

/// Whether `(df, dr)` is one of the eight steps of a queen: each part within -1..=1, not
/// both zero.
pub open spec fn unit_step(df: int, dr: int) -> bool {
    -1 <= df <= 1 && -1 <= dr <= 1 && (df != 0 || dr != 0)
}

/// A bound on the steps left along a ray from `(f, r)`; it falls by at least one per step.
pub open spec fn ray_room(f: int, r: int, df: int, dr: int) -> int {
    (if df > 0 {
        8 - f
    } else if df < 0 {
        f + 1
    } else {
        0
    }) + (if dr > 0 {
        8 - r
    } else if dr < 0 {
        r + 1
    } else {
        0
    })
}

/// Whether `s[t]` holds a piece of kind `p` and colour `c`, `t` being a square.
pub open spec fn holds(s: Seq<Occupant>, t: int, c: Color, p: Piece) -> bool {
    0 <= t < 64 && s[t] == Some((c, p))
}

/// Whether a pawn of `attacker` stands where it would capture onto `sq`: one rank behind
/// `sq` from the pawn's side, on a file next to it.
pub open spec fn pawn_attacks(s: Seq<Occupant>, sq: int, attacker: Color) -> bool {
    let pawn_dir: int = if attacker == Color::White { -8 } else { 8 };
    (sq % 8 < 7 && holds(s, sq + pawn_dir + 1, attacker, Piece::Pawn)) || (sq % 8 > 0 && holds(
        s,
        sq + pawn_dir - 1,
        attacker,
        Piece::Pawn,
    ))
}

/// The knight's jumps, in the order the engine tries them.
pub open spec fn knight_offset(i: int) -> int {
    if i == 0 {
        -17
    } else if i == 1 {
        -15
    } else if i == 2 {
        -10
    } else if i == 3 {
        -6
    } else if i == 4 {
        6
    } else if i == 5 {
        10
    } else if i == 6 {
        15
    } else {
        17
    }
}

pub open spec fn abs_int(x: int) -> int {
    if x < 0 {
        -x
    } else {
        x
    }
}

/// Whether a knight on `from` reaches `to`: a square, one file and two ranks away or two
/// files and one rank.
pub open spec fn knight_jump(from: int, to: int) -> bool {
    let dx = abs_int(from % 8 - to % 8);
    let dy = abs_int(from / 8 - to / 8);
    0 <= to < 64 && ((dx == 1 && dy == 2) || (dx == 2 && dy == 1))
}

/// Whether the `i`th jump from `sq` lands on a knight of `attacker`.
pub open spec fn knight_hit(s: Seq<Occupant>, sq: int, attacker: Color, i: int) -> bool {
    let t = sq + knight_offset(i);
    knight_jump(sq, t) && s[t] == Some((attacker, Piece::Knight))
}

pub open spec fn knight_attacks(s: Seq<Occupant>, sq: int, attacker: Color) -> bool {
    exists|i: int| 0 <= i < 8 && #[trigger] knight_hit(s, sq, attacker, i)
}

/// The eight lines through a square, in the order the engine scans them.
pub open spec fn line_step(i: int) -> (int, int) {
    if i == 0 {
        (1, 0)
    } else if i == 1 {
        (-1, 0)
    } else if i == 2 {
        (0, 1)
    } else if i == 3 {
        (0, -1)
    } else if i == 4 {
        (1, 1)
    } else if i == 5 {
        (1, -1)
    } else if i == 6 {
        (-1, 1)
    } else {
        (-1, -1)
    }
}

/// Whether a piece of kind `p`, met first along the line `(df, dr)`, attacks along it: a
/// queen always, a rook on a file or rank, a bishop on a diagonal.
pub open spec fn strikes_along(p: Piece, df: int, dr: int) -> bool {
    p == Piece::Queen || (p == Piece::Rook && (df == 0 || dr == 0)) || (p == Piece::Bishop && df
        != 0 && dr != 0)
}

/// Whether, walking from `(f, r)` by `(df, dr)`, the first occupied square holds a piece of
/// `attacker` that strikes along this line.
pub open spec fn ray_attacks(s: Seq<Occupant>, f: int, r: int, df: int, dr: int, attacker: Color) -> bool
    decreases ray_room(f, r, df, dr),
{
    if !on_board(f, r) || !unit_step(df, dr) {
        false
    } else {
        let nf = f + df;
        let nr = r + dr;
        if !on_board(nf, nr) {
            false
        } else {
            match s[square_of(nf, nr)] {
                Some((c, p)) => c == attacker && strikes_along(p, df, dr),
                None => ray_attacks(s, nf, nr, df, dr, attacker),
            }
        }
    }
}

/// Whether the `i`th line from `sq` carries an attack by `attacker`.
pub open spec fn line_hit(s: Seq<Occupant>, sq: int, attacker: Color, i: int) -> bool {
    ray_attacks(s, sq % 8, sq / 8, line_step(i).0, line_step(i).1, attacker)
}

pub open spec fn line_attacks(s: Seq<Occupant>, sq: int, attacker: Color) -> bool {
    exists|i: int| 0 <= i < 8 && #[trigger] line_hit(s, sq, attacker, i)
}

/// Whether the `i`th king step from `sq` lands on the king of `attacker`.
pub open spec fn king_hit(s: Seq<Occupant>, sq: int, attacker: Color, i: int) -> bool {
    let t = sq + king_offset(i);
    king_reach(sq, t) && s[t] == Some((attacker, Piece::King))
}

/// Whether the king of `attacker` stands on a square next to `sq`.
pub open spec fn king_attacks(s: Seq<Occupant>, sq: int, attacker: Color) -> bool {
    exists|i: int| 0 <= i < 8 && #[trigger] king_hit(s, sq, attacker, i)
}

/// Whether `attacker` attacks square `sq`: by a pawn, a knight, along a line, or by its
/// king next to it.
pub open spec fn attacked(s: Seq<Occupant>, sq: int, attacker: Color) -> bool {
    pawn_attacks(s, sq, attacker) || knight_attacks(s, sq, attacker) || line_attacks(
        s,
        sq,
        attacker,
    ) || king_attacks(s, sq, attacker)
}

/// The direction in which pawns of `c` advance, in squares.
pub open spec fn pawn_dir(c: Color) -> int {
    if c == Color::White {
        8
    } else {
        -8
    }
}

/// The rank on which pawns of `c` promote.
pub open spec fn promotion_rank(c: Color) -> int {
    if c == Color::White {
        7
    } else {
        0
    }
}

/// The rank from which pawns of `c` may advance two squares.
pub open spec fn start_rank(c: Color) -> int {
    if c == Color::White {
        1
    } else {
        6
    }
}

pub open spec fn promotion_move(from: int, to: int, p: Piece) -> Move {
    Move {
        from: from as Square,
        to: to as Square,
        promotion: Some(p),
        is_en_passant: false,
        is_castling: None,
    }
}

/// The four promotions of a pawn move, queen first.
pub open spec fn promotions(from: int, to: int) -> Seq<Move> {
    seq![
        promotion_move(from, to, Piece::Queen),
        promotion_move(from, to, Piece::Rook),
        promotion_move(from, to, Piece::Bishop),
        promotion_move(from, to, Piece::Knight),
    ]
}

pub open spec fn plain_move(from: int, to: int) -> Move {
    simple_move(from as Square, to as Square)
}

pub open spec fn en_passant_move(from: int, to: int) -> Move {
    Move {
        from: from as Square,
        to: to as Square,
        promotion: None,
        is_en_passant: true,
        is_castling: None,
    }
}

/// A pawn move to `to`: the four promotions on the last rank, else the plain move.
pub open spec fn pawn_arrivals(from: int, to: int, c: Color) -> Seq<Move> {
    if to / 8 == promotion_rank(c) {
        promotions(from, to)
    } else {
        seq![plain_move(from, to)]
    }
}

/// The advances of a pawn of `c` on `from`: one square if it is empty, then two from the
/// starting rank if that square is empty too.
pub open spec fn pawn_pushes(s: Seq<Occupant>, from: int, c: Color) -> Seq<Move> {
    let to = from + pawn_dir(c);
    if s[to] is None {
        pawn_arrivals(from, to, c) + if from / 8 == start_rank(c) && s[from + 2 * pawn_dir(
            c,
        )] is None {
            seq![plain_move(from, from + 2 * pawn_dir(c))]
        } else {
            seq![]
        }
    } else {
        seq![]
    }
}

/// The captures of a pawn of `c` on `from` towards `from + offset`, a square on the next
/// rank and a file beside the pawn's: onto a piece of the other colour, and en passant onto
/// the square that `ep` names.
pub open spec fn pawn_captures(
    s: Seq<Occupant>,
    ep: Option<Square>,
    from: int,
    c: Color,
    offset: int,
) -> Seq<Move> {
    let t = from + offset;
    if 0 <= t < 64 && abs_int(t % 8 - from % 8) == 1 {
        (match s[t] {
            Some((oc, _)) => if oc != c {
                pawn_arrivals(from, t, c)
            } else {
                seq![]
            },
            None => seq![],
        }) + match ep {
            Some(e) => if t == e {
                seq![en_passant_move(from, e as int)]
            } else {
                seq![]
            },
            None => seq![],
        }
    } else {
        seq![]
    }
}

pub open spec fn pawn_moves(s: Seq<Occupant>, ep: Option<Square>, from: int, c: Color) -> Seq<
    Move,
> {
    pawn_pushes(s, from, c) + pawn_captures(s, ep, from, c, pawn_dir(c) + 1) + pawn_captures(
        s,
        ep,
        from,
        c,
        pawn_dir(c) - 1,
    )
}

/// Whether square `t` is empty or holds a piece of the other colour than `c`.
pub open spec fn open_to(s: Seq<Occupant>, t: int, c: Color) -> bool {
    match s[t] {
        Some((oc, _)) => oc != c,
        None => true,
    }
}

/// The knight move by jump number `i`, if it is one.
pub open spec fn knight_step(s: Seq<Occupant>, from: int, c: Color, i: int) -> Seq<Move> {
    let t = from + knight_offset(i);
    if knight_jump(from, t) && open_to(s, t, c) {
        seq![plain_move(from, t)]
    } else {
        seq![]
    }
}

/// The knight moves by the first `n` jumps.
pub open spec fn knight_moves_upto(s: Seq<Occupant>, from: int, c: Color, n: nat) -> Seq<Move>
    decreases n,
{
    if n == 0 {
        seq![]
    } else {
        knight_moves_upto(s, from, c, (n - 1) as nat) + knight_step(s, from, c, n - 1)
    }
}

/// The king's steps, in the order the engine tries them.
pub open spec fn king_offset(i: int) -> int {
    if i == 0 {
        -9
    } else if i == 1 {
        -8
    } else if i == 2 {
        -7
    } else if i == 3 {
        -1
    } else if i == 4 {
        1
    } else if i == 5 {
        7
    } else if i == 6 {
        8
    } else {
        9
    }
}

/// Whether a king on `from` reaches `to`: a square at most one file and one rank away.
pub open spec fn king_reach(from: int, to: int) -> bool {
    0 <= to < 64 && abs_int(from % 8 - to % 8) <= 1 && abs_int(from / 8 - to / 8) <= 1
}

pub open spec fn king_step(s: Seq<Occupant>, from: int, c: Color, i: int) -> Seq<Move> {
    let t = from + king_offset(i);
    if king_reach(from, t) && open_to(s, t, c) {
        seq![plain_move(from, t)]
    } else {
        seq![]
    }
}

pub open spec fn king_moves_upto(s: Seq<Occupant>, from: int, c: Color, n: nat) -> Seq<Move>
    decreases n,
{
    if n == 0 {
        seq![]
    } else {
        king_moves_upto(s, from, c, (n - 1) as nat) + king_step(s, from, c, n - 1)
    }
}

/// The moves of a sliding piece of `c` from `from`, walking on from `(f, r)` by
/// `(df, dr)`: every empty square, then the first occupied one if it holds a piece of the
/// other colour.
pub open spec fn slide_ray(
    s: Seq<Occupant>,
    from: int,
    c: Color,
    f: int,
    r: int,
    df: int,
    dr: int,
) -> Seq<Move>
    decreases ray_room(f, r, df, dr),
{
    if !on_board(f, r) || !unit_step(df, dr) {
        seq![]
    } else {
        let nf = f + df;
        let nr = r + dr;
        if !on_board(nf, nr) {
            seq![]
        } else {
            let to = square_of(nf, nr);
            match s[to] {
                Some((oc, _)) => if oc != c {
                    seq![plain_move(from, to)]
                } else {
                    seq![]
                },
                None => seq![plain_move(from, to)] + slide_ray(s, from, c, nf, nr, df, dr),
            }
        }
    }
}

/// The moves of a sliding piece along the first `n` of the lines `dirs`.
pub open spec fn slide_moves_upto(
    s: Seq<Occupant>,
    from: int,
    c: Color,
    dirs: Seq<(int, int)>,
    n: nat,
) -> Seq<Move>
    decreases n,
{
    if n == 0 {
        seq![]
    } else {
        slide_moves_upto(s, from, c, dirs, (n - 1) as nat) + slide_ray(
            s,
            from,
            c,
            from % 8,
            from / 8,
            dirs[n - 1].0,
            dirs[n - 1].1,
        )
    }
}

pub open spec fn bishop_lines() -> Seq<(int, int)> {
    seq![(1, 1), (1, -1), (-1, 1), (-1, -1)]
}

pub open spec fn rook_lines() -> Seq<(int, int)> {
    seq![(0, 1), (0, -1), (1, 0), (-1, 0)]
}

pub open spec fn queen_lines() -> Seq<(int, int)> {
    seq![(1, 1), (1, -1), (-1, 1), (-1, -1), (0, 1), (0, -1), (1, 0), (-1, 0)]
}

pub open spec fn slide_moves(s: Seq<Occupant>, from: int, c: Color, dirs: Seq<(int, int)>) -> Seq<
    Move,
> {
    slide_moves_upto(s, from, c, dirs, dirs.len())
}

/// The moves, castling aside, of a piece of kind `p` and colour `c` on `from`.
pub open spec fn piece_moves(s: Seq<Occupant>, ep: Option<Square>, from: int, c: Color, p: Piece) -> Seq<
    Move,
> {
    match p {
        Piece::Pawn => pawn_moves(s, ep, from, c),
        Piece::Knight => knight_moves_upto(s, from, c, 8),
        Piece::Bishop => slide_moves(s, from, c, bishop_lines()),
        Piece::Rook => slide_moves(s, from, c, rook_lines()),
        Piece::Queen => slide_moves(s, from, c, queen_lines()),
        Piece::King => king_moves_upto(s, from, c, 8),
    }
}

/// The moves of the piece on `sq`, if it belongs to `c`.
pub open spec fn square_moves(s: Seq<Occupant>, ep: Option<Square>, c: Color, sq: int) -> Seq<Move> {
    match s[sq] {
        Some((pc, p)) => if pc == c {
            piece_moves(s, ep, sq, pc, p)
        } else {
            seq![]
        },
        None => seq![],
    }
}

/// The moves of the pieces of `c` on the first `n` squares, square by square.
pub open spec fn piece_moves_upto(s: Seq<Occupant>, ep: Option<Square>, c: Color, n: nat) -> Seq<
    Move,
>
    decreases n,
{
    if n == 0 {
        seq![]
    } else {
        piece_moves_upto(s, ep, c, (n - 1) as nat) + square_moves(s, ep, c, n - 1)
    }
}

pub open spec fn castle_move(from: int, to: int, ct: CastlingType) -> Move {
    Move {
        from: from as Square,
        to: to as Square,
        promotion: None,
        is_en_passant: false,
        is_castling: Some(ct),
    }
}

/// Whether `c` may castle: the right is held, the squares between king and rook are empty,
/// king and rook stand on their squares, and the king's square and the squares it crosses
/// are not attacked. `king`, `rook` and `between` name the squares of that side; `crossed`
/// are the two squares that must not be attacked besides the king's.
pub open spec fn castling_allowed(
    s: Seq<Occupant>,
    right: bool,
    c: Color,
    king: int,
    rook: int,
    empty: Seq<int>,
    crossed: (int, int),
) -> bool {
    &&& right
    &&& forall|i: int| 0 <= i < empty.len() ==> s[#[trigger] empty[i]] is None
    &&& s[king] == Some((c, Piece::King))
    &&& s[rook] == Some((c, Piece::Rook))
    &&& !attacked(s, king, opposite_color(c))
    &&& !attacked(s, crossed.0, opposite_color(c))
    &&& !attacked(s, crossed.1, opposite_color(c))
}

pub open spec fn white_king_side_ok(b: BoardModel) -> bool {
    castling_allowed(b.squares, b.castling.white_king, Color::White, 4, 7, seq![5, 6], (5, 6))
}

pub open spec fn white_queen_side_ok(b: BoardModel) -> bool {
    castling_allowed(b.squares, b.castling.white_queen, Color::White, 4, 0, seq![3, 2, 1], (3, 2))
}

pub open spec fn black_king_side_ok(b: BoardModel) -> bool {
    castling_allowed(b.squares, b.castling.black_king, Color::Black, 60, 63, seq![61, 62], (61, 62))
}

pub open spec fn black_queen_side_ok(b: BoardModel) -> bool {
    castling_allowed(
        b.squares,
        b.castling.black_queen,
        Color::Black,
        60,
        56,
        seq![59, 58, 57],
        (59, 58),
    )
}

/// The castling moves of `c`, king side first.
pub open spec fn castling_moves(b: BoardModel, c: Color) -> Seq<Move> {
    if c == Color::White {
        (if white_king_side_ok(b) {
            seq![castle_move(4, 6, CastlingType::KingSide)]
        } else {
            seq![]
        }) + if white_queen_side_ok(b) {
            seq![castle_move(4, 2, CastlingType::QueenSide)]
        } else {
            seq![]
        }
    } else {
        (if black_king_side_ok(b) {
            seq![castle_move(60, 62, CastlingType::KingSide)]
        } else {
            seq![]
        }) + if black_queen_side_ok(b) {
            seq![castle_move(60, 58, CastlingType::QueenSide)]
        } else {
            seq![]
        }
    }
}

/// The moves of `c` by the movement rules alone, before any check is considered: piece by
/// piece from `a1` to `h8`, then castling.
pub open spec fn pseudo_moves(b: BoardModel, c: Color) -> Seq<Move> {
    piece_moves_upto(b.squares, b.en_passant, c, 64) + castling_moves(b, c)
}

/// The first square, from `i` on, that holds the king of `c`; 64 if there is none.
pub open spec fn king_square_from(s: Seq<Occupant>, c: Color, i: int) -> int
    decreases 64 - i,
{
    if i >= 64 {
        64
    } else if s[i] == Some((c, Piece::King)) {
        i
    } else {
        king_square_from(s, c, i + 1)
    }
}

/// The first square that holds the king of `c`.
pub open spec fn king_square(s: Seq<Occupant>, c: Color) -> int {
    king_square_from(s, c, 0)
}

/// Whether the king of `c` is attacked by the other side.
pub open spec fn in_check_on(s: Seq<Occupant>, c: Color) -> bool {
    attacked(s, king_square(s, c), opposite_color(c))
}

/// Whether a move can be made on `b` and leaves the mover's king unattacked.
pub open spec fn keeps_king_safe(b: BoardModel, m: Move) -> bool {
    match apply_outcome(b, m) {
        Ok(after) => !in_check_on(after.squares, b.side_to_move),
        Err(_) => false,
    }
}

/// The legal moves of the side to move: its moves by the movement rules that can be made
/// and leave its king unattacked, in the order of `pseudo_moves`.
pub open spec fn legal_moves_of(b: BoardModel) -> Seq<Move> {
    pseudo_moves(b, b.side_to_move).filter(|m: Move| keeps_king_safe(b, m))
}

/// The status of a position: check, checkmate, stalemate or neither.
pub open spec fn status_of(b: BoardModel) -> GameStatus {
    let moves = legal_moves_of(b);
    if in_check_on(b.squares, b.side_to_move) {
        if moves.len() == 0 {
            GameStatus::Checkmate
        } else {
            GameStatus::Check
        }
    } else if moves.len() == 0 {
        GameStatus::Stalemate
    } else {
        GameStatus::Ongoing
    }
}

/// Whether every pawn of `c` has a square ahead of it on the board.
pub open spec fn pawns_can_advance(s: Seq<Occupant>, c: Color) -> bool {
    forall|i: int|
        0 <= i < 64 && #[trigger] s[i] == Some((c, Piece::Pawn)) ==> 0 <= i + pawn_dir(c) < 64
}

/// Whether the en passant square, if any, is a square.
pub open spec fn en_passant_on_board(ep: Option<Square>) -> bool {
    match ep {
        Some(e) => e < 64,
        None => true,
    }
}

/// What the move generator needs of a board for `c`.
pub open spec fn generable(b: BoardModel, c: Color) -> bool {
    &&& b.squares.len() == 64
    &&& pawns_can_advance(b.squares, c)
    &&& en_passant_on_board(b.en_passant)
}

/// What computing the legal moves of `b` needs: the generator's needs, every move in
/// range for `apply_move`, and the mover's king still on the board after every move that
/// can be made.
pub open spec fn moves_playable(b: BoardModel) -> bool {
    &&& generable(b, b.side_to_move)
    &&& forall|i: int|
        0 <= i < pseudo_moves(b, b.side_to_move).len() ==> {
            let m = #[trigger] pseudo_moves(b, b.side_to_move)[i];
            &&& apply_in_range(b, m)
            &&& apply_outcome(b, m) matches Ok(after) ==> king_square(after.squares, b.side_to_move) < 64
        }
}

} // verus!
