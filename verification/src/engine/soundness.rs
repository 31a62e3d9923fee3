//! The positions that play can reach, and the proof that play never leaves them: each
//! side keeps exactly one king, pawns never stand where they cannot advance, the en
//! passant square is a safe target, and the side that has just moved is not in check.
use vstd::prelude::*;
use vstd::seq_lib::lemma_seq_concat_contains_all_elements;

use crate::engine::board::{
    apply_in_range, apply_outcome, BoardModel, castled_squares, castling_squares, Color,
    en_passant_victim, GameStatus, is_double_step, Occupant, opposite_color, Piece,
    resets_half_move_clock, Square, squares_after, start_position,
};
use crate::engine::moves::{CastlingType, Move};
use crate::engine::rules::{
    abs_int, attacked, bishop_lines, black_king_side_ok, black_queen_side_ok, castle_move,
    castling_moves, en_passant_move, generable, holds, in_check_on, keeps_king_safe,
    king_attacks, king_hit, king_moves_upto, king_offset, king_reach, king_square,
    king_square_from, king_step, knight_attacks, knight_hit, knight_jump, knight_moves_upto,
    knight_offset, knight_step, legal_moves_of, line_attacks, line_hit, line_step,
    moves_playable, on_board, open_to, pawn_arrivals, pawn_attacks, pawn_captures, pawn_dir,
    pawn_moves, pawn_pushes, piece_moves_upto, plain_move, promotion_rank, pseudo_moves,
    queen_lines, ray_attacks, rook_lines, slide_moves_upto, slide_ray, square_moves, square_of,
    start_rank, status_of, strikes_along, unit_step, white_king_side_ok, white_queen_side_ok,
};

verus! {

/// Whether `s[k]` holds the king of `c` and no other square does.
pub open spec fn king_only_at(s: Seq<Occupant>, c: Color, k: int) -> bool {
    &&& 0 <= k < 64
    &&& s[k] == Some((c, Piece::King))
    &&& forall|i: int| 0 <= i < 64 && #[trigger] s[i] == Some((c, Piece::King)) ==> i == k
}

/// Whether `c` has exactly one king.
pub open spec fn one_king(s: Seq<Occupant>, c: Color) -> bool {
    king_only_at(s, c, king_square(s, c))
}

/// Whether square `t` holds a king of either colour.
pub open spec fn king_at(s: Seq<Occupant>, t: int) -> bool {
    s[t] matches Some((_, p)) && p == Piece::King
}

/// Whether the en passant square, if any, lies on the third or sixth rank, is empty, and
/// neither square beside it on its file holds a king.
pub open spec fn en_passant_sane(b: BoardModel) -> bool {
    match b.en_passant {
        Some(e) => {
            &&& e < 64
            &&& (e / 8 == 2 || e / 8 == 5)
            &&& b.squares[e as int] is None
            &&& !king_at(b.squares, e - 8)
            &&& !king_at(b.squares, e + 8)
        },
        None => true,
    }
}

/// The positions of a game: sixty-four squares, one king of each colour, every pawn with
/// a square ahead of it, a sane en passant square, and the side that has just moved not in
/// check.
pub open spec fn sound_position(b: BoardModel) -> bool {
    let s = b.squares;
    &&& s.len() == 64
    &&& one_king(s, Color::White)
    &&& one_king(s, Color::Black)
    &&& generable(b, Color::White)
    &&& generable(b, Color::Black)
    &&& en_passant_sane(b)
    &&& !attacked(s, king_square(s, opposite_color(b.side_to_move)), b.side_to_move)
}

/// `king_square` finds the only king.
pub proof fn lemma_king_square_of_only(s: Seq<Occupant>, c: Color, k: int, i: int)
    requires
        0 <= k < 64,
        s[k] == Some((c, Piece::King)),
        forall|j: int| 0 <= j < 64 && #[trigger] s[j] == Some((c, Piece::King)) ==> j == k,
        0 <= i <= k,
    ensures
        king_square_from(s, c, i) == k,
    decreases k - i,
{
    if i < k {
        lemma_king_square_of_only(s, c, k, i + 1);
    }
}

/// The file and rank of the square on file `f` and rank `r` are `f` and `r`.
pub proof fn lemma_square_coords(f: int, r: int)
    requires
        on_board(f, r),
    ensures
        square_of(f, r) % 8 == f,
        square_of(f, r) / 8 == r,
        0 <= square_of(f, r) < 64,
{
}

/// A square is the square of its file and rank.
pub proof fn lemma_coords_square(t: int)
    requires
        0 <= t < 64,
    ensures
        on_board(t % 8, t / 8),
        square_of(t % 8, t / 8) == t,
{
}

/// The coordinate reached after `j` steps of `d` from `x`, `d` being -1, 0 or 1.
pub open spec fn ray_pos(x: int, d: int, j: int) -> int {
    if d == 1 {
        x + j
    } else if d == -1 {
        x - j
    } else {
        x
    }
}

/// Whether the first `k` squares walking from `(f, r)` by `(df, dr)` are on the board
/// and empty.
pub open spec fn ray_clear(s: Seq<Occupant>, f: int, r: int, df: int, dr: int, k: int) -> bool {
    forall|j: int|
        1 <= j <= k ==> on_board(#[trigger] ray_pos(f, df, j), ray_pos(r, dr, j)) && s[square_of(
            ray_pos(f, df, j),
            ray_pos(r, dr, j),
        )] is None
}

/// An attack along a line is seen when every square before the attacker is empty.
pub proof fn lemma_ray_attack_reaches(
    s: Seq<Occupant>,
    f: int,
    r: int,
    df: int,
    dr: int,
    n: int,
    c: Color,
    p: Piece,
)
    requires
        on_board(f, r),
        unit_step(df, dr),
        n >= 1,
        ray_clear(s, f, r, df, dr, n - 1),
        on_board(ray_pos(f, df, n), ray_pos(r, dr, n)),
        s[square_of(ray_pos(f, df, n), ray_pos(r, dr, n))] == Some((c, p)),
        strikes_along(p, df, dr),
    ensures
        ray_attacks(s, f, r, df, dr, c),
    decreases n,
{
    let nf = f + df;
    let nr = r + dr;
    assert(ray_pos(f, df, 1) == nf && ray_pos(r, dr, 1) == nr);
    if n > 1 {
        assert(on_board(ray_pos(f, df, 1), ray_pos(r, dr, 1)));
        assert forall|j: int| 1 <= j <= n - 2 implies on_board(
            #[trigger] ray_pos(nf, df, j),
            ray_pos(nr, dr, j),
        ) && s[square_of(ray_pos(nf, df, j), ray_pos(nr, dr, j))] is None by {
            assert(ray_pos(nf, df, j) == ray_pos(f, df, j + 1));
            assert(ray_pos(nr, dr, j) == ray_pos(r, dr, j + 1));
            assert(on_board(ray_pos(f, df, j + 1), ray_pos(r, dr, j + 1)));
        }
        assert(ray_pos(nf, df, n - 1) == ray_pos(f, df, n));
        assert(ray_pos(nr, dr, n - 1) == ray_pos(r, dr, n));
        lemma_ray_attack_reaches(s, nf, nr, df, dr, n - 1, c, p);
    }
}

/// Whether a move of `c` on `b` has the shape that the move generator gives its moves;
/// the facts that keep a position sound once the move is made.
pub open spec fn sound_move(b: BoardModel, c: Color, m: Move) -> bool {
    let s = b.squares;
    let from = m.from as int;
    let to = m.to as int;
    &&& from < 64
    &&& to < 64
    &&& from != to
    &&& s[from] matches Some((mc, p)) && mc == c && {
        &&& m.is_castling is None ==> open_to(s, to, c)
        &&& m.is_castling is Some ==> p == Piece::King && s[to] is None && !m.is_en_passant
            && m.promotion is None && castling_moves(b, c).contains(m)
        &&& m.is_castling matches Some(ct) ==> {
            let (kf, kt, rf, rt) = castling_squares(c, ct);
            &&& from == kf
            &&& s[rf] == Some((c, Piece::Rook))
            &&& s[kt] is None
            &&& s[rt] is None
        }
        &&& m.is_en_passant ==> p == Piece::Pawn && b.en_passant == Some(m.to) && m.promotion is None
        &&& m.promotion matches Some(q) ==> p == Piece::Pawn && q != Piece::King && q != Piece::Pawn
            && to / 8 == promotion_rank(c)
        &&& (p == Piece::Pawn && m.promotion is None) ==> 0 <= to + pawn_dir(c) < 64
        &&& (p == Piece::Pawn && is_double_step(from, to)) ==> {
            &&& to == from + 2 * pawn_dir(c)
            &&& from / 8 == start_rank(c)
            &&& s[from + pawn_dir(c)] is None
            &&& !m.is_en_passant
            &&& m.promotion is None
        }
        &&& s[to] == Some((opposite_color(c), Piece::King)) ==> attacked(s, to, c)
    }
}

/// Whether every move of `ms` is sound.
pub open spec fn all_sound(b: BoardModel, c: Color, ms: Seq<Move>) -> bool {
    forall|i: int| 0 <= i < ms.len() ==> sound_move(b, c, #[trigger] ms[i])
}

pub proof fn lemma_all_sound_add(b: BoardModel, c: Color, x: Seq<Move>, y: Seq<Move>)
    requires
        all_sound(b, c, x),
        all_sound(b, c, y),
    ensures
        all_sound(b, c, x + y),
{
    assert forall|i: int| 0 <= i < (x + y).len() implies sound_move(b, c, #[trigger] (x + y)[i]) by {
        if i < x.len() {
            assert((x + y)[i] == x[i]);
        } else {
            assert((x + y)[i] == y[i - x.len()]);
        }
    }
}

/// A pawn's arrival on `to`, promoted or plain, is sound when the square is open and not
/// two ranks away.
pub proof fn lemma_pawn_arrivals_sound(b: BoardModel, c: Color, from: int, to: int)
    requires
        b.squares.len() == 64,
        0 <= from < 64,
        0 <= to < 64,
        from != to,
        b.squares[from] == Some((c, Piece::Pawn)),
        open_to(b.squares, to, c),
        b.squares[to] == Some((opposite_color(c), Piece::King)) ==> attacked(b.squares, to, c),
        !is_double_step(from, to),
        to / 8 != promotion_rank(c) ==> 0 <= to + pawn_dir(c) < 64,
    ensures
        all_sound(b, c, pawn_arrivals(from, to, c)),
{
    let ms = pawn_arrivals(from, to, c);
    assert forall|i: int| 0 <= i < ms.len() implies sound_move(b, c, #[trigger] ms[i]) by {
        assert((ms[i].from as int) == from && (ms[i].to as int) == to);
    }
}

/// Every advance of a pawn is sound.
pub proof fn lemma_pawn_pushes_sound(b: BoardModel, c: Color, from: int)
    requires
        generable(b, c),
        0 <= from < 64,
        b.squares[from] == Some((c, Piece::Pawn)),
    ensures
        all_sound(b, c, pawn_pushes(b.squares, from, c)),
{
    let s = b.squares;
    let to = from + pawn_dir(c);
    assert(s[from] == Some((c, Piece::Pawn)));
    assert(0 <= to < 64);
    if s[to] is None {
        lemma_pawn_arrivals_sound(b, c, from, to);
        let to2 = from + 2 * pawn_dir(c);
        if from / 8 == start_rank(c) && s[to2] is None {
            let ms = seq![plain_move(from, to2)];
            assert(all_sound(b, c, ms)) by {
                assert(sound_move(b, c, ms[0]));
            }
            lemma_all_sound_add(b, c, pawn_arrivals(from, to, c), ms);
        } else {
            assert(pawn_arrivals(from, to, c) + seq![] =~= pawn_arrivals(from, to, c));
        }
    }
}

/// Every capture of a pawn, en passant included, is sound.
pub proof fn lemma_pawn_captures_sound(b: BoardModel, c: Color, from: int, offset: int)
    requires
        generable(b, c),
        en_passant_sane(b),
        0 <= from < 64,
        b.squares[from] == Some((c, Piece::Pawn)),
        offset == pawn_dir(c) + 1 || offset == pawn_dir(c) - 1,
    ensures
        all_sound(b, c, pawn_captures(b.squares, b.en_passant, from, c, offset)),
{
    let s = b.squares;
    let t = from + offset;
    if 0 <= t < 64 && abs_int(t % 8 - from % 8) == 1 {
        let first = match s[t] {
            Some((oc, _)) => if oc != c {
                pawn_arrivals(from, t, c)
            } else {
                seq![]
            },
            None => seq![],
        };
        assert(all_sound(b, c, first)) by {
            if let Some((oc, _)) = s[t] {
                if oc != c {
                    if s[t] == Some((opposite_color(c), Piece::King)) {
                        if offset == pawn_dir(c) + 1 {
                            assert(t % 8 == from % 8 + 1);
                            assert(t - pawn_dir(c) - 1 == from);
                        } else {
                            assert(t % 8 == from % 8 - 1);
                            assert(t - pawn_dir(c) + 1 == from);
                        }
                        assert(pawn_attacks(s, t, c));
                    }
                    lemma_pawn_arrivals_sound(b, c, from, t);
                }
            }
        }
        let second = match b.en_passant {
            Some(e) => if t == e {
                seq![en_passant_move(from, e as int)]
            } else {
                seq![]
            },
            None => seq![],
        };
        assert(all_sound(b, c, second)) by {
            if let Some(e) = b.en_passant {
                if t == e {
                    assert(sound_move(b, c, second[0]));
                }
            }
        }
        lemma_all_sound_add(b, c, first, second);
    }
}

/// Every move of a pawn is sound.
pub proof fn lemma_pawn_moves_sound(b: BoardModel, c: Color, from: int)
    requires
        generable(b, c),
        en_passant_sane(b),
        0 <= from < 64,
        b.squares[from] == Some((c, Piece::Pawn)),
    ensures
        all_sound(b, c, pawn_moves(b.squares, b.en_passant, from, c)),
{
    let s = b.squares;
    let ep = b.en_passant;
    lemma_pawn_pushes_sound(b, c, from);
    lemma_pawn_captures_sound(b, c, from, pawn_dir(c) + 1);
    lemma_pawn_captures_sound(b, c, from, pawn_dir(c) - 1);
    lemma_all_sound_add(b, c, pawn_pushes(s, from, c), pawn_captures(s, ep, from, c, pawn_dir(c) + 1));
    lemma_all_sound_add(
        b,
        c,
        pawn_pushes(s, from, c) + pawn_captures(s, ep, from, c, pawn_dir(c) + 1),
        pawn_captures(s, ep, from, c, pawn_dir(c) - 1),
    );
}

/// Every knight move by the first `n` jumps is sound.
pub proof fn lemma_knight_moves_sound(b: BoardModel, c: Color, from: int, n: nat)
    requires
        b.squares.len() == 64,
        0 <= from < 64,
        b.squares[from] == Some((c, Piece::Knight)),
        n <= 8,
    ensures
        all_sound(b, c, knight_moves_upto(b.squares, from, c, n)),
    decreases n,
{
    let s = b.squares;
    if n > 0 {
        let i = n - 1;
        lemma_knight_moves_sound(b, c, from, (n - 1) as nat);
        let step = knight_step(s, from, c, i);
        assert(all_sound(b, c, step)) by {
            let t = from + knight_offset(i);
            if knight_jump(from, t) && open_to(s, t, c) {
                if s[t] == Some((opposite_color(c), Piece::King)) {
                    assert(knight_offset(7 - i) == -knight_offset(i));
                    assert(knight_hit(s, t, c, 7 - i));
                    assert(knight_attacks(s, t, c));
                }
                assert(sound_move(b, c, step[0]));
            }
        }
        lemma_all_sound_add(b, c, knight_moves_upto(s, from, c, (n - 1) as nat), step);
    }
}

/// The number of the line whose step is `(df, dr)`.
pub open spec fn line_index(df: int, dr: int) -> int {
    if df == 1 && dr == 0 {
        0
    } else if df == -1 && dr == 0 {
        1
    } else if df == 0 && dr == 1 {
        2
    } else if df == 0 && dr == -1 {
        3
    } else if df == 1 && dr == 1 {
        4
    } else if df == 1 && dr == -1 {
        5
    } else if df == -1 && dr == 1 {
        6
    } else {
        7
    }
}

/// A piece of `c` that strikes along the line from `t` to `a` and stands first on it
/// attacks `t`, given the squares strictly between them, `n - 1` of them, are empty.
pub proof fn lemma_line_attack(s: Seq<Occupant>, t: int, df: int, dr: int, n: int, c: Color, p: Piece)
    requires
        s.len() == 64,
        0 <= t < 64,
        unit_step(df, dr),
        n >= 1,
        ray_clear(s, t % 8, t / 8, df, dr, n - 1),
        on_board(ray_pos(t % 8, df, n), ray_pos(t / 8, dr, n)),
        s[square_of(ray_pos(t % 8, df, n), ray_pos(t / 8, dr, n))] == Some((c, p)),
        strikes_along(p, df, dr),
    ensures
        attacked(s, t, c),
{
    let i = line_index(df, dr);
    assert(line_step(i) == (df, dr));
    lemma_ray_attack_reaches(s, t % 8, t / 8, df, dr, n, c, p);
    assert(line_hit(s, t, c, i));
    assert(line_attacks(s, t, c));
}

/// Every king move by the first `n` steps is sound.
pub proof fn lemma_king_moves_sound(b: BoardModel, c: Color, from: int, n: nat)
    requires
        b.squares.len() == 64,
        0 <= from < 64,
        b.squares[from] == Some((c, Piece::King)),
        n <= 8,
    ensures
        all_sound(b, c, king_moves_upto(b.squares, from, c, n)),
    decreases n,
{
    let s = b.squares;
    if n > 0 {
        let i = n - 1;
        lemma_king_moves_sound(b, c, from, (n - 1) as nat);
        let step = king_step(s, from, c, i);
        assert(all_sound(b, c, step)) by {
            let t = from + king_offset(i);
            if king_reach(from, t) && open_to(s, t, c) {
                if s[t] == Some((opposite_color(c), Piece::King)) {
                    assert(king_offset(7 - i) == -king_offset(i));
                    assert(king_hit(s, t, c, 7 - i));
                    assert(king_attacks(s, t, c));
                }
                assert(sound_move(b, c, step[0]));
            }
        }
        lemma_all_sound_add(b, c, king_moves_upto(s, from, c, (n - 1) as nat), step);
    }
}

/// Walking back along a line retraces it.
pub proof fn lemma_ray_pos_back(x: int, d: int, k: int, j: int)
    requires
        -1 <= d <= 1,
    ensures
        ray_pos(ray_pos(x, d, k), -d, j) == ray_pos(x, d, k - j),
{
}

/// Every move of a sliding piece along one line, from the `k`th square of that line on,
/// is sound, given the first `k` squares are empty.
pub proof fn lemma_slide_ray_sound(
    b: BoardModel,
    c: Color,
    p: Piece,
    from: int,
    df: int,
    dr: int,
    k: int,
)
    requires
        b.squares.len() == 64,
        0 <= from < 64,
        b.squares[from] == Some((c, p)),
        unit_step(df, dr),
        strikes_along(p, -df, -dr),
        k >= 0,
        on_board(ray_pos(from % 8, df, k), ray_pos(from / 8, dr, k)),
        ray_clear(b.squares, from % 8, from / 8, df, dr, k),
    ensures
        all_sound(
            b,
            c,
            slide_ray(
                b.squares,
                from,
                c,
                ray_pos(from % 8, df, k),
                ray_pos(from / 8, dr, k),
                df,
                dr,
            ),
        ),
    decreases 8 - k,
{
    let s = b.squares;
    let f0 = from % 8;
    let r0 = from / 8;
    let f = ray_pos(f0, df, k);
    let r = ray_pos(r0, dr, k);
    let nf = f + df;
    let nr = r + dr;
    assert(nf == ray_pos(f0, df, k + 1) && nr == ray_pos(r0, dr, k + 1));
    lemma_coords_square(from);
    if on_board(nf, nr) {
        let to = square_of(nf, nr);
        lemma_square_coords(nf, nr);
        assert(to != from) by {
            if to == from {
                assert(nf == f0 && nr == r0);
            }
        }
        match s[to] {
            Some((oc, _)) => {
                if oc != c {
                    if s[to] == Some((opposite_color(c), Piece::King)) {
                        assert forall|j: int| 1 <= j <= k implies on_board(
                            #[trigger] ray_pos(nf, -df, j),
                            ray_pos(nr, -dr, j),
                        ) && s[square_of(ray_pos(nf, -df, j), ray_pos(nr, -dr, j))] is None by {
                            lemma_ray_pos_back(f0, df, k + 1, j);
                            lemma_ray_pos_back(r0, dr, k + 1, j);
                            assert(ray_pos(f0, df, k + 1 - j) == ray_pos(nf, -df, j));
                            assert(on_board(ray_pos(f0, df, k + 1 - j), ray_pos(r0, dr, k + 1 - j)));
                        }
                        lemma_ray_pos_back(f0, df, k + 1, k + 1);
                        lemma_ray_pos_back(r0, dr, k + 1, k + 1);
                        lemma_line_attack(s, to, -df, -dr, k + 1, c, p);
                    }
                    let ms = seq![plain_move(from, to)];
                    assert(sound_move(b, c, ms[0]));
                }
            },
            None => {
                assert(ray_clear(s, f0, r0, df, dr, k + 1)) by {
                    assert forall|j: int| 1 <= j <= k + 1 implies on_board(
                        #[trigger] ray_pos(f0, df, j),
                        ray_pos(r0, dr, j),
                    ) && s[square_of(ray_pos(f0, df, j), ray_pos(r0, dr, j))] is None by {
                        if j <= k {
                            assert(on_board(ray_pos(f0, df, j), ray_pos(r0, dr, j)));
                        }
                    }
                }
                assert(k + 1 <= 8) by {
                    assert(on_board(ray_pos(f0, df, k + 1), ray_pos(r0, dr, k + 1)));
                }
                lemma_slide_ray_sound(b, c, p, from, df, dr, k + 1);
                let ms = seq![plain_move(from, to)];
                assert(sound_move(b, c, ms[0]));
                lemma_all_sound_add(b, c, ms, slide_ray(s, from, c, nf, nr, df, dr));
            },
        }
    }
}

/// Every move of a sliding piece along the first `n` of its lines is sound.
pub proof fn lemma_slide_moves_sound(
    b: BoardModel,
    c: Color,
    p: Piece,
    from: int,
    dirs: Seq<(int, int)>,
    n: nat,
)
    requires
        b.squares.len() == 64,
        0 <= from < 64,
        b.squares[from] == Some((c, p)),
        n <= dirs.len(),
        forall|i: int|
            0 <= i < dirs.len() ==> unit_step(#[trigger] dirs[i].0, dirs[i].1) && strikes_along(
                p,
                -dirs[i].0,
                -dirs[i].1,
            ),
    ensures
        all_sound(b, c, slide_moves_upto(b.squares, from, c, dirs, n)),
    decreases n,
{
    if n > 0 {
        lemma_slide_moves_sound(b, c, p, from, dirs, (n - 1) as nat);
        let d = dirs[n - 1];
        assert(unit_step(d.0, d.1));
        lemma_coords_square(from);
        assert(ray_pos(from % 8, d.0, 0) == from % 8 && ray_pos(from / 8, d.1, 0) == from / 8);
        lemma_slide_ray_sound(b, c, p, from, d.0, d.1, 0);
        lemma_all_sound_add(
            b,
            c,
            slide_moves_upto(b.squares, from, c, dirs, (n - 1) as nat),
            slide_ray(b.squares, from, c, from % 8, from / 8, d.0, d.1),
        );
    }
}

/// Every move of the piece on `sq`, if it belongs to `c`, is sound.
pub proof fn lemma_square_moves_sound(b: BoardModel, c: Color, sq: int)
    requires
        generable(b, c),
        en_passant_sane(b),
        0 <= sq < 64,
    ensures
        all_sound(b, c, square_moves(b.squares, b.en_passant, c, sq)),
{
    let s = b.squares;
    if let Some((pc, p)) = s[sq] {
        if pc == c {
            match p {
                Piece::Pawn => lemma_pawn_moves_sound(b, c, sq),
                Piece::Knight => lemma_knight_moves_sound(b, c, sq, 8),
                Piece::Bishop => {
                    let d = bishop_lines();
                    assert forall|i: int| 0 <= i < d.len() implies unit_step(#[trigger] d[i].0, d[i].1)
                        && strikes_along(p, -d[i].0, -d[i].1) by {}
                    lemma_slide_moves_sound(b, c, p, sq, d, d.len());
                },
                Piece::Rook => {
                    let d = rook_lines();
                    assert forall|i: int| 0 <= i < d.len() implies unit_step(#[trigger] d[i].0, d[i].1)
                        && strikes_along(p, -d[i].0, -d[i].1) by {}
                    lemma_slide_moves_sound(b, c, p, sq, d, d.len());
                },
                Piece::Queen => {
                    let d = queen_lines();
                    assert forall|i: int| 0 <= i < d.len() implies unit_step(#[trigger] d[i].0, d[i].1)
                        && strikes_along(p, -d[i].0, -d[i].1) by {}
                    lemma_slide_moves_sound(b, c, p, sq, d, d.len());
                },
                Piece::King => lemma_king_moves_sound(b, c, sq, 8),
            }
        }
    }
}

/// Every move of the pieces of `c` on the first `n` squares is sound.
pub proof fn lemma_piece_moves_sound(b: BoardModel, c: Color, n: nat)
    requires
        generable(b, c),
        en_passant_sane(b),
        n <= 64,
    ensures
        all_sound(b, c, piece_moves_upto(b.squares, b.en_passant, c, n)),
    decreases n,
{
    if n > 0 {
        lemma_piece_moves_sound(b, c, (n - 1) as nat);
        lemma_square_moves_sound(b, c, n - 1);
        lemma_all_sound_add(
            b,
            c,
            piece_moves_upto(b.squares, b.en_passant, c, (n - 1) as nat),
            square_moves(b.squares, b.en_passant, c, n - 1),
        );
    }
}

/// Every castling move is sound.
pub proof fn lemma_castling_moves_sound(b: BoardModel, c: Color)
    requires
        b.squares.len() == 64,
    ensures
        all_sound(b, c, castling_moves(b, c)),
{
    let s = b.squares;
    if c == Color::White {
        let k = if white_king_side_ok(b) {
            seq![castle_move(4, 6, CastlingType::KingSide)]
        } else {
            seq![]
        };
        let q = if white_queen_side_ok(b) {
            seq![castle_move(4, 2, CastlingType::QueenSide)]
        } else {
            seq![]
        };
        assert(all_sound(b, c, k)) by {
            if white_king_side_ok(b) {
                assert(s[seq![5int, 6int][0]] is None);
                assert(s[seq![5int, 6int][1]] is None);
                assert(castling_squares(c, CastlingType::KingSide) == (4int, 6int, 7int, 5int));
                assert(castling_moves(b, c)[0] == k[0]);
                assert(sound_move(b, c, k[0]));
            }
        }
        assert(all_sound(b, c, q)) by {
            if white_queen_side_ok(b) {
                assert(s[seq![3int, 2int, 1int][0]] is None);
                assert(s[seq![3int, 2int, 1int][1]] is None);
                assert(castling_squares(c, CastlingType::QueenSide) == (4int, 2int, 0int, 3int));
                assert(castling_moves(b, c)[k.len() as int] == q[0]);
                assert(sound_move(b, c, q[0]));
            }
        }
        lemma_all_sound_add(b, c, k, q);
    } else {
        let k = if black_king_side_ok(b) {
            seq![castle_move(60, 62, CastlingType::KingSide)]
        } else {
            seq![]
        };
        let q = if black_queen_side_ok(b) {
            seq![castle_move(60, 58, CastlingType::QueenSide)]
        } else {
            seq![]
        };
        assert(all_sound(b, c, k)) by {
            if black_king_side_ok(b) {
                assert(s[seq![61int, 62int][0]] is None);
                assert(s[seq![61int, 62int][1]] is None);
                assert(castling_squares(c, CastlingType::KingSide) == (60int, 62int, 63int, 61int));
                assert(castling_moves(b, c)[0] == k[0]);
                assert(sound_move(b, c, k[0]));
            }
        }
        assert(all_sound(b, c, q)) by {
            if black_queen_side_ok(b) {
                assert(s[seq![59int, 58int, 57int][0]] is None);
                assert(s[seq![59int, 58int, 57int][1]] is None);
                assert(castling_squares(c, CastlingType::QueenSide) == (60int, 58int, 56int, 59int));
                assert(castling_moves(b, c)[k.len() as int] == q[0]);
                assert(sound_move(b, c, q[0]));
            }
        }
        lemma_all_sound_add(b, c, k, q);
    }
}

/// Every move that the generator gives `c` is sound.
pub proof fn lemma_pseudo_moves_sound(b: BoardModel, c: Color)
    requires
        generable(b, c),
        en_passant_sane(b),
    ensures
        all_sound(b, c, pseudo_moves(b, c)),
{
    lemma_piece_moves_sound(b, c, 64);
    lemma_castling_moves_sound(b, c);
    lemma_all_sound_add(
        b,
        c,
        piece_moves_upto(b.squares, b.en_passant, c, 64),
        castling_moves(b, c),
    );
}

/// An ordinary sound move keeps one king of each colour, pawns able to advance and a sane
/// en passant square.
pub proof fn lemma_ordinary_move_sound(b: BoardModel, m: Move, piece: (Color, Piece))
    requires
        sound_position(b),
        sound_move(b, b.side_to_move, m),
        b.squares[m.from as int] == Some(piece),
        m.is_castling is None,
    ensures
        ({
            let b1 = apply_outcome(b, m)->Ok_0;
            let s1 = b1.squares;
            &&& apply_outcome(b, m) is Ok
            &&& s1.len() == 64
            &&& one_king(s1, Color::White)
            &&& one_king(s1, Color::Black)
            &&& generable(b1, Color::White)
            &&& generable(b1, Color::Black)
            &&& en_passant_sane(b1)
        }),
{
    let c = b.side_to_move;
    let y = opposite_color(c);
    let s = b.squares;
    let from = m.from as int;
    let to = m.to as int;
    let b1 = apply_outcome(b, m)->Ok_0;
    let s1 = b1.squares;
    assert(s1 == squares_after(b, m, piece));
    let victim = en_passant_victim(c, to);
    // Every square but `to`, `from` and the en passant victim keeps what it held.
    assert forall|i: int| 0 <= i < 64 && i != to && i != from && !(m.is_en_passant && i == victim)
        implies #[trigger] s1[i] == s[i] by {}
    assert(s1[from] is None);
    assert(m.is_en_passant ==> s1[victim] is None);
    assert(m.is_en_passant ==> !king_at(s, victim));
    assert(s1[to] matches Some((tc, tp)) && tc == c && (tp == Piece::King ==> piece.1 == Piece::King)
        && (tp == Piece::Pawn ==> piece.1 == Piece::Pawn && m.promotion is None));
    // The mover's king.
    let kc = king_square(s, c);
    assert(king_only_at(s, c, kc));
    if piece.1 == Piece::King {
        assert(kc == from);
        assert forall|i: int| 0 <= i < 64 && #[trigger] s1[i] == Some((c, Piece::King)) implies i == to by {
            if i != to {
                assert(s[i] == Some((c, Piece::King)));
            }
        }
        lemma_king_square_of_only(s1, c, to, 0);
    } else {
        assert(kc != to && kc != from);
        assert forall|i: int| 0 <= i < 64 && #[trigger] s1[i] == Some((c, Piece::King)) implies i == kc by {
            assert(s[i] == Some((c, Piece::King)));
        }
        lemma_king_square_of_only(s1, c, kc, 0);
    }
    // The other king.
    let ky = king_square(s, y);
    assert(king_only_at(s, y, ky));
    assert(opposite_color(b.side_to_move) == y);
    assert(ky != to);
    assert forall|i: int| 0 <= i < 64 && #[trigger] s1[i] == Some((y, Piece::King)) implies i == ky by {
        assert(s[i] == Some((y, Piece::King)));
    }
    lemma_king_square_of_only(s1, y, ky, 0);
    assert(one_king(s1, Color::White) && one_king(s1, Color::Black));
    // Pawns.
    assert forall|i: int| 0 <= i < 64 && #[trigger] s1[i] == Some((Color::White, Piece::Pawn))
        implies 0 <= i + pawn_dir(Color::White) < 64 by {
        if i != to {
            assert(s[i] == Some((Color::White, Piece::Pawn)));
        }
    }
    assert forall|i: int| 0 <= i < 64 && #[trigger] s1[i] == Some((Color::Black, Piece::Pawn))
        implies 0 <= i + pawn_dir(Color::Black) < 64 by {
        if i != to {
            assert(s[i] == Some((Color::Black, Piece::Pawn)));
        }
    }
    // The en passant square.
    if piece.1 == Piece::Pawn && is_double_step(from, to) {
        let e = (from + to) / 2;
        assert(e == from + pawn_dir(c));
        assert(s1[e] is None);
        assert(e - 8 == from || e + 8 == from);
        assert(e - 8 == to || e + 8 == to);
    }
}

/// A castling keeps a position's soundness, but for the check condition: the king and the
/// rook change squares on the mover's back rank, and nothing else moves.
pub proof fn lemma_castling_move_sound(b: BoardModel, m: Move)
    requires
        sound_position(b),
        sound_move(b, b.side_to_move, m),
        m.is_castling is Some,
        apply_outcome(b, m) is Ok,
    ensures
        ({
            let b1 = apply_outcome(b, m)->Ok_0;
            let s1 = b1.squares;
            &&& s1.len() == 64
            &&& one_king(s1, Color::White)
            &&& one_king(s1, Color::Black)
            &&& generable(b1, Color::White)
            &&& generable(b1, Color::Black)
            &&& en_passant_sane(b1)
        }),
{
    let s = b.squares;
    let c = b.side_to_move;
    let y = opposite_color(c);
    let ct = m.is_castling->Some_0;
    let (kf, kt, rf, rt) = castling_squares(c, ct);
    let b1 = apply_outcome(b, m)->Ok_0;
    let s1 = b1.squares;
    assert(s[m.from as int] matches Some((mc, p)) && mc == c && p == Piece::King);
    assert(s1 == castled_squares(s, c, ct));
    assert(s[kf] == Some((c, Piece::King)));
    assert forall|i: int| 0 <= i < 64 && i != kf && i != kt && i != rf && i != rt
        implies #[trigger] s1[i] == s[i] by {}
    assert(s1[kt] == Some((c, Piece::King)));
    assert(s1[kf] is None && s1[rf] is None);
    assert(s1[rt] == Some((c, Piece::Rook)));
    let kc = king_square(s, c);
    assert(king_only_at(s, c, kc));
    assert(kc == kf);
    assert forall|i: int| 0 <= i < 64 && #[trigger] s1[i] == Some((c, Piece::King)) implies i == kt by {
        if i != kf && i != kt && i != rf && i != rt {
            assert(s[i] == Some((c, Piece::King)));
        }
    }
    lemma_king_square_of_only(s1, c, kt, 0);
    let ky = king_square(s, y);
    assert(king_only_at(s, y, ky));
    assert(opposite_color(b.side_to_move) == y);
    assert(ky != kf && ky != kt && ky != rf && ky != rt);
    assert forall|i: int| 0 <= i < 64 && #[trigger] s1[i] == Some((y, Piece::King)) implies i == ky by {
        if i != kf && i != kt && i != rf && i != rt {
            assert(s[i] == Some((y, Piece::King)));
        }
    }
    lemma_king_square_of_only(s1, y, ky, 0);
    assert(one_king(s1, Color::White) && one_king(s1, Color::Black));
    assert forall|i: int| 0 <= i < 64 && #[trigger] s1[i] == Some((Color::White, Piece::Pawn))
        implies 0 <= i + pawn_dir(Color::White) < 64 by {
        assert(s[i] == Some((Color::White, Piece::Pawn)));
    }
    assert forall|i: int| 0 <= i < 64 && #[trigger] s1[i] == Some((Color::Black, Piece::Pawn))
        implies 0 <= i + pawn_dir(Color::Black) < 64 by {
        assert(s[i] == Some((Color::Black, Piece::Pawn)));
    }
}

/// A sound move that can be made keeps one king of each colour, pawns able to advance and
/// a sane en passant square.
pub proof fn lemma_move_sound(b: BoardModel, m: Move)
    requires
        sound_position(b),
        sound_move(b, b.side_to_move, m),
        apply_outcome(b, m) is Ok,
    ensures
        ({
            let b1 = apply_outcome(b, m)->Ok_0;
            let s1 = b1.squares;
            &&& s1.len() == 64
            &&& one_king(s1, Color::White)
            &&& one_king(s1, Color::Black)
            &&& generable(b1, Color::White)
            &&& generable(b1, Color::Black)
            &&& en_passant_sane(b1)
            &&& b1.side_to_move == b.side_to_move
        }),
{
    let piece = b.squares[m.from as int]->Some_0;
    if m.is_castling is Some {
        lemma_castling_move_sound(b, m);
    } else {
        lemma_ordinary_move_sound(b, m, piece);
    }
}

/// A legal move of a sound position leads, once the turn passes, to a sound position.
pub proof fn lemma_legal_move_keeps_sound(b: BoardModel, m: Move)
    requires
        sound_position(b),
        sound_move(b, b.side_to_move, m),
        keeps_king_safe(b, m),
    ensures
        apply_outcome(b, m) is Ok,
        sound_position(
            BoardModel {
                side_to_move: opposite_color(b.side_to_move),
                ..apply_outcome(b, m)->Ok_0
            },
        ),
{
    lemma_move_sound(b, m);
}

/// In a sound position every generated move can be applied, and leaves the mover a king;
/// Black's moves need room in the move counter.
pub proof fn lemma_sound_position_playable(b: BoardModel)
    requires
        sound_position(b),
        b.side_to_move == Color::Black ==> b.full_move_number < u32::MAX,
    ensures
        moves_playable(b),
{
    let c = b.side_to_move;
    let ms = pseudo_moves(b, c);
    lemma_pseudo_moves_sound(b, c);
    assert forall|i: int| 0 <= i < ms.len() implies {
        let m = #[trigger] ms[i];
        &&& apply_in_range(b, m)
        &&& apply_outcome(b, m) matches Ok(after) ==> king_square(after.squares, c) < 64
    } by {
        let m = ms[i];
        assert(sound_move(b, c, m));
        let piece = b.squares[m.from as int]->Some_0;
        if m.is_castling is None {
            assert(squares_after(b, m, piece)[m.to as int] is Some);
            assert(resets_half_move_clock(b, m, piece));
        }
        if apply_outcome(b, m) is Ok {
            lemma_move_sound(b, m);
        }
    }
}

/// The starting position is sound.
pub proof fn lemma_start_position_sound()
    ensures
        sound_position(start_position()),
{
    let b = start_position();
    let s = b.squares;
    assert(s.len() == 64);
    assert forall|i: int| 0 <= i < 64 && #[trigger] s[i] == Some((Color::White, Piece::King)) implies i == 4 by {}
    lemma_king_square_of_only(s, Color::White, 4, 0);
    assert forall|i: int| 0 <= i < 64 && #[trigger] s[i] == Some((Color::Black, Piece::King)) implies i == 60 by {}
    lemma_king_square_of_only(s, Color::Black, 60, 0);
    assert(!pawn_attacks(s, 60, Color::White));
    assert forall|i: int| 0 <= i < 8 implies !#[trigger] knight_hit(s, 60, Color::White, i) by {}
    assert forall|i: int| 0 <= i < 8 implies !#[trigger] line_hit(s, 60, Color::White, i) by {
        let (df, dr) = line_step(i);
        assert(ray_attacks(s, 4, 7, df, dr, Color::White) == false);
    }
    assert(!attacked(s, 60, Color::White));
}

/// The moves of the pieces on the first `n` squares are among those on the first `k`
/// squares, for `n <= k`.
pub proof fn lemma_piece_moves_upto_grow(
    s: Seq<Occupant>,
    ep: Option<Square>,
    c: Color,
    n: nat,
    k: nat,
    m: Move,
)
    requires
        n <= k,
        piece_moves_upto(s, ep, c, n).contains(m),
    ensures
        piece_moves_upto(s, ep, c, k).contains(m),
    decreases k - n,
{
    if n < k {
        lemma_piece_moves_upto_grow(s, ep, c, n, (k - 1) as nat, m);
        lemma_seq_concat_contains_all_elements(
            piece_moves_upto(s, ep, c, (k - 1) as nat),
            square_moves(s, ep, c, k - 1),
            m,
        );
    }
}

/// Whether Black attacks none of the squares around the White king on `e1` that decide a
/// check in the opening position, with `s` as the squares.
proof fn lemma_e1_not_attacked(s: Seq<Occupant>)
    requires
        s.len() == 64,
        forall|i: int| 0 <= i < 16 && i != 1 && i != 6 ==> #[trigger] s[i] == start_position().squares[i],
        forall|i: int| 16 <= i < 24 && i != 16 && i != 21 ==> #[trigger] s[i] is None,
        s[16] is None || s[16] == Some((Color::White, Piece::Knight)),
        s[21] is None || s[21] == Some((Color::White, Piece::Knight)),
    ensures
        !attacked(s, 4, Color::Black),
{
    assert(!pawn_attacks(s, 4, Color::Black));
    assert forall|i: int| 0 <= i < 8 implies !#[trigger] knight_hit(s, 4, Color::Black, i) by {}
    assert forall|i: int| 0 <= i < 8 implies !#[trigger] line_hit(s, 4, Color::Black, i) by {
        let (df, dr) = line_step(i);
        assert(ray_attacks(s, 4, 0, df, dr, Color::Black) == false);
    }
}

/// The standard starting position is neither check nor stalemate: White's king is not
/// attacked, and the knight of `b1` may go to `a3`.
pub proof fn lemma_start_position_ongoing()
    ensures
        status_of(start_position()) == GameStatus::Ongoing,
{
    let b = start_position();
    let s = b.squares;
    assert(s.len() == 64);
    assert forall|i: int| 0 <= i < 64 && #[trigger] s[i] == Some((Color::White, Piece::King)) implies i == 4 by {}
    lemma_king_square_of_only(s, Color::White, 4, 0);
    lemma_e1_not_attacked(s);
    assert(!in_check_on(s, Color::White));

    let m = plain_move(1, 16);
    let knight = (Color::White, Piece::Knight);
    assert(knight_step(s, 1, Color::White, 6) =~= seq![m]);
    assert(knight_moves_upto(s, 1, Color::White, 7).contains(m)) by {
        lemma_seq_concat_contains_all_elements(
            knight_moves_upto(s, 1, Color::White, 6),
            knight_step(s, 1, Color::White, 6),
            m,
        );
        assert(knight_step(s, 1, Color::White, 6)[0] == m);
    }
    assert(knight_moves_upto(s, 1, Color::White, 8).contains(m)) by {
        lemma_seq_concat_contains_all_elements(
            knight_moves_upto(s, 1, Color::White, 7),
            knight_step(s, 1, Color::White, 7),
            m,
        );
    }
    assert(square_moves(s, b.en_passant, Color::White, 1) == knight_moves_upto(s, 1, Color::White, 8));
    assert(piece_moves_upto(s, b.en_passant, Color::White, 2).contains(m)) by {
        lemma_seq_concat_contains_all_elements(
            piece_moves_upto(s, b.en_passant, Color::White, 1),
            square_moves(s, b.en_passant, Color::White, 1),
            m,
        );
    }
    lemma_piece_moves_upto_grow(s, b.en_passant, Color::White, 2, 64, m);
    lemma_seq_concat_contains_all_elements(
        piece_moves_upto(s, b.en_passant, Color::White, 64),
        castling_moves(b, Color::White),
        m,
    );
    assert(pseudo_moves(b, Color::White).contains(m));

    let after = s.update(16, Some(knight)).update(1, None);
    assert(squares_after(b, m, knight) =~= after);
    assert(apply_outcome(b, m) == Ok::<BoardModel, Seq<char>>(BoardModel {
        squares: after,
        castling: b.castling,
        en_passant: None,
        half_move_clock: 0,
        full_move_number: b.full_move_number,
        side_to_move: b.side_to_move,
    }));
    assert forall|i: int| 0 <= i < 64 && #[trigger] after[i] == Some((Color::White, Piece::King)) implies i == 4 by {}
    lemma_king_square_of_only(after, Color::White, 4, 0);
    lemma_e1_not_attacked(after);
    assert(keeps_king_safe(b, m));

    let keep = |mv: Move| keeps_king_safe(b, mv);
    let ps = pseudo_moves(b, Color::White);
    let j = ps.index_of(m);
    ps.lemma_filter_contains(keep, j);
    assert(legal_moves_of(b).contains(m));
    assert(legal_moves_of(b).len() > 0);
}

} // verus!
