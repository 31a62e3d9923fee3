//! Attacks and moves stated by the geometry of the board: how far apart, in files and
//! ranks, a piece stands from its target, and which squares between them must be empty.
//! The laws here prove that the engine's attack test is exactly this, that every move the
//! generator gives is one the geometry allows, and that every move the geometry allows is
//! generated.
use vstd::prelude::*;
use vstd::seq_lib::lemma_seq_concat_contains_all_elements;

use crate::engine::board::{BoardModel, Color, Occupant, Piece};
use crate::engine::moves::Move;
use crate::engine::rules::{
    abs_int, attacked, bishop_lines, castling_moves, en_passant_move, generable, holds,
    keeps_king_safe, king_attacks, king_hit, king_moves_upto, king_offset, king_reach,
    king_step, knight_attacks, knight_hit, knight_jump, knight_moves_upto, knight_offset,
    knight_step, legal_moves_of, line_attacks, line_hit, line_step, on_board, pawn_arrivals,
    pawn_attacks, pawn_captures, pawn_dir, pawn_moves, pawn_pushes, piece_moves,
    piece_moves_upto, plain_move, pseudo_moves, queen_lines, ray_attacks, rook_lines,
    slide_moves, slide_moves_upto, slide_ray, square_moves, square_of, start_rank,
    strikes_along, unit_step,
};
use crate::engine::soundness::{
    lemma_coords_square, lemma_piece_moves_upto_grow, lemma_ray_attack_reaches,
    lemma_square_coords, line_index, ray_clear, ray_pos,
};

verus! {

/// The sign of `x`: -1, 0 or 1.
pub open spec fn sign(x: int) -> int {
    if x > 0 {
        1
    } else if x < 0 {
        -1
    } else {
        0
    }
}

/// The larger of two numbers.
pub open spec fn max_int(a: int, b: int) -> int {
    if a < b {
        b
    } else {
        a
    }
}

/// Whether a piece of kind `p` moves along the line from its square to one `df` files and
/// `dr` ranks away: a rook along a file or a rank, a bishop along a diagonal, a queen along
/// either.
pub open spec fn slides_along(p: Piece, df: int, dr: int) -> bool {
    let straight = (df == 0) != (dr == 0);
    let diagonal = abs_int(df) == abs_int(dr) && df != 0;
    match p {
        Piece::Rook => straight,
        Piece::Bishop => diagonal,
        Piece::Queen => straight || diagonal,
        _ => false,
    }
}

/// Whether every square strictly between `sq` and the square `df` files and `dr` ranks away
/// from it, along that line, is empty.
pub open spec fn path_clear(s: Seq<Occupant>, sq: int, df: int, dr: int) -> bool {
    forall|k: int|
        1 <= k < max_int(abs_int(df), abs_int(dr)) ==> s[square_of(
            #[trigger] ray_pos(sq % 8, sign(df), k),
            ray_pos(sq / 8, sign(dr), k),
        )] is None
}

/// Whether the piece on square `t` belongs to `attacker` and attacks square `sq`, by where it
/// stands: a pawn one rank behind `sq` (seen from its side) on a file next to it, a knight a
/// file and two ranks or two files and a rank away, a king on a square next to `sq`, and a
/// rook, bishop or queen on a line through `sq` with every square between them empty.
pub open spec fn attacks_from(s: Seq<Occupant>, t: int, sq: int, attacker: Color) -> bool {
    let df = t % 8 - sq % 8;
    let dr = t / 8 - sq / 8;
    &&& 0 <= t < 64
    &&& s[t] matches Some((c, p)) && c == attacker && match p {
        Piece::Pawn => abs_int(df) == 1 && dr == (if attacker == Color::White {
            -1int
        } else {
            1int
        }),
        Piece::Knight => (abs_int(df) == 1 && abs_int(dr) == 2) || (abs_int(df) == 2 && abs_int(dr)
            == 1),
        Piece::King => abs_int(df) <= 1 && abs_int(dr) <= 1 && (df != 0 || dr != 0),
        _ => slides_along(p, df, dr) && path_clear(s, sq, df, dr),
    }
}

/// Whether `o` is a rook, a bishop or a queen.
pub open spec fn is_slider(o: Occupant) -> bool {
    o matches Some((_, p)) && (p == Piece::Rook || p == Piece::Bishop || p == Piece::Queen)
}

/// Whether some piece of `attacker` attacks `sq`, by the geometry of the board.
pub open spec fn attacked_by_geometry(s: Seq<Occupant>, sq: int, attacker: Color) -> bool {
    exists|t: int| #[trigger] attacks_from(s, t, sq, attacker)
}

/// A square's file and rank, and the difference of two squares.
proof fn lemma_square_parts(t: int, sq: int)
    requires
        0 <= t < 64,
        0 <= sq < 64,
    ensures
        t == (t / 8) * 8 + t % 8,
        sq == (sq / 8) * 8 + sq % 8,
        0 <= t % 8 < 8,
        0 <= t / 8 < 8,
        0 <= sq % 8 < 8,
        0 <= sq / 8 < 8,
        t - sq == (t / 8 - sq / 8) * 8 + (t % 8 - sq % 8),
{
}

/// A pawn attacks by the engine's test exactly when it does by the board's geometry.
proof fn lemma_pawn_geometry(s: Seq<Occupant>, sq: int, attacker: Color)
    requires
        s.len() == 64,
        0 <= sq < 64,
    ensures
        pawn_attacks(s, sq, attacker) <==> exists|t: int|
            #[trigger] attacks_from(s, t, sq, attacker) && s[t] == Some((attacker, Piece::Pawn)),
{
    let dir: int = if attacker == Color::White { -8 } else { 8 };
    let t1 = sq + dir + 1;
    let t2 = sq + dir - 1;
    if sq % 8 < 7 && holds(s, t1, attacker, Piece::Pawn) {
        lemma_square_parts(t1, sq);
        assert(attacks_from(s, t1, sq, attacker));
    }
    if sq % 8 > 0 && holds(s, t2, attacker, Piece::Pawn) {
        lemma_square_parts(t2, sq);
        assert(attacks_from(s, t2, sq, attacker));
    }
    if exists|t: int| #[trigger] attacks_from(s, t, sq, attacker) && s[t] == Some((attacker, Piece::Pawn)) {
        let t = choose|t: int| #[trigger] attacks_from(s, t, sq, attacker) && s[t] == Some((attacker, Piece::Pawn));
        lemma_square_parts(t, sq);
        if t % 8 - sq % 8 == 1 {
            assert(t == t1);
        } else {
            assert(t == t2);
        }
    }
}

/// A knight attacks by the engine's test exactly when it does by the board's geometry.
proof fn lemma_knight_geometry(s: Seq<Occupant>, sq: int, attacker: Color)
    requires
        s.len() == 64,
        0 <= sq < 64,
    ensures
        knight_attacks(s, sq, attacker) <==> exists|t: int|
            #[trigger] attacks_from(s, t, sq, attacker) && s[t] == Some((attacker, Piece::Knight)),
{
    if knight_attacks(s, sq, attacker) {
        let i = choose|i: int| 0 <= i < 8 && #[trigger] knight_hit(s, sq, attacker, i);
        let t = sq + knight_offset(i);
        lemma_square_parts(t, sq);
        assert(attacks_from(s, t, sq, attacker));
    }
    if exists|t: int| #[trigger] attacks_from(s, t, sq, attacker) && s[t] == Some((attacker, Piece::Knight)) {
        let t = choose|t: int| #[trigger] attacks_from(s, t, sq, attacker) && s[t] == Some((attacker, Piece::Knight));
        lemma_square_parts(t, sq);
        let df = t % 8 - sq % 8;
        let dr = t / 8 - sq / 8;
        let i: int = if df == -1 && dr == -2 {
            0
        } else if df == 1 && dr == -2 {
            1
        } else if df == -2 && dr == -1 {
            2
        } else if df == 2 && dr == -1 {
            3
        } else if df == -2 && dr == 1 {
            4
        } else if df == 2 && dr == 1 {
            5
        } else if df == -1 && dr == 2 {
            6
        } else {
            7
        };
        assert(t == sq + knight_offset(i));
        assert(knight_hit(s, sq, attacker, i));
    }
}

/// A king attacks by the engine's test exactly when it does by the board's geometry.
proof fn lemma_king_geometry(s: Seq<Occupant>, sq: int, attacker: Color)
    requires
        s.len() == 64,
        0 <= sq < 64,
    ensures
        king_attacks(s, sq, attacker) <==> exists|t: int|
            #[trigger] attacks_from(s, t, sq, attacker) && s[t] == Some((attacker, Piece::King)),
{
    if king_attacks(s, sq, attacker) {
        let i = choose|i: int| 0 <= i < 8 && #[trigger] king_hit(s, sq, attacker, i);
        let t = sq + king_offset(i);
        lemma_square_parts(t, sq);
        assert(attacks_from(s, t, sq, attacker));
    }
    if exists|t: int| #[trigger] attacks_from(s, t, sq, attacker) && s[t] == Some((attacker, Piece::King)) {
        let t = choose|t: int| #[trigger] attacks_from(s, t, sq, attacker) && s[t] == Some((attacker, Piece::King));
        lemma_square_parts(t, sq);
        let df = t % 8 - sq % 8;
        let dr = t / 8 - sq / 8;
        let i: int = if df == -1 && dr == -1 {
            0
        } else if df == 0 && dr == -1 {
            1
        } else if df == 1 && dr == -1 {
            2
        } else if df == -1 && dr == 0 {
            3
        } else if df == 1 && dr == 0 {
            4
        } else if df == -1 && dr == 1 {
            5
        } else if df == 0 && dr == 1 {
            6
        } else {
            7
        };
        assert(t == sq + king_offset(i));
        assert(king_hit(s, sq, attacker, i));
    }
}

/// Walking a line that carries an attack meets, after some empty squares, the attacker.
proof fn lemma_ray_found(s: Seq<Occupant>, f: int, r: int, df: int, dr: int, a: Color) -> (n: int)
    requires
        s.len() == 64,
        ray_attacks(s, f, r, df, dr, a),
    ensures
        n >= 1,
        ray_clear(s, f, r, df, dr, n - 1),
        on_board(ray_pos(f, df, n), ray_pos(r, dr, n)),
        s[square_of(ray_pos(f, df, n), ray_pos(r, dr, n))] matches Some((c, p)) && c == a
            && strikes_along(p, df, dr),
    decreases crate::engine::rules::ray_room(f, r, df, dr),
{
    let nf = f + df;
    let nr = r + dr;
    assert(ray_pos(f, df, 1) == nf && ray_pos(r, dr, 1) == nr);
    match s[square_of(nf, nr)] {
        Some(_) => 1,
        None => {
            let m = lemma_ray_found(s, nf, nr, df, dr, a);
            assert forall|j: int| 1 <= j <= m implies on_board(#[trigger] ray_pos(f, df, j), ray_pos(r, dr, j))
                && s[square_of(ray_pos(f, df, j), ray_pos(r, dr, j))] is None by {
                if j > 1 {
                    assert(ray_pos(f, df, j) == ray_pos(nf, df, j - 1));
                    assert(ray_pos(r, dr, j) == ray_pos(nr, dr, j - 1));
                }
            }
            assert(ray_pos(f, df, m + 1) == ray_pos(nf, df, m));
            assert(ray_pos(r, dr, m + 1) == ray_pos(nr, dr, m));
            m + 1
        },
    }
}

/// The lines: a rook, bishop or queen attacks by the engine's test exactly when it does by
/// the board's geometry.
proof fn lemma_line_geometry(s: Seq<Occupant>, sq: int, attacker: Color)
    requires
        s.len() == 64,
        0 <= sq < 64,
    ensures
        line_attacks(s, sq, attacker) <==> exists|t: int|
            #[trigger] attacks_from(s, t, sq, attacker) && is_slider(s[t]),
{
    let f = sq % 8;
    let r = sq / 8;
    lemma_coords_square(sq);
    if line_attacks(s, sq, attacker) {
        let i = choose|i: int| 0 <= i < 8 && #[trigger] line_hit(s, sq, attacker, i);
        let (df, dr) = line_step(i);
        let n = lemma_ray_found(s, f, r, df, dr, attacker);
        let tf = ray_pos(f, df, n);
        let tr = ray_pos(r, dr, n);
        let t = square_of(tf, tr);
        lemma_square_coords(tf, tr);
        let p = s[t]->Some_0.1;
        assert(sign(tf - f) == df && sign(tr - r) == dr);
        assert(max_int(abs_int(tf - f), abs_int(tr - r)) == n);
        assert(slides_along(p, tf - f, tr - r));
        assert forall|k: int| 1 <= k < max_int(abs_int(tf - f), abs_int(tr - r)) implies s[square_of(
            #[trigger] ray_pos(sq % 8, sign(tf - f), k),
            ray_pos(sq / 8, sign(tr - r), k),
        )] is None by {}
        assert(attacks_from(s, t, sq, attacker));
    }
    if exists|t: int| #[trigger] attacks_from(s, t, sq, attacker) && is_slider(s[t]) {
        let t = choose|t: int| #[trigger] attacks_from(s, t, sq, attacker) && is_slider(s[t]);
        lemma_square_parts(t, sq);
        let p = s[t]->Some_0.1;
        let big_f = t % 8 - f;
        let big_r = t / 8 - r;
        let df = sign(big_f);
        let dr = sign(big_r);
        let n = max_int(abs_int(big_f), abs_int(big_r));
        assert(unit_step(df, dr));
        assert(ray_pos(f, df, n) == t % 8);
        assert(ray_pos(r, dr, n) == t / 8);
        lemma_coords_square(t);
        assert forall|j: int| 1 <= j <= n - 1 implies on_board(#[trigger] ray_pos(f, df, j), ray_pos(r, dr, j))
            && s[square_of(ray_pos(f, df, j), ray_pos(r, dr, j))] is None by {}
        assert(strikes_along(p, df, dr));
        lemma_ray_attack_reaches(s, f, r, df, dr, n, attacker, p);
        let i = line_index(df, dr);
        assert(line_step(i) == (df, dr));
        assert(line_hit(s, sq, attacker, i));
    }
}

/// The engine's attack test is the board's geometry: a square is attacked exactly when a
/// pawn stands one rank behind it on a file next to it, a knight a knight's jump away, the
/// king on a square next to it, or a rook, bishop or queen on a line through it with every
/// square between them empty.
pub proof fn lemma_attacked_is_geometric(s: Seq<Occupant>, sq: int, attacker: Color)
    requires
        s.len() == 64,
        0 <= sq < 64,
    ensures
        attacked(s, sq, attacker) <==> attacked_by_geometry(s, sq, attacker),
{
    lemma_pawn_geometry(s, sq, attacker);
    lemma_knight_geometry(s, sq, attacker);
    lemma_king_geometry(s, sq, attacker);
    lemma_line_geometry(s, sq, attacker);
    if attacked_by_geometry(s, sq, attacker) {
        let t = choose|t: int| #[trigger] attacks_from(s, t, sq, attacker);
        let p = s[t]->Some_0.1;
        assert(s[t] == Some((attacker, p)));
        match p {
            Piece::Pawn => {},
            Piece::Knight => {},
            Piece::King => {},
            _ => {},
        }
    }
}

/// A move of the piece on `from` is among the moves the generator gives its side.
proof fn lemma_square_move_generated(b: BoardModel, c: Color, from: int, m: Move)
    requires
        0 <= from < 64,
        square_moves(b.squares, b.en_passant, c, from).contains(m),
    ensures
        pseudo_moves(b, c).contains(m),
{
    let s = b.squares;
    let ep = b.en_passant;
    lemma_seq_concat_contains_all_elements(
        piece_moves_upto(s, ep, c, from as nat),
        square_moves(s, ep, c, from),
        m,
    );
    lemma_piece_moves_upto_grow(s, ep, c, (from + 1) as nat, 64, m);
    lemma_seq_concat_contains_all_elements(piece_moves_upto(s, ep, c, 64), castling_moves(b, c), m);
}

/// The knight moves by the first `n` jumps are among those by the first `k`, for `n <= k`.
proof fn lemma_knight_moves_grow(s: Seq<Occupant>, from: int, c: Color, n: nat, k: nat, m: Move)
    requires
        n <= k,
        knight_moves_upto(s, from, c, n).contains(m),
    ensures
        knight_moves_upto(s, from, c, k).contains(m),
    decreases k - n,
{
    if n < k {
        lemma_knight_moves_grow(s, from, c, n, (k - 1) as nat, m);
        lemma_seq_concat_contains_all_elements(
            knight_moves_upto(s, from, c, (k - 1) as nat),
            knight_step(s, from, c, k - 1),
            m,
        );
    }
}

/// The king moves by the first `n` steps are among those by the first `k`, for `n <= k`.
proof fn lemma_king_moves_grow(s: Seq<Occupant>, from: int, c: Color, n: nat, k: nat, m: Move)
    requires
        n <= k,
        king_moves_upto(s, from, c, n).contains(m),
    ensures
        king_moves_upto(s, from, c, k).contains(m),
    decreases k - n,
{
    if n < k {
        lemma_king_moves_grow(s, from, c, n, (k - 1) as nat, m);
        lemma_seq_concat_contains_all_elements(
            king_moves_upto(s, from, c, (k - 1) as nat),
            king_step(s, from, c, k - 1),
            m,
        );
    }
}

/// The plain move from `from` to `to`: no promotion, no en passant, no castling.
pub open spec fn step_move(from: int, to: int) -> Move {
    Move { from: from as usize, to: to as usize, promotion: None, is_en_passant: false, is_castling: None }
}

/// Whether square `to` of `s` is empty or holds a piece of the other side than `c`.
pub open spec fn free_for(s: Seq<Occupant>, to: int, c: Color) -> bool {
    s[to] is None || (s[to] matches Some((oc, _)) && oc != c)
}

/// A legal move is one the generator gives that keeps the mover's king safe.
proof fn lemma_safe_generated_is_legal(b: BoardModel, m: Move)
    requires
        pseudo_moves(b, b.side_to_move).contains(m),
        keeps_king_safe(b, m),
    ensures
        legal_moves_of(b).contains(m),
{
    let ps = pseudo_moves(b, b.side_to_move);
    let j = ps.index_of(m);
    ps.lemma_filter_contains(|mv: Move| keeps_king_safe(b, mv), j);
}

/// Every knight jump is generated: from a knight of `c`, each square one file and two ranks
/// or two files and one rank away that is empty or holds a piece of the other side is the
/// destination of a move the generator gives; when that move keeps the king safe, it is
/// legal.
pub proof fn lemma_knight_jumps_generated(b: BoardModel, c: Color, from: int, to: int)
    requires
        b.squares.len() == 64,
        0 <= from < 64,
        0 <= to < 64,
        b.squares[from] == Some((c, Piece::Knight)),
        ({
            let df = abs_int(to % 8 - from % 8);
            let dr = abs_int(to / 8 - from / 8);
            (df == 1 && dr == 2) || (df == 2 && dr == 1)
        }),
        free_for(b.squares, to, c),
    ensures
        pseudo_moves(b, c).contains(step_move(from, to)),
        (c == b.side_to_move && keeps_king_safe(b, step_move(from, to))) ==> legal_moves_of(b).contains(
            step_move(from, to),
        ),
{
    let s = b.squares;
    lemma_square_parts(to, from);
    let df = to % 8 - from % 8;
    let dr = to / 8 - from / 8;
    let i: int = if df == -1 && dr == -2 {
        0
    } else if df == 1 && dr == -2 {
        1
    } else if df == -2 && dr == -1 {
        2
    } else if df == 2 && dr == -1 {
        3
    } else if df == -2 && dr == 1 {
        4
    } else if df == 2 && dr == 1 {
        5
    } else if df == -1 && dr == 2 {
        6
    } else {
        7
    };
    assert(to == from + knight_offset(i));
    assert(knight_jump(from, to));
    let m = step_move(from, to);
    assert(knight_step(s, from, c, i) == seq![m]);
    lemma_seq_concat_contains_all_elements(knight_moves_upto(s, from, c, i as nat), knight_step(s, from, c, i), m);
    assert(knight_step(s, from, c, i)[0] == m);
    lemma_knight_moves_grow(s, from, c, (i + 1) as nat, 8, m);
    assert(square_moves(s, b.en_passant, c, from) == knight_moves_upto(s, from, c, 8));
    lemma_square_move_generated(b, c, from, m);
    if c == b.side_to_move && keeps_king_safe(b, m) {
        lemma_safe_generated_is_legal(b, m);
    }
}

/// Every king step is generated: from the king of `c`, each square next to it that is empty
/// or holds a piece of the other side is the destination of a move the generator gives;
/// when that move keeps the king safe, it is legal.
pub proof fn lemma_king_steps_generated(b: BoardModel, c: Color, from: int, to: int)
    requires
        b.squares.len() == 64,
        0 <= from < 64,
        0 <= to < 64,
        b.squares[from] == Some((c, Piece::King)),
        abs_int(to % 8 - from % 8) <= 1,
        abs_int(to / 8 - from / 8) <= 1,
        to != from,
        free_for(b.squares, to, c),
    ensures
        pseudo_moves(b, c).contains(step_move(from, to)),
        (c == b.side_to_move && keeps_king_safe(b, step_move(from, to))) ==> legal_moves_of(b).contains(
            step_move(from, to),
        ),
{
    let s = b.squares;
    lemma_square_parts(to, from);
    let df = to % 8 - from % 8;
    let dr = to / 8 - from / 8;
    let i: int = if df == -1 && dr == -1 {
        0
    } else if df == 0 && dr == -1 {
        1
    } else if df == 1 && dr == -1 {
        2
    } else if df == -1 && dr == 0 {
        3
    } else if df == 1 && dr == 0 {
        4
    } else if df == -1 && dr == 1 {
        5
    } else if df == 0 && dr == 1 {
        6
    } else {
        7
    };
    assert(to == from + king_offset(i));
    assert(king_reach(from, to));
    let m = step_move(from, to);
    assert(king_step(s, from, c, i) == seq![m]);
    lemma_seq_concat_contains_all_elements(king_moves_upto(s, from, c, i as nat), king_step(s, from, c, i), m);
    assert(king_step(s, from, c, i)[0] == m);
    lemma_king_moves_grow(s, from, c, (i + 1) as nat, 8, m);
    assert(square_moves(s, b.en_passant, c, from) == king_moves_upto(s, from, c, 8));
    lemma_square_move_generated(b, c, from, m);
    if c == b.side_to_move && keeps_king_safe(b, m) {
        lemma_safe_generated_is_legal(b, m);
    }
}

/// The rank a pawn of `c` moves towards, in squares: up for White, down for Black.
pub open spec fn forward(c: Color) -> int {
    if c == Color::White {
        8
    } else {
        -8
    }
}

/// The rank on which a pawn of `c` reaches the end of the board.
pub open spec fn last_rank(c: Color) -> int {
    if c == Color::White {
        7
    } else {
        0
    }
}

/// A pawn's move from `from` to `to` with the promotion `q`.
pub open spec fn pawn_move_to(from: int, to: int, q: Option<Piece>) -> Move {
    Move { from: from as usize, to: to as usize, promotion: q, is_en_passant: false, is_castling: None }
}

/// Whether the generator gives the pawn's arrival on `to`: the four promotions on the last
/// rank, the plain move elsewhere.
pub open spec fn arrival_generated(b: BoardModel, c: Color, from: int, to: int) -> bool {
    if to / 8 == last_rank(c) {
        &&& pseudo_moves(b, c).contains(pawn_move_to(from, to, Some(Piece::Queen)))
        &&& pseudo_moves(b, c).contains(pawn_move_to(from, to, Some(Piece::Rook)))
        &&& pseudo_moves(b, c).contains(pawn_move_to(from, to, Some(Piece::Bishop)))
        &&& pseudo_moves(b, c).contains(pawn_move_to(from, to, Some(Piece::Knight)))
    } else {
        pseudo_moves(b, c).contains(pawn_move_to(from, to, None))
    }
}

/// The arrivals of a pawn that stand among its moves are generated.
proof fn lemma_arrivals_generated(b: BoardModel, c: Color, from: int, to: int)
    requires
        0 <= from < 64,
        b.squares[from] == Some((c, Piece::Pawn)),
        forall|k: int|
            0 <= k < pawn_arrivals(from, to, c).len() ==> pawn_moves(b.squares, b.en_passant, from, c).contains(
                #[trigger] pawn_arrivals(from, to, c)[k],
            ),
    ensures
        arrival_generated(b, c, from, to),
{
    let arr = pawn_arrivals(from, to, c);
    assert(square_moves(b.squares, b.en_passant, c, from) == pawn_moves(b.squares, b.en_passant, from, c));
    assert forall|k: int| 0 <= k < arr.len() implies pseudo_moves(b, c).contains(#[trigger] arr[k]) by {
        lemma_square_move_generated(b, c, from, arr[k]);
    }
    if to / 8 == last_rank(c) {
        assert(arr[0] == pawn_move_to(from, to, Some(Piece::Queen)));
        assert(arr[1] == pawn_move_to(from, to, Some(Piece::Rook)));
        assert(arr[2] == pawn_move_to(from, to, Some(Piece::Bishop)));
        assert(arr[3] == pawn_move_to(from, to, Some(Piece::Knight)));
    } else {
        assert(arr[0] == pawn_move_to(from, to, None));
    }
}

/// Every pawn advance is generated: a pawn of `c` moves one square forward onto an empty
/// square (to each of the four promotions on the last rank), and two squares from its
/// starting rank when both squares ahead are empty.
pub proof fn lemma_pawn_advances_generated(b: BoardModel, c: Color, from: int)
    requires
        b.squares.len() == 64,
        0 <= from < 64,
        0 <= from + forward(c) < 64,
        b.squares[from] == Some((c, Piece::Pawn)),
        b.squares[from + forward(c)] is None,
    ensures
        arrival_generated(b, c, from, from + forward(c)),
        (from / 8 == (if c == Color::White { 1int } else { 6int }) && b.squares[from + 2 * forward(c)] is None)
            ==> pseudo_moves(b, c).contains(pawn_move_to(from, from + 2 * forward(c), None)),
{
    let s = b.squares;
    let ep = b.en_passant;
    let to = from + forward(c);
    let pushes = pawn_pushes(s, from, c);
    let caps = pawn_captures(s, ep, from, c, pawn_dir(c) + 1) + pawn_captures(s, ep, from, c, pawn_dir(c) - 1);
    assert(pawn_moves(s, ep, from, c) =~= pushes + caps);
    let arr = pawn_arrivals(from, to, c);
    let two = if from / 8 == start_rank(c) && s[from + 2 * pawn_dir(c)] is None {
        seq![plain_move(from, from + 2 * pawn_dir(c))]
    } else {
        seq![]
    };
    assert(pushes == arr + two);
    assert forall|k: int| 0 <= k < arr.len() implies pawn_moves(s, ep, from, c).contains(#[trigger] arr[k]) by {
        lemma_seq_concat_contains_all_elements(arr, two, arr[k]);
        assert((arr + two)[k] == arr[k]);
        lemma_seq_concat_contains_all_elements(pushes, caps, arr[k]);
    }
    lemma_arrivals_generated(b, c, from, to);
    if from / 8 == (if c == Color::White { 1int } else { 6int }) && s[from + 2 * forward(c)] is None {
        let m = pawn_move_to(from, from + 2 * forward(c), None);
        assert(two[0] == m);
        lemma_seq_concat_contains_all_elements(arr, two, m);
        lemma_seq_concat_contains_all_elements(pushes, caps, m);
        assert(square_moves(s, ep, c, from) == pawn_moves(s, ep, from, c));
        lemma_square_move_generated(b, c, from, m);
    }
}

/// Every pawn capture is generated: a pawn of `c` takes a piece of the other side standing
/// one rank forward on a file next to its own (to each of the four promotions on the last
/// rank), and takes en passant onto the en passant square when that square is one rank
/// forward on a file next to its own.
pub proof fn lemma_pawn_captures_generated(b: BoardModel, c: Color, from: int, to: int)
    requires
        b.squares.len() == 64,
        0 <= from < 64,
        0 <= to < 64,
        b.squares[from] == Some((c, Piece::Pawn)),
        to / 8 - from / 8 == (if c == Color::White { 1int } else { -1int }),
        abs_int(to % 8 - from % 8) == 1,
    ensures
        (b.squares[to] matches Some((oc, _)) && oc != c) ==> arrival_generated(b, c, from, to),
        b.en_passant == Some(to as usize) ==> pseudo_moves(b, c).contains(
            Move { from: from as usize, to: to as usize, promotion: None, is_en_passant: true, is_castling: None },
        ),
{
    let s = b.squares;
    let ep = b.en_passant;
    lemma_square_parts(to, from);
    let offset = to - from;
    assert(offset == pawn_dir(c) + 1 || offset == pawn_dir(c) - 1);
    let pushes = pawn_pushes(s, from, c);
    let c1 = pawn_captures(s, ep, from, c, pawn_dir(c) + 1);
    let c2 = pawn_captures(s, ep, from, c, pawn_dir(c) - 1);
    let cap = pawn_captures(s, ep, from, c, offset);
    assert(pawn_moves(s, ep, from, c) == pushes + c1 + c2);
    assert forall|m: Move| cap.contains(m) implies pawn_moves(s, ep, from, c).contains(m) by {
        lemma_seq_concat_contains_all_elements(pushes, c1, m);
        lemma_seq_concat_contains_all_elements(pushes + c1, c2, m);
    }
    let first = match s[to] {
        Some((oc, _)) => if oc != c {
            pawn_arrivals(from, to, c)
        } else {
            seq![]
        },
        None => seq![],
    };
    let second = match ep {
        Some(e) => if to == e {
            seq![en_passant_move(from, e as int)]
        } else {
            seq![]
        },
        None => seq![],
    };
    assert(cap == first + second);
    if s[to] matches Some((oc, _)) && oc != c {
        let arr = pawn_arrivals(from, to, c);
        assert forall|k: int| 0 <= k < arr.len() implies pawn_moves(s, ep, from, c).contains(#[trigger] arr[k]) by {
            lemma_seq_concat_contains_all_elements(first, second, arr[k]);
            assert(first[k] == arr[k]);
        }
        lemma_arrivals_generated(b, c, from, to);
    }
    if ep == Some(to as usize) {
        let m = Move { from: from as usize, to: to as usize, promotion: None, is_en_passant: true, is_castling: None };
        assert(second[0] == m);
        lemma_seq_concat_contains_all_elements(first, second, m);
        assert(square_moves(s, ep, c, from) == pawn_moves(s, ep, from, c));
        lemma_square_move_generated(b, c, from, m);
    }
}

/// Walking a line over empty squares reaches every square up to and including the first
/// one that is not empty, if it holds a piece of the other side.
proof fn lemma_slide_ray_reaches(
    s: Seq<Occupant>,
    from: int,
    c: Color,
    f: int,
    r: int,
    df: int,
    dr: int,
    n: int,
)
    requires
        s.len() == 64,
        on_board(f, r),
        unit_step(df, dr),
        n >= 1,
        ray_clear(s, f, r, df, dr, n - 1),
        on_board(ray_pos(f, df, n), ray_pos(r, dr, n)),
        free_for(s, square_of(ray_pos(f, df, n), ray_pos(r, dr, n)), c),
    ensures
        slide_ray(s, from, c, f, r, df, dr).contains(
            plain_move(from, square_of(ray_pos(f, df, n), ray_pos(r, dr, n))),
        ),
    decreases n,
{
    let nf = f + df;
    let nr = r + dr;
    let to = square_of(nf, nr);
    assert(ray_pos(f, df, 1) == nf && ray_pos(r, dr, 1) == nr);
    let target = plain_move(from, square_of(ray_pos(f, df, n), ray_pos(r, dr, n)));
    if n == 1 {
        assert(slide_ray(s, from, c, f, r, df, dr)[0] == target);
    } else {
        assert(on_board(ray_pos(f, df, 1), ray_pos(r, dr, 1)));
        assert(s[to] is None);
        assert forall|j: int| 1 <= j <= n - 2 implies on_board(
            #[trigger] ray_pos(nf, df, j),
            ray_pos(nr, dr, j),
        ) && s[square_of(ray_pos(nf, df, j), ray_pos(nr, dr, j))] is None by {
            assert(ray_pos(nf, df, j) == ray_pos(f, df, j + 1));
            assert(ray_pos(nr, dr, j) == ray_pos(r, dr, j + 1));
        }
        assert(ray_pos(nf, df, n - 1) == ray_pos(f, df, n));
        assert(ray_pos(nr, dr, n - 1) == ray_pos(r, dr, n));
        lemma_slide_ray_reaches(s, from, c, nf, nr, df, dr, n - 1);
        lemma_seq_concat_contains_all_elements(
            seq![plain_move(from, to)],
            slide_ray(s, from, c, nf, nr, df, dr),
            target,
        );
    }
}

/// The slides along the first `n` lines are among those along the first `k`, for `n <= k`.
proof fn lemma_slide_moves_grow(
    s: Seq<Occupant>,
    from: int,
    c: Color,
    dirs: Seq<(int, int)>,
    n: nat,
    k: nat,
    m: Move,
)
    requires
        n <= k,
        slide_moves_upto(s, from, c, dirs, n).contains(m),
    ensures
        slide_moves_upto(s, from, c, dirs, k).contains(m),
    decreases k - n,
{
    if n < k {
        lemma_slide_moves_grow(s, from, c, dirs, n, (k - 1) as nat, m);
        lemma_seq_concat_contains_all_elements(
            slide_moves_upto(s, from, c, dirs, (k - 1) as nat),
            slide_ray(s, from, c, from % 8, from / 8, dirs[k - 1].0, dirs[k - 1].1),
            m,
        );
    }
}

/// Every slide is generated: from a rook, bishop or queen of `c`, each square on one of its
/// lines with every square between them empty, itself empty or holding a piece of the other
/// side, is the destination of a move the generator gives; when that move keeps the king
/// safe, it is legal.
pub proof fn lemma_slides_generated(b: BoardModel, c: Color, from: int, to: int)
    requires
        b.squares.len() == 64,
        0 <= from < 64,
        0 <= to < 64,
        b.squares[from] matches Some((pc, p)) && pc == c && slides_along(
            p,
            to % 8 - from % 8,
            to / 8 - from / 8,
        ),
        path_clear(b.squares, from, to % 8 - from % 8, to / 8 - from / 8),
        free_for(b.squares, to, c),
    ensures
        pseudo_moves(b, c).contains(step_move(from, to)),
        (c == b.side_to_move && keeps_king_safe(b, step_move(from, to))) ==> legal_moves_of(b).contains(
            step_move(from, to),
        ),
{
    let s = b.squares;
    let p = s[from]->Some_0.1;
    lemma_square_parts(to, from);
    lemma_coords_square(from);
    lemma_coords_square(to);
    let f = from % 8;
    let r = from / 8;
    let big_f = to % 8 - f;
    let big_r = to / 8 - r;
    let df = sign(big_f);
    let dr = sign(big_r);
    let n = max_int(abs_int(big_f), abs_int(big_r));
    assert(unit_step(df, dr));
    assert(ray_pos(f, df, n) == to % 8);
    assert(ray_pos(r, dr, n) == to / 8);
    assert forall|j: int| 1 <= j <= n - 1 implies on_board(#[trigger] ray_pos(f, df, j), ray_pos(r, dr, j))
        && s[square_of(ray_pos(f, df, j), ray_pos(r, dr, j))] is None by {}
    lemma_slide_ray_reaches(s, from, c, f, r, df, dr, n);
    let m = step_move(from, to);
    assert(plain_move(from, square_of(ray_pos(f, df, n), ray_pos(r, dr, n))) == m);
    let dirs = match p {
        Piece::Rook => rook_lines(),
        Piece::Bishop => bishop_lines(),
        _ => queen_lines(),
    };
    let j: int = if p == Piece::Rook {
        if df == 0 && dr == 1 {
            0
        } else if df == 0 && dr == -1 {
            1
        } else if df == 1 && dr == 0 {
            2
        } else {
            3
        }
    } else {
        let d: int = if df == 1 && dr == 1 {
            0
        } else if df == 1 && dr == -1 {
            1
        } else if df == -1 && dr == 1 {
            2
        } else if df == -1 && dr == -1 {
            3
        } else if df == 0 && dr == 1 {
            4
        } else if df == 0 && dr == -1 {
            5
        } else if df == 1 && dr == 0 {
            6
        } else {
            7
        };
        d
    };
    assert(0 <= j < dirs.len());
    assert(dirs[j] == (df, dr));
    lemma_seq_concat_contains_all_elements(
        slide_moves_upto(s, from, c, dirs, j as nat),
        slide_ray(s, from, c, from % 8, from / 8, dirs[j].0, dirs[j].1),
        m,
    );
    lemma_slide_moves_grow(s, from, c, dirs, (j + 1) as nat, dirs.len(), m);
    assert(square_moves(s, b.en_passant, c, from) == slide_moves(s, from, c, dirs));
    lemma_square_move_generated(b, c, from, m);
    if c == b.side_to_move && keeps_king_safe(b, m) {
        lemma_safe_generated_is_legal(b, m);
    }
}

/// Every knight move that the generator gives is a jump from the knight's square, one file
/// and two ranks or two files and one rank away, onto a square that is empty or holds a
/// piece of the other side.
proof fn lemma_knight_moves_are_jumps(s: Seq<Occupant>, from: int, c: Color, n: nat, m: Move)
    requires
        s.len() == 64,
        0 <= from < 64,
        n <= 8,
        knight_moves_upto(s, from, c, n).contains(m),
    ensures
        m == step_move(from, m.to as int),
        0 <= m.to < 64,
        ({
            let df = abs_int(m.to % 8 - from % 8);
            let dr = abs_int(m.to / 8 - from / 8);
            (df == 1 && dr == 2) || (df == 2 && dr == 1)
        }),
        free_for(s, m.to as int, c),
    decreases n,
{
    if n > 0 {
        let prev = knight_moves_upto(s, from, c, (n - 1) as nat);
        let step = knight_step(s, from, c, n - 1);
        lemma_seq_concat_contains_all_elements(prev, step, m);
        if prev.contains(m) {
            lemma_knight_moves_are_jumps(s, from, c, (n - 1) as nat, m);
        } else {
            let t = from + knight_offset(n - 1);
            assert(step[0] == m);
            assert(m == plain_move(from, t));
            lemma_square_parts(t, from);
        }
    }
}

/// Every king move that the generator gives is a step from the king's square onto a square
/// next to it that is empty or holds a piece of the other side.
proof fn lemma_king_moves_are_steps(s: Seq<Occupant>, from: int, c: Color, n: nat, m: Move)
    requires
        s.len() == 64,
        0 <= from < 64,
        n <= 8,
        king_moves_upto(s, from, c, n).contains(m),
    ensures
        m == step_move(from, m.to as int),
        0 <= m.to < 64,
        m.to != from,
        abs_int(m.to % 8 - from % 8) <= 1,
        abs_int(m.to / 8 - from / 8) <= 1,
        free_for(s, m.to as int, c),
    decreases n,
{
    if n > 0 {
        let prev = king_moves_upto(s, from, c, (n - 1) as nat);
        let step = king_step(s, from, c, n - 1);
        lemma_seq_concat_contains_all_elements(prev, step, m);
        if prev.contains(m) {
            lemma_king_moves_are_steps(s, from, c, (n - 1) as nat, m);
        } else {
            let t = from + king_offset(n - 1);
            assert(step[0] == m);
            assert(m == plain_move(from, t));
            lemma_square_parts(t, from);
        }
    }
}

/// Every move along a line that the generator gives goes over empty squares to a square
/// that is empty or holds a piece of the other side.
proof fn lemma_slide_ray_moves(
    s: Seq<Occupant>,
    from: int,
    c: Color,
    f: int,
    r: int,
    df: int,
    dr: int,
    m: Move,
) -> (n: int)
    requires
        s.len() == 64,
        slide_ray(s, from, c, f, r, df, dr).contains(m),
    ensures
        n >= 1,
        on_board(f, r),
        unit_step(df, dr),
        ray_clear(s, f, r, df, dr, n - 1),
        on_board(ray_pos(f, df, n), ray_pos(r, dr, n)),
        m == plain_move(from, square_of(ray_pos(f, df, n), ray_pos(r, dr, n))),
        free_for(s, square_of(ray_pos(f, df, n), ray_pos(r, dr, n)), c),
    decreases crate::engine::rules::ray_room(f, r, df, dr),
{
    let nf = f + df;
    let nr = r + dr;
    let to = square_of(nf, nr);
    assert(ray_pos(f, df, 1) == nf && ray_pos(r, dr, 1) == nr);
    match s[to] {
        Some(_) => {
            assert(slide_ray(s, from, c, f, r, df, dr)[0] == m);
            1
        },
        None => {
            let first = seq![plain_move(from, to)];
            let rest = slide_ray(s, from, c, nf, nr, df, dr);
            lemma_seq_concat_contains_all_elements(first, rest, m);
            if first.contains(m) {
                assert(first[0] == m);
                1
            } else {
                let k = lemma_slide_ray_moves(s, from, c, nf, nr, df, dr, m);
                assert forall|j: int| 1 <= j <= k implies on_board(#[trigger] ray_pos(f, df, j), ray_pos(r, dr, j))
                    && s[square_of(ray_pos(f, df, j), ray_pos(r, dr, j))] is None by {
                    if j > 1 {
                        assert(ray_pos(f, df, j) == ray_pos(nf, df, j - 1));
                        assert(ray_pos(r, dr, j) == ray_pos(nr, dr, j - 1));
                    }
                }
                assert(ray_pos(f, df, k + 1) == ray_pos(nf, df, k));
                assert(ray_pos(r, dr, k + 1) == ray_pos(nr, dr, k));
                k + 1
            }
        },
    }
}

/// Every move of a rook, bishop or queen that the generator gives is a slide from its square
/// along one of its lines, over empty squares, onto a square that is empty or holds a piece
/// of the other side.
proof fn lemma_slide_moves_are_slides(
    s: Seq<Occupant>,
    from: int,
    c: Color,
    p: Piece,
    k: nat,
    m: Move,
)
    requires
        s.len() == 64,
        0 <= from < 64,
        p == Piece::Rook || p == Piece::Bishop || p == Piece::Queen,
        k <= (match p {
            Piece::Rook => rook_lines(),
            Piece::Bishop => bishop_lines(),
            _ => queen_lines(),
        }).len(),
        slide_moves_upto(
            s,
            from,
            c,
            match p {
                Piece::Rook => rook_lines(),
                Piece::Bishop => bishop_lines(),
                _ => queen_lines(),
            },
            k,
        ).contains(m),
    ensures
        m == step_move(from, m.to as int),
        0 <= m.to < 64,
        slides_along(p, m.to % 8 - from % 8, m.to / 8 - from / 8),
        path_clear(s, from, m.to % 8 - from % 8, m.to / 8 - from / 8),
        free_for(s, m.to as int, c),
    decreases k,
{
    let dirs = match p {
        Piece::Rook => rook_lines(),
        Piece::Bishop => bishop_lines(),
        _ => queen_lines(),
    };
    if k > 0 {
        let prev = slide_moves_upto(s, from, c, dirs, (k - 1) as nat);
        let f = from % 8;
        let r = from / 8;
        let (df, dr) = dirs[k - 1];
        let ray = slide_ray(s, from, c, f, r, df, dr);
        lemma_seq_concat_contains_all_elements(prev, ray, m);
        if prev.contains(m) {
            lemma_slide_moves_are_slides(s, from, c, p, (k - 1) as nat, m);
        } else {
            let n = lemma_slide_ray_moves(s, from, c, f, r, df, dr, m);
            let tf = ray_pos(f, df, n);
            let tr = ray_pos(r, dr, n);
            let t = square_of(tf, tr);
            lemma_square_coords(tf, tr);
            lemma_coords_square(from);
            assert(sign(tf - f) == df && sign(tr - r) == dr);
            assert(max_int(abs_int(tf - f), abs_int(tr - r)) == n);
            assert(slides_along(p, tf - f, tr - r));
            assert forall|j: int| 1 <= j < max_int(abs_int(tf - f), abs_int(tr - r)) implies s[square_of(
                #[trigger] ray_pos(from % 8, sign(tf - f), j),
                ray_pos(from / 8, sign(tr - r), j),
            )] is None by {}
        }
    }
}

/// Whether `m` is a move that a pawn of `c` on `from` may make, by the board's geometry:
/// one square forward onto an empty square, two from its starting rank over two empty
/// squares, or one rank forward on a file next to its own, taking a piece of the other side
/// or taking en passant onto the en passant square `ep`. A pawn reaching its last rank is
/// promoted, to a queen, rook, bishop or knight, and only then.
pub open spec fn pawn_move_like(s: Seq<Occupant>, ep: Option<usize>, c: Color, from: int, m: Move) -> bool {
    let to = m.to as int;
    let fwd = forward(c);
    let diagonal = to / 8 - from / 8 == fwd / 8 && abs_int(to % 8 - from % 8) == 1;
    &&& m.from == from
    &&& 0 <= to < 64
    &&& m.is_castling is None
    &&& !m.is_en_passant ==> (m.promotion is Some <==> to / 8 == last_rank(c))
    &&& m.is_en_passant ==> m.promotion is None
    &&& m.promotion matches Some(q) ==> (q == Piece::Queen || q == Piece::Rook || q == Piece::Bishop
        || q == Piece::Knight)
    &&& {
        ||| (!m.is_en_passant && to == from + fwd && s[to] is None)
        ||| (!m.is_en_passant && from / 8 == (if c == Color::White { 1int } else { 6int }) && to
            == from + 2 * fwd && s[from + fwd] is None && s[to] is None)
        ||| (!m.is_en_passant && diagonal && (s[to] matches Some((oc, _)) && oc != c))
        ||| (m.is_en_passant && diagonal && ep == Some(m.to))
    }
}

/// The arrivals of a pawn on `to` are moves from `from` to `to`, promoted exactly on the
/// last rank.
proof fn lemma_arrival_shape(from: int, to: int, c: Color, m: Move)
    requires
        0 <= from < 64,
        0 <= to < 64,
        pawn_arrivals(from, to, c).contains(m),
    ensures
        m.from == from,
        m.to == to,
        m.is_castling is None,
        !m.is_en_passant,
        m.promotion is Some <==> to / 8 == last_rank(c),
        m.promotion matches Some(q) ==> (q == Piece::Queen || q == Piece::Rook || q == Piece::Bishop
            || q == Piece::Knight),
{
    let arr = pawn_arrivals(from, to, c);
    let i = arr.index_of(m);
    assert(arr[i] == m);
}

/// Every pawn move that the generator gives is one the board's geometry allows.
proof fn lemma_pawn_moves_are_pawn_moves(s: Seq<Occupant>, ep: Option<usize>, c: Color, from: int, m: Move)
    requires
        s.len() == 64,
        0 <= from < 64,
        0 <= from + forward(c) < 64,
        pawn_moves(s, ep, from, c).contains(m),
    ensures
        pawn_move_like(s, ep, c, from, m),
{
    let fwd = forward(c);
    let pushes = pawn_pushes(s, from, c);
    let c1 = pawn_captures(s, ep, from, c, pawn_dir(c) + 1);
    let c2 = pawn_captures(s, ep, from, c, pawn_dir(c) - 1);
    lemma_seq_concat_contains_all_elements(pushes, c1, m);
    lemma_seq_concat_contains_all_elements(pushes + c1, c2, m);
    if pushes.contains(m) {
        let to = from + fwd;
        assert(s[to] is None);
        let arr = pawn_arrivals(from, to, c);
        let two = if from / 8 == start_rank(c) && s[from + 2 * pawn_dir(c)] is None {
            seq![plain_move(from, from + 2 * pawn_dir(c))]
        } else {
            seq![]
        };
        assert(pushes == arr + two);
        lemma_seq_concat_contains_all_elements(arr, two, m);
        if arr.contains(m) {
            lemma_arrival_shape(from, to, c, m);
        } else {
            assert(two[0] == m);
            lemma_square_parts(from + 2 * fwd, from);
        }
    } else {
        let offset = if c1.contains(m) { pawn_dir(c) + 1 } else { pawn_dir(c) - 1 };
        let cap = pawn_captures(s, ep, from, c, offset);
        assert(cap.contains(m));
        let t = from + offset;
        assert(0 <= t < 64 && abs_int(t % 8 - from % 8) == 1);
        lemma_square_parts(t, from);
        let first = match s[t] {
            Some((oc, _)) => if oc != c {
                pawn_arrivals(from, t, c)
            } else {
                seq![]
            },
            None => seq![],
        };
        let second = match ep {
            Some(e) => if t == e {
                seq![en_passant_move(from, e as int)]
            } else {
                seq![]
            },
            None => seq![],
        };
        assert(cap == first + second);
        lemma_seq_concat_contains_all_elements(first, second, m);
        if first.contains(m) {
            lemma_arrival_shape(from, t, c, m);
        } else {
            assert(second[0] == m);
        }
    }
}

/// Whether `m` is a move that the piece `p` of `c` on square `m.from` may make by the
/// geometry of the board, castling aside: a knight's jump, a king's step, a rook's, bishop's
/// or queen's slide over empty squares, or a pawn's move, each onto a square that is empty
/// or holds a piece of the other side.
pub open spec fn move_like(b: BoardModel, c: Color, p: Piece, m: Move) -> bool {
    let from = m.from as int;
    let to = m.to as int;
    let df = to % 8 - from % 8;
    let dr = to / 8 - from / 8;
    match p {
        Piece::Pawn => pawn_move_like(b.squares, b.en_passant, c, from, m),
        Piece::Knight => {
            &&& m == step_move(from, to)
            &&& 0 <= to < 64
            &&& (abs_int(df) == 1 && abs_int(dr) == 2) || (abs_int(df) == 2 && abs_int(dr) == 1)
            &&& free_for(b.squares, to, c)
        },
        Piece::King => {
            &&& m == step_move(from, to)
            &&& 0 <= to < 64
            &&& to != from
            &&& abs_int(df) <= 1 && abs_int(dr) <= 1
            &&& free_for(b.squares, to, c)
        },
        _ => {
            &&& m == step_move(from, to)
            &&& 0 <= to < 64
            &&& slides_along(p, df, dr)
            &&& path_clear(b.squares, from, df, dr)
            &&& free_for(b.squares, to, c)
        },
    }
}

/// A move among those of the pieces on the first `n` squares is a move of one of them.
proof fn lemma_piece_move_square(s: Seq<Occupant>, ep: Option<usize>, c: Color, n: nat, m: Move) -> (sq: int)
    requires
        piece_moves_upto(s, ep, c, n).contains(m),
    ensures
        0 <= sq < n,
        square_moves(s, ep, c, sq).contains(m),
    decreases n,
{
    if n == 0 {
        0
    } else {
        let prev = piece_moves_upto(s, ep, c, (n - 1) as nat);
        lemma_seq_concat_contains_all_elements(prev, square_moves(s, ep, c, n - 1), m);
        if prev.contains(m) {
            lemma_piece_move_square(s, ep, c, (n - 1) as nat, m)
        } else {
            n - 1
        }
    }
}

/// Every move that the generator gives, castling aside, is a move that the piece on its
/// origin, a piece of the side to move, may make by the geometry of the board.
pub proof fn lemma_generated_moves_are_geometric(b: BoardModel, c: Color, m: Move)
    requires
        generable(b, c),
        pseudo_moves(b, c).contains(m),
        m.is_castling is None,
    ensures
        m.from < 64,
        b.squares[m.from as int] matches Some((pc, p)) && pc == c && move_like(b, c, p, m),
{
    let s = b.squares;
    let ep = b.en_passant;
    let pieces = piece_moves_upto(s, ep, c, 64);
    let cm = castling_moves(b, c);
    lemma_seq_concat_contains_all_elements(pieces, cm, m);
    if cm.contains(m) {
        let i = cm.index_of(m);
        assert(cm[i] == m);
    }
    assert(pieces.contains(m));
    let sq = lemma_piece_move_square(s, ep, c, 64, m);
    let sm = square_moves(s, ep, c, sq);
    assert(s[sq] matches Some((pc, _)) && pc == c);
    let p = s[sq]->Some_0.1;
    assert(sm == piece_moves(s, ep, sq, c, p));
    match p {
        Piece::Pawn => {
            assert(s[sq] == Some((c, Piece::Pawn)));
            lemma_pawn_moves_are_pawn_moves(s, ep, c, sq, m);
        },
        Piece::Knight => {
            lemma_knight_moves_are_jumps(s, sq, c, 8, m);
        },
        Piece::King => {
            lemma_king_moves_are_steps(s, sq, c, 8, m);
        },
        Piece::Rook => {
            lemma_slide_moves_are_slides(s, sq, c, p, 4, m);
        },
        Piece::Bishop => {
            lemma_slide_moves_are_slides(s, sq, c, p, 4, m);
        },
        Piece::Queen => {
            lemma_slide_moves_are_slides(s, sq, c, p, 8, m);
        },
    }
}

} // verus!
