//! What holds of the rules engine as a whole, proved over the definitions that the
//! engine's functions are held to.
use vstd::prelude::*;
use vstd::seq_lib::lemma_seq_concat_contains_all_elements;

use crate::engine::board::{
    apply_outcome, BoardModel, castling_squares, Color, en_passant_victim, GameStatus,
    opposite_color, Piece, Square, squares_after,
};
use crate::engine::game::{board_after, game_after_move, GameModel, legal_moves_from_of};
use crate::engine::moves::{CastlingType, Move};
use crate::engine::rules::{
    attacked, black_king_side_ok, black_queen_side_ok, castle_move, castling_moves, in_check_on,
    keeps_king_safe, king_square, legal_moves_of, open_to, piece_moves_upto, promotion_rank,
    pseudo_moves, status_of, white_king_side_ok, white_queen_side_ok,
};
use crate::engine::geometry::{attacked_by_geometry, lemma_attacked_is_geometric};
use crate::engine::soundness::{
    king_only_at, lemma_move_sound, lemma_pseudo_moves_sound, one_king, sound_move,
    sound_position,
};

verus! {

/// A legal move of a sound position is one the generator gives, can be made, leaves the
/// mover's king unattacked and has the shape of a generated move.
pub proof fn lemma_legal_move_facts(b: BoardModel, m: Move)
    requires
        sound_position(b),
        legal_moves_of(b).contains(m),
    ensures
        pseudo_moves(b, b.side_to_move).contains(m),
        keeps_king_safe(b, m),
        sound_move(b, b.side_to_move, m),
{
    let keep = |mv: Move| keeps_king_safe(b, mv);
    let ps = pseudo_moves(b, b.side_to_move);
    ps.lemma_filter_contains_rev(keep, m);
    let i = ps.filter(keep).index_of(m);
    ps.lemma_filter_pred(keep, i);
    lemma_pseudo_moves_sound(b, b.side_to_move);
    let j = ps.index_of(m);
    assert(sound_move(b, b.side_to_move, ps[j]));
}

/// No legal move leaves the mover's own king in check.
pub proof fn lemma_legal_moves_leave_king_safe(b: BoardModel, m: Move)
    requires
        legal_moves_of(b).contains(m),
    ensures
        apply_outcome(b, m) is Ok,
        !in_check_on(apply_outcome(b, m)->Ok_0.squares, b.side_to_move),
{
    let keep = |mv: Move| keeps_king_safe(b, mv);
    let ps = pseudo_moves(b, b.side_to_move);
    let i = ps.filter(keep).index_of(m);
    ps.lemma_filter_pred(keep, i);
}

/// A move that the generator gives and that keeps the mover's king unattacked is legal.
pub proof fn lemma_safe_generated_moves_are_legal(b: BoardModel, m: Move)
    requires
        pseudo_moves(b, b.side_to_move).contains(m),
        keeps_king_safe(b, m),
    ensures
        legal_moves_of(b).contains(m),
{
    let keep = |mv: Move| keeps_king_safe(b, mv);
    let ps = pseudo_moves(b, b.side_to_move);
    let i = ps.index_of(m);
    ps.lemma_filter_contains(keep, i);
}

/// The status of a position: checkmate when the side to move is in check and has no legal
/// move, stalemate when it is not in check and has none, check when it is in check and has
/// one, ongoing otherwise; a position alone is never a draw.
pub proof fn lemma_status_meaning(b: BoardModel)
    ensures
        (status_of(b) == GameStatus::Checkmate) <==> (in_check_on(b.squares, b.side_to_move)
            && legal_moves_of(b).len() == 0),
        (status_of(b) == GameStatus::Stalemate) <==> (!in_check_on(b.squares, b.side_to_move)
            && legal_moves_of(b).len() == 0),
        (status_of(b) == GameStatus::Check) <==> (in_check_on(b.squares, b.side_to_move)
            && legal_moves_of(b).len() > 0),
        (status_of(b) == GameStatus::Ongoing) <==> (!in_check_on(b.squares, b.side_to_move)
            && legal_moves_of(b).len() > 0),
        status_of(b) != GameStatus::Draw,
{
}

/// The legal moves from a square are exactly the legal moves that start there.
pub proof fn lemma_legal_moves_from_square(b: BoardModel, sq: Square, m: Move)
    ensures
        legal_moves_from_of(b, sq).contains(m) <==> (legal_moves_of(b).contains(m) && m.from == sq),
{
    let keep = |mv: Move| mv.from == sq;
    let all = legal_moves_of(b);
    if legal_moves_from_of(b, sq).contains(m) {
        all.lemma_filter_contains_rev(keep, m);
        let i = all.filter(keep).index_of(m);
        all.lemma_filter_pred(keep, i);
    }
    if all.contains(m) && m.from == sq {
        let i = all.index_of(m);
        all.lemma_filter_contains(keep, i);
    }
}

/// A legal move moves a piece of the side to move from one square to another, onto an empty
/// square or a piece of the other side, and never onto a king.
pub proof fn lemma_legal_move_shape(b: BoardModel, m: Move)
    requires
        sound_position(b),
        legal_moves_of(b).contains(m),
    ensures
        m.from < 64,
        m.to < 64,
        m.from != m.to,
        b.squares[m.from as int] matches Some((c, _)) && c == b.side_to_move,
        open_to(b.squares, m.to as int, b.side_to_move),
        !(b.squares[m.to as int] matches Some((_, p)) && p == Piece::King),
{
    lemma_legal_move_facts(b, m);
    let s = b.squares;
    let c = b.side_to_move;
    if s[m.to as int] == Some((opposite_color(c), Piece::King)) {
        let y = opposite_color(c);
        assert(king_only_at(s, y, king_square(s, y)));
        assert(attacked(s, m.to as int, c));
        assert(opposite_color(b.side_to_move) == y);
    }
}

/// A pawn that reaches its last rank is promoted, to a queen, rook, bishop or knight.
pub proof fn lemma_pawns_promote_on_last_rank(b: BoardModel, m: Move)
    requires
        sound_position(b),
        legal_moves_of(b).contains(m),
        b.squares[m.from as int] == Some((b.side_to_move, Piece::Pawn)),
        m.to / 8 == promotion_rank(b.side_to_move),
    ensures
        m.promotion matches Some(q) && (q == Piece::Queen || q == Piece::Rook || q == Piece::Bishop
            || q == Piece::Knight),
{
    lemma_legal_move_facts(b, m);
}

/// A castling that can be played moves the king of the side to move from its starting
/// square two squares towards a rook, and only when that side may castle there: the right
/// held, king and rook on their squares, the squares between them empty, and the king's
/// square and the two it crosses unattacked.
pub proof fn lemma_legal_castling(b: BoardModel, m: Move)
    requires
        sound_position(b),
        legal_moves_of(b).contains(m),
        m.is_castling is Some,
    ensures
        ({
            let c = b.side_to_move;
            let ct = m.is_castling->Some_0;
            &&& m == castle_move((if c == Color::White { 4int } else { 60int }), castling_target(c, ct), ct)
            &&& may_castle(b, c, ct)
        }),
{
    lemma_legal_move_facts(b, m);
    let c = b.side_to_move;
    lemma_generated_castling(b, c, m.is_castling->Some_0);
    assert(castling_moves(b, c).contains(m));
    let i = castling_moves(b, c).index_of(m);
    assert(castling_moves(b, c)[i] == m);
}

/// An en passant capture is a pawn's, onto the en passant square.
pub proof fn lemma_legal_en_passant(b: BoardModel, m: Move)
    requires
        sound_position(b),
        legal_moves_of(b).contains(m),
        m.is_en_passant,
    ensures
        b.squares[m.from as int] == Some((b.side_to_move, Piece::Pawn)),
        b.en_passant == Some(m.to),
        b.squares[m.to as int] is None,
{
    lemma_legal_move_facts(b, m);
}

/// After a legal move the other side is to move.
pub proof fn lemma_turns_alternate(b: BoardModel, m: Move)
    requires
        legal_moves_of(b).contains(m),
    ensures
        board_after(b, m).side_to_move == opposite_color(b.side_to_move),
{
}

/// The other colour of the other colour is the colour itself.
pub proof fn lemma_opposite_twice(c: Color)
    ensures
        opposite_color(opposite_color(c)) == c,
        opposite_color(c) != c,
{
}

/// Whether `c` may castle on side `ct` in `b`: the right is held, the king stands on its
/// starting square and the rook in its corner, the squares between them are empty, and no
/// piece of the other side attacks the king's square or the two squares it crosses.
pub open spec fn may_castle(b: BoardModel, c: Color, ct: CastlingType) -> bool {
    let s = b.squares;
    let base: int = if c == Color::White { 0 } else { 56 };
    let y = opposite_color(c);
    let right = match (c, ct) {
        (Color::White, CastlingType::KingSide) => b.castling.white_king,
        (Color::White, CastlingType::QueenSide) => b.castling.white_queen,
        (Color::Black, CastlingType::KingSide) => b.castling.black_king,
        (Color::Black, CastlingType::QueenSide) => b.castling.black_queen,
    };
    &&& right
    &&& s[base + 4] == Some((c, Piece::King))
    &&& !attacked_by_geometry(s, base + 4, y)
    &&& match ct {
        CastlingType::KingSide => {
            &&& s[base + 7] == Some((c, Piece::Rook))
            &&& s[base + 5] is None
            &&& s[base + 6] is None
            &&& !attacked_by_geometry(s, base + 5, y)
            &&& !attacked_by_geometry(s, base + 6, y)
        },
        CastlingType::QueenSide => {
            &&& s[base] == Some((c, Piece::Rook))
            &&& s[base + 1] is None
            &&& s[base + 2] is None
            &&& s[base + 3] is None
            &&& !attacked_by_geometry(s, base + 3, y)
            &&& !attacked_by_geometry(s, base + 2, y)
        },
    }
}

/// The king's destination in a castling of `c` on side `ct`: two squares towards the rook.
pub open spec fn castling_target(c: Color, ct: CastlingType) -> int {
    (if c == Color::White { 0int } else { 56int }) + match ct {
        CastlingType::KingSide => 6int,
        CastlingType::QueenSide => 2int,
    }
}

/// The generator offers a castling exactly when that castling is allowed: the castling moves
/// it gives are the king's two-square moves of the sides that may castle.
pub proof fn lemma_generated_castling(b: BoardModel, c: Color, ct: CastlingType)
    requires
        sound_position(b),
    ensures
        pseudo_moves(b, c).contains(
            castle_move((if c == Color::White { 4int } else { 60int }), castling_target(c, ct), ct),
        ) <==> may_castle(b, c, ct),
{
    let s = b.squares;
    let base: int = if c == Color::White { 0 } else { 56 };
    let y = opposite_color(c);
    lemma_attacked_is_geometric(s, base + 4, y);
    lemma_attacked_is_geometric(s, base + 5, y);
    lemma_attacked_is_geometric(s, base + 6, y);
    lemma_attacked_is_geometric(s, base + 3, y);
    lemma_attacked_is_geometric(s, base + 2, y);
    let ok = match (c, ct) {
        (Color::White, CastlingType::KingSide) => white_king_side_ok(b),
        (Color::White, CastlingType::QueenSide) => white_queen_side_ok(b),
        (Color::Black, CastlingType::KingSide) => black_king_side_ok(b),
        (Color::Black, CastlingType::QueenSide) => black_queen_side_ok(b),
    };
    if c == Color::White {
        if ct == CastlingType::KingSide {
            assert(seq![5int, 6int][0] == 5 && seq![5int, 6int][1] == 6);
        } else {
            assert(seq![3int, 2int, 1int][0] == 3 && seq![3int, 2int, 1int][1] == 2 && seq![3int, 2int, 1int][2] == 1);
        }
    } else {
        if ct == CastlingType::KingSide {
            assert(seq![61int, 62int][0] == 61 && seq![61int, 62int][1] == 62);
        } else {
            assert(seq![59int, 58int, 57int][0] == 59 && seq![59int, 58int, 57int][1] == 58 && seq![59int, 58int, 57int][2] == 57);
        }
    }
    assert(ok == may_castle(b, c, ct));
    let m = castle_move(base + 4, castling_target(c, ct), ct);
    let pieces = piece_moves_upto(b.squares, b.en_passant, c, 64);
    let cm = castling_moves(b, c);
    lemma_seq_concat_contains_all_elements(pieces, cm, m);
    if pseudo_moves(b, c).contains(m) {
        lemma_pseudo_moves_sound(b, c);
        let j = pseudo_moves(b, c).index_of(m);
        assert(sound_move(b, c, pseudo_moves(b, c)[j]));
        assert(cm.contains(m));
        let i = cm.index_of(m);
        assert(cm[i] == m);
    }
    if ok {
        if ct == CastlingType::KingSide {
            assert(cm[0] == m);
        } else {
            assert(cm[cm.len() - 1] == m);
        }
        assert(cm.contains(m));
    }
}

/// Every move the generator gives goes from a piece of the mover to another square, onto an
/// empty square or a piece of the other side unless it castles; a promotion is a pawn's,
/// onto its last rank, to a queen, rook, bishop or knight; an en passant capture goes to the
/// en passant square.
pub proof fn lemma_generated_move_shape(b: BoardModel, c: Color, m: Move)
    requires
        sound_position(b),
        pseudo_moves(b, c).contains(m),
    ensures
        m.from < 64,
        m.to < 64,
        m.from != m.to,
        b.squares[m.from as int] matches Some((mc, _)) && mc == c,
        m.is_castling is None ==> open_to(b.squares, m.to as int, c),
        m.promotion matches Some(q) ==> b.squares[m.from as int] == Some((c, Piece::Pawn)) && m.to
            / 8 == promotion_rank(c) && q != Piece::King && q != Piece::Pawn,
        m.is_en_passant ==> b.en_passant == Some(m.to),
{
    lemma_pseudo_moves_sound(b, c);
    let j = pseudo_moves(b, c).index_of(m);
    assert(sound_move(b, c, pseudo_moves(b, c)[j]));
}

/// Castling rights are only ever lost: a move keeps no right that was not held, a king move
/// loses both of its side's rights, a rook move from its corner loses that corner's right,
/// and a castling loses both rights of the side that castles.
pub proof fn lemma_castling_rights_only_lost(b: BoardModel, m: Move)
    requires
        apply_outcome(b, m) is Ok,
    ensures
        ({
            let a = apply_outcome(b, m)->Ok_0.castling;
            let piece = b.squares[m.from as int]->Some_0;
            &&& a.white_king ==> b.castling.white_king
            &&& a.white_queen ==> b.castling.white_queen
            &&& a.black_king ==> b.castling.black_king
            &&& a.black_queen ==> b.castling.black_queen
            &&& (piece.1 == Piece::King || m.is_castling is Some) ==> (if piece.0 == Color::White {
                !a.white_king && !a.white_queen
            } else {
                !a.black_king && !a.black_queen
            })
            &&& (piece.1 == Piece::Rook && m.is_castling is None) ==> {
                &&& (piece.0 == Color::White && m.from == 0) ==> !a.white_queen
                &&& (piece.0 == Color::White && m.from == 7) ==> !a.white_king
                &&& (piece.0 == Color::Black && m.from == 56) ==> !a.black_queen
                &&& (piece.0 == Color::Black && m.from == 63) ==> !a.black_king
            }
        }),
{
}

/// Once a legal move is made, the other side is to move and the game's status is the status
/// of the new position.
pub proof fn lemma_move_passes_turn(g: GameModel, m: Move)
    ensures
        game_after_move(g, m).board.side_to_move == opposite_color(g.board.side_to_move),
        game_after_move(g, m).status == status_of(game_after_move(g, m).board),
{
}

/// Making an ordinary move puts the moving piece on its destination, as the piece the move
/// promotes it to if it names one, always in the mover's colour; the origin is left empty,
/// an en passant capture also empties the square of the pawn it takes (the square behind
/// the destination, seen from the mover), and every other square keeps what it held. A
/// pawn's two-square advance leaves the square it passed over open to en passant, any other
/// move leaves none, and a Black move counts up the full-move number.
pub proof fn lemma_move_lands(b: BoardModel, m: Move)
    requires
        b.squares.len() == 64,
        m.from < 64,
        m.to < 64,
        m.from != m.to,
        b.squares[m.from as int] is Some,
        m.is_castling is None,
        m.is_en_passant ==> 0 <= en_passant_victim(b.squares[m.from as int]->Some_0.0, m.to as int) < 64,
    ensures
        apply_outcome(b, m) is Ok,
        ({
            let a = apply_outcome(b, m)->Ok_0.squares;
            let (c, p) = b.squares[m.from as int]->Some_0;
            let victim: int = if c == Color::White { m.to - 8 } else { m.to + 8 };
            &&& a.len() == 64
            &&& a[m.to as int] == Some((c, match m.promotion {
                Some(q) => q,
                None => p,
            }))
            &&& a[m.from as int] is None
            &&& (m.is_en_passant && victim != m.to) ==> a[victim] is None
            &&& forall|i: int|
                0 <= i < 64 && i != m.from && i != m.to && !(m.is_en_passant && i == victim)
                    ==> #[trigger] a[i] == b.squares[i]
        }),
        ({
            let after = apply_outcome(b, m)->Ok_0;
            let (c, p) = b.squares[m.from as int]->Some_0;
            &&& (p == Piece::Pawn && m.to == m.from + 16) ==> after.en_passant == Some((m.from + 8) as usize)
            &&& (p == Piece::Pawn && m.from == m.to + 16) ==> after.en_passant == Some((m.from - 8) as usize)
            &&& !(p == Piece::Pawn && (m.to == m.from + 16 || m.from == m.to + 16)) ==> after.en_passant is None
            &&& after.full_move_number == b.full_move_number + (if c == Color::Black { 1int } else { 0int })
            &&& after.side_to_move == b.side_to_move
        }),
{
    let piece = b.squares[m.from as int]->Some_0;
    let a = apply_outcome(b, m)->Ok_0.squares;
    assert(a == squares_after(b, m, piece));
    assert(en_passant_victim(piece.0, m.to as int) == if piece.0 == Color::White {
        m.to - 8
    } else {
        m.to + 8
    });
}

/// Castling moves the king two squares towards the rook and the rook onto the square the
/// king crossed, on the back rank of the side whose king castles; the king's and the rook's
/// starting squares are left empty, and every other square keeps what it held.
pub proof fn lemma_castling_lands(b: BoardModel, m: Move)
    requires
        b.squares.len() == 64,
        m.from < 64,
        b.squares[m.from as int] is Some,
        m.is_castling is Some,
    ensures
        apply_outcome(b, m) is Ok,
        ({
            let a = apply_outcome(b, m)->Ok_0.squares;
            let c = b.squares[m.from as int]->Some_0.0;
            let base: int = if c == Color::White { 0 } else { 56 };
            let s = b.squares;
            &&& a[base + 4] is None
            &&& m.is_castling == Some(CastlingType::KingSide) ==> {
                &&& a[base + 6] == s[base + 4]
                &&& a[base + 5] == s[base + 7]
                &&& a[base + 7] is None
                &&& forall|i: int| 0 <= i < 64 && !(base + 4 <= i <= base + 7) ==> #[trigger] a[i] == s[i]
            }
            &&& m.is_castling == Some(CastlingType::QueenSide) ==> {
                &&& a[base + 2] == s[base + 4]
                &&& a[base + 3] == s[base]
                &&& a[base] is None
                &&& forall|i: int| 0 <= i < 64 && !(base <= i <= base + 4) ==> #[trigger] a[i] == s[i]
            }
        }),
{
}

/// No legal move leaves the mover's king attacked, by the geometry of the board: once the
/// move is made, no piece of the other side attacks the square of the mover's king.
pub proof fn lemma_legal_moves_leave_king_unattacked(b: BoardModel, m: Move)
    requires
        sound_position(b),
        legal_moves_of(b).contains(m),
    ensures
        apply_outcome(b, m) is Ok,
        forall|k: int|
            0 <= k < 64 && #[trigger] apply_outcome(b, m)->Ok_0.squares[k] == Some((b.side_to_move, Piece::King))
                ==> !attacked_by_geometry(apply_outcome(b, m)->Ok_0.squares, k, opposite_color(b.side_to_move)),
{
    lemma_legal_move_facts(b, m);
    lemma_move_sound(b, m);
    let c = b.side_to_move;
    let s1 = apply_outcome(b, m)->Ok_0.squares;
    let kc = king_square(s1, c);
    assert(one_king(s1, c)) by {
        if c == Color::White {
        } else {
        }
    }
    assert(king_only_at(s1, c, kc));
    lemma_attacked_is_geometric(s1, kc, opposite_color(c));
}

} // verus!
