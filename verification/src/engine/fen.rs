//! Reading a position in Forsyth-Edwards Notation.
use vstd::prelude::*;

use crate::engine::board::{
    full_castling_rights, Board, BoardModel, CastlingRights, Color, Occupant, Piece,
};

verus! {

/// Why a FEN text was refused.
#[derive(Debug, Clone, Copy, PartialEq, Eq, Structural)]
pub enum FenError {
    /// The text does not have six whitespace-separated fields.
    InvalidFen,
    /// The placement field does not have eight ranks separated by `/`.
    WrongNumberOfRanks,
    /// A character of the placement field is neither a digit nor a piece letter.
    InvalidPiece,
    /// The side to move is neither `w` nor `b`.
    InvalidSideToMove,
    /// A piece of the placement field falls past the last square of the board.
    PieceOffBoard,
}

/// Whether `c` is white space in Unicode's sense (the property `White_Space`).
pub open spec fn is_space_char(c: char) -> bool {
    let u = c as u32;
    ||| u == 0x20
    ||| 0x09 <= u <= 0x0d
    ||| u == 0x85
    ||| u == 0xa0
    ||| u == 0x1680
    ||| 0x2000 <= u <= 0x200a
    ||| u == 0x2028
    ||| u == 0x2029
    ||| u == 0x202f
    ||| u == 0x205f
    ||| u == 0x3000
}

/// Scanning the first `n` characters for runs of non-space characters: the spans
/// `[start, end)` of the runs already closed, and the start of the run still open.
pub open spec fn space_scan(s: Seq<char>, n: int) -> (Seq<(int, int)>, Option<int>)
    decreases n,
{
    if n <= 0 {
        (seq![], None)
    } else {
        let (spans, open) = space_scan(s, n - 1);
        if is_space_char(s[n - 1]) {
            match open {
                Some(st) => (spans.push((st, n - 1)), None),
                None => (spans, None),
            }
        } else {
            match open {
                Some(st) => (spans, Some(st)),
                None => (spans, Some(n - 1)),
            }
        }
    }
}

/// The spans of the maximal runs of non-space characters of `s`.
pub open spec fn field_spans(s: Seq<char>) -> Seq<(int, int)> {
    let (spans, open) = space_scan(s, s.len() as int);
    match open {
        Some(st) => spans.push((st, s.len() as int)),
        None => spans,
    }
}

/// The whitespace-separated fields of `s`, empty ones left out.
pub open spec fn fields(s: Seq<char>) -> Seq<Seq<char>> {
    field_spans(s).map_values(|p: (int, int)| s.subrange(p.0, p.1))
}

/// Scanning the first `n` characters for the pieces between slashes: the spans of the
/// pieces already closed, and the start of the current one.
pub open spec fn slash_scan(s: Seq<char>, n: int) -> (Seq<(int, int)>, int)
    decreases n,
{
    if n <= 0 {
        (seq![], 0)
    } else {
        let (spans, st) = slash_scan(s, n - 1);
        if s[n - 1] == '/' {
            (spans.push((st, n - 1)), n)
        } else {
            (spans, st)
        }
    }
}

/// The pieces of `s` between slashes, empty ones kept.
pub open spec fn slash_pieces(s: Seq<char>) -> Seq<Seq<char>> {
    let (spans, st) = slash_scan(s, s.len() as int);
    spans.push((st, s.len() as int)).map_values(|p: (int, int)| s.subrange(p.0, p.1))
}

pub open spec fn is_digit_char(c: char) -> bool {
    48 <= c as u32 <= 57
}

pub open spec fn digit_of(c: char) -> int {
    c as u32 - 48
}

/// The piece that a letter of the placement field names: upper case for White.
pub open spec fn piece_letter(c: char) -> Option<(Color, Piece)> {
    if c == 'P' {
        Some((Color::White, Piece::Pawn))
    } else if c == 'N' {
        Some((Color::White, Piece::Knight))
    } else if c == 'B' {
        Some((Color::White, Piece::Bishop))
    } else if c == 'R' {
        Some((Color::White, Piece::Rook))
    } else if c == 'Q' {
        Some((Color::White, Piece::Queen))
    } else if c == 'K' {
        Some((Color::White, Piece::King))
    } else if c == 'p' {
        Some((Color::Black, Piece::Pawn))
    } else if c == 'n' {
        Some((Color::Black, Piece::Knight))
    } else if c == 'b' {
        Some((Color::Black, Piece::Bishop))
    } else if c == 'r' {
        Some((Color::Black, Piece::Rook))
    } else if c == 'q' {
        Some((Color::Black, Piece::Queen))
    } else if c == 'k' {
        Some((Color::Black, Piece::King))
    } else {
        None
    }
}

/// What stops the reading of the placement field.
#[derive(Debug, Clone, Copy, PartialEq, Eq, Structural)]
pub enum PlacementFault {
    /// A character is neither a digit nor a piece letter.
    BadCharacter,
    /// A piece falls past the last square of the board.
    PastTheBoard,
}

/// The state of reading the placement field: the squares filled so far, the file reached
/// in the current rank, and what stopped the reading, if anything did.
pub ghost struct Placement {
    pub squares: Seq<Occupant>,
    pub file: int,
    pub fault: Option<PlacementFault>,
}

/// One character of a rank read at rank `rank_idx`: a digit skips that many files, a piece
/// letter puts its piece on the current square and moves one file on. Files are not held
/// to the rank: a rank that runs past its eighth file goes on into the ranks above, and
/// only a piece past the last square of the board stops the reading.
pub open spec fn place_char(p: Placement, c: char, rank_idx: int) -> Placement {
    if is_digit_char(c) {
        Placement { file: p.file + digit_of(c), ..p }
    } else {
        match piece_letter(c) {
            None => Placement { fault: Some(PlacementFault::BadCharacter), ..p },
            Some(piece) => {
                let sq = rank_idx * 8 + p.file;
                if sq >= 64 {
                    Placement { fault: Some(PlacementFault::PastTheBoard), ..p }
                } else {
                    Placement { squares: p.squares.update(sq, Some(piece)), file: p.file + 1, ..p }
                }
            },
        }
    }
}

/// The first `n` characters of a rank read at rank `rank_idx`, from file 0 on `start`.
pub open spec fn rank_scan(start: Seq<Occupant>, rank: Seq<char>, rank_idx: int, n: int) -> Placement
    decreases n,
{
    if n <= 0 {
        Placement { squares: start, file: 0, fault: None }
    } else {
        let p = rank_scan(start, rank, rank_idx, n - 1);
        if p.fault is Some {
            p
        } else {
            place_char(p, rank[n - 1], rank_idx)
        }
    }
}

pub open spec fn empty_squares() -> Seq<Occupant> {
    Seq::new(64, |i: int| None)
}

/// The first `n` ranks read, the first one as the eighth rank.
pub open spec fn ranks_scan(ranks: Seq<Seq<char>>, n: int) -> Placement
    decreases n,
{
    if n <= 0 {
        Placement { squares: empty_squares(), file: 0, fault: None }
    } else {
        let p = ranks_scan(ranks, n - 1);
        if p.fault is Some {
            p
        } else {
            rank_scan(p.squares, ranks[n - 1], 7 - (n - 1), ranks[n - 1].len() as int)
        }
    }
}

/// The number that a decimal digit string denotes.
pub open spec fn digits_value(d: Seq<char>) -> int
    decreases d.len(),
{
    if d.len() == 0 {
        0
    } else {
        digits_value(d.drop_last()) * 10 + digit_of(d.last())
    }
}

/// The digits of an unsigned number: the text without a leading `+`.
pub open spec fn unsigned_digits(t: Seq<char>) -> Seq<char> {
    if t.len() > 0 && t[0] == '+' {
        t.drop_first()
    } else {
        t
    }
}

pub open spec fn all_digits(d: Seq<char>) -> bool {
    forall|i: int| 0 <= i < d.len() ==> is_digit_char(#[trigger] d[i])
}

/// What reading `t` as a `u32` gives: an optional `+`, then one or more decimal digits
/// whose value fits.
pub open spec fn parse_u32(t: Seq<char>) -> Option<u32> {
    let d = unsigned_digits(t);
    if d.len() > 0 && all_digits(d) && digits_value(d) <= u32::MAX {
        Some(digits_value(d) as u32)
    } else {
        None
    }
}

/// The placement of a FEN text with six fields and eight ranks.
pub open spec fn fen_placement(s: Seq<char>) -> Placement {
    ranks_scan(slash_pieces(fields(s)[0]), 8)
}

/// What reading `s` gives: the position, with every castling right and no en passant
/// square whatever the third and fourth fields say, and the clocks read from the fifth and
/// sixth fields (0 and 1 where they do not read as numbers); or why it is refused.
pub open spec fn fen_outcome(s: Seq<char>) -> Result<BoardModel, FenError> {
    let f = fields(s);
    if f.len() != 6 {
        Err(FenError::InvalidFen)
    } else if slash_pieces(f[0]).len() != 8 {
        Err(FenError::WrongNumberOfRanks)
    } else if fen_placement(s).fault == Some(PlacementFault::BadCharacter) {
        Err(FenError::InvalidPiece)
    } else if fen_placement(s).fault == Some(PlacementFault::PastTheBoard) {
        Err(FenError::PieceOffBoard)
    } else if f[1] != seq!['w'] && f[1] != seq!['b'] {
        Err(FenError::InvalidSideToMove)
    } else {
        Ok(
            BoardModel {
                squares: fen_placement(s).squares,
                castling: full_castling_rights(),
                en_passant: None,
                half_move_clock: match parse_u32(f[4]) {
                    Some(v) => v as nat,
                    None => 0,
                },
                full_move_number: match parse_u32(f[5]) {
                    Some(v) => v as nat,
                    None => 1,
                },
                side_to_move: if f[1] == seq!['w'] {
                    Color::White
                } else {
                    Color::Black
                },
            },
        )
    }
}


/// Spans as integers.
pub open spec fn spans_int(v: Seq<(usize, usize)>) -> Seq<(int, int)> {
    v.map_values(|p: (usize, usize)| (p.0 as int, p.1 as int))
}

/// Whether every span lies within `0..=n` and does not run backwards.
pub open spec fn spans_within(v: Seq<(usize, usize)>, n: int) -> bool {
    forall|k: int| 0 <= k < v.len() ==> #[trigger] v[k].0 <= v[k].1 <= n
}

fn is_space_char_exec(c: char) -> (r: bool)
    ensures
        r == is_space_char(c),
{
    let u = c as u32;
    u == 0x20 || (0x09 <= u && u <= 0x0d) || u == 0x85 || u == 0xa0 || u == 0x1680 || (0x2000 <= u
        && u <= 0x200a) || u == 0x2028 || u == 0x2029 || u == 0x202f || u == 0x205f || u == 0x3000
}

/// The spans of the whitespace-separated fields of `cs`.
fn field_spans_of(cs: &Vec<char>) -> (spans: Vec<(usize, usize)>)
    ensures
        spans_int(spans@) == field_spans(cs@),
        spans_within(spans@, cs@.len() as int),
{
    let mut spans: Vec<(usize, usize)> = Vec::new();
    let mut open: Option<usize> = None;
    let mut i: usize = 0;
    while i < cs.len()
        invariant
            i <= cs@.len(),
            spans_int(spans@) == space_scan(cs@, i as int).0,
            match open {
                Some(st) => space_scan(cs@, i as int).1 == Some(st as int) && st < i,
                None => space_scan(cs@, i as int).1 is None,
            },
            spans_within(spans@, i as int),
        decreases cs@.len() - i,
    {
        let ghost before = spans@;
        if is_space_char_exec(cs[i]) {
            if let Some(st) = open {
                spans.push((st, i));
                open = None;
                assert(spans_int(spans@) =~= spans_int(before).push((st as int, i as int)));
            }
        } else {
            if open.is_none() {
                open = Some(i);
            }
        }
        i += 1;
    }
    if let Some(st) = open {
        let ghost before = spans@;
        spans.push((st, cs.len()));
        assert(spans_int(spans@) =~= spans_int(before).push((st as int, cs@.len() as int)));
    }
    spans
}

/// The spans of the pieces of `cs` between slashes.
fn slash_spans_of(cs: &Vec<char>) -> (spans: Vec<(usize, usize)>)
    ensures
        spans_int(spans@) == ({
            let (sp, st) = slash_scan(cs@, cs@.len() as int);
            sp.push((st, cs@.len() as int))
        }),
        spans_within(spans@, cs@.len() as int),
{
    let mut spans: Vec<(usize, usize)> = Vec::new();
    let mut start: usize = 0;
    let mut i: usize = 0;
    while i < cs.len()
        invariant
            i <= cs@.len(),
            spans_int(spans@) == slash_scan(cs@, i as int).0,
            start as int == slash_scan(cs@, i as int).1,
            start <= i,
            spans_within(spans@, i as int),
        decreases cs@.len() - i,
    {
        let ghost before = spans@;
        if cs[i] == '/' {
            spans.push((start, i));
            assert(spans@ == before.push((start, i)));
            assert(spans_within(spans@, i + 1)) by {
                assert forall|k: int| 0 <= k < spans@.len() implies #[trigger] spans@[k].0 <= spans@[k].1 <= i + 1 by {
                    if k < before.len() {
                        assert(spans@[k] == before[k]);
                    }
                }
            }
            start = i + 1;
            assert(spans_int(spans@) =~= spans_int(before).push((slash_scan(cs@, i as int).1, i as int)));
        }
        i += 1;
    }
    let ghost before = spans@;
    spans.push((start, cs.len()));
    assert(spans_int(spans@) =~= spans_int(before).push((start as int, cs@.len() as int)));
    spans
}

/// The characters of `cs` from `a` to `b`.
fn sub_chars(cs: &Vec<char>, a: usize, b: usize) -> (r: Vec<char>)
    requires
        a <= b <= cs@.len(),
    ensures
        r@ == cs@.subrange(a as int, b as int),
{
    let mut r: Vec<char> = Vec::new();
    let mut i = a;
    while i < b
        invariant
            a <= i <= b,
            b <= cs@.len(),
            r@ == cs@.subrange(a as int, i as int),
        decreases b - i,
    {
        r.push(cs[i]);
        assert(r@ =~= cs@.subrange(a as int, i + 1));
        i += 1;
    }
    r
}

fn piece_letter_exec(c: char) -> (r: Option<(Color, Piece)>)
    ensures
        r == piece_letter(c),
{
    match c {
        'P' => Some((Color::White, Piece::Pawn)),
        'N' => Some((Color::White, Piece::Knight)),
        'B' => Some((Color::White, Piece::Bishop)),
        'R' => Some((Color::White, Piece::Rook)),
        'Q' => Some((Color::White, Piece::Queen)),
        'K' => Some((Color::White, Piece::King)),
        'p' => Some((Color::Black, Piece::Pawn)),
        'n' => Some((Color::Black, Piece::Knight)),
        'b' => Some((Color::Black, Piece::Bishop)),
        'r' => Some((Color::Black, Piece::Rook)),
        'q' => Some((Color::Black, Piece::Queen)),
        'k' => Some((Color::Black, Piece::King)),
        _ => None,
    }
}

/// Once a rank's reading has stopped, it stays stopped for the same reason.
proof fn lemma_rank_fault_stays(start: Seq<Occupant>, rank: Seq<char>, rank_idx: int, n: int, m: int)
    requires
        0 <= n <= m,
        rank_scan(start, rank, rank_idx, n).fault is Some,
    ensures
        rank_scan(start, rank, rank_idx, m) == rank_scan(start, rank, rank_idx, n),
    decreases m - n,
{
    if m > n {
        lemma_rank_fault_stays(start, rank, rank_idx, n, m - 1);
    }
}

/// Once the reading of the ranks has stopped, it stays stopped for the same reason.
proof fn lemma_ranks_fault_stays(ranks: Seq<Seq<char>>, n: int, m: int)
    requires
        0 <= n <= m,
        ranks_scan(ranks, n).fault is Some,
    ensures
        ranks_scan(ranks, m) == ranks_scan(ranks, n),
    decreases m - n,
{
    if m > n {
        lemma_ranks_fault_stays(ranks, n, m - 1);
    }
}

pub open spec fn min_int(a: int, b: int) -> int {
    if a < b {
        a
    } else {
        b
    }
}

/// Reads one rank onto `squares`, as the `rank_idx`th rank.
fn read_rank(rank: &Vec<char>, rank_idx: usize, squares: &mut [Occupant; 64]) -> (r: Result<(), FenError>)
    requires
        rank_idx < 8,
    ensures
        ({
            let p = rank_scan(old(squares)@, rank@, rank_idx as int, rank@.len() as int);
            &&& r is Ok <==> p.fault is None
            &&& r is Ok ==> final(squares)@ == p.squares
            &&& r matches Err(e) ==> (e == FenError::InvalidPiece <==> p.fault == Some(
                PlacementFault::BadCharacter,
            ))
            &&& r matches Err(e) ==> (e == FenError::PieceOffBoard <==> p.fault == Some(
                PlacementFault::PastTheBoard,
            ))
        }),
{
    let ghost start = squares@;
    let ghost n = rank@.len() as int;
    // The file, held at 64 once it passes the board: from there on every piece falls past it.
    let mut file: usize = 0;
    let mut j: usize = 0;
    while j < rank.len()
        invariant
            j <= rank@.len(),
            rank_idx < 8,
            n == rank@.len(),
            start == old(squares)@,
            rank_scan(start, rank@, rank_idx as int, j as int).fault is None,
            rank_scan(start, rank@, rank_idx as int, j as int).squares == squares@,
            file as int == min_int(rank_scan(start, rank@, rank_idx as int, j as int).file, 64),
            rank_scan(start, rank@, rank_idx as int, j as int).file >= 0,
        decreases rank@.len() - j,
    {
        let ch = rank[j];
        let u = ch as u32;
        assert(rank@[j as int] == ch);
        if 48 <= u && u <= 57 {
            let skip = (u - 48) as usize;
            file = if file + skip > 64 {
                64
            } else {
                file + skip
            };
        } else {
            match piece_letter_exec(ch) {
                None => {
                    assert(!is_digit_char(ch));
                    assert(rank_scan(start, rank@, rank_idx as int, j + 1).fault == Some(PlacementFault::BadCharacter));
                    proof {
                        lemma_rank_fault_stays(start, rank@, rank_idx as int, j + 1, n);
                    }
                    return Err(FenError::InvalidPiece);
                },
                Some(piece) => {
                    let sq = rank_idx * 8 + file;
                    if sq >= 64 {
                        assert(rank_scan(start, rank@, rank_idx as int, j + 1).fault == Some(PlacementFault::PastTheBoard));
                        proof {
                            lemma_rank_fault_stays(start, rank@, rank_idx as int, j + 1, n);
                        }
                        return Err(FenError::PieceOffBoard);
                    }
                    squares[sq] = Some(piece);
                    file = file + 1;
                },
            }
        }
        j += 1;
    }
    Ok(())
}

/// Reads the eight ranks of the placement field.
fn read_placement(placement: &Vec<char>, ranks: &Vec<(usize, usize)>) -> (r: Result<[Occupant; 64], FenError>)
    requires
        ranks@.len() == 8,
        spans_within(ranks@, placement@.len() as int),
    ensures
        ({
            let p = ranks_scan(spans_int(ranks@).map_values(|p: (int, int)| placement@.subrange(p.0, p.1)), 8);
            &&& r is Ok <==> p.fault is None
            &&& r matches Ok(sq) ==> sq@ == p.squares
            &&& r matches Err(e) ==> (e == FenError::InvalidPiece <==> p.fault == Some(
                PlacementFault::BadCharacter,
            ))
            &&& r matches Err(e) ==> (e == FenError::PieceOffBoard <==> p.fault == Some(
                PlacementFault::PastTheBoard,
            ))
        }),
{
    let ghost pieces = spans_int(ranks@).map_values(|p: (int, int)| placement@.subrange(p.0, p.1));
    let mut squares: [Occupant; 64] = [None; 64];
    assert(squares@ =~= empty_squares());
    let mut i: usize = 0;
    while i < 8
        invariant
            i <= 8,
            ranks@.len() == 8,
            spans_within(ranks@, placement@.len() as int),
            pieces == spans_int(ranks@).map_values(|p: (int, int)| placement@.subrange(p.0, p.1)),
            ranks_scan(pieces, i as int).fault is None,
            ranks_scan(pieces, i as int).squares == squares@,
        decreases 8 - i,
    {
        let (a, b) = ranks[i];
        let rank = sub_chars(placement, a, b);
        assert(rank@ == pieces[i as int]);
        match read_rank(&rank, 7 - i, &mut squares) {
            Ok(()) => {},
            Err(e) => {
                proof {
                    lemma_ranks_fault_stays(pieces, i + 1, 8);
                }
                return Err(e);
            },
        }
        i += 1;
    }
    Ok(squares)
}


/// The characters of a text.
fn text_chars(s: &str) -> (cs: Vec<char>)
    ensures
        cs@ == s@,
{
    let mut cs: Vec<char> = Vec::new();
    for c in it: s.chars()
        invariant
            it.seq() == s@,
            cs@.len() == it.index(),
            forall|j: int| 0 <= j < cs@.len() ==> cs@[j] == s@[j],
    {
        cs.push(c);
    }
    cs
}


/// The text of the standard starting position.
pub open spec fn start_fen() -> Seq<char> {
    "rnbqkbnr/pppppppp/8/8/8/8/PPPPPPPP/RNBQKBNR w KQkq - 0 1"@
}

/// Reads a decimal `u32` as `str::parse` does.
fn parse_u32_chars(t: &Vec<char>) -> (r: Option<u32>)
    ensures
        r == parse_u32(t@),
{
    let start: usize = if t.len() > 0 && t[0] == '+' {
        1
    } else {
        0
    };
    let ghost d = unsigned_digits(t@);
    assert(d =~= t@.subrange(start as int, t@.len() as int));
    if start == t.len() {
        return None;
    }
    let mut i = start;
    while i < t.len()
        invariant
            start <= i <= t@.len(),
            d == t@.subrange(start as int, t@.len() as int),
            d == unsigned_digits(t@),
            forall|k: int| 0 <= k < i - start ==> is_digit_char(#[trigger] d[k]),
        decreases t@.len() - i,
    {
        let u = t[i] as u32;
        if !(48 <= u && u <= 57) {
            assert(d[i - start] == t@[i as int]);
            assert(!is_digit_char(d[i - start]));
            return None;
        }
        i += 1;
    }
    let limit: u64 = 0x1_0000_0000;
    let mut acc: u64 = 0;
    let mut i = start;
    while i < t.len()
        invariant
            start <= i <= t@.len(),
            d == t@.subrange(start as int, t@.len() as int),
            d == unsigned_digits(t@),
            forall|k: int| 0 <= k < d.len() ==> is_digit_char(#[trigger] d[k]),
            digits_value(d.take(i - start)) >= 0,
            acc as int == min_int(digits_value(d.take(i - start)), limit as int),
            limit == 0x1_0000_0000,
        decreases t@.len() - i,
    {
        assert(d[i - start] == t@[i as int]);
        assert(is_digit_char(d[i - start]));
        assert(d.take(i - start + 1).drop_last() =~= d.take(i - start));
        assert(d.take(i - start + 1).last() == d[i - start]);
        let dig = (t[i] as u32 - 48) as u64;
        acc = if acc >= limit {
            limit
        } else if acc * 10 + dig >= limit {
            limit
        } else {
            acc * 10 + dig
        };
        i += 1;
    }
    assert(d.take(d.len() as int) =~= d);
    if acc >= limit {
        None
    } else {
        Some(acc as u32)
    }
}

/// Whether the characters of `t` are exactly `c`.
fn is_single(t: &Vec<char>, c: char) -> (r: bool)
    ensures
        r == (t@ == seq![c]),
{
    let r = t.len() == 1 && t[0] == c;
    assert(r ==> t@ =~= seq![c]);
    r
}

impl Board {
    /// Reads a position written in Forsyth-Edwards Notation. The castling and en passant
    /// fields are not read: every castling right is held and there is no en passant square.
    pub fn from_fen(fen: &str) -> (r: Result<Board, FenError>)
        ensures
            match r {
                Ok(b) => fen_outcome(fen@) == Ok::<BoardModel, FenError>(b@),
                Err(e) => fen_outcome(fen@) == Err::<BoardModel, FenError>(e),
            },
    {
        let cs = text_chars(fen);
        let ghost f = fields(cs@);
        let parts = field_spans_of(&cs);
        if parts.len() != 6 {
            return Err(FenError::InvalidFen);
        }
        let (a0, b0) = parts[0];
        let placement = sub_chars(&cs, a0, b0);
        assert(placement@ == f[0]);
        let ranks = slash_spans_of(&placement);
        assert(spans_int(ranks@).map_values(|p: (int, int)| placement@.subrange(p.0, p.1))
            =~= slash_pieces(f[0]));
        if ranks.len() != 8 {
            return Err(FenError::WrongNumberOfRanks);
        }
        assert(fen_placement(cs@) == ranks_scan(
            spans_int(ranks@).map_values(|p: (int, int)| placement@.subrange(p.0, p.1)),
            8,
        ));
        let squares = match read_placement(&placement, &ranks) {
            Ok(sq) => sq,
            Err(e) => {
                assert(fen_placement(cs@).fault == Some(PlacementFault::BadCharacter) || fen_placement(
                    cs@,
                ).fault == Some(PlacementFault::PastTheBoard));
                return Err(e);
            },
        };
        let (a1, b1) = parts[1];
        let side_field = sub_chars(&cs, a1, b1);
        assert(side_field@ == f[1]);
        let side_to_move = if is_single(&side_field, 'w') {
            Color::White
        } else if is_single(&side_field, 'b') {
            Color::Black
        } else {
            return Err(FenError::InvalidSideToMove);
        };
        let (a4, b4) = parts[4];
        let half_field = sub_chars(&cs, a4, b4);
        assert(half_field@ == f[4]);
        let half_move_clock = match parse_u32_chars(&half_field) {
            Some(v) => v,
            None => 0,
        };
        let (a5, b5) = parts[5];
        let full_field = sub_chars(&cs, a5, b5);
        assert(full_field@ == f[5]);
        let full_move_number = match parse_u32_chars(&full_field) {
            Some(v) => v,
            None => 1,
        };
        let b = Board {
            squares,
            castling: CastlingRights::default(),
            en_passant: None,
            half_move_clock,
            full_move_number,
            side_to_move,
        };
        Ok(b)
    }

    /// The FEN text of the standard starting position, whatever the board holds.
    pub fn to_fen(&self) -> (r: String)
        ensures
            r@ == start_fen(),
    {
        String::from_str("rnbqkbnr/pppppppp/8/8/8/8/PPPPPPPP/RNBQKBNR w KQkq - 0 1")
    }
}

} // verus!
