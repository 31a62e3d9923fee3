//! The texts of the side panels: the information panel and the game history.
use vstd::prelude::*;

use crate::config::Config;
use crate::engine::fen::{digit_of, digits_value, is_digit_char};
use crate::utils::time::ChessClock;

verus! {

pub open spec fn digit_char(d: int) -> char {
    (d + 48) as char
}

/// The decimal digits of `n`, without leading zeros.
pub open spec fn decimal(n: nat) -> Seq<char>
    decreases n,
{
    if n < 10 {
        seq![digit_char(n as int)]
    } else {
        decimal(n / 10) + seq![digit_char((n % 10) as int)]
    }
}

/// `s`, with a zero in front if it is shorter than two characters.
pub open spec fn pad2(s: Seq<char>) -> Seq<char> {
    if s.len() < 2 {
        seq!['0'] + s
    } else {
        s
    }
}

pub proof fn lemma_decimal_len(n: nat)
    ensures
        decimal(n).len() >= 1,
        decimal(n).len() == 1 <==> n < 10,
    decreases n,
{
    if n >= 10 {
        lemma_decimal_len(n / 10);
    }
}

/// The text of the decimal digit `d`.
fn digit_text(d: u64) -> (t: &'static str)
    requires
        d < 10,
    ensures
        t@ == seq![digit_char(d as int)],
{
    proof {
        reveal_strlit("0");
        reveal_strlit("1");
        reveal_strlit("2");
        reveal_strlit("3");
        reveal_strlit("4");
        reveal_strlit("5");
        reveal_strlit("6");
        reveal_strlit("7");
        reveal_strlit("8");
        reveal_strlit("9");
    }
    match d {
        0 => "0",
        1 => "1",
        2 => "2",
        3 => "3",
        4 => "4",
        5 => "5",
        6 => "6",
        7 => "7",
        8 => "8",
        _ => "9",
    }
}

/// The decimal text of a number.
fn decimal_text(n: u64) -> (r: String)
    ensures
        r@ == decimal(n as nat),
    decreases n,
{
    if n < 10 {
        String::from_str(digit_text(n))
    } else {
        let mut r = decimal_text(n / 10);
        r.append(digit_text(n % 10));
        r
    }
}

pub const NANOS_PER_SECOND: u128 = 1_000_000_000;

/// A clock reading of `nanos` nanoseconds as minutes and seconds, `mm:ss`.
pub open spec fn clock_text(nanos: u128) -> Seq<char> {
    let secs = nanos / 1_000_000_000;
    pad2(decimal((secs / 60) as nat)) + seq![':'] + pad2(decimal((secs % 60) as nat))
}

/// A number as at least two digits.
fn two_digits(n: u64) -> (r: String)
    ensures
        r@ == pad2(decimal(n as nat)),
{
    let digits = decimal_text(n);
    proof {
        lemma_decimal_len(n as nat);
    }
    if n < 10 {
        proof {
            reveal_strlit("0");
        }
        let mut r = String::from_str("0");
        r.append(digits.as_str());
        r
    } else {
        digits
    }
}

/// A clock reading as minutes and seconds, such as `09:05`; the minutes take as many digits
/// as they need.
pub fn format_time(nanos: u128) -> (r: String)
    requires
        nanos / NANOS_PER_SECOND <= u64::MAX,
    ensures
        r@ == clock_text(nanos),
{
    let secs = (nanos / NANOS_PER_SECOND) as u64;
    let minutes = secs / 60;
    let seconds = secs % 60;
    let mut r = two_digits(minutes);
    r.append(":");
    let s = two_digits(seconds);
    r.append(s.as_str());
    proof {
        reveal_strlit(":");
    }
    assert(r@ =~= clock_text(nanos));
    r
}

/// The moves of the history, two to a line: `1. e2e4 e7e5`, `2. g1f3 ` and so on.
pub open spec fn history_line(history: Seq<Seq<char>>, i: int) -> Seq<char> {
    decimal((i + 1) as nat) + ". "@ + history[2 * i] + " "@ + if 2 * i + 1 < history.len() {
        history[2 * i + 1]
    } else {
        ""@
    }
}

/// The number of lines the history takes.
pub open spec fn history_line_count(n: int) -> int {
    (n + 1) / 2
}

/// The fixed lines at the top of the information panel.
pub open spec fn panel_header(player_name: Seq<char>, white_nanos: u128, black_nanos: u128) -> Seq<Seq<char>> {
    seq![
        "White: "@ + player_name + " (ELO 1200)"@,
        "Black: AI (ELO 1000)"@,
        ""@,
        "White clock: "@ + clock_text(white_nanos),
        "Black clock: "@ + clock_text(black_nanos),
        ""@,
        "Move history:"@,
    ]
}

/// The views of a list of texts.
pub open spec fn texts(v: Seq<String>) -> Seq<Seq<char>> {
    v.map_values(|t: String| t@)
}

/// One line of the move history.
fn history_line_text(history: &Vec<String>, i: usize) -> (r: String)
    requires
        2 * i < history.len(),
    ensures
        r@ == history_line(texts(history@), i as int),
{
    let mut line = decimal_text((i + 1) as u64);
    line.append(". ");
    line.append(history[2 * i].as_str());
    line.append(" ");
    if 2 * i + 1 < history.len() {
        line.append(history[2 * i + 1].as_str());
    } else {
        line.append("");
    }
    proof {
        reveal_strlit(". ");
        reveal_strlit(" ");
        reveal_strlit("");
    }
    assert(line@ =~= history_line(texts(history@), i as int));
    line
}

/// A text made of a fixed beginning and a variable end.
fn prefixed(prefix: &str, rest: &str) -> (r: String)
    ensures
        r@ == prefix@ + rest@,
{
    let mut r = String::from_str(prefix);
    r.append(rest);
    r
}

/// `a - b`, held at zero.
pub open spec fn saturating_sub_u16(a: u16, b: u16) -> int {
    if a > b {
        a - b
    } else {
        0
    }
}

/// The lines of the information panel for a panel `height` cells high: the players and
/// their clocks, then as many lines of the move history as the height leaves room for.
pub fn right_panel_lines(config: &Config, clock: &ChessClock, move_history: &Vec<String>, height: u16) -> (lines: Vec<String>)
    requires
        clock@.white_time / NANOS_PER_SECOND <= u64::MAX,
        clock@.black_time / NANOS_PER_SECOND <= u64::MAX,
    ensures
        ({
            let header = panel_header(config.player_name@, clock@.white_time, clock@.black_time);
            let shown = if history_line_count(move_history@.len() as int) < saturating_sub_u16(height, 10) {
                history_line_count(move_history@.len() as int)
            } else {
                saturating_sub_u16(height, 10)
            };
            &&& lines@.len() == 7 + shown
            &&& forall|i: int| 0 <= i < 7 ==> #[trigger] lines@[i]@ == header[i]
            &&& forall|i: int| 0 <= i < shown ==> #[trigger] lines@[7 + i]@ == history_line(texts(move_history@), i)
        }),
{
    let ghost header = panel_header(config.player_name@, clock@.white_time, clock@.black_time);
    let mut lines: Vec<String> = Vec::new();
    lines.push(prefixed("White: ", prefixed(config.player_name.as_str(), " (ELO 1200)").as_str()));
    lines.push(String::from_str("Black: AI (ELO 1000)"));
    lines.push(String::from_str(""));
    lines.push(prefixed("White clock: ", format_time(clock.white_nanos()).as_str()));
    lines.push(prefixed("Black clock: ", format_time(clock.black_nanos()).as_str()));
    lines.push(String::from_str(""));
    lines.push(String::from_str("Move history:"));
    assert(lines@[0]@ =~= header[0]);
    let mut history_lines: Vec<String> = Vec::new();
    let count = move_history.len() / 2 + move_history.len() % 2;
    let mut i: usize = 0;
    while i < count
        invariant
            count == history_line_count(move_history@.len() as int),
            i <= count,
            history_lines@.len() == i,
            forall|j: int| 0 <= j < i ==> #[trigger] history_lines@[j]@ == history_line(texts(move_history@), j),
        decreases count - i,
    {
        history_lines.push(history_line_text(move_history, i));
        i += 1;
    }
    assert(history_lines@.len() == history_line_count(move_history@.len() as int));
    let max_lines: usize = if height > 10 {
        (height - 10) as usize
    } else {
        0
    };
    history_lines.truncate(max_lines);
    let ghost base = lines@;
    let mut k: usize = 0;
    while k < history_lines.len()
        invariant
            k <= history_lines@.len(),
            base.len() == 7,
            lines@.len() == 7 + k,
            forall|j: int| 0 <= j < 7 ==> #[trigger] lines@[j] == base[j],
            forall|j: int| 0 <= j < k ==> #[trigger] lines@[7 + j] == history_lines@[j],
        decreases history_lines@.len() - k,
    {
        lines.push(history_lines[k].clone());
        k += 1;
    }
    lines
}

/// The text of a finished game in the history panel: its date, the two players and the
/// result.
pub open spec fn game_record_text(date: Seq<char>, white: Seq<char>, black: Seq<char>, result: Seq<char>) -> Seq<char> {
    date + "  "@ + white + " vs "@ + black + "  "@ + result
}

/// The history panel's line for one finished game.
pub fn game_record_line(date: &str, white: &str, black: &str, result: &str) -> (r: String)
    ensures
        r@ == game_record_text(date@, white@, black@, result@),
{
    let mut r = String::from_str(date);
    r.append("  ");
    r.append(white);
    r.append(" vs ");
    r.append(black);
    r.append("  ");
    r.append(result);
    r
}

/// The lines of the history panel: one per finished game, or a single line saying there is
/// no history.
pub fn history_panel_lines(records: Vec<String>) -> (lines: Vec<String>)
    ensures
        records@.len() > 0 ==> lines@ == records@,
        records@.len() == 0 ==> lines@.len() == 1 && lines@[0]@ == "No history"@,
{
    if records.len() > 0 {
        records
    } else {
        let mut lines: Vec<String> = Vec::new();
        lines.push(String::from_str("No history"));
        lines
    }
}

/// The decimal digits of `n` are digits, and read back as `n`.
proof fn lemma_decimal_reads_back(n: nat)
    ensures
        decimal(n).len() >= 1,
        forall|i: int| 0 <= i < decimal(n).len() ==> is_digit_char(#[trigger] decimal(n)[i]),
        digits_value(decimal(n)) == n,
    decreases n,
{
    lemma_decimal_len(n);
    let d = decimal(n);
    if n < 10 {
        assert(d.drop_last() =~= Seq::<char>::empty());
        assert(digits_value(d.drop_last()) == 0);
    } else {
        lemma_decimal_reads_back(n / 10);
        assert(d.drop_last() =~= decimal(n / 10));
        assert(d[d.len() - 1] == digit_char((n % 10) as int));
        assert forall|i: int| 0 <= i < d.len() implies is_digit_char(#[trigger] d[i]) by {
            if i < d.len() - 1 {
                assert(d[i] == decimal(n / 10)[i]);
            }
        }
    }
}

/// A number of one or two digits, padded to two, reads back as itself.
proof fn lemma_pad2_reads_back(n: nat)
    ensures
        pad2(decimal(n)).len() >= 2,
        forall|i: int| 0 <= i < pad2(decimal(n)).len() ==> is_digit_char(#[trigger] pad2(decimal(n))[i]),
        digits_value(pad2(decimal(n))) == n,
        n < 100 ==> pad2(decimal(n)).len() == 2,
{
    lemma_decimal_reads_back(n);
    let d = decimal(n);
    let p = pad2(d);
    if d.len() < 2 {
        assert(p.drop_last() =~= seq!['0']);
        assert(seq!['0'].drop_last() =~= Seq::<char>::empty());
        assert(p.last() == d[0]);
        assert(d.drop_last() =~= Seq::<char>::empty());
        assert(digits_value(seq!['0']) == 0) by {
            assert(seq!['0'].drop_last() =~= Seq::<char>::empty());
            assert(digits_value(Seq::<char>::empty()) == 0);
        }
        assert(digits_value(d) == digit_of(d[0]));
        assert(digits_value(p) == digits_value(seq!['0']) * 10 + digit_of(d[0]));
        assert forall|i: int| 0 <= i < p.len() implies is_digit_char(#[trigger] p[i]) by {
            if i == 1 {
                assert(p[1] == d[0]);
            }
        }
    }
    if n < 100 && n >= 10 {
        lemma_decimal_len(n / 10);
        assert(d.len() == decimal(n / 10).len() + 1);
    }
}

/// A clock reading is written as its whole minutes, a colon, and the seconds left over in
/// two digits: the digits before the colon, at least two, read as the minutes, and the two
/// after it as the seconds, from 00 to 59.
pub proof fn lemma_clock_text_reads_back(nanos: u128)
    ensures
        ({
            let t = clock_text(nanos);
            let secs = nanos / 1_000_000_000;
            let n = t.len() as int;
            &&& n >= 5
            &&& t[n - 3] == ':'
            &&& forall|i: int| 0 <= i < n - 3 ==> is_digit_char(#[trigger] t[i])
            &&& is_digit_char(t[n - 2]) && is_digit_char(t[n - 1])
            &&& digits_value(t.subrange(0, n - 3)) == secs / 60
            &&& digits_value(t.subrange(n - 2, n)) == secs % 60
        }),
{
    let secs = nanos / 1_000_000_000;
    let mm = pad2(decimal((secs / 60) as nat));
    let ss = pad2(decimal((secs % 60) as nat));
    lemma_pad2_reads_back((secs / 60) as nat);
    lemma_pad2_reads_back((secs % 60) as nat);
    let t = clock_text(nanos);
    assert(t == mm + seq![':'] + ss);
    let n = t.len() as int;
    assert(t.subrange(0, n - 3) =~= mm);
    assert(t.subrange(n - 2, n) =~= ss);
    assert forall|i: int| 0 <= i < n - 3 implies is_digit_char(#[trigger] t[i]) by {
        assert(t[i] == mm[i]);
    }
    assert(t[n - 2] == ss[0]);
    assert(t[n - 1] == ss[1]);
}

} // verus!
