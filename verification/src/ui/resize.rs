//! The screen shown instead of a squished arena when the terminal is below
//! the playable minimum. The logic grid is fixed so scores stay comparable,
//! which means there is nothing to shrink.
use vstd::prelude::*;
use vstd::string::StringExecFns;
use crate::render::layout::{MIN_COLS, MIN_ROWS};

verus! {

/// How a line of text is styled.
#[derive(Copy, Clone, PartialEq, Eq, Debug, Structural)]
pub enum TextStyle {
    /// Bold orange: something is wrong.
    Warn,
    /// Muted grey: an explanation.
    Dim,
}

/// A line of text placed at column `x`, row `y`, cut after `max_width`
/// columns.
pub struct TextRun {
    pub x: u16,
    pub y: u16,
    pub text: String,
    pub max_width: usize,
    pub style: TextStyle,
}

/// The decimal digit `d`.
pub open spec fn digit_char(d: int) -> char {
    (48 + d) as char
}

/// The decimal representation of `n`, without leading zeros.
pub open spec fn decimal(n: nat) -> Seq<char>
    decreases n,
{
    if n < 10 {
        seq![digit_char(n as int)]
    } else {
        decimal(n / 10).push(digit_char((n % 10) as int))
    }
}

/// The two lines of the screen, in order: the current size and the
/// required one.
pub open spec fn resize_texts(cols: u16, rows: u16) -> Seq<(Seq<char>, TextStyle)> {
    seq![
        ("terminal too small: "@ + decimal(cols as nat) + "x"@ + decimal(rows as nat), TextStyle::Warn),
        ("resize to at least "@ + decimal(MIN_COLS as nat) + "x"@ + decimal(MIN_ROWS as nat), TextStyle::Dim),
    ]
}

/// `a - b`, or 0 when `b` is larger.
pub open spec fn sat_sub(a: int, b: int) -> int {
    if a > b {
        a - b
    } else {
        0
    }
}

/// Line `i` as placed: on row `rows / 2 - 1 + i` (row `i` when the terminal
/// has fewer than two rows), centred in `cols` columns and cut to them.
pub open spec fn resize_run(cols: u16, rows: u16, i: int) -> (int, int, Seq<char>, int, TextStyle) {
    let (text, style) = resize_texts(cols, rows)[i];
    (sat_sub(cols as int, text.len() as int) / 2, sat_sub(rows as int / 2, 1) + i, text, cols as int, style)
}

/// The placed lines, top first, leaving out any whose row is off the
/// terminal.
pub open spec fn resize_spec(cols: u16, rows: u16) -> Seq<(int, int, Seq<char>, int, TextStyle)> {
    let first = if resize_run(cols, rows, 0).1 < rows { seq![resize_run(cols, rows, 0)] } else { seq![] };
    let second = if resize_run(cols, rows, 1).1 < rows { seq![resize_run(cols, rows, 1)] } else { seq![] };
    first + second
}

/// A run as plain values.
pub open spec fn run_view(r: TextRun) -> (int, int, Seq<char>, int, TextStyle) {
    (r.x as int, r.y as int, r.text@, r.max_width as int, r.style)
}

fn digit_str(d: u16) -> (s: &'static str)
    requires
        d < 10,
    ensures
        s@ == seq![digit_char(d as int)],
{
    proof {
        reveal_strlit("0");
        reveal_strlit("1");
        reveal_strlit("2");
        reveal_strlit("3");
        reveal_strlit("4");
        reveal_strlit("5");
        reveal_strlit("6");
        reveal_strlit("7");
        reveal_strlit("8");
        reveal_strlit("9");
    }
    match d {
        0 => "0",
        1 => "1",
        2 => "2",
        3 => "3",
        4 => "4",
        5 => "5",
        6 => "6",
        7 => "7",
        8 => "8",
        _ => "9",
    }
}

/// Appends the decimal digits of `n`.
fn push_decimal(s: &mut String, n: u16)
    ensures
        final(s)@ == old(s)@ + decimal(n as nat),
    decreases n,
{
    if n >= 10 {
        push_decimal(s, n / 10);
    }
    s.append(digit_str(n % 10));
    proof {
        if n >= 10 {
            assert(old(s)@ + decimal(n as nat) =~= old(s)@ + decimal((n / 10) as nat) + seq![digit_char((n % 10) as int)]);
        } else {
            assert(n % 10 == n);
        }
    }
}

fn size_line(prefix: &str, cols: u16, rows: u16) -> (s: String)
    ensures
        s@ == prefix@ + decimal(cols as nat) + "x"@ + decimal(rows as nat),
{
    let mut s = String::new();
    s.append(prefix);
    push_decimal(&mut s, cols);
    s.append("x");
    push_decimal(&mut s, rows);
    s
}

pub open spec fn pow10(k: nat) -> nat
    decreases k,
{
    if k == 0 {
        1
    } else {
        10 * pow10((k - 1) as nat)
    }
}

proof fn lemma_decimal_len(n: nat, k: nat)
    requires
        n < pow10(k),
        k >= 1,
    ensures
        decimal(n).len() <= k,
        decimal(n).len() >= 1,
    decreases n,
{
    if n >= 10 {
        assert(k >= 2) by {
            if k == 1 {
                assert(pow10(1) == 10 * pow10(0));
                assert(pow10(0) == 1);
            }
        }
        lemma_decimal_len(n / 10, (k - 1) as nat);
    }
}

fn text_len(s: &String) -> (n: usize)
    requires
        s@.len() < usize::MAX,
    ensures
        n == s@.len(),
{
    let mut n: usize = 0;
    for _c in it: s.as_str().chars()
        invariant
            n == it.index(),
            it.seq() == s@,
            s@.len() < usize::MAX,
    {
        n = n + 1;
    }
    n
}

fn place(cols: u16, rows: u16, i: u16, text: String, style: TextStyle) -> (r: TextRun)
    requires
        i < 2,
        text@ == resize_texts(cols, rows)[i as int].0,
        style == resize_texts(cols, rows)[i as int].1,
    ensures
        run_view(r) == resize_run(cols, rows, i as int),
{
    proof {
        reveal_with_fuel(pow10, 6);
        assert(pow10(5) == 100000);
        lemma_decimal_len(cols as nat, 5);
        lemma_decimal_len(rows as nat, 5);
        lemma_decimal_len(MIN_COLS as nat, 5);
        lemma_decimal_len(MIN_ROWS as nat, 5);
        reveal_strlit("terminal too small: ");
        reveal_strlit("resize to at least ");
        reveal_strlit("x");
    }
    assert(text@.len() <= 40);
    let n = text_len(&text);
    let w = n as u16;
    let x = if cols > w { (cols - w) / 2 } else { 0 };
    let mid = rows / 2;
    let top = if mid >= 1 { mid - 1 } else { 0 };
    TextRun { x, y: top + i, text, max_width: cols as usize, style }
}

/// The lines of the screen for a terminal of `cols` x `rows`, top first.
pub fn resize_lines(cols: u16, rows: u16) -> (runs: Vec<TextRun>)
    ensures
        runs@.len() == resize_spec(cols, rows).len(),
        forall|k: int| 0 <= k < runs@.len() ==> run_view(#[trigger] runs@[k]) == resize_spec(cols, rows)[k],
{
    let mut runs: Vec<TextRun> = Vec::new();
    let a = place(cols, rows, 0, size_line("terminal too small: ", cols, rows), TextStyle::Warn);
    if a.y < rows {
        runs.push(a);
    }
    let b = place(cols, rows, 1, size_line("resize to at least ", MIN_COLS, MIN_ROWS), TextStyle::Dim);
    if b.y < rows {
        runs.push(b);
    }
    assert(runs@.len() == resize_spec(cols, rows).len());
    runs
}

} // verus!
