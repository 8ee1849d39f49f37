//! Terminal colour capability.
//!
//! Rust and crossterm make the game build and run everywhere; they do not make
//! every terminal capable of 24-bit colour. macOS Terminal.app is the case that
//! matters - it has never supported truecolour, so an unguarded build would
//! look broken to every default-Terminal Mac user.
use vstd::prelude::*;

verus! {

#[derive(Copy, Clone, PartialEq, Eq, Debug, Structural)]
pub enum Tier {
    Full,
    Reduced,
    Refused,
}

proof fn lemma_char_code(a: char, b: char)
    ensures
        (a as u32 == b as u32) ==> a == b,
{
}

/// The code point of `c`, with ASCII capitals folded to lower case.
pub open spec fn fold_char(c: char) -> u32 {
    let v = c as u32;
    if 65 <= v <= 90 {
        (v + 32) as u32
    } else {
        v
    }
}

/// The code points of `s`.
pub open spec fn codes(s: Seq<char>) -> Seq<u32> {
    s.map_values(|c: char| c as u32)
}

/// The code points of `s` with ASCII capitals folded to lower case.
pub open spec fn folded(s: Seq<char>) -> Seq<u32> {
    s.map_values(|c: char| fold_char(c))
}

/// `needle` occurs in `hay` as a contiguous run.
pub open spec fn has_infix(hay: Seq<u32>, needle: Seq<u32>) -> bool {
    exists|i: int| 0 <= i && i + needle.len() <= hay.len() && #[trigger] hay.subrange(i, i + needle.len()) == needle
}

/// `s` begins with `prefix`.
pub open spec fn has_prefix(s: Seq<char>, prefix: Seq<char>) -> bool {
    prefix.len() <= s.len() && s.subrange(0, prefix.len() as int) == prefix
}

/// `p` names, ignoring ASCII case, an emulator known to do truecolour.
pub open spec fn is_truecolor_program(p: Seq<char>) -> bool {
    ||| folded(p) == folded("iTerm.app"@)
    ||| folded(p) == folded("WezTerm"@)
    ||| folded(p) == folded("ghostty"@)
    ||| folded(p) == folded("alacritty"@)
    ||| folded(p) == folded("kitty"@)
    ||| folded(p) == folded("vscode"@)
}

pub open spec fn opt_view(o: Option<&str>) -> Option<Seq<char>> {
    match o {
        Some(s) => Some(s@),
        None => None,
    }
}

/// The colour tier a terminal gets: full when `COLORTERM` mentions truecolor
/// or 24bit (in any case), under Windows Terminal, or under a known truecolour
/// emulator; otherwise by `TERM`: full for a direct-colour entry, reduced for
/// a 256-colour one, refused for anything else.
pub open spec fn detect_spec(
    colorterm: Option<Seq<char>>,
    term: Option<Seq<char>>,
    term_program: Option<Seq<char>>,
    windows_terminal: bool,
) -> Tier {
    if colorterm is Some && (has_infix(folded(colorterm.unwrap()), folded("truecolor"@))
        || has_infix(folded(colorterm.unwrap()), folded("24bit"@))) {
        Tier::Full
    } else if windows_terminal {
        Tier::Full
    } else if term_program is Some && is_truecolor_program(term_program.unwrap()) {
        Tier::Full
    } else if term is Some && has_infix(codes(term.unwrap()), codes("direct"@)) {
        Tier::Full
    } else if term is Some && has_infix(codes(term.unwrap()), codes("256color"@)) {
        Tier::Reduced
    } else {
        Tier::Refused
    }
}

/// Synchronized output is suppressed inside tmux, or when `TERM` names tmux
/// or screen.
pub open spec fn suppress_sync_spec(term: Option<Seq<char>>, tmux_env: bool) -> bool {
    tmux_env || (term is Some && (has_prefix(term.unwrap(), "tmux"@) || has_prefix(term.unwrap(), "screen"@)))
}

/// The code points of `s`, folded to lower case when `fold` is set.
fn code_points(s: &str, fold: bool) -> (v: Vec<u32>)
    ensures
        v@ == if fold { folded(s@) } else { codes(s@) },
{
    let mut v: Vec<u32> = Vec::new();
    let ghost target = if fold { folded(s@) } else { codes(s@) };
    for c in it: s.chars()
        invariant
            target == if fold { folded(s@) } else { codes(s@) },
            it.seq() == s@,
            v@ == target.take(it.index() as int),
    {
        let x = c as u32;
        let y = if fold && 65 <= x && x <= 90 { x + 32 } else { x };
        assert(target.take(it.index() as int + 1) =~= v@.push(y));
        v.push(y);
    }
    assert(target.take(s@.len() as int) =~= target);
    v
}

/// Whether `needle` occurs in `hay` starting at `i`.
fn matches_at(hay: &Vec<u32>, needle: &Vec<u32>, i: usize) -> (b: bool)
    requires
        i + needle@.len() <= hay@.len(),
    ensures
        b == (hay@.subrange(i as int, i + needle@.len()) == needle@),
{
    let mut j: usize = 0;
    let n = hay.len();
    while j < needle.len()
        invariant
            n == hay@.len(),
            j <= needle@.len(),
            i + needle@.len() <= hay@.len(),
            forall|k: int| 0 <= k < j ==> hay@[i + k] == needle@[k],
        decreases needle@.len() - j,
    {
        assert(i + j < hay@.len());
        if hay[i + j] != needle[j] {
            assert(hay@.subrange(i as int, i + needle@.len())[j as int] != needle@[j as int]);
            return false;
        }
        j = j + 1;
    }
    assert(hay@.subrange(i as int, i + needle@.len()) =~= needle@);
    true
}

fn contains_run(hay: &Vec<u32>, needle: &Vec<u32>) -> (b: bool)
    ensures
        b == has_infix(hay@, needle@),
{
    if needle.len() > hay.len() {
        return false;
    }
    let last = hay.len() - needle.len();
    let mut i: usize = 0;
    loop
        invariant
            i <= last,
            last == hay@.len() - needle@.len(),
            needle@.len() <= hay@.len(),
            forall|k: int| 0 <= k < i ==> #[trigger] hay@.subrange(k, k + needle@.len()) != needle@,
        decreases last + 1 - i,
    {
        if matches_at(hay, needle, i) {
            return true;
        }
        if i == last {
            return false;
        }
        i = i + 1;
    }
}

fn is_prefix_of(s: &str, prefix: &str) -> (b: bool)
    ensures
        b == has_prefix(s@, prefix@),
{
    let a = code_points(s, false);
    let p = code_points(prefix, false);
    if p.len() > a.len() {
        return false;
    }
    let r = matches_at(&a, &p, 0);
    proof {
        assert(a@.subrange(0, p@.len() as int) == p@ <==> s@.subrange(0, prefix@.len() as int) == prefix@) by {
            if a@.subrange(0, p@.len() as int) == p@ {
                assert forall|k: int| 0 <= k < prefix@.len() implies s@[k] == prefix@[k] by {
                    assert(a@[k] == p@[k]);
                    lemma_char_code(s@[k], prefix@[k]);
                }
                assert(s@.subrange(0, prefix@.len() as int) =~= prefix@);
            }
            if s@.subrange(0, prefix@.len() as int) == prefix@ {
                assert forall|k: int| 0 <= k < p@.len() implies a@.subrange(0, p@.len() as int)[k] == p@[k] by {
                    assert(s@[k] == s@.subrange(0, prefix@.len() as int)[k]);
                }
                assert(a@.subrange(0, p@.len() as int) =~= p@);
            }
        }
    }
    r
}

fn eq_ignore_case(a: &str, b: &str) -> (r: bool)
    ensures
        r == (folded(a@) == folded(b@)),
{
    let x = code_points(a, true);
    let y = code_points(b, true);
    if x.len() != y.len() {
        return false;
    }
    let r = matches_at(&x, &y, 0);
    assert(x@.subrange(0, y@.len() as int) =~= x@);
    r
}

fn contains_folded(hay: &str, needle: &str) -> (r: bool)
    ensures
        r == has_infix(folded(hay@), folded(needle@)),
{
    let h = code_points(hay, true);
    let n = code_points(needle, true);
    contains_run(&h, &n)
}

fn contains_exact(hay: &str, needle: &str) -> (r: bool)
    ensures
        r == has_infix(codes(hay@), codes(needle@)),
{
    let h = code_points(hay, false);
    let n = code_points(needle, false);
    contains_run(&h, &n)
}

fn truecolor_program(p: &str) -> (r: bool)
    ensures
        r == is_truecolor_program(p@),
{
    eq_ignore_case("iTerm.app", p) || eq_ignore_case("WezTerm", p) || eq_ignore_case("ghostty", p)
        || eq_ignore_case("alacritty", p) || eq_ignore_case("kitty", p) || eq_ignore_case("vscode", p)
}

pub fn detect(
    colorterm: Option<&str>,
    term: Option<&str>,
    term_program: Option<&str>,
    windows_terminal: bool,
) -> (t: Tier)
    ensures
        t == detect_spec(opt_view(colorterm), opt_view(term), opt_view(term_program), windows_terminal),
{
    if let Some(ct) = colorterm {
        if contains_folded(ct, "truecolor") || contains_folded(ct, "24bit") {
            return Tier::Full;
        }
    }
    if windows_terminal {
        return Tier::Full;
    }
    if let Some(p) = term_program {
        if truecolor_program(p) {
            return Tier::Full;
        }
    }
    match term {
        Some(t) => {
            if contains_exact(t, "direct") {
                Tier::Full
            } else if contains_exact(t, "256color") {
                Tier::Reduced
            } else {
                Tier::Refused
            }
        },
        None => Tier::Refused,
    }
}

/// tmux and screen do not pass DEC mode 2026 through by default, so the
/// synchronized-output escape is suppressed rather than emitted blind.
pub fn suppress_sync(term: Option<&str>, tmux_env: bool) -> (b: bool)
    ensures
        b == suppress_sync_spec(opt_view(term), tmux_env),
{
    if tmux_env {
        return true;
    }
    match term {
        Some(t) => is_prefix_of(t, "tmux") || is_prefix_of(t, "screen"),
        None => false,
    }
}

} // verus!
