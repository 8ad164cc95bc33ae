//! The inline styling command language: the body of an `(ansi ...)`
//! directive toggles named attributes by keyword, and each `color[...]`
//! occurrence selects a foreground or background color by name, by 8-bit
//! index, or by an RGB triple.

use vstd::prelude::*;
use crate::text::{
    base_10_str_to_u8, chars_of, contains_seq, contains_sub, lemma_split_on_len, match_at_exec,
    parse_u8_spec, split_on, split_on_vec, starts_with_exec, starts_with_seq, sub_vec,
    to_lower_vec, trim_end_matches_seq, trim_end_matches_vec, trim_start_matches_seq,
    trim_start_matches_vec, trim_ws, trim_ws_vec, lower_seq, vec_eq,
};

verus! {

/// The canonical color names of the styling language.
#[derive(Clone, Copy, PartialEq, Eq, Debug)]
pub enum ColorName {
    Black,
    Blue,
    Cyan,
    DarkGray,
    Default,
    Green,
    LightBlue,
    LightCyan,
    LightGray,
    LightGreen,
    LightMagenta,
    LightPurple,
    LightRed,
    LightYellow,
    Magenta,
    Purple,
    Red,
    White,
    Yellow,
}

/// A resolved color: a canonical name, an 8-bit palette index, or an RGB
/// triple.
#[derive(Clone, Copy, PartialEq, Eq, Debug)]
pub enum ColorSpec {
    Named(ColorName),
    Indexed(u8),
    Rgb(u8, u8, u8),
}

/// One parsed styling directive: attribute flags and the optional colors.
#[derive(Clone, Copy, PartialEq, Eq, Debug)]
pub struct StyleCommand {
    pub bold: bool,
    pub dimmed: bool,
    pub italic: bool,
    pub underline: bool,
    pub strikethrough: bool,
    pub hidden: bool,
    pub blink: bool,
    pub reverse: bool,
    pub foreground: Option<ColorSpec>,
    pub background: Option<ColorSpec>,
}

/// A failure of style rendering: a directive without its closing `)`, or a
/// `color[...]` argument that names neither a color word nor a valid
/// numeric index or triple.
#[derive(Clone, Copy, PartialEq, Eq, Debug)]
pub enum StyleError {
    UnterminatedDirective,
    InvalidColorSpec,
}

/// The color a (trimmed, lower-cased) word names.
pub open spec fn color_name_of(s: Seq<char>) -> Option<ColorName> {
    if s == seq!['b', 'l', 'a', 'c', 'k'] {
        Some(ColorName::Black)
    } else if s == seq!['b', 'l', 'u', 'e'] {
        Some(ColorName::Blue)
    } else if s == seq!['c', 'y', 'a', 'n'] {
        Some(ColorName::Cyan)
    } else if s == seq!['d', 'a', 'r', 'k', 'g', 'r', 'a', 'y'] {
        Some(ColorName::DarkGray)
    } else if s == seq!['d', 'e', 'f', 'a', 'u', 'l', 't'] {
        Some(ColorName::Default)
    } else if s == seq!['g', 'r', 'e', 'e', 'n'] {
        Some(ColorName::Green)
    } else if s == seq!['l', 'i', 'g', 'h', 't', 'b', 'l', 'u', 'e'] {
        Some(ColorName::LightBlue)
    } else if s == seq!['l', 'i', 'g', 'h', 't', 'c', 'y', 'a', 'n'] {
        Some(ColorName::LightCyan)
    } else if s == seq!['l', 'i', 'g', 'h', 't', 'g', 'r', 'a', 'y'] {
        Some(ColorName::LightGray)
    } else if s == seq!['l', 'i', 'g', 'h', 't', 'g', 'r', 'e', 'e', 'n'] {
        Some(ColorName::LightGreen)
    } else if s == seq!['l', 'i', 'g', 'h', 't', 'm', 'a', 'g', 'e', 'n', 't', 'a'] {
        Some(ColorName::LightMagenta)
    } else if s == seq!['l', 'i', 'g', 'h', 't', 'p', 'u', 'r', 'p', 'l', 'e'] {
        Some(ColorName::LightPurple)
    } else if s == seq!['l', 'i', 'g', 'h', 't', 'r', 'e', 'd'] {
        Some(ColorName::LightRed)
    } else if s == seq!['l', 'i', 'g', 'h', 't', 'y', 'e', 'l', 'l', 'o', 'w'] {
        Some(ColorName::LightYellow)
    } else if s == seq!['m', 'a', 'g', 'e', 'n', 't', 'a'] {
        Some(ColorName::Magenta)
    } else if s == seq!['p', 'u', 'r', 'p', 'l', 'e'] {
        Some(ColorName::Purple)
    } else if s == seq!['r', 'e', 'd'] {
        Some(ColorName::Red)
    } else if s == seq!['w', 'h', 'i', 't', 'e'] {
        Some(ColorName::White)
    } else if s == seq!['y', 'e', 'l', 'l', 'o', 'w'] {
        Some(ColorName::Yellow)
    } else {
        None
    }
}

/// The color a raw word resolves to, after trimming surrounding whitespace
/// and lower-casing, exactly one of the canonical names or nothing.
pub fn ansi_color_from_str(s: &str) -> (r: Option<ColorName>)
    ensures
        r == color_name_of(lower_seq(trim_ws(s@))),
{
    color_name_of_vec(&chars_of(s))
}

fn color_name_of_vec(v: &Vec<char>) -> (r: Option<ColorName>)
    ensures
        r == color_name_of(lower_seq(trim_ws(v@))),
{
    let t = to_lower_vec(&trim_ws_vec(v));
    proof {
        reveal_strlit("black");
        reveal_strlit("blue");
        reveal_strlit("cyan");
        reveal_strlit("darkgray");
        reveal_strlit("default");
        reveal_strlit("green");
        reveal_strlit("lightblue");
        reveal_strlit("lightcyan");
        reveal_strlit("lightgray");
        reveal_strlit("lightgreen");
        reveal_strlit("lightmagenta");
        reveal_strlit("lightpurple");
        reveal_strlit("lightred");
        reveal_strlit("lightyellow");
        reveal_strlit("magenta");
        reveal_strlit("purple");
        reveal_strlit("red");
        reveal_strlit("white");
        reveal_strlit("yellow");
    }
    if vec_eq(&t, &chars_of("black")) {
        assert("black"@ =~= seq!['b', 'l', 'a', 'c', 'k']);
        return Some(ColorName::Black);
    }
    if vec_eq(&t, &chars_of("blue")) {
        assert("blue"@ =~= seq!['b', 'l', 'u', 'e']);
        return Some(ColorName::Blue);
    }
    if vec_eq(&t, &chars_of("cyan")) {
        assert("cyan"@ =~= seq!['c', 'y', 'a', 'n']);
        return Some(ColorName::Cyan);
    }
    if vec_eq(&t, &chars_of("darkgray")) {
        assert("darkgray"@ =~= seq!['d', 'a', 'r', 'k', 'g', 'r', 'a', 'y']);
        return Some(ColorName::DarkGray);
    }
    if vec_eq(&t, &chars_of("default")) {
        assert("default"@ =~= seq!['d', 'e', 'f', 'a', 'u', 'l', 't']);
        return Some(ColorName::Default);
    }
    if vec_eq(&t, &chars_of("green")) {
        assert("green"@ =~= seq!['g', 'r', 'e', 'e', 'n']);
        return Some(ColorName::Green);
    }
    if vec_eq(&t, &chars_of("lightblue")) {
        assert("lightblue"@ =~= seq!['l', 'i', 'g', 'h', 't', 'b', 'l', 'u', 'e']);
        return Some(ColorName::LightBlue);
    }
    if vec_eq(&t, &chars_of("lightcyan")) {
        assert("lightcyan"@ =~= seq!['l', 'i', 'g', 'h', 't', 'c', 'y', 'a', 'n']);
        return Some(ColorName::LightCyan);
    }
    if vec_eq(&t, &chars_of("lightgray")) {
        assert("lightgray"@ =~= seq!['l', 'i', 'g', 'h', 't', 'g', 'r', 'a', 'y']);
        return Some(ColorName::LightGray);
    }
    if vec_eq(&t, &chars_of("lightgreen")) {
        assert("lightgreen"@ =~= seq!['l', 'i', 'g', 'h', 't', 'g', 'r', 'e', 'e', 'n']);
        return Some(ColorName::LightGreen);
    }
    if vec_eq(&t, &chars_of("lightmagenta")) {
        assert("lightmagenta"@ =~= seq!['l', 'i', 'g', 'h', 't', 'm', 'a', 'g', 'e', 'n', 't', 'a']);
        return Some(ColorName::LightMagenta);
    }
    if vec_eq(&t, &chars_of("lightpurple")) {
        assert("lightpurple"@ =~= seq!['l', 'i', 'g', 'h', 't', 'p', 'u', 'r', 'p', 'l', 'e']);
        return Some(ColorName::LightPurple);
    }
    if vec_eq(&t, &chars_of("lightred")) {
        assert("lightred"@ =~= seq!['l', 'i', 'g', 'h', 't', 'r', 'e', 'd']);
        return Some(ColorName::LightRed);
    }
    if vec_eq(&t, &chars_of("lightyellow")) {
        assert("lightyellow"@ =~= seq!['l', 'i', 'g', 'h', 't', 'y', 'e', 'l', 'l', 'o', 'w']);
        return Some(ColorName::LightYellow);
    }
    if vec_eq(&t, &chars_of("magenta")) {
        assert("magenta"@ =~= seq!['m', 'a', 'g', 'e', 'n', 't', 'a']);
        return Some(ColorName::Magenta);
    }
    if vec_eq(&t, &chars_of("purple")) {
        assert("purple"@ =~= seq!['p', 'u', 'r', 'p', 'l', 'e']);
        return Some(ColorName::Purple);
    }
    if vec_eq(&t, &chars_of("red")) {
        assert("red"@ =~= seq!['r', 'e', 'd']);
        return Some(ColorName::Red);
    }
    if vec_eq(&t, &chars_of("white")) {
        assert("white"@ =~= seq!['w', 'h', 'i', 't', 'e']);
        return Some(ColorName::White);
    }
    if vec_eq(&t, &chars_of("yellow")) {
        assert("yellow"@ =~= seq!['y', 'e', 'l', 'l', 'o', 'w']);
        return Some(ColorName::Yellow);
    }
    proof {
        assert("black"@ =~= seq!['b', 'l', 'a', 'c', 'k']);
        assert("blue"@ =~= seq!['b', 'l', 'u', 'e']);
        assert("cyan"@ =~= seq!['c', 'y', 'a', 'n']);
        assert("darkgray"@ =~= seq!['d', 'a', 'r', 'k', 'g', 'r', 'a', 'y']);
        assert("default"@ =~= seq!['d', 'e', 'f', 'a', 'u', 'l', 't']);
        assert("green"@ =~= seq!['g', 'r', 'e', 'e', 'n']);
        assert("lightblue"@ =~= seq!['l', 'i', 'g', 'h', 't', 'b', 'l', 'u', 'e']);
        assert("lightcyan"@ =~= seq!['l', 'i', 'g', 'h', 't', 'c', 'y', 'a', 'n']);
        assert("lightgray"@ =~= seq!['l', 'i', 'g', 'h', 't', 'g', 'r', 'a', 'y']);
        assert("lightgreen"@ =~= seq!['l', 'i', 'g', 'h', 't', 'g', 'r', 'e', 'e', 'n']);
        assert("lightmagenta"@ =~= seq!['l', 'i', 'g', 'h', 't', 'm', 'a', 'g', 'e', 'n', 't', 'a']);
        assert("lightpurple"@ =~= seq!['l', 'i', 'g', 'h', 't', 'p', 'u', 'r', 'p', 'l', 'e']);
        assert("lightred"@ =~= seq!['l', 'i', 'g', 'h', 't', 'r', 'e', 'd']);
        assert("lightyellow"@ =~= seq!['l', 'i', 'g', 'h', 't', 'y', 'e', 'l', 'l', 'o', 'w']);
        assert("magenta"@ =~= seq!['m', 'a', 'g', 'e', 'n', 't', 'a']);
        assert("purple"@ =~= seq!['p', 'u', 'r', 'p', 'l', 'e']);
        assert("red"@ =~= seq!['r', 'e', 'd']);
        assert("white"@ =~= seq!['w', 'h', 'i', 't', 'e']);
        assert("yellow"@ =~= seq!['y', 'e', 'l', 'l', 'o', 'w']);
    }
    None
}

// ---- one color[...] argument ----

/// The parse of one bracketed color argument: an optional `bg;` or `fg;`
/// channel prefix (background exactly when the argument starts with "bg"),
/// then either a color word or 8-bit index (fewer than three `;`-separated
/// parts) or an RGB triple (three or more parts, of which the first three
/// count).
pub open spec fn parse_color_args_spec(args: Seq<char>) -> Result<(bool, ColorSpec), StyleError> {
    let is_fg = !starts_with_seq(args, seq!['b', 'g']);
    let a1 = trim_start_matches_seq(args, seq!['b', 'g', ';']);
    let a2 = trim_start_matches_seq(a1, seq!['f', 'g', ';']);
    let parts = split_on(a2, seq![';']);
    if parts.len() < 3 {
        match color_name_of(lower_seq(trim_ws(parts[0]))) {
            Some(n) => Ok((is_fg, ColorSpec::Named(n))),
            None => match parse_u8_spec(parts[0]) {
                Some(v) => Ok((is_fg, ColorSpec::Indexed(v))),
                None => Err(StyleError::InvalidColorSpec),
            },
        }
    } else {
        match (parse_u8_spec(parts[0]), parse_u8_spec(parts[1]), parse_u8_spec(parts[2])) {
            (Some(r), Some(g), Some(b)) => Ok((is_fg, ColorSpec::Rgb(r, g, b))),
            _ => Err(StyleError::InvalidColorSpec),
        }
    }
}

fn parse_color_args(args: &Vec<char>) -> (r: Result<(bool, ColorSpec), StyleError>)
    ensures
        r == parse_color_args_spec(args@),
{
    let bg = two_chars('b', 'g');
    let is_fg = !starts_with_exec(args, &bg);
    let mut bgsemi: Vec<char> = Vec::new();
    bgsemi.push('b');
    bgsemi.push('g');
    bgsemi.push(';');
    assert(bgsemi@ =~= seq!['b', 'g', ';']);
    let mut fgsemi: Vec<char> = Vec::new();
    fgsemi.push('f');
    fgsemi.push('g');
    fgsemi.push(';');
    assert(fgsemi@ =~= seq!['f', 'g', ';']);
    let a1 = trim_start_matches_vec(args, &bgsemi);
    let a2 = trim_start_matches_vec(&a1, &fgsemi);
    let mut semi: Vec<char> = Vec::new();
    semi.push(';');
    assert(semi@ =~= seq![';']);
    let parts = split_on_vec(&a2, &semi);
    proof {
        lemma_split_on_len(a2@, seq![';']);
        assert(parts@.len() == parts.deep_view().len());
    }
    if parts.len() < 3 {
        assert(parts.deep_view()[0] == parts@[0]@);
        match color_name_of_vec(&parts[0]) {
            Some(n) => Ok((is_fg, ColorSpec::Named(n))),
            None => match base_10_str_to_u8(&parts[0]) {
                Some(v) => Ok((is_fg, ColorSpec::Indexed(v))),
                None => Err(StyleError::InvalidColorSpec),
            },
        }
    } else {
        assert(parts.deep_view()[0] == parts@[0]@);
        assert(parts.deep_view()[1] == parts@[1]@);
        assert(parts.deep_view()[2] == parts@[2]@);
        let p0 = base_10_str_to_u8(&parts[0]);
        let p1 = base_10_str_to_u8(&parts[1]);
        let p2 = base_10_str_to_u8(&parts[2]);
        match (p0, p1, p2) {
            (Some(r), Some(g), Some(b)) => Ok((is_fg, ColorSpec::Rgb(r, g, b))),
            _ => Err(StyleError::InvalidColorSpec),
        }
    }
}

fn two_chars(a: char, b: char) -> (r: Vec<char>)
    ensures
        r@ == seq![a, b],
{
    let mut v: Vec<char> = Vec::new();
    v.push(a);
    v.push(b);
    assert(v@ =~= seq![a, b]);
    v
}

// ---- occurrences of "color" and of "]" in a command body ----

/// Indices of the non-overlapping, leftmost-first occurrences of `pat` in
/// `h`, from position `i` on.
pub open spec fn match_indices_from(h: Seq<char>, pat: Seq<char>, i: int) -> Seq<int>
    decreases h.len() - i,
{
    if pat.len() == 0 || i < 0 || i + pat.len() > h.len() {
        seq![]
    } else if h.subrange(i, i + pat.len()) == pat {
        seq![i] + match_indices_from(h, pat, i + pat.len())
    } else {
        match_indices_from(h, pat, i + 1)
    }
}

/// Indices of every occurrence of the character `c` in `h`, from `i` on.
pub open spec fn char_indices_from(h: Seq<char>, c: char, i: int) -> Seq<int>
    decreases h.len() - i,
{
    if i < 0 || i >= h.len() {
        seq![]
    } else if h[i] == c {
        seq![i] + char_indices_from(h, c, i + 1)
    } else {
        char_indices_from(h, c, i + 1)
    }
}

pub open spec fn as_ints(v: Seq<usize>) -> Seq<int> {
    v.map_values(|x: usize| x as int)
}

fn match_indices_exec(h: &Vec<char>, pat: &Vec<char>) -> (r: Vec<usize>)
    requires
        pat@.len() >= 1,
    ensures
        as_ints(r@) == match_indices_from(h@, pat@, 0),
{
    let mut out: Vec<usize> = Vec::new();
    let mut i: usize = 0;
    proof {
        assert(as_ints(out@) + match_indices_from(h@, pat@, 0) =~= match_indices_from(
            h@,
            pat@,
            0,
        ));
    }
    while h.len() - i >= pat.len()
        invariant
            i <= h@.len(),
            pat@.len() >= 1,
            match_indices_from(h@, pat@, 0) == as_ints(out@) + match_indices_from(
                h@,
                pat@,
                i as int,
            ),
        decreases h@.len() - i,
    {
        if match_at_exec(h, pat, i) {
            out.push(i);
            proof {
                assert(as_ints(out@) =~= as_ints(out@.drop_last()) + seq![i as int]);
            }
            i = i + pat.len();
        } else {
            i = i + 1;
        }
    }
    assert(match_indices_from(h@, pat@, i as int) == Seq::<int>::empty());
    assert(as_ints(out@) + Seq::<int>::empty() =~= as_ints(out@));
    out
}

fn char_indices_exec(h: &Vec<char>, c: char) -> (r: Vec<usize>)
    ensures
        as_ints(r@) == char_indices_from(h@, c, 0),
{
    let mut out: Vec<usize> = Vec::new();
    let mut i: usize = 0;
    proof {
        assert(as_ints(out@) + char_indices_from(h@, c, 0) =~= char_indices_from(h@, c, 0));
    }
    while i < h.len()
        invariant
            i <= h@.len(),
            char_indices_from(h@, c, 0) == as_ints(out@) + char_indices_from(h@, c, i as int),
        decreases h@.len() - i,
    {
        if h[i] == c {
            out.push(i);
            proof {
                assert(as_ints(out@) =~= as_ints(out@.drop_last()) + seq![i as int]);
            }
        }
        i = i + 1;
    }
    assert(char_indices_from(h@, c, i as int) == Seq::<int>::empty());
    assert(as_ints(out@) + Seq::<int>::empty() =~= as_ints(out@));
    out
}

// ---- the fold over the color directives of one command body ----

/// The parse of the color directive whose "color" keyword sits at `p` and
/// whose paired `]` sits at `b`: the argument is the span from just past
/// "color" and one further character up to `b`, with stray `]` trimmed from
/// its end and `[` from its start. An impossible span is an error.
pub open spec fn parse_color_at(cmd: Seq<char>, p: int, b: int) -> Result<
    (bool, ColorSpec),
    StyleError,
> {
    if p + 6 <= b && b <= cmd.len() {
        let raw = cmd.subrange(p + 6, b);
        let args = trim_start_matches_seq(trim_end_matches_seq(raw, seq![']']), seq!['[']);
        parse_color_args_spec(args)
    } else {
        Err(StyleError::InvalidColorSpec)
    }
}

/// The surviving channel and color after the directives from the `k`-th on:
/// the nth "color" keyword pairs with the nth `]` of the whole body, each
/// directive parses independently, the first failure is the result, and
/// otherwise the last directive's color alone survives.
pub open spec fn colors_result(cmd: Seq<char>, ps: Seq<int>, bs: Seq<int>, k: int) -> Result<
    Option<(bool, ColorSpec)>,
    StyleError,
>
    decreases ps.len() - k,
{
    if k < 0 || k >= ps.len() {
        Ok(None)
    } else if k >= bs.len() {
        Err(StyleError::InvalidColorSpec)
    } else {
        match parse_color_at(cmd, ps[k], bs[k]) {
            Err(e) => Err(e),
            Ok(c) => match colors_result(cmd, ps, bs, k + 1) {
                Err(e) => Err(e),
                Ok(None) => Ok(Some(c)),
                Ok(Some(c2)) => Ok(Some(c2)),
            },
        }
    }
}

/// How a processed prefix combines with the fold over the remaining
/// directives.
pub open spec fn combine_colors(
    cur: Option<(bool, ColorSpec)>,
    rest: Result<Option<(bool, ColorSpec)>, StyleError>,
) -> Result<Option<(bool, ColorSpec)>, StyleError> {
    match rest {
        Err(e) => Err(e),
        Ok(None) => Ok(cur),
        Ok(Some(c2)) => Ok(Some(c2)),
    }
}

fn parse_color_at_exec(cmd: &Vec<char>, p: usize, b: usize) -> (r: Result<
    (bool, ColorSpec),
    StyleError,
>)
    ensures
        r == parse_color_at(cmd@, p as int, b as int),
{
    if b <= cmd.len() && b >= 6 && p <= b - 6 {
        let raw = sub_vec(cmd, p + 6, b);
        let close = one_char(']');
        let open = one_char('[');
        let args = trim_start_matches_vec(&trim_end_matches_vec(&raw, &close), &open);
        parse_color_args(&args)
    } else {
        Err(StyleError::InvalidColorSpec)
    }
}

fn one_char(c: char) -> (r: Vec<char>)
    ensures
        r@ == seq![c],
{
    let mut v: Vec<char> = Vec::new();
    v.push(c);
    assert(v@ =~= seq![c]);
    v
}

// ---- the whole command body ----

/// The parse of one command body: each attribute keyword that occurs
/// anywhere in the body sets its flag, unknown text is ignored, and the
/// color directives fold as `colors_result` says. Each color directive is
/// computed from the keyword flags alone, not from earlier color
/// directives, so only the last directive's channel keeps a color; this
/// reproduces the behaviour observed of the styling language rather than
/// accumulating foreground and background independently.
pub open spec fn parse_command_spec(cmd: Seq<char>) -> Result<StyleCommand, StyleError> {
    let ps = match_indices_from(cmd, seq!['c', 'o', 'l', 'o', 'r'], 0);
    let bs = char_indices_from(cmd, ']', 0);
    match colors_result(cmd, ps, bs, 0) {
        Err(e) => Err(e),
        Ok(copt) => Ok(
            StyleCommand {
                bold: contains_seq(cmd, seq!['b', 'o', 'l', 'd']),
                dimmed: contains_seq(cmd, seq!['d', 'i', 'm', 'm', 'e', 'd']),
                italic: contains_seq(cmd, seq!['i', 't', 'a', 'l', 'i', 'c']),
                underline: contains_seq(cmd, seq!['u', 'n', 'd', 'e', 'r', 'l', 'i', 'n', 'e']),
                strikethrough: contains_seq(
                    cmd,
                    seq!['s', 't', 'r', 'i', 'k', 'e', 't', 'h', 'r', 'o', 'u', 'g', 'h'],
                ),
                hidden: contains_seq(cmd, seq!['h', 'i', 'd', 'd', 'e', 'n']),
                blink: contains_seq(cmd, seq!['b', 'l', 'i', 'n', 'k']),
                reverse: contains_seq(cmd, seq!['r', 'e', 'v', 'e', 'r', 's', 'e']),
                foreground: match copt {
                    Some((true, c)) => Some(c),
                    _ => None,
                },
                background: match copt {
                    Some((false, c)) => Some(c),
                    _ => None,
                },
            },
        ),
    }
}

/// Parse one `(ansi ...)` command body into a style command.
pub fn parse_command(cmd: &Vec<char>) -> (r: Result<StyleCommand, StyleError>)
    ensures
        r == parse_command_spec(cmd@),
{
    let tok_color = chars_of("color");
    proof {
        reveal_strlit("color");
    }
    assert(tok_color@ =~= seq!['c', 'o', 'l', 'o', 'r']);
    let ps = match_indices_exec(cmd, &tok_color);
    let bs = char_indices_exec(cmd, ']');
    let ghost psv = match_indices_from(cmd@, seq!['c', 'o', 'l', 'o', 'r'], 0);
    let ghost bsv = char_indices_from(cmd@, ']', 0);

    let mut cur: Option<(bool, ColorSpec)> = None;
    let mut k: usize = 0;
    while k < ps.len()
        invariant
            k <= ps@.len(),
            as_ints(ps@) == psv,
            as_ints(bs@) == bsv,
            psv == match_indices_from(cmd@, seq!['c', 'o', 'l', 'o', 'r'], 0),
            bsv == char_indices_from(cmd@, ']', 0),
            psv.len() == ps@.len(),
            bsv.len() == bs@.len(),
            combine_colors(cur, colors_result(cmd@, psv, bsv, k as int)) == colors_result(
                cmd@,
                psv,
                bsv,
                0,
            ),
        decreases ps@.len() - k,
    {
        assert(psv[k as int] == ps@[k as int] as int);
        if k >= bs.len() {
            assert(colors_result(cmd@, psv, bsv, k as int) is Err);
            return Err(StyleError::InvalidColorSpec);
        }
        assert(bsv[k as int] == bs@[k as int] as int);
        match parse_color_at_exec(cmd, ps[k], bs[k]) {
            Err(e) => {
                assert(colors_result(cmd@, psv, bsv, k as int) == Result::<
                    Option<(bool, ColorSpec)>,
                    StyleError,
                >::Err(e));
                return Err(e);
            },
            Ok(c) => {
                cur = Some(c);
            },
        }
        k += 1;
    }
    assert(colors_result(cmd@, psv, bsv, k as int) == Result::<
        Option<(bool, ColorSpec)>,
        StyleError,
    >::Ok(Option::<(bool, ColorSpec)>::None));
    let copt = cur;

    let tok_bold = chars_of("bold");
    let tok_dimmed = chars_of("dimmed");
    let tok_italic = chars_of("italic");
    let tok_underline = chars_of("underline");
    let tok_strike = chars_of("strikethrough");
    let tok_hidden = chars_of("hidden");
    let tok_blink = chars_of("blink");
    let tok_reverse = chars_of("reverse");
    proof {
        reveal_strlit("bold");
        reveal_strlit("dimmed");
        reveal_strlit("italic");
        reveal_strlit("underline");
        reveal_strlit("strikethrough");
        reveal_strlit("hidden");
        reveal_strlit("blink");
        reveal_strlit("reverse");
    }
    assert(tok_bold@ =~= seq!['b', 'o', 'l', 'd']);
    assert(tok_dimmed@ =~= seq!['d', 'i', 'm', 'm', 'e', 'd']);
    assert(tok_italic@ =~= seq!['i', 't', 'a', 'l', 'i', 'c']);
    assert(tok_underline@ =~= seq!['u', 'n', 'd', 'e', 'r', 'l', 'i', 'n', 'e']);
    assert(tok_strike@ =~= seq!['s', 't', 'r', 'i', 'k', 'e', 't', 'h', 'r', 'o', 'u', 'g', 'h']);
    assert(tok_hidden@ =~= seq!['h', 'i', 'd', 'd', 'e', 'n']);
    assert(tok_blink@ =~= seq!['b', 'l', 'i', 'n', 'k']);
    assert(tok_reverse@ =~= seq!['r', 'e', 'v', 'e', 'r', 's', 'e']);

    Ok(
        StyleCommand {
            bold: contains_sub(cmd, &tok_bold),
            dimmed: contains_sub(cmd, &tok_dimmed),
            italic: contains_sub(cmd, &tok_italic),
            underline: contains_sub(cmd, &tok_underline),
            strikethrough: contains_sub(cmd, &tok_strike),
            hidden: contains_sub(cmd, &tok_hidden),
            blink: contains_sub(cmd, &tok_blink),
            reverse: contains_sub(cmd, &tok_reverse),
            foreground: match copt {
                Some((true, c)) => Some(c),
                _ => None,
            },
            background: match copt {
                Some((false, c)) => Some(c),
                _ => None,
            },
        },
    )
}

} // verus!
