//! Style rendering: split a message on the `(ansi ` directive token, parse
//! each directive's command body, and paint the styled segments into one
//! string of terminal escape sequences through nu_ansi_term.

use vstd::prelude::*;
use crate::style::{
    parse_command, parse_command_spec, ColorName, ColorSpec, StyleCommand, StyleError,
};
use crate::text::{
    chars_of, contains_seq, first_match_from, lemma_split_on_len, lemma_split_on_no_sep,
    find_sub_from, split_on, split_on_vec, string_of, sub_vec,
};

verus! {

#[verifier::external_type_specification]
pub struct ExNuColor(nu_ansi_term::Color);

#[verifier::external_type_specification]
pub struct ExNuStyle(nu_ansi_term::Style);

/// The token that introduces a style directive.
pub open spec fn ansi_token() -> Seq<char> {
    seq!['(', 'a', 'n', 's', 'i', ' ']
}

/// The style of the leading segment before any directive: the default
/// foreground color and nothing else.
pub open spec fn default_style() -> StyleCommand {
    StyleCommand {
        bold: false,
        dimmed: false,
        italic: false,
        underline: false,
        strikethrough: false,
        hidden: false,
        blink: false,
        reverse: false,
        foreground: Some(ColorSpec::Named(ColorName::Default)),
        background: None,
    }
}

fn default_style_exec() -> (r: StyleCommand)
    ensures
        r == default_style(),
{
    StyleCommand {
        bold: false,
        dimmed: false,
        italic: false,
        underline: false,
        strikethrough: false,
        hidden: false,
        blink: false,
        reverse: false,
        foreground: Some(ColorSpec::Named(ColorName::Default)),
        background: None,
    }
}

/// The view of built segments: each style with the characters of its text.
pub open spec fn seg_views(s: Seq<(StyleCommand, String)>) -> Seq<(StyleCommand, Seq<char>)> {
    s.map_values(|p: (StyleCommand, String)| (p.0, p.1@))
}

/// The segments the directive parts (every split part after the first)
/// contribute: each part is cut at its first `)` into a command body and
/// the styled text; a part without `)` is an unterminated directive.
pub open spec fn directive_segments(parts: Seq<Seq<char>>) -> Result<
    Seq<(StyleCommand, Seq<char>)>,
    StyleError,
>
    decreases parts.len(),
{
    if parts.len() == 0 {
        Ok(seq![])
    } else {
        let part = parts[0];
        match first_match_from(part, seq![')'], 0) {
            None => Err(StyleError::UnterminatedDirective),
            Some(j) => match parse_command_spec(part.take(j)) {
                Err(e) => Err(e),
                Ok(cmdv) => match directive_segments(parts.skip(1)) {
                    Err(e) => Err(e),
                    Ok(tail) => Ok(seq![(cmdv, part.skip(j + 1))] + tail),
                },
            },
        }
    }
}

/// The styled segments of a whole message: the text before the first
/// `(ansi ` token under the default style, then one segment per directive.
pub open spec fn spec_segments(text: Seq<char>) -> Result<
    Seq<(StyleCommand, Seq<char>)>,
    StyleError,
> {
    let parts = split_on(text, ansi_token());
    match directive_segments(parts.skip(1)) {
        Err(e) => Err(e),
        Ok(tail) => Ok(seq![(default_style(), parts[0])] + tail),
    }
}

/// Cut a message into its styled segments.
pub fn style_segments(text: &str) -> (r: Result<Vec<(StyleCommand, String)>, StyleError>)
    ensures
        match r {
            Ok(v) => spec_segments(text@) == Result::<Seq<(StyleCommand, Seq<char>)>, StyleError>::Ok(seg_views(v@)),
            Err(e) => spec_segments(text@) == Result::<
                Seq<(StyleCommand, Seq<char>)>,
                StyleError,
            >::Err(e),
        },
{
    let s = chars_of(text);
    let tok = chars_of("(ansi ");
    proof {
        reveal_strlit("(ansi ");
    }
    assert(tok@ =~= ansi_token());
    let parts = split_on_vec(&s, &tok);
    let ghost pv = split_on(text@, ansi_token());
    proof {
        lemma_split_on_len(text@, ansi_token());
        assert(parts@.len() == parts.deep_view().len());
    }

    let mut out: Vec<(StyleCommand, String)> = Vec::new();
    assert(parts.deep_view()[0] == parts@[0]@);
    out.push((default_style_exec(), string_of(&parts[0])));

    let mut close: Vec<char> = Vec::new();
    close.push(')');
    assert(close@ =~= seq![')']);

    let mut i: usize = 1;
    proof {
        assert(seg_views(out@) =~~= seq![(default_style(), pv[0])]);
    }
    while i < parts.len()
        invariant
            1 <= i <= parts@.len(),
            pv == split_on(text@, ansi_token()),
            parts.deep_view() == pv,
            parts@.len() == pv.len(),
            close@ == seq![')'],
            match directive_segments(pv.skip(i as int)) {
                Ok(tail) => spec_segments(text@) == Result::<
                    Seq<(StyleCommand, Seq<char>)>,
                    StyleError,
                >::Ok(seg_views(out@) + tail),
                Err(e) => spec_segments(text@) == Result::<
                    Seq<(StyleCommand, Seq<char>)>,
                    StyleError,
                >::Err(e),
            },
        decreases parts@.len() - i,
    {
        let part = &parts[i];
        assert(parts.deep_view()[i as int] == parts@[i as int]@);
        let ghost pvi = pv.skip(i as int);
        proof {
            assert(pvi[0] == pv[i as int]);
            assert(pvi.skip(1) =~~= pv.skip(i + 1));
        }
        match find_sub_from(part, &close, 0) {
            None => {
                assert(directive_segments(pvi) == Result::<
                    Seq<(StyleCommand, Seq<char>)>,
                    StyleError,
                >::Err(StyleError::UnterminatedDirective));
                return Err(StyleError::UnterminatedDirective);
            },
            Some(j) => {
                let plen = part.len();
                let body = sub_vec(part, 0, j);
                let rest = sub_vec(part, j + 1, plen);
                proof {
                    assert(body@ =~= pvi[0].take(j as int));
                    assert(rest@ =~= pvi[0].skip(j + 1));
                }
                match parse_command(&body) {
                    Err(e) => {
                        assert(directive_segments(pvi) == Result::<
                            Seq<(StyleCommand, Seq<char>)>,
                            StyleError,
                        >::Err(e));
                        return Err(e);
                    },
                    Ok(cmdv) => {
                        let ghost out0 = out@;
                        out.push((cmdv, string_of(&rest)));
                        proof {
                            assert(seg_views(out@) =~~= seg_views(out0) + seq![
                                (cmdv, pvi[0].skip(j + 1)),
                            ]);
                            match directive_segments(pv.skip(i + 1)) {
                                Ok(tail) => {
                                    assert(directive_segments(pvi) == Result::<
                                        Seq<(StyleCommand, Seq<char>)>,
                                        StyleError,
                                    >::Ok(seq![(cmdv, pvi[0].skip(j + 1))] + tail));
                                    assert(seg_views(out0) + (seq![(cmdv, pvi[0].skip(j + 1))]
                                        + tail) =~~= seg_views(out@) + tail);
                                },
                                Err(_) => {},
                            }
                        }
                    },
                }
            },
        }
        i += 1;
    }
    proof {
        assert(pv.skip(i as int).len() == 0);
        assert(seg_views(out@) + Seq::<(StyleCommand, Seq<char>)>::empty() =~~= seg_views(out@));
    }
    Ok(out)
}

// ---- painting through nu_ansi_term ----

/// The nu_ansi_term color a `ColorSpec` stands for.
pub open spec fn spec_color_to_ansi(c: ColorSpec) -> nu_ansi_term::Color {
    match c {
        ColorSpec::Named(n) => match n {
            ColorName::Black => nu_ansi_term::Color::Black,
            ColorName::Blue => nu_ansi_term::Color::Blue,
            ColorName::Cyan => nu_ansi_term::Color::Cyan,
            ColorName::DarkGray => nu_ansi_term::Color::DarkGray,
            ColorName::Default => nu_ansi_term::Color::Default,
            ColorName::Green => nu_ansi_term::Color::Green,
            ColorName::LightBlue => nu_ansi_term::Color::LightBlue,
            ColorName::LightCyan => nu_ansi_term::Color::LightCyan,
            ColorName::LightGray => nu_ansi_term::Color::LightGray,
            ColorName::LightGreen => nu_ansi_term::Color::LightGreen,
            ColorName::LightMagenta => nu_ansi_term::Color::LightMagenta,
            ColorName::LightPurple => nu_ansi_term::Color::LightPurple,
            ColorName::LightRed => nu_ansi_term::Color::LightRed,
            ColorName::LightYellow => nu_ansi_term::Color::LightYellow,
            ColorName::Magenta => nu_ansi_term::Color::Magenta,
            ColorName::Purple => nu_ansi_term::Color::Purple,
            ColorName::Red => nu_ansi_term::Color::Red,
            ColorName::White => nu_ansi_term::Color::White,
            ColorName::Yellow => nu_ansi_term::Color::Yellow,
        },
        ColorSpec::Indexed(v) => nu_ansi_term::Color::Fixed(v),
        ColorSpec::Rgb(r, g, b) => nu_ansi_term::Color::Rgb(r, g, b),
    }
}

/// The nu_ansi_term style a `StyleCommand` stands for.
pub open spec fn spec_style_to_ansi(cmd: StyleCommand) -> nu_ansi_term::Style {
    nu_ansi_term::Style {
        foreground: match cmd.foreground {
            Some(c) => Some(spec_color_to_ansi(c)),
            None => None,
        },
        background: match cmd.background {
            Some(c) => Some(spec_color_to_ansi(c)),
            None => None,
        },
        is_bold: cmd.bold,
        is_dimmed: cmd.dimmed,
        is_italic: cmd.italic,
        is_underline: cmd.underline,
        is_blink: cmd.blink,
        is_reverse: cmd.reverse,
        is_hidden: cmd.hidden,
        is_strikethrough: cmd.strikethrough,
        prefix_with_reset: false,
    }
}

fn color_to_ansi(c: &ColorSpec) -> (r: nu_ansi_term::Color)
    ensures
        r == spec_color_to_ansi(*c),
{
    match c {
        ColorSpec::Named(n) => match n {
            ColorName::Black => nu_ansi_term::Color::Black,
            ColorName::Blue => nu_ansi_term::Color::Blue,
            ColorName::Cyan => nu_ansi_term::Color::Cyan,
            ColorName::DarkGray => nu_ansi_term::Color::DarkGray,
            ColorName::Default => nu_ansi_term::Color::Default,
            ColorName::Green => nu_ansi_term::Color::Green,
            ColorName::LightBlue => nu_ansi_term::Color::LightBlue,
            ColorName::LightCyan => nu_ansi_term::Color::LightCyan,
            ColorName::LightGray => nu_ansi_term::Color::LightGray,
            ColorName::LightGreen => nu_ansi_term::Color::LightGreen,
            ColorName::LightMagenta => nu_ansi_term::Color::LightMagenta,
            ColorName::LightPurple => nu_ansi_term::Color::LightPurple,
            ColorName::LightRed => nu_ansi_term::Color::LightRed,
            ColorName::LightYellow => nu_ansi_term::Color::LightYellow,
            ColorName::Magenta => nu_ansi_term::Color::Magenta,
            ColorName::Purple => nu_ansi_term::Color::Purple,
            ColorName::Red => nu_ansi_term::Color::Red,
            ColorName::White => nu_ansi_term::Color::White,
            ColorName::Yellow => nu_ansi_term::Color::Yellow,
        },
        ColorSpec::Indexed(v) => nu_ansi_term::Color::Fixed(*v),
        ColorSpec::Rgb(r, g, b) => nu_ansi_term::Color::Rgb(*r, *g, *b),
    }
}

fn style_to_ansi(cmd: &StyleCommand) -> (r: nu_ansi_term::Style)
    ensures
        r == spec_style_to_ansi(*cmd),
{
    let foreground = match &cmd.foreground {
        Some(c) => Some(color_to_ansi(c)),
        None => None,
    };
    let background = match &cmd.background {
        Some(c) => Some(color_to_ansi(c)),
        None => None,
    };
    nu_ansi_term::Style {
        foreground,
        background,
        is_bold: cmd.bold,
        is_dimmed: cmd.dimmed,
        is_italic: cmd.italic,
        is_underline: cmd.underline,
        is_blink: cmd.blink,
        is_reverse: cmd.reverse,
        is_hidden: cmd.hidden,
        is_strikethrough: cmd.strikethrough,
        prefix_with_reset: false,
    }
}

/// What nu_ansi_term's `AnsiStrings` display writes for a sequence of
/// styled segments: a function of the styles and texts alone.
pub uninterp spec fn ansi_rendered(segments: Seq<(StyleCommand, Seq<char>)>) -> Seq<char>;

/// Relies on nu_ansi_term's `Style::paint` and the `Display` impl of
/// `AnsiStrings`: each text is written wrapped in the escape codes of its
/// style, with minimal transition codes between consecutive spans, and the
/// output depends only on the given styles and texts.
#[verifier::external_body]
fn paint_segments(segments: &Vec<(StyleCommand, String)>) -> (r: String)
    ensures
        r@ == ansi_rendered(seg_views(segments@)),
{
    let spans = segments.iter().map(
        |p: &(StyleCommand, String)| style_to_ansi(&p.0).paint(p.1.as_str()),
    ).collect::<Vec<_>>();
    format!("{}", nu_ansi_term::AnsiStrings(&spans))
}

/// Render a message: every `(ansi ...)` directive is replaced by the
/// escape-coded styling of the text that follows it, up to the next
/// directive or the end of the message.
pub fn render(text: &str) -> (r: Result<String, StyleError>)
    ensures
        match r {
            Ok(s) => spec_segments(text@) matches Ok(segs) && s@ == ansi_rendered(segs),
            Err(e) => spec_segments(text@) == Result::<
                Seq<(StyleCommand, Seq<char>)>,
                StyleError,
            >::Err(e),
        },
{
    match style_segments(text) {
        Ok(segs) => Ok(paint_segments(&segs)),
        Err(e) => Err(e),
    }
}

/// Law: a text in which the `(ansi ` token never occurs always renders, as
/// exactly one segment holding the whole text under the default style.
pub proof fn lemma_plain_text_single_segment(text: Seq<char>)
    requires
        !contains_seq(text, ansi_token()),
    ensures
        spec_segments(text) == Result::<Seq<(StyleCommand, Seq<char>)>, StyleError>::Ok(seq![(default_style(), text)]),
{
    lemma_split_on_no_sep(text, ansi_token());
    assert(split_on(text, ansi_token()).skip(1) =~~= Seq::<Seq<char>>::empty());
    assert(seq![(default_style(), text)] + Seq::<(StyleCommand, Seq<char>)>::empty() =~= seq![
        (default_style(), text),
    ]);
}

} // verus!
