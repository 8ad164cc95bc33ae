use translate::locale::LocaleSpec;
use translate::message::{MessageKey, MessageNode};
use translate::pipeline::{translate_pack, TranslateError};
use translate::render::{render, style_segments};
use translate::resolver::DirEntry;
use translate::style::{ansi_color_from_str, parse_command, ColorName, ColorSpec, StyleError};
use translate::substitute::substitute;

fn locale(language: &str, territory: &str, encoding: &str, modifier: &str) -> LocaleSpec {
    LocaleSpec {
        language: language.to_string(),
        territory: territory.to_string(),
        encoding: encoding.to_string(),
        modifier: modifier.to_string(),
    }
}

fn entry(name: &str, is_file: bool) -> DirEntry {
    DirEntry { name: name.to_string(), is_file }
}

fn chars(s: &str) -> Vec<char> {
    s.chars().collect()
}

// ---- locale parsing ----

#[test]
fn parse_full_tag_with_encoding() {
    let l = LocaleSpec::parse("en_US.UTF-8@euro").unwrap();
    assert_eq!(l.language, "en");
    assert_eq!(l.territory, "us");
    // the encoding group is greedy: it swallows the "@euro" part too
    assert_eq!(l.encoding, "utf-8@euro");
    assert_eq!(l.modifier, "blank");
}

#[test]
fn parse_tag_with_modifier_only() {
    let l = LocaleSpec::parse("en@euro").unwrap();
    assert_eq!(l.language, "en");
    assert_eq!(l.territory, "xx");
    assert_eq!(l.encoding, "blank");
    assert_eq!(l.modifier, "euro");
}

#[test]
fn parse_bare_language() {
    let l = LocaleSpec::parse("fr").unwrap();
    assert_eq!(l.language, "fr");
    assert_eq!(l.territory, "xx");
    assert_eq!(l.encoding, "blank");
    assert_eq!(l.modifier, "blank");
}

#[test]
fn parse_empty_tag_gives_defaults() {
    let l = LocaleSpec::parse("").unwrap();
    assert_eq!(l.language, "");
    assert_eq!(l.territory, "xx");
    assert_eq!(l.encoding, "blank");
    assert_eq!(l.modifier, "blank");
}

#[test]
fn parse_short_territory_is_ignored() {
    let l = LocaleSpec::parse("en_U").unwrap();
    assert_eq!(l.language, "en");
    assert_eq!(l.territory, "xx");
}

#[test]
fn parse_getters_agree_with_fields() {
    let l = LocaleSpec::parse("de_DE.UTF-8").unwrap();
    assert_eq!(l.get_language(), "de");
    assert_eq!(l.get_territory(), "de");
    assert_eq!(l.get_encoding(), "utf-8");
    assert_eq!(l.get_modifier(), "blank");
}

#[test]
fn describe_locale() {
    let l = LocaleSpec::parse("en_US.UTF-8").unwrap();
    assert_eq!(l.describe(), "lang: en, terr: us, encd: utf-8, mod: blank");
}

// ---- candidate file names ----

#[test]
fn four_names_with_territory_and_modifier() {
    let l = locale("en", "us", "blank", "euro");
    let names = l.four_best_file_names();
    assert_eq!(
        names,
        vec![
            "en_us@euro.toml".to_string(),
            "en_us.toml".to_string(),
            "en@euro.toml".to_string(),
            "en.toml".to_string(),
        ]
    );
    assert_eq!(names.len(), 4);
    for n in names.iter() {
        assert!(n.ends_with(".toml"));
    }
}

#[test]
fn four_names_collapse_at_defaults() {
    let l = locale("fr", "xx", "blank", "blank");
    let names = l.four_best_file_names();
    assert_eq!(
        names,
        vec![
            "fr.toml".to_string(),
            "fr.toml".to_string(),
            "fr.toml".to_string(),
            "fr.toml".to_string(),
        ]
    );
}

#[test]
fn resolver_works_with_duplicate_candidates() {
    let l = locale("fr", "xx", "blank", "blank");
    let listing = vec![entry("fr.toml", true), entry("en.toml", true)];
    assert_eq!(l.get_best_file_name(&listing), Some("fr.toml".to_string()));
}

// ---- resolver cascade ----

#[test]
fn resolver_prefers_exact_territory_match() {
    // the parsed territory is lower-cased, yet the differently-cased
    // en_US.toml must win the exact pass, never en.toml
    let l = LocaleSpec::parse("en_US.UTF-8").unwrap();
    let listing = vec![entry("en.toml", true), entry("en_US.toml", true)];
    assert_eq!(l.get_best_file_name(&listing), Some("en_US.toml".to_string()));
}

#[test]
fn exact_match_ignores_case_and_keeps_spelling() {
    let l = locale("en", "us", "blank", "blank");
    let listing = vec![entry("EN_US.TOML", true)];
    assert_eq!(l.get_best_file_name(&listing), Some("EN_US.TOML".to_string()));
}

#[test]
fn resolver_skips_directories_in_exact_pass() {
    let l = LocaleSpec::parse("en_US.UTF-8").unwrap();
    let listing = vec![entry("en_US.toml", false), entry("en.toml", true)];
    assert_eq!(l.get_best_file_name(&listing), Some("en.toml".to_string()));
}

#[test]
fn resolver_returns_none_when_nothing_matches() {
    let l = locale("en", "xx", "blank", "blank");
    let listing = vec![entry("de.toml", true)];
    assert_eq!(l.get_best_file_name(&listing), None);
}

#[test]
fn resolver_falls_back_to_language_prefix() {
    let l = locale("de", "xx", "blank", "blank");
    let listing = vec![entry("readme.txt", true), entry("de-old.toml", true)];
    assert_eq!(l.get_best_file_name(&listing), Some("de-old.toml".to_string()));
}

#[test]
fn resolver_falls_back_to_en_prefix() {
    let l = locale("fr", "xx", "blank", "blank");
    let listing = vec![entry("zz.toml", true), entry("english.toml", true)];
    assert_eq!(l.get_best_file_name(&listing), Some("english.toml".to_string()));
}

#[test]
fn empty_language_prefix_matches_first_entry() {
    // a tag that parses to an empty language makes the prefix pass match
    // every name, so the first entry wins
    let l = locale("", "xx", "blank", "blank");
    let listing = vec![entry("zz.toml", true), entry("aa.toml", true)];
    assert_eq!(l.get_best_file_name(&listing), Some("zz.toml".to_string()));
}

#[test]
fn best_file_path_joins_directory_and_name() {
    let l = locale("en", "xx", "blank", "blank");
    let listing = vec![entry("en.toml", true)];
    assert_eq!(
        l.get_best_file_path("locales/", &listing),
        Some("locales/en.toml".to_string())
    );
}

// ---- message keys and the tree walk ----

#[test]
fn key_splits_on_dots() {
    let k = MessageKey::new("a.b.c");
    assert_eq!(k.get_path(), &vec!["a".to_string(), "b".to_string(), "c".to_string()]);
}

#[test]
fn key_without_dots_is_one_segment() {
    let k = MessageKey::new("greeting");
    assert_eq!(k.get_path(), &vec!["greeting".to_string()]);
}

#[test]
fn describe_key() {
    let k = MessageKey::new("a.b.c");
    assert_eq!(k.describe(), "messagekey: a,b,c");
}

fn leaf(s: &str) -> MessageNode {
    MessageNode::Leaf(s.to_string())
}

fn table(entries: Vec<(&str, MessageNode)>) -> MessageNode {
    MessageNode::Table(entries.into_iter().map(|(k, v)| (k.to_string(), v)).collect())
}

#[test]
fn key_path_resolves_to_leaf() {
    let tree = table(vec![("a", table(vec![("b", table(vec![("c", leaf("hi"))]))]))]);
    let k = MessageKey::new("a.b.c");
    assert_eq!(translate::message::resolve_path(&tree, &k), Ok("hi".to_string()));
}

#[test]
fn key_path_missing_leaf_fails() {
    let tree = table(vec![("a", table(vec![("b", table(vec![]))]))]);
    let k = MessageKey::new("a.b.c");
    let err = translate::message::resolve_path(&tree, &k).unwrap_err();
    assert_eq!(err.segment, "c");
}

#[test]
fn key_path_to_table_fails() {
    let tree = table(vec![("a", table(vec![("b", leaf("x"))]))]);
    let k = MessageKey::new("a");
    let err = translate::message::resolve_path(&tree, &k).unwrap_err();
    assert_eq!(err.segment, "a");
}

#[test]
fn leaf_quotes_are_stripped() {
    let tree = table(vec![("a", leaf("\"hi\""))]);
    let k = MessageKey::new("a");
    assert_eq!(translate::message::resolve_path(&tree, &k), Ok("hi".to_string()));
}

// ---- substitution ----

#[test]
fn substitute_two_params() {
    let params = vec![
        ("name".to_string(), "Ann".to_string()),
        ("n".to_string(), "3".to_string()),
    ];
    assert_eq!(
        substitute("Hello ($name), you have ($n) items", &params),
        "Hello Ann, you have 3 items"
    );
}

#[test]
fn substitute_leaves_unmatched_placeholder() {
    let params = vec![("name".to_string(), "Ann".to_string())];
    assert_eq!(substitute("Hi ($name) ($missing)", &params), "Hi Ann ($missing)");
}

#[test]
fn substitute_applies_params_in_order() {
    let params = vec![
        ("a".to_string(), "($b)".to_string()),
        ("b".to_string(), "X".to_string()),
    ];
    assert_eq!(substitute("($a)", &params), "X");
}

#[test]
fn substitute_with_no_params_is_identity() {
    let params: Vec<(String, String)> = vec![];
    assert_eq!(substitute("plain ($text)", &params), "plain ($text)");
}

// ---- color parsing ----

#[test]
fn color_names_resolve() {
    assert_eq!(ansi_color_from_str("red"), Some(ColorName::Red));
    assert_eq!(ansi_color_from_str(" RED "), Some(ColorName::Red));
    assert_eq!(ansi_color_from_str("lightmagenta"), Some(ColorName::LightMagenta));
    assert_eq!(ansi_color_from_str("no-such-color"), None);
}

#[test]
fn command_color_named_foreground() {
    let cmd = parse_command(&chars("color[red]")).unwrap();
    assert_eq!(cmd.foreground, Some(ColorSpec::Named(ColorName::Red)));
    assert_eq!(cmd.background, None);
    assert!(!cmd.bold);
}

#[test]
fn command_color_rgb_background() {
    let cmd = parse_command(&chars("color[bg;10;20;30]")).unwrap();
    assert_eq!(cmd.background, Some(ColorSpec::Rgb(10, 20, 30)));
    assert_eq!(cmd.foreground, None);
}

#[test]
fn command_color_indexed() {
    let cmd = parse_command(&chars("color[135]")).unwrap();
    assert_eq!(cmd.foreground, Some(ColorSpec::Indexed(135)));
}

#[test]
fn command_color_out_of_range_fails() {
    assert_eq!(parse_command(&chars("color[260]")), Err(StyleError::InvalidColorSpec));
}

#[test]
fn command_last_color_survives() {
    // each color directive starts over from the keyword flags, so only the
    // last one keeps its channel
    let cmd = parse_command(&chars("color[red] color[bg;blue]")).unwrap();
    assert_eq!(cmd.foreground, None);
    assert_eq!(cmd.background, Some(ColorSpec::Named(ColorName::Blue)));
}

#[test]
fn command_keywords_toggle_flags() {
    let cmd = parse_command(&chars("bold italic strikethrough reverse")).unwrap();
    assert!(cmd.bold && cmd.italic && cmd.strikethrough && cmd.reverse);
    assert!(!cmd.dimmed && !cmd.underline && !cmd.hidden && !cmd.blink);
}

#[test]
fn command_unknown_words_are_ignored() {
    let cmd = parse_command(&chars("sparkling bold nonsense")).unwrap();
    assert!(cmd.bold);
    assert_eq!(cmd.foreground, None);
}

#[test]
fn command_color_index_with_plus_sign() {
    // decimal parsing follows u8::from_str_radix: a leading + is accepted
    let cmd = parse_command(&chars("color[+7]")).unwrap();
    assert_eq!(cmd.foreground, Some(ColorSpec::Indexed(7)));
}

#[test]
fn command_remaining_flags() {
    let cmd = parse_command(&chars("dimmed underline hidden blink")).unwrap();
    assert!(cmd.dimmed && cmd.underline && cmd.hidden && cmd.blink);
    assert!(!cmd.bold && !cmd.italic && !cmd.strikethrough && !cmd.reverse);
}

// ---- rendering ----

#[test]
fn leading_directive_gives_empty_first_segment() {
    let segs = style_segments("(ansi bold)x").unwrap();
    assert_eq!(segs.len(), 2);
    assert_eq!(segs[0].1, "");
    assert_eq!(segs[1].1, "x");
    assert!(segs[1].0.bold);
}

#[test]
fn plain_text_renders_with_default_wrapper() {
    assert_eq!(
        render("no directives here"),
        Ok("\u{1b}[39mno directives here\u{1b}[0m".to_string())
    );
}

#[test]
fn unterminated_directive_fails() {
    assert_eq!(render("(ansi bold with no close"), Err(StyleError::UnterminatedDirective));
}

#[test]
fn invalid_color_fails_rendering() {
    assert_eq!(render("(ansi color[260])text"), Err(StyleError::InvalidColorSpec));
}

#[test]
fn segments_split_at_directives() {
    let segs = style_segments("Hi Sam! (ansi bold)Welcome(ansi italic) back").unwrap();
    assert_eq!(segs.len(), 3);
    assert_eq!(segs[0].1, "Hi Sam! ");
    assert_eq!(segs[0].0.foreground, Some(ColorSpec::Named(ColorName::Default)));
    assert_eq!(segs[1].1, "Welcome");
    assert!(segs[1].0.bold);
    assert_eq!(segs[2].1, " back");
    assert!(segs[2].0.italic);
    assert!(!segs[2].0.bold);
}

#[test]
fn bold_renders_escape_codes() {
    assert_eq!(
        render("(ansi bold)hot"),
        Ok("\u{1b}[39m\u{1b}[0m\u{1b}[1mhot\u{1b}[0m".to_string())
    );
}

#[test]
fn colored_render_uses_color_codes() {
    assert_eq!(
        render("(ansi color[red])stop"),
        // the two spans both set a foreground, so only the color change is
        // written between them, with no reset
        Ok("\u{1b}[39m\u{1b}[31mstop\u{1b}[0m".to_string())
    );
}

// ---- the whole pipeline ----

#[test]
fn end_to_end_greeting() {
    let l = LocaleSpec::parse("en_US.UTF-8").unwrap();
    let listing = vec![entry("en.toml", true)];
    assert_eq!(l.get_best_file_name(&listing), Some("en.toml".to_string()));

    let tree = table(vec![(
        "greeting",
        leaf("Hi ($name)! (ansi bold)Welcome(ansi italic) back"),
    )]);
    let key = MessageKey::new("greeting");
    let params = vec![("name".to_string(), "Sam".to_string())];
    assert_eq!(
        translate_pack(&tree, &key, &params),
        Ok("\u{1b}[39mHi Sam! \u{1b}[0m\u{1b}[1mWelcome\u{1b}[0m\u{1b}[3m back\u{1b}[0m".to_string())
    );
}

#[test]
fn pipeline_reports_missing_key() {
    let tree = table(vec![("greeting", leaf("hello"))]);
    let key = MessageKey::new("farewell");
    let params: Vec<(String, String)> = vec![];
    assert_eq!(
        translate_pack(&tree, &key, &params),
        Err(TranslateError::KeyNotFound { segment: "farewell".to_string() })
    );
}

#[test]
fn pipeline_reports_bad_color() {
    let tree = table(vec![("a", leaf("(ansi color[300])x"))]);
    let key = MessageKey::new("a");
    let params: Vec<(String, String)> = vec![];
    assert_eq!(translate_pack(&tree, &key, &params), Err(TranslateError::InvalidColorSpec));
}

#[test]
fn pipeline_reports_unterminated_directive() {
    let tree = table(vec![("a", leaf("(ansi bold"))]);
    let key = MessageKey::new("a");
    let params: Vec<(String, String)> = vec![];
    assert_eq!(translate_pack(&tree, &key, &params), Err(TranslateError::UnterminatedDirective));
}
