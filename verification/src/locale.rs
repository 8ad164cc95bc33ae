//! POSIX locale tags: parsing a raw tag such as `en_US.UTF-8@euro` into its
//! language, territory, encoding and modifier fields, and deriving the
//! cascade of candidate message-pack file names from those fields.

use vstd::prelude::*;
use crate::text::{
    append_vec, chars_of, count_char, ends_with_seq, is_ascii_digit, lemma_count_char_add,
    lemma_count_char_nonneg, lemma_ends_with_concat, lower_seq, string_of, sub_vec, to_lower_vec, vec_eq,
};

verus! {

/// The territory a locale tag without a territory group falls back to.
pub open spec fn default_territory() -> Seq<char> {
    seq!['x', 'x']
}

/// The encoding and modifier a tag without those groups falls back to.
pub open spec fn default_blank() -> Seq<char> {
    seq!['b', 'l', 'a', 'n', 'k']
}

pub open spec fn is_ascii_alpha(c: char) -> bool {
    (65 <= c as u32 && c as u32 <= 90) || (97 <= c as u32 && c as u32 <= 122)
}

pub open spec fn is_ascii_alnum(c: char) -> bool {
    is_ascii_alpha(c) || is_ascii_digit(c)
}

/// Length of the longest prefix of `s` made of ASCII letters.
pub open spec fn alpha_prefix_len(s: Seq<char>) -> int
    decreases s.len(),
{
    if s.len() > 0 && is_ascii_alpha(s[0]) {
        1 + alpha_prefix_len(s.skip(1))
    } else {
        0
    }
}

/// Length of the longest prefix of `s` made of ASCII letters and digits.
pub open spec fn alnum_prefix_len(s: Seq<char>) -> int
    decreases s.len(),
{
    if s.len() > 0 && is_ascii_alnum(s[0]) {
        1 + alnum_prefix_len(s.skip(1))
    } else {
        0
    }
}

proof fn lemma_alpha_prefix_len_bound(s: Seq<char>)
    ensures
        0 <= alpha_prefix_len(s) <= s.len(),
    decreases s.len(),
{
    if s.len() > 0 && is_ascii_alpha(s[0]) {
        lemma_alpha_prefix_len_bound(s.skip(1));
    }
}

proof fn lemma_alnum_prefix_len_bound(s: Seq<char>)
    ensures
        0 <= alnum_prefix_len(s) <= s.len(),
    decreases s.len(),
{
    if s.len() > 0 && is_ascii_alnum(s[0]) {
        lemma_alnum_prefix_len_bound(s.skip(1));
    }
}

// ---- the grammar of a locale tag ----
//
// language  = longest run of ASCII letters from the start (may be empty)
// territory = "_" followed by exactly two characters, when present
// encoding  = "." followed by the whole rest of the tag, when present
// modifier  = "@" followed by the longest run of letters and digits, when
//             present and only when no encoding part consumed the rest
//
// Territory, encoding and modifier are lower-cased; absent fields take the
// defaults "xx", "blank" and "blank". Trailing text that fits no group is
// ignored.

pub open spec fn spec_language(s: Seq<char>) -> Seq<char> {
    s.take(alpha_prefix_len(s))
}

pub open spec fn territory_present(s: Seq<char>) -> bool {
    let l = alpha_prefix_len(s);
    l + 3 <= s.len() && s[l] == '_'
}

pub open spec fn spec_territory(s: Seq<char>) -> Seq<char> {
    let l = alpha_prefix_len(s);
    if territory_present(s) {
        lower_seq(s.subrange(l + 1, l + 3))
    } else {
        default_territory()
    }
}

/// Index just past the language and territory groups.
pub open spec fn after_territory(s: Seq<char>) -> int {
    if territory_present(s) {
        alpha_prefix_len(s) + 3
    } else {
        alpha_prefix_len(s)
    }
}

pub open spec fn encoding_present(s: Seq<char>) -> bool {
    let i = after_territory(s);
    i < s.len() && s[i] == '.'
}

pub open spec fn spec_encoding(s: Seq<char>) -> Seq<char> {
    if encoding_present(s) {
        lower_seq(s.skip(after_territory(s) + 1))
    } else {
        default_blank()
    }
}

pub open spec fn modifier_present(s: Seq<char>) -> bool {
    let i = after_territory(s);
    !encoding_present(s) && i < s.len() && s[i] == '@'
}

pub open spec fn spec_modifier(s: Seq<char>) -> Seq<char> {
    if modifier_present(s) {
        let i = after_territory(s) + 1;
        lower_seq(s.subrange(i, i + alnum_prefix_len(s.skip(i))))
    } else {
        default_blank()
    }
}

/// A locale preference: language, territory, encoding and modifier, with
/// territory, encoding and modifier lower-cased and defaulted when absent.
pub struct LocaleSpec {
    pub language: String,
    pub territory: String,
    pub encoding: String,
    pub modifier: String,
}

impl LocaleSpec {
    /// Parse a raw POSIX locale tag. Every tag parses: each group of the
    /// grammar is optional, so the fields simply take their defaults on
    /// malformed input. The `Option` records that a preference string is
    /// still an untrusted input.
    ///
    /// The encoding group is greedy and runs to the end of the tag, so a
    /// tag holding both `.` and `@` (such as `en_US.UTF-8@euro`) keeps the
    /// `@...` text inside the encoding and leaves the modifier at its
    /// default; a modifier is recognised only in a tag without an encoding.
    pub fn parse(tag: &str) -> (r: Option<LocaleSpec>)
        ensures
            r matches Some(l) && l.language@ == spec_language(tag@)
                && l.territory@ == spec_territory(tag@) && l.encoding@ == spec_encoding(tag@)
                && l.modifier@ == spec_modifier(tag@),
    {
        let s = chars_of(tag);
        let n = s.len();
        // language: longest ASCII letter run from the start
        let mut i: usize = 0;
        assert(s@.skip(0) =~= s@);
        while i < n && is_ascii_alpha_exec(s[i])
            invariant
                i <= n == s@.len(),
                s@ == tag@,
                alpha_prefix_len(s@) == i + alpha_prefix_len(s@.skip(i as int)),
            decreases n - i,
        {
            proof {
                assert(s@.skip(i as int)[0] == s@[i as int]);
                assert(s@.skip(i as int).skip(1) =~= s@.skip(i + 1));
            }
            i += 1;
        }
        proof {
            lemma_alpha_prefix_len_bound(s@.skip(i as int));
            assert(alpha_prefix_len(s@.skip(i as int)) == 0);
        }
        let language = string_of(&sub_vec(&s, 0, i));
        assert(language@ =~= spec_language(tag@));

        // territory: "_" and exactly two characters
        let territory: String;
        let j: usize;
        if n - i >= 3 && s[i] == '_' {
            territory = string_of(&to_lower_vec(&sub_vec(&s, i + 1, i + 3)));
            j = i + 3;
        } else {
            let mut d: Vec<char> = Vec::new();
            d.push('x');
            d.push('x');
            assert(d@ =~= default_territory());
            territory = string_of(&d);
            j = i;
        }
        assert(territory@ == spec_territory(tag@));
        assert(j == after_territory(tag@));

        // encoding: "." and the whole rest; it also swallows any "@" part
        if j < n && s[j] == '.' {
            let encoding = string_of(&to_lower_vec(&sub_vec(&s, j + 1, n)));
            proof {
                assert(s@.subrange(j + 1, n as int) =~= s@.skip(j + 1));
            }
            let modifier = string_of(&default_blank_vec());
            return Some(LocaleSpec { language, territory, encoding, modifier });
        }
        let encoding = string_of(&default_blank_vec());
        assert(encoding@ == spec_encoding(tag@));

        // modifier: "@" and the longest letter-or-digit run
        if j < n && s[j] == '@' {
            let start = j + 1;
            let mut k: usize = start;
            assert(s@.skip(start as int).skip(0) =~= s@.skip(start as int));
            while k < n && is_ascii_alnum_exec(s[k])
                invariant
                    start <= k <= n == s@.len(),
                    s@ == tag@,
                    alnum_prefix_len(s@.skip(start as int)) == k - start + alnum_prefix_len(
                        s@.skip(k as int),
                    ),
                decreases n - k,
            {
                proof {
                    assert(s@.skip(k as int)[0] == s@[k as int]);
                    assert(s@.skip(k as int).skip(1) =~= s@.skip(k + 1));
                    assert(s@.skip(start as int).skip(k - start) =~= s@.skip(k as int));
                }
                k += 1;
            }
            proof {
                lemma_alnum_prefix_len_bound(s@.skip(k as int));
                assert(alnum_prefix_len(s@.skip(k as int)) == 0);
            }
            let modifier = string_of(&to_lower_vec(&sub_vec(&s, start, k)));
            assert(modifier@ == spec_modifier(tag@));
            return Some(LocaleSpec { language, territory, encoding, modifier });
        }
        let modifier = string_of(&default_blank_vec());
        assert(modifier@ == spec_modifier(tag@));
        Some(LocaleSpec { language, territory, encoding, modifier })
    }

    pub fn get_language(&self) -> (r: &String)
        ensures
            r@ == self.language@,
    {
        &self.language
    }

    pub fn get_territory(&self) -> (r: &String)
        ensures
            r@ == self.territory@,
    {
        &self.territory
    }

    pub fn get_encoding(&self) -> (r: &String)
        ensures
            r@ == self.encoding@,
    {
        &self.encoding
    }

    pub fn get_modifier(&self) -> (r: &String)
        ensures
            r@ == self.modifier@,
    {
        &self.modifier
    }
}

/// The one-line rendering of a locale's four fields.
pub open spec fn locale_display(
    l: Seq<char>,
    t: Seq<char>,
    e: Seq<char>,
    m: Seq<char>,
) -> Seq<char> {
    seq!['l', 'a', 'n', 'g', ':', ' '] + l + seq![',', ' ', 't', 'e', 'r', 'r', ':', ' '] + t
        + seq![',', ' ', 'e', 'n', 'c', 'd', ':', ' '] + e + seq![',', ' ', 'm', 'o', 'd', ':', ' ']
        + m
}

impl LocaleSpec {
    /// A one-line description of the four fields, in the form
    /// `lang: .., terr: .., encd: .., mod: ..`.
    pub fn describe(&self) -> (r: String)
        ensures
            r@ == locale_display(self.language@, self.territory@, self.encoding@, self.modifier@),
    {
        let mut out: Vec<char> = Vec::new();
        let lit_lang = chars_of("lang: ");
        let lit_terr = chars_of(", terr: ");
        let lit_encd = chars_of(", encd: ");
        let lit_mod = chars_of(", mod: ");
        proof {
            reveal_strlit("lang: ");
            reveal_strlit(", terr: ");
            reveal_strlit(", encd: ");
            reveal_strlit(", mod: ");
        }
        assert(lit_lang@ =~= seq!['l', 'a', 'n', 'g', ':', ' ']);
        assert(lit_terr@ =~= seq![',', ' ', 't', 'e', 'r', 'r', ':', ' ']);
        assert(lit_encd@ =~= seq![',', ' ', 'e', 'n', 'c', 'd', ':', ' ']);
        assert(lit_mod@ =~= seq![',', ' ', 'm', 'o', 'd', ':', ' ']);
        append_vec(&mut out, &lit_lang);
        append_vec(&mut out, &chars_of(self.language.as_str()));
        append_vec(&mut out, &lit_terr);
        append_vec(&mut out, &chars_of(self.territory.as_str()));
        append_vec(&mut out, &lit_encd);
        append_vec(&mut out, &chars_of(self.encoding.as_str()));
        append_vec(&mut out, &lit_mod);
        append_vec(&mut out, &chars_of(self.modifier.as_str()));
        assert(out@ =~= locale_display(
            self.language@,
            self.territory@,
            self.encoding@,
            self.modifier@,
        ));
        string_of(&out)
    }
}

// ---- candidate file names ----

/// The fixed message-pack file extension.
pub open spec fn ext_toml() -> Seq<char> {
    seq!['.', 't', 'o', 'm', 'l']
}

/// The `_territory` filename segment; omitted entirely at the default.
pub open spec fn territory_part(t: Seq<char>) -> Seq<char> {
    if t == default_territory() {
        Seq::<char>::empty()
    } else {
        seq!['_'] + t
    }
}

/// The `@modifier` filename segment; omitted entirely at the default.
pub open spec fn modifier_part(m: Seq<char>) -> Seq<char> {
    if m == default_blank() {
        Seq::<char>::empty()
    } else {
        seq!['@'] + m
    }
}

/// The four candidate file names, most specific first.
pub open spec fn candidate_names(lang: Seq<char>, terr: Seq<char>, modf: Seq<char>) -> Seq<
    Seq<char>,
> {
    seq![
        lang + territory_part(terr) + modifier_part(modf) + ext_toml(),
        lang + territory_part(terr) + ext_toml(),
        lang + modifier_part(modf) + ext_toml(),
        lang + ext_toml(),
    ]
}

impl LocaleSpec {
    /// The cascade of candidate message-pack file names for this locale,
    /// most specific first: language with territory and modifier, with
    /// territory, with modifier, and alone, each ending in ".toml".
    pub fn four_best_file_names(&self) -> (r: Vec<String>)
        ensures
            r.deep_view() == candidate_names(self.language@, self.territory@, self.modifier@),
    {
        let lang = chars_of(self.language.as_str());
        let terr = chars_of(self.territory.as_str());
        let modf = chars_of(self.modifier.as_str());

        let mut tp: Vec<char> = Vec::new();
        let mut dt: Vec<char> = Vec::new();
        dt.push('x');
        dt.push('x');
        assert(dt@ =~= default_territory());
        if !vec_eq(&terr, &dt) {
            tp.push('_');
            append_vec(&mut tp, &terr);
            assert(tp@ =~= territory_part(self.territory@));
        } else {
            assert(tp@ =~= territory_part(self.territory@));
        }

        let mut mp: Vec<char> = Vec::new();
        let db = default_blank_vec();
        if !vec_eq(&modf, &db) {
            mp.push('@');
            append_vec(&mut mp, &modf);
            assert(mp@ =~= modifier_part(self.modifier@));
        } else {
            assert(mp@ =~= modifier_part(self.modifier@));
        }

        let mut ext: Vec<char> = Vec::new();
        ext.push('.');
        ext.push('t');
        ext.push('o');
        ext.push('m');
        ext.push('l');
        assert(ext@ =~= ext_toml());

        let mut n0: Vec<char> = Vec::new();
        append_vec(&mut n0, &lang);
        append_vec(&mut n0, &tp);
        append_vec(&mut n0, &mp);
        append_vec(&mut n0, &ext);
        let mut n1: Vec<char> = Vec::new();
        append_vec(&mut n1, &lang);
        append_vec(&mut n1, &tp);
        append_vec(&mut n1, &ext);
        let mut n2: Vec<char> = Vec::new();
        append_vec(&mut n2, &lang);
        append_vec(&mut n2, &mp);
        append_vec(&mut n2, &ext);
        let mut n3: Vec<char> = Vec::new();
        append_vec(&mut n3, &lang);
        append_vec(&mut n3, &ext);

        let mut r: Vec<String> = Vec::new();
        r.push(string_of(&n0));
        r.push(string_of(&n1));
        r.push(string_of(&n2));
        r.push(string_of(&n3));
        proof {
            assert(r.deep_view() =~~= candidate_names(
                self.language@,
                self.territory@,
                self.modifier@,
            ));
        }
        r
    }
}

/// One filename component, plus one for each separator introduced by an
/// optional locale part.
pub open spec fn component_count(name: Seq<char>) -> int {
    1 + count_char(name, '_') + count_char(name, '@')
}

/// Law: with both optional fields at their defaults, the four candidates
/// collapse into four copies of the single name `language + ".toml"`.
pub proof fn lemma_candidates_collapse(lang: Seq<char>, terr: Seq<char>, modf: Seq<char>)
    requires
        terr == default_territory(),
        modf == default_blank(),
    ensures
        candidate_names(lang, terr, modf) == seq![
            lang + ext_toml(),
            lang + ext_toml(),
            lang + ext_toml(),
            lang + ext_toml(),
        ],
{
    assert(lang + territory_part(terr) + modifier_part(modf) + ext_toml() =~= lang + ext_toml());
    assert(lang + territory_part(terr) + ext_toml() =~= lang + ext_toml());
    assert(lang + modifier_part(modf) + ext_toml() =~= lang + ext_toml());
    assert(candidate_names(lang, terr, modf) =~~= seq![
        lang + ext_toml(),
        lang + ext_toml(),
        lang + ext_toml(),
        lang + ext_toml(),
    ]);
}

/// Law: the cascade holds exactly four names in order, each terminated by
/// the ".toml" extension, and — for fields free of the `_` and `@`
/// separators, provided a present modifier comes with a present territory —
/// each name has no more filename components than the one before it.
///
/// The proviso is needed: with the territory at its default but a modifier
/// present, the third name (language with modifier) has one more component
/// than the second (language alone).
///
/// When territory and modifier are both present, the four names are also
/// pairwise distinct; with either at its default some names coincide, as
/// `lemma_candidates_collapse` shows.
pub proof fn lemma_candidates_cascade(lang: Seq<char>, terr: Seq<char>, modf: Seq<char>)
    requires
        count_char(lang, '_') == 0,
        count_char(lang, '@') == 0,
        count_char(terr, '_') == 0,
        count_char(terr, '@') == 0,
        count_char(modf, '_') == 0,
        count_char(modf, '@') == 0,
        terr != default_territory() || modf == default_blank(),
    ensures
        candidate_names(lang, terr, modf).len() == 4,
        forall|k: int|
            0 <= k < 4 ==> ends_with_seq(
                #[trigger] candidate_names(lang, terr, modf)[k],
                ext_toml(),
            ),
        component_count(candidate_names(lang, terr, modf)[1]) <= component_count(
            candidate_names(lang, terr, modf)[0],
        ),
        component_count(candidate_names(lang, terr, modf)[2]) <= component_count(
            candidate_names(lang, terr, modf)[1],
        ),
        component_count(candidate_names(lang, terr, modf)[3]) <= component_count(
            candidate_names(lang, terr, modf)[2],
        ),
        terr != default_territory() && modf != default_blank() ==> (forall|j: int, k: int|
            0 <= j < k < 4 ==> #[trigger] candidate_names(lang, terr, modf)[j]
                != #[trigger] candidate_names(lang, terr, modf)[k]),
{
    let tp = territory_part(terr);
    let mp = modifier_part(modf);
    let ext = ext_toml();
    assert(count_char(ext, '_') == 0 && count_char(ext, '@') == 0) by {
        reveal_with_fuel(count_char, 7);
    }
    assert(count_char(tp, '_') <= 1 && count_char(tp, '@') == 0) by {
        reveal_with_fuel(count_char, 3);
        if terr != default_territory() {
            lemma_count_char_add(seq!['_'], terr, '_');
            lemma_count_char_add(seq!['_'], terr, '@');
        }
    }
    assert(count_char(mp, '_') == 0 && count_char(mp, '@') <= 1) by {
        reveal_with_fuel(count_char, 3);
        if modf != default_blank() {
            lemma_count_char_add(seq!['@'], modf, '_');
            lemma_count_char_add(seq!['@'], modf, '@');
        }
    }
    assert(terr != default_territory() ==> count_char(tp, '_') == 1) by {
        reveal_with_fuel(count_char, 3);
        if terr != default_territory() {
            lemma_count_char_add(seq!['_'], terr, '_');
        }
    }
    assert(modf != default_blank() ==> count_char(mp, '@') == 1) by {
        reveal_with_fuel(count_char, 3);
        if modf != default_blank() {
            lemma_count_char_add(seq!['@'], modf, '@');
        }
    }
    let c = candidate_names(lang, terr, modf);
    assert forall|k: int| 0 <= k < 4 implies ends_with_seq(#[trigger] c[k], ext) by {
        lemma_ends_with_concat(lang + tp + mp, ext);
        lemma_ends_with_concat(lang + tp, ext);
        lemma_ends_with_concat(lang + mp, ext);
        lemma_ends_with_concat(lang, ext);
    }
    lemma_count_char_nonneg(tp, '_');
    lemma_count_char_nonneg(tp, '@');
    lemma_count_char_nonneg(mp, '_');
    lemma_count_char_nonneg(mp, '@');
    lemma_count_char_add(lang, tp, '_');
    lemma_count_char_add(lang + tp, mp, '_');
    lemma_count_char_add(lang + tp + mp, ext, '_');
    lemma_count_char_add(lang + tp, ext, '_');
    lemma_count_char_add(lang, mp, '_');
    lemma_count_char_add(lang + mp, ext, '_');
    lemma_count_char_add(lang, ext, '_');
    lemma_count_char_add(lang, tp, '@');
    lemma_count_char_add(lang + tp, mp, '@');
    lemma_count_char_add(lang + tp + mp, ext, '@');
    lemma_count_char_add(lang + tp, ext, '@');
    lemma_count_char_add(lang, mp, '@');
    lemma_count_char_add(lang + mp, ext, '@');
    lemma_count_char_add(lang, ext, '@');
    if terr != default_territory() && modf != default_blank() {
        assert(count_char(c[0], '_') == 1 && count_char(c[0], '@') == 1);
        assert(count_char(c[1], '_') == 1 && count_char(c[1], '@') == 0);
        assert(count_char(c[2], '_') == 0 && count_char(c[2], '@') == 1);
        assert(count_char(c[3], '_') == 0 && count_char(c[3], '@') == 0);
        assert forall|j: int, k: int| 0 <= j < k < 4 implies #[trigger] c[j] != #[trigger] c[k] by {}
    }
}

fn is_ascii_alpha_exec(c: char) -> (b: bool)
    ensures
        b == is_ascii_alpha(c),
{
    let u = c as u32;
    (65 <= u && u <= 90) || (97 <= u && u <= 122)
}

fn is_ascii_alnum_exec(c: char) -> (b: bool)
    ensures
        b == is_ascii_alnum(c),
{
    let u = c as u32;
    (65 <= u && u <= 90) || (97 <= u && u <= 122) || (48 <= u && u <= 57)
}

fn default_blank_vec() -> (r: Vec<char>)
    ensures
        r@ == default_blank(),
{
    let mut d: Vec<char> = Vec::new();
    d.push('b');
    d.push('l');
    d.push('a');
    d.push('n');
    d.push('k');
    assert(d@ =~= default_blank());
    d
}

} // verus!
