//! Character-sequence utilities: substring search, splitting, replacement,
//! trimming, case folding and decimal parsing, each verified against a
//! mathematical specification over `Seq<char>`.

use vstd::prelude::*;

verus! {

// ---- searching ----

/// The needle `n` occurs in `h` at position `i`.
pub open spec fn match_at(h: Seq<char>, n: Seq<char>, i: int) -> bool {
    &&& 0 <= i
    &&& i + n.len() <= h.len()
    &&& h.subrange(i, i + n.len()) == n
}

/// The needle `n` occurs somewhere in `h`.
pub open spec fn contains_seq(h: Seq<char>, n: Seq<char>) -> bool {
    exists|i: int| match_at(h, n, i)
}

pub open spec fn starts_with_seq(h: Seq<char>, n: Seq<char>) -> bool {
    n.len() <= h.len() && h.subrange(0, n.len() as int) == n
}

pub open spec fn ends_with_seq(h: Seq<char>, n: Seq<char>) -> bool {
    n.len() <= h.len() && h.subrange(h.len() - n.len(), h.len() as int) == n
}

/// Position of the first occurrence of `n` in `h` at or after `i`.
pub open spec fn first_match_from(h: Seq<char>, n: Seq<char>, i: int) -> Option<int>
    decreases h.len() - i,
{
    if n.len() == 0 {
        if 0 <= i <= h.len() {
            Some(i)
        } else {
            None
        }
    } else if i < 0 || i + n.len() > h.len() {
        None
    } else if h.subrange(i, i + n.len()) == n {
        Some(i)
    } else {
        first_match_from(h, n, i + 1)
    }
}

/// `first_match_from` really is the first match: a found position matches,
/// nothing earlier does, and `None` means nothing matches at all.
pub proof fn lemma_first_match_from(h: Seq<char>, n: Seq<char>, i: int)
    requires
        0 <= i,
        n.len() >= 1,
    ensures
        match first_match_from(h, n, i) {
            Some(j) => i <= j && match_at(h, n, j) && forall|k: int| i <= k < j ==> !match_at(h, n, k),
            None => forall|k: int| k >= i ==> !match_at(h, n, k),
        },
    decreases h.len() - i,
{
    if i + n.len() > h.len() {
    } else if h.subrange(i, i + n.len()) == n {
    } else {
        lemma_first_match_from(h, n, i + 1);
    }
}

/// Does `n` occur in `h` starting exactly at `i`?
pub fn match_at_exec(h: &Vec<char>, n: &Vec<char>, i: usize) -> (b: bool)
    requires
        i + n@.len() <= h@.len(),
    ensures
        b == (h@.subrange(i as int, i + n@.len()) == n@),
{
    let hl = h.len();
    let nl = n.len();
    let mut j: usize = 0;
    while j < nl
        invariant
            j <= n@.len(),
            nl == n@.len(),
            i + n@.len() <= h@.len(),
            h@.len() <= usize::MAX,
            forall|k: int| 0 <= k < j ==> h@[i + k] == n@[k],
        decreases n@.len() - j,
    {
        if h[i + j] != n[j] {
            assert(h@.subrange(i as int, i + n@.len())[j as int] == h@[i + j]);
            return false;
        }
        j += 1;
    }
    assert(h@.subrange(i as int, i + n@.len()) =~= n@);
    true
}

/// First occurrence of `n` in `h` at or after `from`.
pub fn find_sub_from(h: &Vec<char>, n: &Vec<char>, from: usize) -> (r: Option<usize>)
    requires
        n@.len() >= 1,
    ensures
        match r {
            Some(j) => from <= j && j + n@.len() <= h@.len()
                && first_match_from(h@, n@, from as int) == Some(j as int),
            None => first_match_from(h@, n@, from as int) is None,
        },
{
    if n.len() > h.len() {
        return None;
    }
    let mut i: usize = from;
    while i <= h.len() - n.len()
        invariant
            n@.len() >= 1,
            n@.len() <= h@.len(),
            from <= i,
            first_match_from(h@, n@, from as int) == first_match_from(h@, n@, i as int),
        decreases h@.len() - i,
    {
        if match_at_exec(h, n, i) {
            return Some(i);
        }
        i += 1;
    }
    None
}

/// Whether `n` occurs anywhere in `h`.
pub fn contains_sub(h: &Vec<char>, n: &Vec<char>) -> (b: bool)
    requires
        n@.len() >= 1,
    ensures
        b == contains_seq(h@, n@),
{
    let r = find_sub_from(h, n, 0);
    proof {
        lemma_first_match_from(h@, n@, 0);
        if r is None {
            assert forall|k: int| !match_at(h@, n@, k) by {}
        }
    }
    match r {
        Some(j) => {
            assert(match_at(h@, n@, j as int));
            true
        },
        None => false,
    }
}

/// Whether `h` begins with `n`.
pub fn starts_with_exec(h: &Vec<char>, n: &Vec<char>) -> (b: bool)
    ensures
        b == starts_with_seq(h@, n@),
{
    if n.len() > h.len() {
        return false;
    }
    if n.len() == 0 {
        assert(h@.subrange(0, 0) =~= n@);
        return true;
    }
    match_at_exec(h, n, 0)
}

/// Copy of `h[from..to]`.
pub fn sub_vec(h: &Vec<char>, from: usize, to: usize) -> (r: Vec<char>)
    requires
        from <= to <= h@.len(),
    ensures
        r@ == h@.subrange(from as int, to as int),
{
    let mut r: Vec<char> = Vec::new();
    let mut i: usize = from;
    while i < to
        invariant
            from <= i <= to <= h@.len(),
            r@ == h@.subrange(from as int, i as int),
        decreases to - i,
    {
        r.push(h[i]);
        assert(r@ =~= h@.subrange(from as int, i + 1));
        i += 1;
    }
    r
}

/// Whether two character vectors hold the same characters.
pub fn vec_eq(a: &Vec<char>, b: &Vec<char>) -> (r: bool)
    ensures
        r == (a@ == b@),
{
    if a.len() != b.len() {
        return false;
    }
    let mut i: usize = 0;
    while i < a.len()
        invariant
            i <= a@.len(),
            a@.len() == b@.len(),
            forall|k: int| 0 <= k < i ==> a@[k] == b@[k],
        decreases a@.len() - i,
    {
        if a[i] != b[i] {
            return false;
        }
        i += 1;
    }
    assert(a@ =~= b@);
    true
}

/// How often the character `c` occurs in `s`.
pub open spec fn count_char(s: Seq<char>, c: char) -> int
    decreases s.len(),
{
    if s.len() == 0 {
        0
    } else {
        count_char(s.drop_last(), c) + if s.last() == c {
            1int
        } else {
            0int
        }
    }
}

pub proof fn lemma_count_char_nonneg(s: Seq<char>, c: char)
    ensures
        count_char(s, c) >= 0,
    decreases s.len(),
{
    if s.len() > 0 {
        lemma_count_char_nonneg(s.drop_last(), c);
    }
}

pub proof fn lemma_count_char_add(a: Seq<char>, b: Seq<char>, c: char)
    ensures
        count_char(a + b, c) == count_char(a, c) + count_char(b, c),
    decreases b.len(),
{
    if b.len() == 0 {
        assert(a + b =~= a);
    } else {
        assert((a + b).drop_last() =~= a + b.drop_last());
        assert((a + b).last() == b.last());
        lemma_count_char_add(a, b.drop_last(), c);
    }
}

/// A concatenation ends with its second operand.
pub proof fn lemma_ends_with_concat(a: Seq<char>, b: Seq<char>)
    ensures
        ends_with_seq(a + b, b),
{
    assert((a + b).subrange((a + b).len() - b.len(), (a + b).len() as int) =~= b);
}

// ---- case folding ----

/// ASCII lower-casing of one character.
pub open spec fn lower_char(c: char) -> char {
    if 65 <= c as u32 && c as u32 <= 90 {
        ((c as u32 + 32) as u8) as char
    } else {
        c
    }
}

pub open spec fn lower_seq(h: Seq<char>) -> Seq<char> {
    h.map_values(|c: char| lower_char(c))
}

/// ASCII lower-casing of a whole sequence.
pub fn to_lower_vec(h: &Vec<char>) -> (r: Vec<char>)
    ensures
        r@ == lower_seq(h@),
{
    let mut r: Vec<char> = Vec::new();
    let mut i: usize = 0;
    while i < h.len()
        invariant
            i <= h@.len(),
            r@ == lower_seq(h@.take(i as int)),
        decreases h@.len() - i,
    {
        let c = h[i];
        let u = c as u32;
        if 65 <= u && u <= 90 {
            r.push(((u + 32) as u8) as char);
        } else {
            r.push(c);
        }
        assert(r@ =~= lower_seq(h@.take(i + 1)));
        i += 1;
    }
    assert(h@.take(h@.len() as int) =~= h@);
    r
}

// ---- splitting ----

/// The pieces of `h` between the non-overlapping, leftmost-first occurrences
/// of `sep`, in order; one piece (all of `h`) when `sep` never occurs.
pub open spec fn split_on(h: Seq<char>, sep: Seq<char>) -> Seq<Seq<char>>
    decreases h.len(),
{
    if sep.len() == 0 || h.len() < sep.len() {
        seq![h]
    } else if h.subrange(0, sep.len() as int) == sep {
        seq![Seq::<char>::empty()] + split_on(h.skip(sep.len() as int), sep)
    } else {
        let rest = split_on(h.skip(1), sep);
        seq![seq![h[0]] + rest[0]] + rest.skip(1)
    }
}

pub proof fn lemma_split_on_len(h: Seq<char>, sep: Seq<char>)
    ensures
        split_on(h, sep).len() >= 1,
    decreases h.len(),
{
    if sep.len() == 0 || h.len() < sep.len() {
    } else if h.subrange(0, sep.len() as int) == sep {
        lemma_split_on_len(h.skip(sep.len() as int), sep);
    } else {
        lemma_split_on_len(h.skip(1), sep);
    }
}

/// A sequence in which the separator never occurs splits into itself alone.
pub proof fn lemma_split_on_no_sep(h: Seq<char>, sep: Seq<char>)
    requires
        sep.len() >= 1,
        !contains_seq(h, sep),
    ensures
        split_on(h, sep) == seq![h],
    decreases h.len(),
{
    if h.len() < sep.len() {
    } else if h.subrange(0, sep.len() as int) == sep {
        assert(match_at(h, sep, 0));
        assert(false);
    } else {
        assert forall|i: int| !match_at(h.skip(1), sep, i) by {
            if 0 <= i && i + sep.len() <= h.skip(1).len() {
                assert(h.skip(1).subrange(i, i + sep.len()) =~= h.subrange(i + 1, i + 1 + sep.len()));
                if h.skip(1).subrange(i, i + sep.len()) == sep {
                    assert(match_at(h, sep, i + 1));
                }
            }
        }
        lemma_split_on_no_sep(h.skip(1), sep);
        assert(seq![h[0]] + h.skip(1) =~= h);
        assert(split_on(h, sep) =~~= seq![h]);
    }
}

/// Prepend `p` to the first piece of `ss`.
pub open spec fn cons_first(p: Seq<char>, ss: Seq<Seq<char>>) -> Seq<Seq<char>>
    recommends
        ss.len() >= 1,
{
    seq![p + ss[0]] + ss.skip(1)
}

/// Split `h` at every occurrence of `sep`.
pub fn split_on_vec(h: &Vec<char>, sep: &Vec<char>) -> (r: Vec<Vec<char>>)
    requires
        sep@.len() >= 1,
    ensures
        r.deep_view() == split_on(h@, sep@),
{
    let mut done: Vec<Vec<char>> = Vec::new();
    let mut cur: Vec<char> = Vec::new();
    let mut i: usize = 0;
    proof {
        assert(h@.skip(0) =~= h@);
        lemma_split_on_len(h@, sep@);
        assert(done.deep_view() =~~= Seq::<Seq<char>>::empty());
        assert(done.deep_view() + cons_first(cur@, split_on(h@, sep@)) =~~= split_on(h@, sep@));
    }
    while i < h.len()
        invariant
            i <= h@.len(),
            sep@.len() >= 1,
            split_on(h@, sep@) == done.deep_view() + cons_first(cur@, split_on(h@.skip(i as int), sep@)),
        decreases h@.len() - i,
    {
        let ghost hi = h@.skip(i as int);
        let ghost done0 = done.deep_view();
        let ghost cur0 = cur@;
        if h.len() - i >= sep.len() && match_at_exec(h, sep, i) {
            proof {
                assert(hi.subrange(0, sep@.len() as int) =~= h@.subrange(i as int, i + sep@.len()));
                assert(hi.skip(sep@.len() as int) =~= h@.skip(i + sep@.len()));
                lemma_split_on_len(h@.skip(i + sep@.len()), sep@);
                assert(cons_first(cur0, split_on(hi, sep@)) =~~= seq![cur0]
                    + cons_first(Seq::<char>::empty(), split_on(h@.skip(i + sep@.len()), sep@)));
            }
            done.push(cur);
            cur = Vec::new();
            proof {
                assert(done.deep_view() =~~= done0.push(cur0));
                assert(done.deep_view() + cons_first(cur@, split_on(h@.skip(i + sep@.len()), sep@))
                    =~~= done0 + (seq![cur0]
                        + cons_first(Seq::<char>::empty(), split_on(h@.skip(i + sep@.len()), sep@))));
            }
            i = i + sep.len();
        } else {
            proof {
                assert(hi.skip(1) =~= h@.skip(i + 1));
                lemma_split_on_len(h@.skip(i + 1), sep@);
                if hi.len() >= sep@.len() {
                    assert(hi.subrange(0, sep@.len() as int) =~= h@.subrange(i as int, i + sep@.len()));
                    let rest = split_on(hi.skip(1), sep@);
                    assert(cons_first(cur0, split_on(hi, sep@))
                        =~~= cons_first(cur0.push(h@[i as int]), rest));
                } else {
                    assert(hi =~= seq![hi[0]] + hi.skip(1));
                    if h@.skip(i + 1).len() < sep@.len() {
                        assert(cons_first(cur0, split_on(hi, sep@))
                            =~~= cons_first(cur0.push(h@[i as int]), split_on(hi.skip(1), sep@)));
                    }
                }
            }
            cur.push(h[i]);
            i = i + 1;
        }
    }
    proof {
        assert(h@.skip(i as int) =~= Seq::<char>::empty());
        assert(cons_first(cur@, split_on(h@.skip(i as int), sep@)) =~~= seq![cur@]);
    }
    let ghost done1 = done.deep_view();
    let ghost cur1 = cur@;
    done.push(cur);
    proof {
        assert(done.deep_view() =~~= done1 + seq![cur1]);
    }
    done
}

// ---- replacement ----

/// `h` with every non-overlapping, leftmost-first occurrence of `pat`
/// replaced by `to`.
pub open spec fn replace_all(s: Seq<char>, pat: Seq<char>, to: Seq<char>) -> Seq<char>
    decreases s.len(),
{
    if pat.len() == 0 || s.len() < pat.len() {
        s
    } else if s.subrange(0, pat.len() as int) == pat {
        to + replace_all(s.skip(pat.len() as int), pat, to)
    } else {
        seq![s[0]] + replace_all(s.skip(1), pat, to)
    }
}

/// Replacing a pattern that never occurs changes nothing.
pub proof fn lemma_replace_all_absent(s: Seq<char>, pat: Seq<char>, to: Seq<char>)
    requires
        pat.len() >= 1,
        !contains_seq(s, pat),
    ensures
        replace_all(s, pat, to) == s,
    decreases s.len(),
{
    if s.len() < pat.len() {
    } else if s.subrange(0, pat.len() as int) == pat {
        assert(match_at(s, pat, 0));
        assert(false);
    } else {
        assert forall|i: int| !match_at(s.skip(1), pat, i) by {
            if 0 <= i && i + pat.len() <= s.skip(1).len() {
                assert(s.skip(1).subrange(i, i + pat.len()) =~= s.subrange(i + 1, i + 1 + pat.len()));
                if s.skip(1).subrange(i, i + pat.len()) == pat {
                    assert(match_at(s, pat, i + 1));
                }
            }
        }
        lemma_replace_all_absent(s.skip(1), pat, to);
        assert(seq![s[0]] + s.skip(1) =~= s);
    }
}

/// Append all of `b` to `a`.
pub fn append_vec(a: &mut Vec<char>, b: &Vec<char>)
    ensures
        final(a)@ == old(a)@ + b@,
{
    let mut i: usize = 0;
    while i < b.len()
        invariant
            i <= b@.len(),
            a@ == old(a)@ + b@.take(i as int),
        decreases b@.len() - i,
    {
        a.push(b[i]);
        assert(a@ =~= old(a)@ + b@.take(i + 1));
        i += 1;
    }
    assert(old(a)@ + b@.take(b@.len() as int) =~= old(a)@ + b@);
}

/// Replace every occurrence of `pat` in `s` by `to`.
pub fn replace_all_vec(s: &Vec<char>, pat: &Vec<char>, to: &Vec<char>) -> (r: Vec<char>)
    requires
        pat@.len() >= 1,
    ensures
        r@ == replace_all(s@, pat@, to@),
{
    let mut out: Vec<char> = Vec::new();
    let mut i: usize = 0;
    proof {
        assert(s@.skip(0) =~= s@);
        assert(out@ + replace_all(s@, pat@, to@) =~= replace_all(s@, pat@, to@));
    }
    while i < s.len()
        invariant
            i <= s@.len(),
            pat@.len() >= 1,
            replace_all(s@, pat@, to@) == out@ + replace_all(s@.skip(i as int), pat@, to@),
        decreases s@.len() - i,
    {
        let ghost si = s@.skip(i as int);
        if s.len() - i >= pat.len() && match_at_exec(s, pat, i) {
            proof {
                assert(si.subrange(0, pat@.len() as int) =~= s@.subrange(i as int, i + pat@.len()));
                assert(si.skip(pat@.len() as int) =~= s@.skip(i + pat@.len()));
            }
            append_vec(&mut out, to);
            i = i + pat.len();
        } else {
            proof {
                assert(si.skip(1) =~= s@.skip(i + 1));
                if si.len() >= pat@.len() {
                    assert(si.subrange(0, pat@.len() as int) =~= s@.subrange(i as int, i + pat@.len()));
                } else {
                    assert(si =~= seq![si[0]] + si.skip(1));
                    assert(replace_all(si, pat@, to@) =~= seq![si[0]] + replace_all(si.skip(1), pat@, to@));
                }
            }
            out.push(s[i]);
            i = i + 1;
        }
    }
    assert(s@.skip(i as int) =~= Seq::<char>::empty());
    out
}

// ---- trimming ----

/// `h` with every copy of `pat` removed from the front.
pub open spec fn trim_start_matches_seq(h: Seq<char>, pat: Seq<char>) -> Seq<char>
    decreases h.len(),
{
    if pat.len() == 0 {
        h
    } else if starts_with_seq(h, pat) {
        trim_start_matches_seq(h.skip(pat.len() as int), pat)
    } else {
        h
    }
}

/// `h` with every copy of `pat` removed from the back.
pub open spec fn trim_end_matches_seq(h: Seq<char>, pat: Seq<char>) -> Seq<char>
    decreases h.len(),
{
    if pat.len() == 0 {
        h
    } else if ends_with_seq(h, pat) {
        trim_end_matches_seq(h.take(h.len() - pat.len()), pat)
    } else {
        h
    }
}

pub fn trim_start_matches_vec(h: &Vec<char>, pat: &Vec<char>) -> (r: Vec<char>)
    requires
        pat@.len() >= 1,
    ensures
        r@ == trim_start_matches_seq(h@, pat@),
{
    let mut i: usize = 0;
    assert(h@.skip(0) =~= h@);
    while h.len() - i >= pat.len() && match_at_exec(h, pat, i)
        invariant
            i <= h@.len(),
            pat@.len() >= 1,
            trim_start_matches_seq(h@, pat@) == trim_start_matches_seq(h@.skip(i as int), pat@),
        decreases h@.len() - i,
    {
        proof {
            let hi = h@.skip(i as int);
            assert(hi.subrange(0, pat@.len() as int) =~= h@.subrange(i as int, i + pat@.len()));
            assert(hi.skip(pat@.len() as int) =~= h@.skip(i + pat@.len()));
        }
        i = i + pat.len();
    }
    proof {
        let hi = h@.skip(i as int);
        if hi.len() >= pat@.len() {
            assert(hi.subrange(0, pat@.len() as int) =~= h@.subrange(i as int, i + pat@.len()));
        }
        assert(!starts_with_seq(hi, pat@));
    }
    let r = sub_vec(h, i, h.len());
    assert(r@ =~= h@.skip(i as int));
    r
}

pub fn trim_end_matches_vec(h: &Vec<char>, pat: &Vec<char>) -> (r: Vec<char>)
    requires
        pat@.len() >= 1,
    ensures
        r@ == trim_end_matches_seq(h@, pat@),
{
    let mut e: usize = h.len();
    assert(h@.take(h@.len() as int) =~= h@);
    while e >= pat.len() && match_at_exec(h, pat, e - pat.len())
        invariant
            e <= h@.len(),
            pat@.len() >= 1,
            trim_end_matches_seq(h@, pat@) == trim_end_matches_seq(h@.take(e as int), pat@),
        decreases e,
    {
        proof {
            let he = h@.take(e as int);
            assert(he.subrange(e - pat@.len(), e as int) =~= h@.subrange(e - pat@.len(), e as int));
            assert(he.take(e - pat@.len()) =~= h@.take(e - pat@.len()));
        }
        e = e - pat.len();
    }
    proof {
        let he = h@.take(e as int);
        if he.len() >= pat@.len() {
            assert(he.subrange(e - pat@.len(), e as int) =~= h@.subrange(e - pat@.len(), e as int));
        }
        assert(!ends_with_seq(he, pat@));
    }
    let r = sub_vec(h, 0, e);
    assert(r@ =~= h@.take(e as int));
    r
}

// ---- whitespace trimming ----

pub open spec fn is_ascii_ws(c: char) -> bool {
    c == ' ' || c == '\t' || c == '\n' || c == '\r'
}

pub open spec fn trim_start_ws(h: Seq<char>) -> Seq<char>
    decreases h.len(),
{
    if h.len() > 0 && is_ascii_ws(h[0]) {
        trim_start_ws(h.skip(1))
    } else {
        h
    }
}

pub open spec fn trim_end_ws(h: Seq<char>) -> Seq<char>
    decreases h.len(),
{
    if h.len() > 0 && is_ascii_ws(h.last()) {
        trim_end_ws(h.drop_last())
    } else {
        h
    }
}

/// ASCII whitespace removed from both ends.
pub open spec fn trim_ws(h: Seq<char>) -> Seq<char> {
    trim_end_ws(trim_start_ws(h))
}

pub fn trim_ws_vec(h: &Vec<char>) -> (r: Vec<char>)
    ensures
        r@ == trim_ws(h@),
{
    let mut i: usize = 0;
    assert(h@.skip(0) =~= h@);
    while i < h.len() && (h[i] == ' ' || h[i] == '\t' || h[i] == '\n' || h[i] == '\r')
        invariant
            i <= h@.len(),
            trim_start_ws(h@) == trim_start_ws(h@.skip(i as int)),
        decreases h@.len() - i,
    {
        proof {
            assert(h@.skip(i as int).skip(1) =~= h@.skip(i + 1));
        }
        i += 1;
    }
    assert(trim_start_ws(h@.skip(i as int)) == h@.skip(i as int));
    let mut e: usize = h.len();
    assert(h@.skip(i as int) =~= h@.subrange(i as int, h@.len() as int));
    while e > i && (h[e - 1] == ' ' || h[e - 1] == '\t' || h[e - 1] == '\n' || h[e - 1] == '\r')
        invariant
            i <= e <= h@.len(),
            trim_start_ws(h@) == trim_start_ws(h@.skip(i as int)),
            trim_start_ws(h@.skip(i as int)) == h@.skip(i as int),
            trim_end_ws(h@.skip(i as int)) == trim_end_ws(h@.subrange(i as int, e as int)),
        decreases e,
    {
        proof {
            let t = h@.subrange(i as int, e as int);
            assert(t.last() == h@[e - 1]);
            assert(t.drop_last() =~= h@.subrange(i as int, e - 1));
        }
        e -= 1;
    }
    proof {
        let t = h@.subrange(i as int, e as int);
        if t.len() > 0 {
            assert(t.last() == h@[e - 1]);
        }
        assert(trim_end_ws(t) == t);
    }
    sub_vec(h, i, e)
}

// ---- decimal parsing ----

pub open spec fn is_ascii_digit(c: char) -> bool {
    48 <= c as u32 && c as u32 <= 57
}

pub open spec fn digit_val(c: char) -> int {
    c as u32 - 48
}

pub open spec fn all_digits(s: Seq<char>) -> bool {
    forall|i: int| 0 <= i < s.len() ==> is_ascii_digit(s[i])
}

/// The number written in decimal by a digit sequence.
pub open spec fn digits_val(s: Seq<char>) -> int
    decreases s.len(),
{
    if s.len() == 0 {
        0
    } else {
        digits_val(s.drop_last()) * 10 + digit_val(s.last())
    }
}

proof fn lemma_digits_val_nonneg(s: Seq<char>)
    requires
        all_digits(s),
    ensures
        digits_val(s) >= 0,
    decreases s.len(),
{
    if s.len() > 0 {
        assert(all_digits(s.drop_last()));
        lemma_digits_val_nonneg(s.drop_last());
    }
}

proof fn lemma_digits_val_prefix_le(s: Seq<char>, j: int)
    requires
        all_digits(s),
        0 <= j <= s.len(),
    ensures
        digits_val(s.take(j)) <= digits_val(s),
    decreases s.len() - j,
{
    if j == s.len() {
        assert(s.take(j) =~= s);
    } else {
        assert(all_digits(s.drop_last()));
        lemma_digits_val_nonneg(s.drop_last());
        lemma_digits_val_prefix_le(s.drop_last(), j);
        assert(s.drop_last().take(j) =~= s.take(j));
    }
}

/// The value a decimal numeral (an optional `+`, then digits) denotes, when
/// it is a well-formed numeral no larger than 255.
pub open spec fn parse_u8_spec(s: Seq<char>) -> Option<u8> {
    let t = if s.len() > 0 && s[0] == '+' {
        s.skip(1)
    } else {
        s
    };
    if t.len() >= 1 && all_digits(t) && digits_val(t) <= 255 {
        Some(digits_val(t) as u8)
    } else {
        None
    }
}

/// Parse a decimal numeral into a byte, as `u8::from_str_radix(s, 10)` reads
/// it: an optional leading `+`, then one or more digits, value at most 255.
pub fn base_10_str_to_u8(s: &Vec<char>) -> (r: Option<u8>)
    ensures
        r == parse_u8_spec(s@),
{
    let start: usize = if s.len() > 0 && s[0] == '+' {
        1
    } else {
        0
    };
    let ghost t = if s@.len() > 0 && s@[0] == '+' {
        s@.skip(1)
    } else {
        s@
    };
    assert(t =~= s@.subrange(start as int, s@.len() as int));
    if s.len() == start {
        return None;
    }
    let mut acc: u32 = 0;
    let mut j: usize = start;
    while j < s.len()
        invariant
            start <= j <= s@.len(),
            start <= 1,
            t == (if s@.len() > 0 && s@[0] == '+' {
                s@.skip(1)
            } else {
                s@
            }),
            t == s@.subrange(start as int, s@.len() as int),
            acc == digits_val(t.take(j - start)),
            acc <= 255,
            all_digits(t.take(j - start)),
        decreases s@.len() - j,
    {
        let c = s[j];
        let u = c as u32;
        if u < 48 || u > 57 {
            proof {
                assert(t[j - start] == s@[j as int]);
                assert(!is_ascii_digit(t[j - start]));
                assert(!all_digits(t));
                assert(parse_u8_spec(s@) is None);
            }
            return None;
        }
        let d = u - 48;
        proof {
            let p = t.take(j + 1 - start);
            assert(p.drop_last() =~= t.take(j - start));
            assert(p.last() == t[j - start]);
            assert(t[j - start] == s@[j as int]);
        }
        acc = acc * 10 + d;
        assert(all_digits(t.take(j + 1 - start)));
        if acc > 255 {
            proof {
                if all_digits(t) {
                    lemma_digits_val_prefix_le(t, j + 1 - start);
                    assert(digits_val(t) > 255);
                }
                assert(parse_u8_spec(s@) is None);
            }
            return None;
        }
        j += 1;
    }
    assert(t.take(j - start) =~= t);
    Some(acc as u8)
}

// ---- conversions between String and Vec<char> ----

/// The characters of `s`, in order.
pub fn chars_of(s: &str) -> (r: Vec<char>)
    ensures
        r@ == s@,
{
    let n = s.unicode_len();
    let mut r: Vec<char> = Vec::new();
    let mut i: usize = 0;
    while i < n
        invariant
            i <= s@.len(),
            n == s@.len(),
            r@ == s@.take(i as int),
        decreases s@.len() - i,
    {
        r.push(s.get_char(i));
        assert(r@ =~= s@.take(i + 1));
        i += 1;
    }
    assert(s@.take(s@.len() as int) =~= s@);
    r
}

/// Relies on `String::push`: it appends exactly the one given character.
#[verifier::external_body]
fn push_char(s: &mut String, c: char)
    ensures
        final(s)@ == old(s)@.push(c),
{
    s.push(c);
}

/// A `String` holding exactly the characters of `v`.
pub fn string_of(v: &Vec<char>) -> (r: String)
    ensures
        r@ == v@,
{
    let mut r = String::new();
    let mut i: usize = 0;
    while i < v.len()
        invariant
            i <= v@.len(),
            r@ == v@.take(i as int),
        decreases v@.len() - i,
    {
        push_char(&mut r, v[i]);
        assert(r@ =~= v@.take(i + 1));
        i += 1;
    }
    assert(v@.take(v@.len() as int) =~= v@);
    r
}

} // verus!
