//! Message-pack resolution: given a locale and a directory listing, choose
//! one file by a deterministic cascade — the four candidate names in order
//! (matched against regular files, ignoring case), then the first entry
//! whose name starts with the locale's language, then the first whose name
//! starts with "en".

use vstd::prelude::*;
use crate::locale::{candidate_names, LocaleSpec};
use crate::text::{chars_of, lower_seq, starts_with_exec, starts_with_seq, to_lower_vec, vec_eq};

verus! {

/// One directory entry: its name and whether it is a regular file.
pub struct DirEntry {
    pub name: String,
    pub is_file: bool,
}

/// First listing index holding a regular file named `name`, compared
/// ignoring ASCII case: the candidate carries its territory and modifier
/// lower-cased, and a file may spell those segments — or any other part of
/// its name — in whatever case.
pub open spec fn find_exact(listing: Seq<DirEntry>, name: Seq<char>) -> Option<int>
    decreases listing.len(),
{
    if listing.len() == 0 {
        None
    } else if listing[0].is_file && lower_seq(listing[0].name@) == lower_seq(name) {
        Some(0)
    } else {
        match find_exact(listing.skip(1), name) {
            None => None,
            Some(i) => Some(i + 1),
        }
    }
}

/// First listing index whose name starts with `prefix`, whatever the kind
/// of the entry.
pub open spec fn find_prefixed(listing: Seq<DirEntry>, prefix: Seq<char>) -> Option<int>
    decreases listing.len(),
{
    if listing.len() == 0 {
        None
    } else if starts_with_seq(listing[0].name@, prefix) {
        Some(0)
    } else {
        match find_prefixed(listing.skip(1), prefix) {
            None => None,
            Some(i) => Some(i + 1),
        }
    }
}

/// The file the first matching candidate selects, in cascade order: its
/// name as the listing spells it, so that the caller opens the file that
/// really exists.
pub open spec fn resolve_exact(cands: Seq<Seq<char>>, listing: Seq<DirEntry>) -> Option<Seq<char>>
    decreases cands.len(),
{
    if cands.len() == 0 {
        None
    } else {
        match find_exact(listing, cands[0]) {
            Some(i) => Some(listing[i].name@),
            None => resolve_exact(cands.skip(1), listing),
        }
    }
}

/// The file name the resolver chooses: the first candidate's
/// case-insensitive file match, else the name of the first entry with the
/// language prefix, else the name of the first entry with the prefix "en",
/// else none. The two prefix passes compare exactly, as spelled.
pub open spec fn resolve_spec(
    lang: Seq<char>,
    cands: Seq<Seq<char>>,
    listing: Seq<DirEntry>,
) -> Option<Seq<char>> {
    match resolve_exact(cands, listing) {
        Some(n) => Some(n),
        None => match find_prefixed(listing, lang) {
            Some(i) => Some(listing[i].name@),
            None => match find_prefixed(listing, seq!['e', 'n']) {
                Some(i) => Some(listing[i].name@),
                None => None,
            },
        },
    }
}

proof fn lemma_find_exact(listing: Seq<DirEntry>, name: Seq<char>)
    ensures
        match find_exact(listing, name) {
            Some(i) => 0 <= i < listing.len() && listing[i].is_file && lower_seq(listing[i].name@)
                == lower_seq(name) && forall|k: int|
                0 <= k < i ==> !(#[trigger] listing[k].is_file && lower_seq(listing[k].name@)
                    == lower_seq(name)),
            None => forall|k: int|
                0 <= k < listing.len() ==> !(#[trigger] listing[k].is_file && lower_seq(
                    listing[k].name@,
                ) == lower_seq(name)),
        },
    decreases listing.len(),
{
    if listing.len() > 0 && !(listing[0].is_file && lower_seq(listing[0].name@) == lower_seq(
        name,
    )) {
        lemma_find_exact(listing.skip(1), name);
        assert forall|k: int| 1 <= k < listing.len() implies listing.skip(1)[k - 1]
            == listing[k] by {}
    }
}

proof fn lemma_find_prefixed(listing: Seq<DirEntry>, prefix: Seq<char>)
    ensures
        match find_prefixed(listing, prefix) {
            Some(i) => 0 <= i < listing.len() && starts_with_seq(listing[i].name@, prefix)
                && forall|k: int| 0 <= k < i ==> !starts_with_seq(#[trigger] listing[k].name@, prefix),
            None => forall|k: int|
                0 <= k < listing.len() ==> !starts_with_seq(#[trigger] listing[k].name@, prefix),
        },
    decreases listing.len(),
{
    if listing.len() > 0 && !starts_with_seq(listing[0].name@, prefix) {
        lemma_find_prefixed(listing.skip(1), prefix);
        assert forall|k: int| 1 <= k < listing.len() implies listing.skip(1)[k - 1]
            == listing[k] by {}
    }
}

fn find_exact_exec(listing: &Vec<DirEntry>, name: &Vec<char>) -> (r: Option<usize>)
    ensures
        match r {
            Some(i) => i < listing@.len() && find_exact(listing@, name@) == Some(i as int),
            None => find_exact(listing@, name@) is None,
        },
{
    let lowered = to_lower_vec(name);
    let mut i: usize = 0;
    while i < listing.len()
        invariant
            i <= listing@.len(),
            lowered@ == lower_seq(name@),
            forall|k: int|
                0 <= k < i ==> !(#[trigger] listing@[k].is_file && lower_seq(listing@[k].name@)
                    == lower_seq(name@)),
        decreases listing@.len() - i,
    {
        let hit = listing[i].is_file && vec_eq(
            &to_lower_vec(&chars_of(listing[i].name.as_str())),
            &lowered,
        );
        if hit {
            proof {
                lemma_find_exact(listing@, name@);
            }
            return Some(i);
        }
        i += 1;
    }
    proof {
        lemma_find_exact(listing@, name@);
    }
    None
}

fn find_prefixed_exec(listing: &Vec<DirEntry>, prefix: &Vec<char>) -> (r: Option<usize>)
    ensures
        match r {
            Some(i) => i < listing@.len() && find_prefixed(listing@, prefix@) == Some(i as int),
            None => find_prefixed(listing@, prefix@) is None,
        },
{
    let mut i: usize = 0;
    while i < listing.len()
        invariant
            i <= listing@.len(),
            forall|k: int| 0 <= k < i ==> !starts_with_seq(#[trigger] listing@[k].name@, prefix@),
        decreases listing@.len() - i,
    {
        if starts_with_exec(&chars_of(listing[i].name.as_str()), prefix) {
            proof {
                lemma_find_prefixed(listing@, prefix@);
            }
            return Some(i);
        }
        i += 1;
    }
    proof {
        lemma_find_prefixed(listing@, prefix@);
    }
    None
}

impl LocaleSpec {
    /// The name of the message-pack file this locale selects from the
    /// listing, or `None` when every pass of the cascade comes up empty.
    /// A candidate matches a regular file ignoring ASCII case, and the
    /// result is the name as the listing spells it.
    pub fn get_best_file_name(&self, listing: &Vec<DirEntry>) -> (r: Option<String>)
        ensures
            match r {
                Some(name) => resolve_spec(
                    self.language@,
                    candidate_names(self.language@, self.territory@, self.modifier@),
                    listing@,
                ) == Some(name@),
                None => resolve_spec(
                    self.language@,
                    candidate_names(self.language@, self.territory@, self.modifier@),
                    listing@,
                ) is None,
            },
    {
        let cands = self.four_best_file_names();
        let ghost cv = candidate_names(self.language@, self.territory@, self.modifier@);
        let mut c: usize = 0;
        proof {
            assert(cv.skip(0) =~~= cv);
        }
        while c < cands.len()
            invariant
                c <= cands@.len(),
                cands.deep_view() == cv,
                cv == candidate_names(self.language@, self.territory@, self.modifier@),
                resolve_exact(cv, listing@) == resolve_exact(cv.skip(c as int), listing@),
            decreases cands@.len() - c,
        {
            let name = chars_of(cands[c].as_str());
            assert(cands.deep_view()[c as int] == cands@[c as int]@);
            assert(name@ == cv[c as int]);
            match find_exact_exec(listing, &name) {
                Some(idx) => {
                    proof {
                        assert(cv.skip(c as int)[0] == cv[c as int]);
                        assert(resolve_exact(cv.skip(c as int), listing@) == Some(
                            listing@[idx as int].name@,
                        ));
                    }
                    return Some(listing[idx].name.clone());
                },
                None => {},
            }
            proof {
                assert(cv.skip(c as int).skip(1) =~~= cv.skip(c + 1));
            }
            c += 1;
        }
        assert(cv.skip(c as int).len() == 0);
        assert(resolve_exact(cv, listing@) is None);

        let lang = chars_of(self.language.as_str());
        match find_prefixed_exec(listing, &lang) {
            Some(i) => {
                return Some(listing[i].name.clone());
            },
            None => {},
        }
        let mut en: Vec<char> = Vec::new();
        en.push('e');
        en.push('n');
        assert(en@ =~= seq!['e', 'n']);
        match find_prefixed_exec(listing, &en) {
            Some(i) => Some(listing[i].name.clone()),
            None => None,
        }
    }

    /// The full path of the selected message-pack file: the directory path
    /// with the chosen file name appended.
    pub fn get_best_file_path(&self, path: &str, listing: &Vec<DirEntry>) -> (r: Option<String>)
        ensures
            match r {
                Some(p) => resolve_spec(
                    self.language@,
                    candidate_names(self.language@, self.territory@, self.modifier@),
                    listing@,
                ) matches Some(n) && p@ == path@ + n,
                None => resolve_spec(
                    self.language@,
                    candidate_names(self.language@, self.territory@, self.modifier@),
                    listing@,
                ) is None,
            },
    {
        match self.get_best_file_name(listing) {
            Some(name) => {
                let joined = String::from_str(path).concat(name.as_str());
                Some(joined)
            },
            None => None,
        }
    }
}

} // verus!
