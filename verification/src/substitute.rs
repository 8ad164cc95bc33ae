//! Parameter substitution: every occurrence of a placeholder `($name)` in a
//! template is replaced by the named parameter's value.

use vstd::prelude::*;
use crate::text::{
    append_vec, chars_of, contains_seq, lemma_replace_all_absent, replace_all, replace_all_vec,
    string_of,
};

verus! {

/// The placeholder token a parameter named `name` owns: `($name)`.
pub open spec fn placeholder(name: Seq<char>) -> Seq<char> {
    seq!['(', '$'] + name + seq![')']
}

/// The template after substituting the parameters in order: each parameter
/// in turn replaces every occurrence of its placeholder in the result of
/// the previous replacements.
pub open spec fn substitute_spec(t: Seq<char>, params: Seq<(Seq<char>, Seq<char>)>) -> Seq<char>
    decreases params.len(),
{
    if params.len() == 0 {
        t
    } else {
        substitute_spec(replace_all(t, placeholder(params[0].0), params[0].1), params.skip(1))
    }
}

/// Replace every placeholder `($name)` in `template` by the value its
/// parameter supplies, parameters applied in order. A placeholder with no
/// matching parameter stays verbatim; that is no error.
pub fn substitute(template: &str, params: &Vec<(String, String)>) -> (r: String)
    ensures
        r@ == substitute_spec(template@, params.deep_view()),
{
    let mut cur: Vec<char> = chars_of(template);
    let mut i: usize = 0;
    proof {
        assert(params.deep_view().skip(0) =~~= params.deep_view());
    }
    while i < params.len()
        invariant
            i <= params@.len(),
            substitute_spec(template@, params.deep_view()) == substitute_spec(
                cur@,
                params.deep_view().skip(i as int),
            ),
        decreases params@.len() - i,
    {
        let p = &params[i];
        assert(params.deep_view()[i as int] == (params@[i as int].0@, params@[i as int].1@));
        let mut pat: Vec<char> = Vec::new();
        pat.push('(');
        pat.push('$');
        append_vec(&mut pat, &chars_of(p.0.as_str()));
        pat.push(')');
        assert(pat@ =~= placeholder(params.deep_view()[i as int].0));
        let val = chars_of(p.1.as_str());
        cur = replace_all_vec(&cur, &pat, &val);
        proof {
            assert(params.deep_view().skip(i as int)[0] == params.deep_view()[i as int]);
            assert(params.deep_view().skip(i as int).skip(1) =~~= params.deep_view().skip(i + 1));
        }
        i += 1;
    }
    assert(params.deep_view().skip(i as int).len() == 0);
    string_of(&cur)
}

/// Law: a template in which no parameter's placeholder occurs at all is
/// left verbatim by substitution.
pub proof fn lemma_substitute_absent(t: Seq<char>, params: Seq<(Seq<char>, Seq<char>)>)
    requires
        forall|k: int|
            0 <= k < params.len() ==> !contains_seq(t, placeholder(#[trigger] params[k].0)),
    ensures
        substitute_spec(t, params) == t,
    decreases params.len(),
{
    if params.len() > 0 {
        assert(!contains_seq(t, placeholder(params[0].0)));
        lemma_replace_all_absent(t, placeholder(params[0].0), params[0].1);
        assert forall|k: int| 0 <= k < params.skip(1).len() implies !contains_seq(
            t,
            placeholder(#[trigger] params.skip(1)[k].0),
        ) by {
            assert(params.skip(1)[k] == params[k + 1]);
        }
        lemma_substitute_absent(t, params.skip(1));
    }
}

} // verus!
