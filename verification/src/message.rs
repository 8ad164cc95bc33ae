//! Dotted message keys and the message tree: a key such as "a.b.c" is split
//! into segments, and the segments walk a tree of string-keyed nodes down to
//! a leaf template string.

use vstd::prelude::*;
use crate::text::{
    append_vec,
    chars_of, lemma_split_on_len, split_on, split_on_vec, string_of, trim_end_matches_seq,
    trim_end_matches_vec, trim_start_matches_seq, trim_start_matches_vec,
};

verus! {

/// A dotted message key, split into its ordered path segments.
pub struct MessageKey {
    pub path: Vec<String>,
}

impl MessageKey {
    /// Split a dotted key on `.`: "a.b.c" yields exactly the segments "a",
    /// "b" and "c" in order; a key without dots yields one segment.
    pub fn new(key: &str) -> (r: MessageKey)
        ensures
            r.path.deep_view() == split_on(key@, seq!['.']),
            r.path@.len() >= 1,
    {
        let s = chars_of(key);
        let mut dot: Vec<char> = Vec::new();
        dot.push('.');
        assert(dot@ =~= seq!['.']);
        let pieces = split_on_vec(&s, &dot);
        proof {
            lemma_split_on_len(key@, seq!['.']);
        }
        let mut path: Vec<String> = Vec::new();
        let mut i: usize = 0;
        proof {
            assert(path.deep_view() =~~= pieces.deep_view().take(0));
        }
        while i < pieces.len()
            invariant
                i <= pieces@.len(),
                pieces.deep_view() == split_on(key@, seq!['.']),
                path@.len() == i,
                path.deep_view() == pieces.deep_view().take(i as int),
            decreases pieces@.len() - i,
        {
            path.push(string_of(&pieces[i]));
            proof {
                assert(pieces.deep_view()[i as int] == pieces@[i as int]@);
                assert(path.deep_view() =~~= pieces.deep_view().take(i + 1));
            }
            i += 1;
        }
        proof {
            assert(pieces.deep_view().take(pieces@.len() as int) =~~= pieces.deep_view());
        }
        MessageKey { path }
    }

    pub fn get_path(&self) -> (r: &Vec<String>)
        ensures
            r@ == self.path@,
    {
        &self.path
    }
}

/// The segments joined by commas, without a trailing one.
pub open spec fn join_comma(parts: Seq<Seq<char>>) -> Seq<char>
    decreases parts.len(),
{
    if parts.len() == 0 {
        Seq::<char>::empty()
    } else if parts.len() == 1 {
        parts[0]
    } else {
        parts[0] + seq![','] + join_comma(parts.skip(1))
    }
}

proof fn lemma_join_comma_push(parts: Seq<Seq<char>>, p: Seq<char>)
    requires
        parts.len() >= 1,
    ensures
        join_comma(parts.push(p)) == join_comma(parts) + seq![','] + p,
    decreases parts.len(),
{
    if parts.len() == 1 {
        assert(parts.push(p)[0] == parts[0]);
        assert(parts.push(p).skip(1) =~~= seq![p]);
        assert(seq![p][0] == p);
        assert(join_comma(seq![p]) == p);
        assert(join_comma(parts.push(p)) == parts.push(p)[0] + seq![','] + join_comma(
            parts.push(p).skip(1),
        ));
        assert(join_comma(parts.push(p)) == parts[0] + seq![','] + p);
    } else {
        assert(parts.push(p).skip(1) =~~= parts.skip(1).push(p));
        lemma_join_comma_push(parts.skip(1), p);
        assert(parts.push(p)[0] == parts[0]);
        assert(parts[0] + seq![','] + (join_comma(parts.skip(1)) + seq![','] + p) =~= (parts[0]
            + seq![','] + join_comma(parts.skip(1))) + seq![','] + p);
    }
}

/// The one-line rendering of a key: `messagekey: ` and its comma-joined
/// segments.
pub open spec fn key_display(parts: Seq<Seq<char>>) -> Seq<char> {
    seq!['m', 'e', 's', 's', 'a', 'g', 'e', 'k', 'e', 'y', ':', ' '] + join_comma(parts)
}

impl MessageKey {
    /// A one-line description of the key: `messagekey: ` followed by the
    /// segments, separated by commas.
    pub fn describe(&self) -> (r: String)
        requires
            self.path@.len() >= 1,
        ensures
            r@ == key_display(self.path.deep_view()),
    {
        let lit = chars_of("messagekey: ");
        proof {
            reveal_strlit("messagekey: ");
        }
        assert(lit@ =~= seq!['m', 'e', 's', 's', 'a', 'g', 'e', 'k', 'e', 'y', ':', ' ']);
        let mut out: Vec<char> = Vec::new();
        append_vec(&mut out, &lit);
        let ghost dv = self.path.deep_view();
        let mut i: usize = 0;
        proof {
            assert(join_comma(dv.take(0)) == Seq::<char>::empty());
            assert(out@ =~= lit@ + join_comma(dv.take(0)));
        }
        while i < self.path.len()
            invariant
                i <= self.path@.len(),
                dv == self.path.deep_view(),
                dv.len() == self.path@.len(),
                lit@ == seq!['m', 'e', 's', 's', 'a', 'g', 'e', 'k', 'e', 'y', ':', ' '],
                out@ == lit@ + join_comma(dv.take(i as int)),
            decreases self.path@.len() - i,
        {
            if i > 0 {
                out.push(',');
                proof {
                    assert(out@ =~= lit@ + (join_comma(dv.take(i as int)) + seq![',']));
                }
            }
            assert(dv[i as int] == self.path@[i as int]@);
            append_vec(&mut out, &chars_of(self.path[i].as_str()));
            proof {
                assert(dv.take(i + 1) =~~= dv.take(i as int).push(dv[i as int]));
                if i == 0 {
                    assert(dv.take(1).len() == 1);
                    assert(join_comma(dv.take(1)) == dv.take(1)[0]);
                    assert(out@ =~= lit@ + join_comma(dv.take(1)));
                } else {
                    lemma_join_comma_push(dv.take(i as int), dv[i as int]);
                    assert(out@ =~= lit@ + join_comma(dv.take(i + 1)));
                }
            }
            i += 1;
        }
        assert(dv.take(dv.len() as int) =~~= dv);
        string_of(&out)
    }
}

/// One node of a message tree: a leaf template string, or a table of named
/// child nodes in file order.
pub enum MessageNode {
    Leaf(String),
    Table(Vec<(String, MessageNode)>),
}

/// The error of a failed key walk, naming the offending segment.
#[derive(PartialEq, Eq, Debug)]
pub struct KeyError {
    pub segment: String,
}

/// The child a table maps a segment name to: the first entry, in order,
/// whose name equals the segment.
pub open spec fn table_lookup(entries: Seq<(String, MessageNode)>, key: Seq<char>) -> Option<
    MessageNode,
>
    decreases entries.len(),
{
    if entries.len() == 0 {
        None
    } else if entries[0].0@ == key {
        Some(entries[0].1)
    } else {
        table_lookup(entries.skip(1), key)
    }
}

/// Surrounding double quotes stripped from a leaf value.
pub open spec fn strip_quotes(s: Seq<char>) -> Seq<char> {
    trim_end_matches_seq(trim_start_matches_seq(s, seq!['"']), seq!['"'])
}

/// The leaf string a path leads to, quotes stripped: each segment in turn
/// must name a child of a table node, and the last must name a leaf.
pub open spec fn resolve_path_spec(node: MessageNode, path: Seq<Seq<char>>) -> Option<Seq<char>>
    recommends
        path.len() >= 1,
    decreases path.len(),
{
    match node {
        MessageNode::Leaf(_) => None,
        MessageNode::Table(entries) => match table_lookup(entries@, path[0]) {
            None => None,
            Some(child) => if path.len() <= 1 {
                match child {
                    MessageNode::Leaf(s) => Some(strip_quotes(s@)),
                    MessageNode::Table(_) => None,
                }
            } else {
                resolve_path_spec(child, path.skip(1))
            },
        },
    }
}

/// The segment a failed walk stops at: the one looked up in a node that is
/// no table, the one absent from its table, or the last one when it names a
/// table instead of a leaf.
pub open spec fn offending_segment(node: MessageNode, path: Seq<Seq<char>>) -> Seq<char>
    recommends
        path.len() >= 1,
    decreases path.len(),
{
    match node {
        MessageNode::Leaf(_) => path[0],
        MessageNode::Table(entries) => match table_lookup(entries@, path[0]) {
            None => path[0],
            Some(child) => if path.len() <= 1 {
                path[0]
            } else {
                offending_segment(child, path.skip(1))
            },
        },
    }
}

proof fn lemma_table_lookup_none(entries: Seq<(String, MessageNode)>, key: Seq<char>)
    requires
        forall|k: int| 0 <= k < entries.len() ==> (#[trigger] entries[k].0)@ != key,
    ensures
        table_lookup(entries, key) is None,
    decreases entries.len(),
{
    if entries.len() > 0 {
        assert(entries[0].0@ != key);
        assert forall|k: int| 0 <= k < entries.skip(1).len() implies (#[trigger] entries.skip(
            1,
        )[k].0)@ != key by {
            assert(entries.skip(1)[k] == entries[k + 1]);
        }
        lemma_table_lookup_none(entries.skip(1), key);
    }
}

proof fn lemma_table_lookup_first(entries: Seq<(String, MessageNode)>, key: Seq<char>, i: int)
    requires
        0 <= i < entries.len(),
        entries[i].0@ == key,
        forall|k: int| 0 <= k < i ==> (#[trigger] entries[k].0)@ != key,
    ensures
        table_lookup(entries, key) == Some(entries[i].1),
    decreases i,
{
    if i == 0 {
    } else {
        assert(entries[0].0@ != key);
        assert forall|k: int| 0 <= k < i - 1 implies (#[trigger] entries.skip(1)[k].0)@ != key by {
            assert(entries.skip(1)[k] == entries[k + 1]);
        }
        assert(entries.skip(1)[i - 1] == entries[i]);
        lemma_table_lookup_first(entries.skip(1), key, i - 1);
    }
}

fn table_lookup_exec<'a>(entries: &'a Vec<(String, MessageNode)>, key: &String) -> (r: Option<
    &'a MessageNode,
>)
    ensures
        match r {
            Some(child) => table_lookup(entries@, key@) == Some(*child),
            None => table_lookup(entries@, key@) is None,
        },
{
    let mut i: usize = 0;
    while i < entries.len()
        invariant
            i <= entries@.len(),
            forall|k: int| 0 <= k < i ==> (#[trigger] entries@[k].0)@ != key@,
        decreases entries@.len() - i,
    {
        let e = &entries[i];
        if e.0.eq(key) {
            proof {
                lemma_table_lookup_first(entries@, key@, i as int);
            }
            return Some(&e.1);
        }
        i += 1;
    }
    proof {
        lemma_table_lookup_none(entries@, key@);
    }
    None
}

/// Strip surrounding double quotes from a leaf value.
fn strip_quotes_exec(s: &String) -> (r: String)
    ensures
        r@ == strip_quotes(s@),
{
    let v = chars_of(s.as_str());
    let mut q: Vec<char> = Vec::new();
    q.push('"');
    assert(q@ =~= seq!['"']);
    string_of(&trim_end_matches_vec(&trim_start_matches_vec(&v, &q), &q))
}

fn walk<'a>(node: &'a MessageNode, path: &Vec<String>, idx: usize) -> (r: Result<String, KeyError>)
    requires
        idx < path@.len(),
    ensures
        match r {
            Ok(s) => resolve_path_spec(*node, path.deep_view().skip(idx as int)) == Some(s@),
            Err(e) => resolve_path_spec(*node, path.deep_view().skip(idx as int)) is None
                && e.segment@ == offending_segment(*node, path.deep_view().skip(idx as int)),
        },
    decreases path@.len() - idx,
{
    let ghost p = path.deep_view().skip(idx as int);
    assert(p[0] == path@[idx as int]@);
    let seg = &path[idx];
    match node {
        MessageNode::Leaf(_) => Err(KeyError { segment: seg.clone() }),
        MessageNode::Table(entries) => {
            match table_lookup_exec(entries, seg) {
                None => Err(KeyError { segment: seg.clone() }),
                Some(child) => {
                    if path.len() - idx == 1 {
                        assert(p.len() == 1);
                        match child {
                            MessageNode::Leaf(s) => Ok(strip_quotes_exec(s)),
                            MessageNode::Table(_) => Err(KeyError { segment: seg.clone() }),
                        }
                    } else {
                        let r = walk(child, path, idx + 1);
                        proof {
                            assert(p.skip(1) =~~= path.deep_view().skip(idx + 1));
                        }
                        r
                    }
                },
            }
        },
    }
}

/// Walk the message tree along the key's path to its leaf template string.
/// Fails, naming the offending segment, when a segment is looked up in a
/// leaf, is absent from its table, or when the full path still names a
/// table.
pub fn resolve_path(node: &MessageNode, key: &MessageKey) -> (r: Result<String, KeyError>)
    requires
        key.path@.len() >= 1,
    ensures
        match r {
            Ok(s) => resolve_path_spec(*node, key.path.deep_view()) == Some(s@),
            Err(e) => resolve_path_spec(*node, key.path.deep_view()) is None && e.segment@
                == offending_segment(*node, key.path.deep_view()),
        },
{
    proof {
        assert(key.path.deep_view().skip(0) =~~= key.path.deep_view());
    }
    walk(node, &key.path, 0)
}

} // verus!
