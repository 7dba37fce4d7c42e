//! Character-level splitting and building of strings.

use vstd::prelude::*;

use crate::model::{last_index_of, lemma_last_index_of, split_on, split_version_of};

verus! {

/// Relies on `String::push`: the character is appended at the end.
pub assume_specification[ String::push ](s: &mut String, ch: char)
    ensures
        final(s)@ == old(s)@.push(ch),
;

/// The characters of each string.
pub open spec fn views_of(v: Seq<String>) -> Seq<Seq<char>> {
    v.map_values(|t: String| t@)
}

/// Splits `s` into its parts between occurrences of `d`.
pub(crate) fn split_tokens(s: &str, d: char) -> (r: Vec<String>)
    ensures
        views_of(r@) == split_on(s@, d),
{
    let mut tokens: Vec<String> = Vec::new();
    let mut current = String::new();
    for c in it: s.chars()
        invariant
            it.seq() == s@,
            views_of(tokens@).push(current@) == split_on(s@.take(it.index() as int), d),
    {
        let ghost p = s@.take(it.index() as int);
        let ghost p2 = s@.take(it.index() + 1);
        assert(p2.drop_last() =~= p);
        assert(p2.last() == c);
        if c == d {
            tokens.push(current);
            current = String::new();
            assert(views_of(tokens@).push(current@) =~= split_on(p2, d));
        } else {
            current.push(c);
            assert(views_of(tokens@).push(current@) =~= split_on(p2, d));
        }
    }
    assert(s@.take(s@.len() as int) =~= s@);
    tokens.push(current);
    tokens
}

/// Cuts a version token at its last `-` into the version and the label.
pub(crate) fn split_version(t: &str) -> (r: (String, Option<String>))
    ensures
        r.0@ == split_version_of(t@).0,
        r.1 matches Some(l) ==> split_version_of(t@).1 == Some(l@),
        r.1 is None ==> split_version_of(t@).1 is None,
{
    // `head` holds what precedes the last `-` seen so far, `tail` what follows it.
    let mut head: Option<String> = None;
    let mut tail = String::new();
    for c in it: t.chars()
        invariant
            it.seq() == t@,
            ({
                let p = t@.take(it.index() as int);
                match last_index_of(p, '-') {
                    Some(k) => head matches Some(h) && h@ == p.take(k) && tail@ == p.skip(k + 1),
                    None => head is None && tail@ == p,
                }
            }),
    {
        let ghost p = t@.take(it.index() as int);
        let ghost p2 = t@.take(it.index() + 1);
        assert(p2.drop_last() =~= p);
        assert(p2.last() == c);
        proof {
            lemma_last_index_of(p, '-');
        }
        if c == '-' {
            let joined = match head {
                Some(h) => {
                    let mut h = h;
                    h.push('-');
                    h.append(tail.as_str());
                    assert(h@ =~= p);
                    h
                },
                None => tail,
            };
            head = Some(joined);
            tail = String::new();
            assert(p2.take(p.len() as int) =~= p);
            assert(p2.skip(p.len() as int + 1) =~= Seq::<char>::empty());
        } else {
            tail.push(c);
            proof {
                if let Some(k) = last_index_of(p, '-') {
                    assert(p2.take(k) =~= p.take(k));
                    assert(p2.skip(k + 1) =~= p.skip(k + 1).push(c));
                }
            }
        }
    }
    assert(t@.take(t@.len() as int) =~= t@);
    match head {
        Some(h) => (h, Some(tail)),
        None => (tail, None),
    }
}

} // verus!
