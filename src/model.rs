//! The mathematical model of coordinates and of the strings derived from them.

use vstd::prelude::*;

verus! {

/// The abstract value of a set of coordinates: each text field as a sequence of characters.
pub ghost struct CoordinatesView {
    pub group_id: Seq<char>,
    pub artifact_id: Seq<char>,
    pub version: Seq<char>,
    pub version_label: Option<Seq<char>>,
    pub packaging: Seq<char>,
    pub classifier: Option<Seq<char>>,
}

/// The packaging assumed when none is given.
pub open spec fn standard_packaging() -> Seq<char> {
    seq!['j', 'a', 'r']
}

/// The parts of `s` between occurrences of `d`, in order; a string without `d` is one part, and
/// the empty string is one empty part.
pub open spec fn split_on(s: Seq<char>, d: char) -> Seq<Seq<char>>
    decreases s.len(),
{
    if s.len() == 0 {
        seq![Seq::empty()]
    } else {
        let init = split_on(s.drop_last(), d);
        if s.last() == d {
            init.push(Seq::empty())
        } else {
            init.update(init.len() - 1, init.last().push(s.last()))
        }
    }
}

/// The parts joined back together, `d` between each two.
pub open spec fn join_with(parts: Seq<Seq<char>>, d: char) -> Seq<char>
    decreases parts.len(),
{
    if parts.len() <= 1 {
        if parts.len() == 0 {
            Seq::empty()
        } else {
            parts[0]
        }
    } else {
        join_with(parts.drop_last(), d) + seq![d] + parts.last()
    }
}

/// Each part followed by `sep`, all concatenated.
pub open spec fn each_followed_by(parts: Seq<Seq<char>>, sep: char) -> Seq<char>
    decreases parts.len(),
{
    if parts.len() == 0 {
        Seq::empty()
    } else {
        each_followed_by(parts.drop_last(), sep) + parts.last().push(sep)
    }
}

/// The index of the last occurrence of `c` in `s`, if any.
pub open spec fn last_index_of(s: Seq<char>, c: char) -> Option<int>
    decreases s.len(),
{
    if s.len() == 0 {
        None
    } else if s.last() == c {
        Some(s.len() - 1)
    } else {
        last_index_of(s.drop_last(), c)
    }
}

/// A version token cut at its last `-` into the version and the label; without `-`, the whole
/// token and no label.
pub open spec fn split_version_of(t: Seq<char>) -> (Seq<char>, Option<Seq<char>>) {
    match last_index_of(t, '-') {
        Some(i) => (t.take(i), Some(t.skip(i + 1))),
        None => (t, None),
    }
}

/// The coordinates that a string denotes, or `None` when it holds fewer than three
/// `:`-separated parts. Parts after the fifth are ignored.
pub open spec fn parse_of(s: Seq<char>) -> Option<CoordinatesView> {
    let t = split_on(s, ':');
    if t.len() < 3 {
        None
    } else {
        Some(
            CoordinatesView {
                group_id: t[0],
                artifact_id: t[1],
                version: split_version_of(t[2]).0,
                version_label: split_version_of(t[2]).1,
                packaging: if t.len() > 3 {
                    t[3]
                } else {
                    standard_packaging()
                },
                classifier: if t.len() > 4 {
                    Some(t[4])
                } else {
                    None
                },
            },
        )
    }
}

/// `sep` followed by `s`, when `s` is present; nothing otherwise.
pub open spec fn suffix_of(sep: char, s: Option<Seq<char>>) -> Seq<char> {
    match s {
        Some(t) => seq![sep] + t,
        None => Seq::empty(),
    }
}

/// The version together with its label, joined by `-`.
pub open spec fn full_version_of(c: CoordinatesView) -> Seq<char> {
    c.version + suffix_of('-', c.version_label)
}

/// The artifact, the full version and the classifier, joined by `-`.
pub open spec fn file_basename_of(c: CoordinatesView) -> Seq<char> {
    c.artifact_id + seq!['-'] + full_version_of(c) + suffix_of('-', c.classifier)
}

/// The base file name, `.` and the packaging.
pub open spec fn file_name_of(c: CoordinatesView) -> Seq<char> {
    file_basename_of(c) + seq!['.'] + c.packaging
}

/// The repository-relative path: each segment of the group followed by `sep`, then the
/// artifact, the full version and the file name, separated by `sep`.
pub open spec fn path_of(c: CoordinatesView, sep: char) -> Seq<char> {
    each_followed_by(split_on(c.group_id, '.'), sep) + c.artifact_id + seq![sep]
        + full_version_of(c) + seq![sep] + file_name_of(c)
}

/// `base` with a `/` appended unless it already ends with one.
pub open spec fn with_trailing_slash(base: Seq<char>) -> Seq<char> {
    if base.len() > 0 && base.last() == '/' {
        base
    } else {
        base.push('/')
    }
}

/// The URL of the artifact under the repository at `base`.
pub open spec fn resolve_of(c: CoordinatesView, base: Seq<char>) -> Seq<char> {
    with_trailing_slash(base) + path_of(c, '/')
}

/// Whether packaging and classifier are written out: when the packaging is not the standard one
/// or a classifier is present.
pub open spec fn shows_packaging(c: CoordinatesView) -> bool {
    c.packaging != standard_packaging() || c.classifier is Some
}

/// The coordinates string: group, artifact and full version, then packaging and classifier
/// where they are written out, all joined by `:`.
pub open spec fn coordinates_string_of(c: CoordinatesView) -> Seq<char> {
    let base = c.group_id + seq![':'] + c.artifact_id + seq![':'] + full_version_of(c);
    if shows_packaging(c) {
        base + seq![':'] + c.packaging + suffix_of(':', c.classifier)
    } else {
        base
    }
}

/// A split always yields at least one part.
pub proof fn lemma_split_on_nonempty(s: Seq<char>, d: char)
    ensures
        split_on(s, d).len() >= 1,
    decreases s.len(),
{
    if s.len() > 0 {
        lemma_split_on_nonempty(s.drop_last(), d);
    }
}

/// The last occurrence found is an occurrence.
pub proof fn lemma_last_index_of(s: Seq<char>, c: char)
    ensures
        last_index_of(s, c) matches Some(i) ==> 0 <= i < s.len() && s[i] == c,
    decreases s.len(),
{
    if s.len() > 0 && s.last() != c {
        lemma_last_index_of(s.drop_last(), c);
    }
}

} // verus!
