//! Properties relating parsing, formatting and the derived strings.

use vstd::prelude::*;

use crate::model::{
    coordinates_string_of, file_name_of, full_version_of, join_with, last_index_of,
    lemma_last_index_of, lemma_split_on_nonempty, parse_of, path_of, resolve_of, split_on,
    split_version_of, standard_packaging, suffix_of, with_trailing_slash, CoordinatesView,
};

verus! {

/// Appending characters other than `d` extends the last part of a split.
proof fn lemma_split_on_append(x: Seq<char>, y: Seq<char>, d: char)
    requires
        !y.contains(d),
    ensures
        split_on(x + y, d) == split_on(x, d).update(
            split_on(x, d).len() - 1,
            split_on(x, d).last() + y,
        ),
    decreases y.len(),
{
    lemma_split_on_nonempty(x, d);
    if y.len() == 0 {
        assert(x + y =~= x);
        assert(split_on(x, d).last() + y =~= split_on(x, d).last());
        assert(split_on(x, d).update(split_on(x, d).len() - 1, split_on(x, d).last())
            =~= split_on(x, d));
    } else {
        let y0 = y.drop_last();
        assert(!y0.contains(d)) by {
            if y0.contains(d) {
                let i = choose|i: int| 0 <= i < y0.len() && y0[i] == d;
                assert(y[i] == d);
            }
        }
        lemma_split_on_append(x, y0, d);
        assert((x + y).drop_last() =~= x + y0);
        assert(y.last() != d) by {
            assert(y[y.len() - 1] == y.last());
        }
        assert((split_on(x, d).last() + y0).push(y.last()) =~= split_on(x, d).last() + y);
        assert(split_on(x + y, d) =~= split_on(x, d).update(
            split_on(x, d).len() - 1,
            split_on(x, d).last() + y,
        ));
    }
}

/// Splitting parts joined by `d` gives the parts back, when none of them holds `d`.
pub proof fn lemma_split_join(parts: Seq<Seq<char>>, d: char)
    requires
        parts.len() >= 1,
        forall|i: int| 0 <= i < parts.len() ==> !(#[trigger] parts[i]).contains(d),
    ensures
        split_on(join_with(parts, d), d) == parts,
    decreases parts.len(),
{
    if parts.len() == 1 {
        lemma_split_on_append(Seq::empty(), parts[0], d);
        assert(Seq::<char>::empty() + parts[0] =~= parts[0]);
        assert(split_on(Seq::empty(), d).last() + parts[0] =~= parts[0]);
        assert(split_on(parts[0], d) =~= parts);
    } else {
        let init = parts.drop_last();
        assert forall|i: int| 0 <= i < init.len() implies !(#[trigger] init[i]).contains(d) by {
            assert(init[i] == parts[i]);
        }
        lemma_split_join(init, d);
        let j = join_with(init, d) + seq![d];
        assert(parts.last() == parts[parts.len() - 1]);
        lemma_split_on_append(j, parts.last(), d);
        assert(j.drop_last() =~= join_with(init, d));
        assert(split_on(j, d) == init.push(Seq::empty()));
        assert(Seq::<char>::empty() + parts.last() =~= parts.last());
        assert(split_on(join_with(parts, d), d) =~= parts);
    }
}

/// Joining a version and its label with `-` and splitting again gives the version and the label
/// back, when the version holds no `-` and the label none either.
pub proof fn lemma_version_join_split(version: Seq<char>, label: Option<Seq<char>>)
    requires
        !version.contains('-'),
        label matches Some(l) ==> !l.contains('-'),
    ensures
        split_version_of(version + suffix_of('-', label)) == (version, label),
{
    lemma_last_index_absent(version, '-');
    if let Some(l) = label {
        let t = version + seq!['-'] + l;
        lemma_last_index_after(version + seq!['-'], l, '-');
        assert(last_index_of(version + seq!['-'], '-') == Some(version.len() as int));
        assert(version + suffix_of('-', label) =~= t);
        assert(t.take(version.len() as int) =~= version);
        assert(t.skip(version.len() as int + 1) =~= l);
    } else {
        assert(version + suffix_of('-', label) =~= version);
    }
}

/// A sequence without `c` has no last occurrence of it.
proof fn lemma_last_index_absent(s: Seq<char>, c: char)
    requires
        !s.contains(c),
    ensures
        last_index_of(s, c) is None,
    decreases s.len(),
{
    if s.len() > 0 {
        assert(s.last() == s[s.len() - 1]);
        assert(!s.drop_last().contains(c)) by {
            if s.drop_last().contains(c) {
                let i = choose|i: int| 0 <= i < s.drop_last().len() && s.drop_last()[i] == c;
                assert(s[i] == c);
            }
        }
        lemma_last_index_absent(s.drop_last(), c);
    }
}

/// Appending characters other than `c` keeps the last occurrence of `c`.
proof fn lemma_last_index_after(x: Seq<char>, y: Seq<char>, c: char)
    requires
        !y.contains(c),
    ensures
        last_index_of(x + y, c) == last_index_of(x, c),
    decreases y.len(),
{
    if y.len() == 0 {
        assert(x + y =~= x);
    } else {
        let y0 = y.drop_last();
        assert(y.last() == y[y.len() - 1]);
        assert(!y0.contains(c)) by {
            if y0.contains(c) {
                let i = choose|i: int| 0 <= i < y0.len() && y0[i] == c;
                assert(y[i] == c);
            }
        }
        assert((x + y).drop_last() =~= x + y0);
        lemma_last_index_after(x, y0, c);
    }
}

/// Parsing parts joined by `:` yields each field from its part: group, artifact, the version
/// token cut into version and label, the packaging (`jar` when absent) and the classifier, when
/// there are three to five parts and none holds `:`.
pub proof fn lemma_parse_parts(parts: Seq<Seq<char>>)
    requires
        3 <= parts.len() <= 5,
        forall|i: int| 0 <= i < parts.len() ==> !(#[trigger] parts[i]).contains(':'),
    ensures
        parse_of(join_with(parts, ':')) == Some(
            CoordinatesView {
                group_id: parts[0],
                artifact_id: parts[1],
                version: split_version_of(parts[2]).0,
                version_label: split_version_of(parts[2]).1,
                packaging: if parts.len() > 3 {
                    parts[3]
                } else {
                    standard_packaging()
                },
                classifier: if parts.len() > 4 {
                    Some(parts[4])
                } else {
                    None
                },
            },
        ),
{
    lemma_split_join(parts, ':');
}

/// Cutting a version token into version and label and joining them again with `-` gives the
/// token back.
pub proof fn lemma_version_round_trip(t: Seq<char>)
    ensures
        split_version_of(t).0 + suffix_of('-', split_version_of(t).1) == t,
{
    lemma_last_index_of(t, '-');
    if let Some(i) = last_index_of(t, '-') {
        assert(t.take(i) + (seq!['-'] + t.skip(i + 1)) =~= t);
    } else {
        assert(t + Seq::<char>::empty() =~= t);
    }
}

/// The full version of parsed coordinates is the version token of the string.
pub proof fn lemma_parse_full_version(s: Seq<char>)
    requires
        parse_of(s) is Some,
    ensures
        full_version_of(parse_of(s)->Some_0) == split_on(s, ':')[2],
{
    lemma_version_round_trip(split_on(s, ':')[2]);
}

/// A base URL without a trailing `/` resolves as the same URL with one.
pub proof fn lemma_resolve_trailing_slash(c: CoordinatesView, base: Seq<char>)
    requires
        !(base.len() > 0 && base.last() == '/'),
    ensures
        resolve_of(c, base) == resolve_of(c, base.push('/')),
{
    assert(base.push('/').last() == '/');
    assert(with_trailing_slash(base) == with_trailing_slash(base.push('/')));
}

/// Packaging and classifier are written only where needed: neither when the packaging is `jar`
/// and no classifier is present; the packaging alone when it is another one and no classifier
/// is present; both when a classifier is present.
pub proof fn lemma_string_optional_parts(c: CoordinatesView)
    ensures
        ({
            let base = c.group_id + seq![':'] + c.artifact_id + seq![':'] + full_version_of(c);
            &&& c.packaging == standard_packaging() && c.classifier is None
                ==> coordinates_string_of(c) == base
            &&& c.packaging != standard_packaging() && c.classifier is None
                ==> coordinates_string_of(c) == base + seq![':'] + c.packaging
            &&& c.classifier matches Some(k) ==> coordinates_string_of(c) == base + seq![':']
                + c.packaging + seq![':'] + k
        }),
{
    let base = c.group_id + seq![':'] + c.artifact_id + seq![':'] + full_version_of(c);
    if c.classifier is None {
        assert(base + seq![':'] + c.packaging + suffix_of(':', c.classifier) =~= base + seq![':']
            + c.packaging);
    }
}

/// A concatenation holds `c` only where one of its halves does.
proof fn lemma_concat_lacks(x: Seq<char>, y: Seq<char>, c: char)
    requires
        !x.contains(c),
        !y.contains(c),
    ensures
        !(x + y).contains(c),
{
    if (x + y).contains(c) {
        let i = choose|i: int| 0 <= i < (x + y).len() && (x + y)[i] == c;
        if i < x.len() {
            assert(x[i] == c);
        } else {
            assert(y[i - x.len()] == c);
        }
    }
}

/// Whether each field can stand in a coordinates string and be read back as it is: no field holds
/// `:`, and neither the version nor its label holds `-`.
pub open spec fn fields_separable(c: CoordinatesView) -> bool {
    &&& !c.group_id.contains(':')
    &&& !c.artifact_id.contains(':')
    &&& !c.version.contains(':')
    &&& !c.version.contains('-')
    &&& c.version_label matches Some(l) ==> !l.contains(':') && !l.contains('-')
    &&& !c.packaging.contains(':')
    &&& c.classifier matches Some(k) ==> !k.contains(':')
}

/// Parsing the coordinates string gives the same coordinates back, when the fields are
/// separable.
pub proof fn lemma_string_parse_round_trip(c: CoordinatesView)
    requires
        fields_separable(c),
    ensures
        parse_of(coordinates_string_of(c)) == Some(c),
{
    let fv = full_version_of(c);
    lemma_version_join_split(c.version, c.version_label);
    assert(!seq![':'].contains('-')) by {
        assert(seq![':'][0] == ':');
    }
    assert(!fv.contains(':')) by {
        if let Some(l) = c.version_label {
            assert(!seq!['-'].contains(':')) by {
                assert(seq!['-'][0] == '-');
            }
            lemma_concat_lacks(seq!['-'], l, ':');
        } else {
            assert(suffix_of('-', c.version_label) =~= Seq::<char>::empty());
        }
        lemma_concat_lacks(c.version, suffix_of('-', c.version_label), ':');
    }
    let three = seq![c.group_id, c.artifact_id, fv];
    let one = seq![c.group_id];
    let two = seq![c.group_id, c.artifact_id];
    assert(three.drop_last() =~= two);
    assert(two.drop_last() =~= one);
    assert(join_with(one, ':') == c.group_id);
    assert(join_with(two, ':') == c.group_id + seq![':'] + c.artifact_id);
    assert(join_with(three, ':') == join_with(two, ':') + seq![':'] + fv);
    if let Some(k) = c.classifier {
        let four = three.push(c.packaging);
        let parts = four.push(k);
        assert(parts.drop_last() =~= four);
        assert(four.drop_last() =~= three);
        assert(join_with(four, ':') == join_with(three, ':') + seq![':'] + c.packaging);
        assert(coordinates_string_of(c) =~= join_with(parts, ':'));
        lemma_parse_parts(parts);
    } else if c.packaging != standard_packaging() {
        let parts = three.push(c.packaging);
        assert(parts.drop_last() =~= three);
        assert(coordinates_string_of(c) =~= join_with(parts, ':'));
        lemma_parse_parts(parts);
    } else {
        assert(coordinates_string_of(c) == join_with(three, ':'));
        lemma_parse_parts(three);
    }
}

/// A change of version shows at once in the derived strings: they are built from the new
/// version, and differ from those before whenever the version differs.
pub proof fn lemma_version_change_reflected(c: CoordinatesView, v: Seq<char>, sep: char)
    ensures
        ({
            let d = CoordinatesView { version: v, ..c };
            &&& full_version_of(d) == v + suffix_of('-', c.version_label)
            &&& file_name_of(d) == c.artifact_id + seq!['-'] + v + suffix_of('-', c.version_label)
                + suffix_of('-', c.classifier) + seq!['.'] + c.packaging
            &&& v != c.version ==> full_version_of(d) != full_version_of(c)
            &&& v != c.version ==> file_name_of(d) != file_name_of(c)
            &&& v != c.version ==> path_of(d, sep) != path_of(c, sep)
        }),
{
    let d = CoordinatesView { version: v, ..c };
    let w = c.version;
    assert(file_name_of(d) =~= c.artifact_id + seq!['-'] + v + suffix_of('-', c.version_label)
        + suffix_of('-', c.classifier) + seq!['.'] + c.packaging);
    if v != w && v.len() == w.len() {
        assert(exists|j: int| 0 <= j < v.len() && v[j] != w[j]) by {
            if !(exists|j: int| 0 <= j < v.len() && v[j] != w[j]) {
                assert(v =~= w);
            }
        }
        let j = choose|j: int| 0 <= j < v.len() && v[j] != w[j];
        assert(full_version_of(d)[j] != full_version_of(c)[j]);
        let a = c.artifact_id.len() + 1;
        assert(file_name_of(d)[a + j] == v[j]);
        assert(file_name_of(c)[a + j] == w[j]);
        let pre = path_of(c, sep).len() - file_name_of(c).len() - 1 - full_version_of(c).len();
        assert(path_of(d, sep).len() == path_of(c, sep).len());
        assert(path_of(d, sep)[pre + j] == v[j]);
        assert(path_of(c, sep)[pre + j] == w[j]);
        assert(full_version_of(d) != full_version_of(c));
        assert(file_name_of(d) != file_name_of(c));
        assert(path_of(d, sep) != path_of(c, sep));
    } else if v != w {
        assert(v.len() != w.len()) by {
            if v.len() == w.len() {
                assert(v =~= w);
            }
        }
        assert(full_version_of(d).len() != full_version_of(c).len());
        assert(file_name_of(d).len() != file_name_of(c).len());
        assert(path_of(d, sep).len() != path_of(c, sep).len());
    }
}

} // verus!
