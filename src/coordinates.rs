//! The coordinates value type.

use vstd::prelude::*;

use crate::model::{
    coordinates_string_of, each_followed_by, file_basename_of, file_name_of, full_version_of,
    lemma_split_on_nonempty, parse_of, path_of, resolve_of, split_on, split_version_of,
    standard_packaging, suffix_of, CoordinatesView,
};
use crate::text::{split_tokens, split_version, views_of};

verus! {

/// Maven artifact coordinates: `groupId:artifactId:version[:packaging[:classifier]]`.
#[derive(Debug, Clone)]
pub struct Coordinates {
    /// Dot-separated group identifier; each segment becomes a directory of the path.
    pub group_id: String,
    /// Name of the artifact; the prefix of its file name.
    pub artifact_id: String,
    /// The version, without its label.
    pub version: String,
    /// What followed the last `-` of the version token, if it held one.
    pub version_label: Option<String>,
    /// The file extension of the artifact, `jar` unless given.
    pub packaging: String,
    /// Distinguishes artifacts built from the same coordinates; follows the version in the file
    /// name.
    pub classifier: Option<String>,
}

/// The error of parsing a coordinates string.
#[derive(Debug, Clone, Copy, PartialEq, Eq, Structural)]
pub enum ParseError {
    /// The string holds fewer than the three mandatory parts.
    InvalidInput,
}

/// The characters of an optional string.
pub open spec fn opt_view(o: Option<String>) -> Option<Seq<char>> {
    match o {
        Some(s) => Some(s@),
        None => None,
    }
}

impl View for Coordinates {
    type V = CoordinatesView;

    open spec fn view(&self) -> CoordinatesView {
        CoordinatesView {
            group_id: self.group_id@,
            artifact_id: self.artifact_id@,
            version: self.version@,
            version_label: opt_view(self.version_label),
            packaging: self.packaging@,
            classifier: opt_view(self.classifier),
        }
    }
}

/// Appends `sep` and then `s`, when `s` is present, to `out`.
fn push_suffix(out: &mut String, sep: char, s: &Option<String>)
    ensures
        final(out)@ == old(out)@ + suffix_of(sep, opt_view(*s)),
{
    if let Some(t) = s {
        out.push(sep);
        out.append(t.as_str());
    }
    assert(out@ =~= old(out)@ + suffix_of(sep, opt_view(*s)));
}

/// The packaging assumed when none is given, as a new string.
fn standard_packaging_string() -> (r: String)
    ensures
        r@ == standard_packaging(),
{
    proof {
        reveal_strlit("jar");
    }
    let r = "jar".to_owned();
    assert(r@ =~= standard_packaging());
    r
}

/// Whether `r` is what parsing `s` gives: the coordinates that `s` denotes, or the error when it
/// denotes none.
pub open spec fn parsed_as(s: Seq<char>, r: Result<Coordinates, ParseError>) -> bool {
    match r {
        Ok(c) => parse_of(s) == Some(c@),
        Err(e) => parse_of(s) is None && e == ParseError::InvalidInput,
    }
}

impl Coordinates {
    /// Parses `groupId:artifactId:version[:packaging[:classifier]]`.
    ///
    /// The version token is cut at its last `-` into version and label. Packaging defaults to
    /// `jar` only when its part is absent; parts after the fifth are ignored. Fails with
    /// [`ParseError::InvalidInput`] when fewer than three parts are present.
    pub fn parse(coordinates: &str) -> (r: Result<Coordinates, ParseError>)
        ensures
            parsed_as(coordinates@, r),
            r is Err <==> split_on(coordinates@, ':').len() < 3,
    {
        let parts = split_tokens(coordinates, ':');
        proof {
            lemma_split_on_nonempty(coordinates@, ':');
        }
        assert(parts@.len() == split_on(coordinates@, ':').len());
        if parts.len() < 3 {
            return Err(ParseError::InvalidInput);
        }
        assert(parts@[2]@ == views_of(parts@)[2]);
        let (version, version_label) = split_version(parts[2].as_str());
        let packaging = if parts.len() > 3 {
            assert(parts@[3]@ == views_of(parts@)[3]);
            parts[3].clone()
        } else {
            standard_packaging_string()
        };
        let classifier = if parts.len() > 4 {
            assert(parts@[4]@ == views_of(parts@)[4]);
            Some(parts[4].clone())
        } else {
            None
        };
        assert(parts@[0]@ == views_of(parts@)[0]);
        assert(parts@[1]@ == views_of(parts@)[1]);
        let r = Coordinates {
            group_id: parts[0].clone(),
            artifact_id: parts[1].clone(),
            version,
            version_label,
            packaging,
            classifier,
        };
        assert(opt_view(r.version_label) == split_version_of(parts@[2]@).1);
        Ok(r)
    }

    /// Parses coordinates from anything that converts into a string; see [`Coordinates::parse`].
    pub fn new<S: Into<String>>(coordinates: S) -> (r: Result<Coordinates, ParseError>)
        ensures
            exists|s: String| #[trigger] call_ensures(S::into, (coordinates,), s) && parsed_as(s@, r),
    {
        let s: String = coordinates.into();
        Self::parse(s.as_str())
    }

    /// The version together with its label, joined by `-` when a label is present.
    pub fn full_version(&self) -> (r: String)
        ensures
            r@ == full_version_of(self@),
    {
        let mut full_version = self.version.clone();
        push_suffix(&mut full_version, '-', &self.version_label);
        full_version
    }

    /// The base file name: artifact, full version and classifier (when present), joined by `-`.
    pub fn file_basename(&self) -> (r: String)
        ensures
            r@ == file_basename_of(self@),
    {
        let mut file_name = self.artifact_id.clone();
        file_name.push('-');
        let full_version = self.full_version();
        file_name.append(full_version.as_str());
        push_suffix(&mut file_name, '-', &self.classifier);
        file_name
    }

    /// The file name: the base file name, `.` and the packaging.
    pub fn file_name(&self) -> (r: String)
        ensures
            r@ == file_name_of(self@),
    {
        let mut file_name = self.file_basename();
        file_name.push('.');
        file_name.append(self.packaging.as_str());
        file_name
    }

    /// The repository-relative path with `/` as separator.
    pub fn to_path(&self) -> (r: String)
        ensures
            r@ == path_of(self@, '/'),
    {
        self.as_path_with_separator('/')
    }

    /// The repository-relative path: each segment of the group followed by `separator`, then
    /// the artifact, the full version and the file name, separated by `separator`.
    pub fn as_path_with_separator(&self, separator: char) -> (r: String)
        ensures
            r@ == path_of(self@, separator),
    {
        let segments = split_tokens(self.group_id.as_str(), '.');
        let ghost parts = views_of(segments@);
        let mut path = String::new();
        for i in 0..segments.len()
            invariant
                parts == views_of(segments@),
                path@ == each_followed_by(parts.take(i as int), separator),
        {
            assert(parts.take(i + 1).drop_last() =~= parts.take(i as int));
            assert(segments@[i as int]@ == parts[i as int]);
            path.append(segments[i].as_str());
            path.push(separator);
        }
        assert(parts.take(segments.len() as int) =~= parts);
        path.append(self.artifact_id.as_str());
        path.push(separator);
        let full_version = self.full_version();
        path.append(full_version.as_str());
        path.push(separator);
        let file_name = self.file_name();
        path.append(file_name.as_str());
        assert(path@ =~= path_of(self@, separator));
        path
    }

    /// The URL of the artifact under the repository at `base_url`: `base_url`, a `/` unless it
    /// already ends with one, and the path with `/` as separator.
    pub fn resolve(&self, base_url: &str) -> (r: String)
        ensures
            r@ == resolve_of(self@, base_url@),
    {
        let mut url = base_url.to_owned();
        let n = base_url.unicode_len();
        if n == 0 || base_url.get_char(n - 1) != '/' {
            url.push('/');
        }
        let path = self.to_path();
        url.append(path.as_str());
        url
    }

    /// The coordinates string `group:artifact:full_version`, followed by `:packaging` when the
    /// packaging is not `jar` or a classifier is present, and then by `:classifier` when one is.
    pub fn to_string(&self) -> (r: String)
        ensures
            r@ == coordinates_string_of(self@),
    {
        let mut string = self.group_id.clone();
        string.push(':');
        string.append(self.artifact_id.as_str());
        string.push(':');
        let full_version = self.full_version();
        string.append(full_version.as_str());
        let standard = standard_packaging_string();
        if self.packaging != standard || self.classifier.is_some() {
            string.push(':');
            string.append(self.packaging.as_str());
            push_suffix(&mut string, ':', &self.classifier);
        }
        string
    }

    /// The group identifier.
    pub fn group_id(&self) -> (r: &str)
        ensures
            r@ == self.group_id@,
    {
        self.group_id.as_str()
    }

    /// Replaces the group ID.
    pub fn set_group_id(&mut self, group_id: String)
        ensures
            final(self)@ == (CoordinatesView { group_id: group_id@, ..old(self)@ }),
    {
        self.group_id = group_id;
    }

    /// The artifact identifier.
    pub fn artifact_id(&self) -> (r: &str)
        ensures
            r@ == self.artifact_id@,
    {
        self.artifact_id.as_str()
    }

    /// Replaces the artifact ID.
    pub fn set_artifact_id(&mut self, artifact_id: String)
        ensures
            final(self)@ == (CoordinatesView { artifact_id: artifact_id@, ..old(self)@ }),
    {
        self.artifact_id = artifact_id;
    }

    /// The version, without its label.
    pub fn version(&self) -> (r: &str)
        ensures
            r@ == self.version@,
    {
        self.version.as_str()
    }

    /// Replaces the version.
    pub fn set_version(&mut self, version: String)
        ensures
            final(self)@ == (CoordinatesView { version: version@, ..old(self)@ }),
    {
        self.version = version;
    }

    /// The label of the version, if any.
    pub fn version_label(&self) -> (r: Option<&str>)
        ensures
            r matches Some(t) ==> self.version_label matches Some(u) && t@ == u@,
            r is None ==> self.version_label is None,
    {
        match &self.version_label {
            Some(t) => Some(t.as_str()),
            None => None,
        }
    }

    /// Replaces the version label.
    pub fn set_version_label(&mut self, version_label: Option<String>)
        ensures
            final(self)@ == (CoordinatesView { version_label: opt_view(version_label), ..old(self)@ }),
    {
        self.version_label = version_label;
    }

    /// The packaging.
    pub fn packaging(&self) -> (r: &str)
        ensures
            r@ == self.packaging@,
    {
        self.packaging.as_str()
    }

    /// Replaces the packaging.
    pub fn set_packaging(&mut self, packaging: String)
        ensures
            final(self)@ == (CoordinatesView { packaging: packaging@, ..old(self)@ }),
    {
        self.packaging = packaging;
    }

    /// The classifier, if any.
    pub fn classifier(&self) -> (r: Option<&str>)
        ensures
            r matches Some(t) ==> self.classifier matches Some(u) && t@ == u@,
            r is None ==> self.classifier is None,
    {
        match &self.classifier {
            Some(t) => Some(t.as_str()),
            None => None,
        }
    }

    /// Replaces the classifier.
    pub fn set_classifier(&mut self, classifier: Option<String>)
        ensures
            final(self)@ == (CoordinatesView { classifier: opt_view(classifier), ..old(self)@ }),
    {
        self.classifier = classifier;
    }
}

} // verus!
