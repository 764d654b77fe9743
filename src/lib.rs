//! A client library for Maven-style artifact repositories: coordinates and their
//! repository paths, the `maven-metadata.xml` and `pom.xml` readers, and the
//! decisions of version resolution and dependency collection.
use vstd::prelude::*;

pub mod artifact;
pub mod metadata;
pub mod project;
pub mod resolver;
pub mod text;
pub mod xml;

use crate::text::{
    ends_with, eq_ignore_ascii_case, replace_char, replaced, same_text_ignore_ascii_case,
    text_ends_with,
};

verus! {

/// The repository path of a group: its dots become slashes.
pub open spec fn group_path(g: Seq<char>) -> Seq<char> {
    replace_char(g, '.', '/')
}

/// A snapshot version ends with `-SNAPSHOT`, case-sensitively.
pub open spec fn is_snapshot_version(v: Seq<char>) -> bool {
    ends_with(v, "-SNAPSHOT"@)
}

/// `LATEST` in any case: for these letters, comparing up to ASCII case is comparing lower-case
/// forms.
pub open spec fn is_latest_version(v: Seq<char>) -> bool {
    eq_ignore_ascii_case(v, "latest"@)
}

/// `RELEASE` in any case.
pub open spec fn is_release_version(v: Seq<char>) -> bool {
    eq_ignore_ascii_case(v, "release"@)
}

/// A meta-version names a pointer in the repository metadata rather than a release.
pub open spec fn is_meta_version(v: Seq<char>) -> bool {
    is_latest_version(v) || is_release_version(v)
}

/// A group identifier: dot-separated, such as `org.example`.
#[derive(Debug, PartialEq, Eq, PartialOrd, Ord, Hash)]
pub struct GroupId(pub String);

impl View for GroupId {
    type V = Seq<char>;

    open spec fn view(&self) -> Seq<char> {
        self.0@
    }
}

impl Clone for GroupId {
    fn clone(&self) -> (r: Self)
        ensures
            r == *self,
    {
        GroupId(self.0.clone())
    }
}

impl From<String> for GroupId {
    fn from(value: String) -> (r: GroupId)
        ensures
            r.0 == value,
    {
        GroupId(value)
    }
}

impl vstd::std_specs::convert::FromSpecImpl<String> for GroupId {
    open spec fn obeys_from_spec() -> bool {
        true
    }

    open spec fn from_spec(v: String) -> GroupId {
        GroupId(v)
    }
}

impl From<&str> for GroupId {
    fn from(value: &str) -> (r: GroupId) {
        GroupId(String::from_str(value))
    }
}

impl vstd::std_specs::convert::FromSpecImpl<&str> for GroupId {
    open spec fn obeys_from_spec() -> bool {
        false
    }

    open spec fn from_spec(v: &str) -> GroupId {
        arbitrary()
    }
}

impl GroupId {
    /// Builds the identifier from a string slice.
    pub fn of(value: &str) -> (r: GroupId)
        ensures
            r@ == value@,
    {
        GroupId(String::from_str(value))
    }

    pub fn into_string(self) -> (r: String)
        ensures
            r@ == self@,
    {
        self.0
    }

    pub fn as_str(&self) -> (r: &str)
        ensures
            r@ == self@,
    {
        self.0.as_str()
    }


    /// The group as a repository path: every `.` becomes `/`.
    pub fn path_string(&self) -> (r: String)
        ensures
            r@ == group_path(self@),
    {
        proof {
            reveal_strlit("/");
        }
        replaced(self.0.as_str(), '.', "/")
    }

}

/// An artifact identifier within its group.
#[derive(Debug, PartialEq, Eq, PartialOrd, Ord, Hash)]
pub struct ArtifactId(pub String);

impl View for ArtifactId {
    type V = Seq<char>;

    open spec fn view(&self) -> Seq<char> {
        self.0@
    }
}

impl Clone for ArtifactId {
    fn clone(&self) -> (r: Self)
        ensures
            r == *self,
    {
        ArtifactId(self.0.clone())
    }
}

impl From<String> for ArtifactId {
    fn from(value: String) -> (r: ArtifactId)
        ensures
            r.0 == value,
    {
        ArtifactId(value)
    }
}

impl vstd::std_specs::convert::FromSpecImpl<String> for ArtifactId {
    open spec fn obeys_from_spec() -> bool {
        true
    }

    open spec fn from_spec(v: String) -> ArtifactId {
        ArtifactId(v)
    }
}

impl From<&str> for ArtifactId {
    fn from(value: &str) -> (r: ArtifactId) {
        ArtifactId(String::from_str(value))
    }
}

impl vstd::std_specs::convert::FromSpecImpl<&str> for ArtifactId {
    open spec fn obeys_from_spec() -> bool {
        false
    }

    open spec fn from_spec(v: &str) -> ArtifactId {
        arbitrary()
    }
}

impl ArtifactId {
    /// Builds the identifier from a string slice.
    pub fn of(value: &str) -> (r: ArtifactId)
        ensures
            r@ == value@,
    {
        ArtifactId(String::from_str(value))
    }

    pub fn into_string(self) -> (r: String)
        ensures
            r@ == self@,
    {
        self.0
    }

    pub fn as_str(&self) -> (r: &str)
        ensures
            r@ == self@,
    {
        self.0.as_str()
    }

}

/// A version string, possibly a meta-version (`LATEST`, `RELEASE`) or a snapshot.
#[derive(Debug, PartialEq, Eq, PartialOrd, Ord, Hash)]
pub struct Version(pub String);

impl View for Version {
    type V = Seq<char>;

    open spec fn view(&self) -> Seq<char> {
        self.0@
    }
}

impl Clone for Version {
    fn clone(&self) -> (r: Self)
        ensures
            r == *self,
    {
        Version(self.0.clone())
    }
}

impl From<String> for Version {
    fn from(value: String) -> (r: Version)
        ensures
            r.0 == value,
    {
        Version(value)
    }
}

impl vstd::std_specs::convert::FromSpecImpl<String> for Version {
    open spec fn obeys_from_spec() -> bool {
        true
    }

    open spec fn from_spec(v: String) -> Version {
        Version(v)
    }
}

impl From<&str> for Version {
    fn from(value: &str) -> (r: Version) {
        Version(String::from_str(value))
    }
}

impl vstd::std_specs::convert::FromSpecImpl<&str> for Version {
    open spec fn obeys_from_spec() -> bool {
        false
    }

    open spec fn from_spec(v: &str) -> Version {
        arbitrary()
    }
}

impl Version {
    /// Builds the identifier from a string slice.
    pub fn of(value: &str) -> (r: Version)
        ensures
            r@ == value@,
    {
        Version(String::from_str(value))
    }

    pub fn into_string(self) -> (r: String)
        ensures
            r@ == self@,
    {
        self.0
    }

    pub fn as_str(&self) -> (r: &str)
        ensures
            r@ == self@,
    {
        self.0.as_str()
    }


    /// Ends with the case-sensitive suffix `-SNAPSHOT`.
    pub fn is_snapshot(&self) -> (r: bool)
        ensures
            r == is_snapshot_version(self@),
    {
        text_ends_with(self.0.as_str(), "-SNAPSHOT")
    }

    /// `LATEST` or `RELEASE`, in any ASCII case.
    pub fn is_meta_version(&self) -> (r: bool)
        ensures
            r == is_meta_version(self@),
    {
        self.is_latest() || self.is_release()
    }

    /// Equals `latest` up to ASCII case.
    pub fn is_latest(&self) -> (r: bool)
        ensures
            r == is_latest_version(self@),
    {
        same_text_ignore_ascii_case(self.0.as_str(), "latest")
    }

    /// Equals `release` up to ASCII case.
    pub fn is_release(&self) -> (r: bool)
        ensures
            r == is_release_version(self@),
    {
        same_text_ignore_ascii_case(self.0.as_str(), "release")
    }

}

/// A classifier that tells apart files of one artifact version (`sources`, `javadoc`).
#[derive(Debug, PartialEq, Eq, PartialOrd, Ord, Hash)]
pub struct Classifier(pub String);

impl View for Classifier {
    type V = Seq<char>;

    open spec fn view(&self) -> Seq<char> {
        self.0@
    }
}

impl Clone for Classifier {
    fn clone(&self) -> (r: Self)
        ensures
            r == *self,
    {
        Classifier(self.0.clone())
    }
}

impl From<String> for Classifier {
    fn from(value: String) -> (r: Classifier)
        ensures
            r.0 == value,
    {
        Classifier(value)
    }
}

impl vstd::std_specs::convert::FromSpecImpl<String> for Classifier {
    open spec fn obeys_from_spec() -> bool {
        true
    }

    open spec fn from_spec(v: String) -> Classifier {
        Classifier(v)
    }
}

impl From<&str> for Classifier {
    fn from(value: &str) -> (r: Classifier) {
        Classifier(String::from_str(value))
    }
}

impl vstd::std_specs::convert::FromSpecImpl<&str> for Classifier {
    open spec fn obeys_from_spec() -> bool {
        false
    }

    open spec fn from_spec(v: &str) -> Classifier {
        arbitrary()
    }
}

impl Classifier {
    /// Builds the identifier from a string slice.
    pub fn of(value: &str) -> (r: Classifier)
        ensures
            r@ == value@,
    {
        Classifier(String::from_str(value))
    }

    pub fn into_string(self) -> (r: String)
        ensures
            r@ == self@,
    {
        self.0
    }

    pub fn as_str(&self) -> (r: &str)
        ensures
            r@ == self@,
    {
        self.0.as_str()
    }

}

/// Equality up to ASCII case is transitive.
pub proof fn lemma_ignore_case_transitive(a: Seq<char>, b: Seq<char>, c: Seq<char>)
    requires
        eq_ignore_ascii_case(a, b),
        eq_ignore_ascii_case(b, c),
    ensures
        eq_ignore_ascii_case(a, c),
{
    assert forall|i: int| 0 <= i < a.len() implies crate::text::ascii_lower(#[trigger] a[i]) == crate::text::ascii_lower(c[i]) by {
        assert(crate::text::ascii_lower(a[i]) == crate::text::ascii_lower(b[i]));
        assert(crate::text::ascii_lower(b[i]) == crate::text::ascii_lower(c[i]));
    }
}

/// Equality up to ASCII case is symmetric.
pub proof fn lemma_ignore_case_symmetric(a: Seq<char>, b: Seq<char>)
    requires
        eq_ignore_ascii_case(a, b),
    ensures
        eq_ignore_ascii_case(b, a),
{
    assert forall|i: int| 0 <= i < b.len() implies crate::text::ascii_lower(#[trigger] b[i]) == crate::text::ascii_lower(a[i]) by {
        assert(crate::text::ascii_lower(a[i]) == crate::text::ascii_lower(b[i]));
    }
}

/// Two versions that differ only in ASCII case are both `LATEST`, both `RELEASE`, or neither.
pub proof fn lemma_meta_version_ignores_case(a: Seq<char>, b: Seq<char>)
    requires
        eq_ignore_ascii_case(a, b),
    ensures
        is_latest_version(a) == is_latest_version(b),
        is_release_version(a) == is_release_version(b),
        is_meta_version(a) == is_meta_version(b),
{
    lemma_ignore_case_symmetric(a, b);
    if is_latest_version(a) {
        lemma_ignore_case_transitive(b, a, "latest"@);
    }
    if is_latest_version(b) {
        lemma_ignore_case_transitive(a, b, "latest"@);
    }
    if is_release_version(a) {
        lemma_ignore_case_transitive(b, a, "release"@);
    }
    if is_release_version(b) {
        lemma_ignore_case_transitive(a, b, "release"@);
    }
}

/// The kinds of failure that the library and its callers tell apart.
#[derive(Debug)]
pub enum MavenError {
    /// A colon-delimited coordinate could not be read.
    InvalidCoordinate(String),
    /// A repository base URL could not be parsed.
    InvalidUrl(String),
    /// A fetch answered with a status outside 200..=299.
    Http { url: String, status: u16 },
    /// The transport failed underneath (connection, TLS, body read).
    Transport(String),
    /// A `maven-metadata.xml` document could not be read.
    MalformedMetadata(String),
    /// A `pom.xml` document could not be read.
    MalformedPom(String),
    /// A snapshot was asked of a repository that serves none.
    SnapshotNotAllowed,
    /// The metadata has no `latest` or `release` pointer to resolve a meta-version.
    MetaUnresolved,
    /// A file or directory could not be written.
    Filesystem(String),
    /// The request is incomplete or contradictory.
    Config(String),
}

/// `s` without any `/` at its end.
pub open spec fn trim_slashes(s: Seq<char>) -> Seq<char>
    decreases s.len(),
{
    if s.len() > 0 && s.last() == '/' {
        trim_slashes(s.drop_last())
    } else {
        s
    }
}

pub proof fn lemma_trim_slashes(s: Seq<char>)
    ensures
        trim_slashes(s).len() == 0 || trim_slashes(s).last() != '/',
    decreases s.len(),
{
    if s.len() > 0 && s.last() == '/' {
        lemma_trim_slashes(s.drop_last());
    }
}

/// `s` with its trailing slashes taken off.
pub fn without_trailing_slashes(s: &str) -> (r: String)
    ensures
        r@ == trim_slashes(s@),
{
    let mut n = s.unicode_len();
    assert(s@.subrange(0, n as int) =~= s@);
    while n > 0 && s.get_char(n - 1) == '/'
        invariant
            n <= s@.len(),
            trim_slashes(s@.subrange(0, n as int)) == trim_slashes(s@),
        decreases n,
    {
        assert(s@.subrange(0, n as int).drop_last() == s@.subrange(0, n - 1));
        n = n - 1;
    }
    assert(trim_slashes(s@.subrange(0, n as int)) == s@.subrange(0, n as int));
    String::from_str(s.substring_char(0, n))
}

/// The serialization of `s` as an absolute URL, where it parses as one.
pub uninterp spec fn url_serialization(s: Seq<char>) -> Option<Seq<char>>;

#[verifier::external_type_specification]
#[verifier::external_body]
pub struct ExUrlParseError(url::ParseError);

/// Relies on `url::Url::parse`: whether `s` is an absolute URL, and its serialized form.
#[verifier::external_body]
fn parse_url(s: &str) -> (r: Result<String, url::ParseError>)
    ensures
        match r {
            Ok(t) => url_serialization(s@) == Some(t@),
            Err(_) => url_serialization(s@) is None,
        },
{
    url::Url::parse(s).map(String::from)
}

/// A repository: its base URL, without trailing slashes, and what it serves.
#[derive(Debug)]
pub struct Repository {
    pub url: String,
    pub snapshots: bool,
    pub releases: bool,
}

impl Clone for Repository {
    fn clone(&self) -> (r: Self)
        ensures
            r == *self,
    {
        Repository { url: self.url.clone(), snapshots: self.snapshots, releases: self.releases }
    }
}

impl Repository {
    /// Maven Central, releases only.
    pub fn maven_central() -> (r: Repository)
        ensures
            r.url@ == "https://repo1.maven.org/maven2"@,
            !r.snapshots,
            r.releases,
    {
        Repository { url: String::from_str("https://repo1.maven.org/maven2"), snapshots: false, releases: true }
    }

    /// Maven Central's snapshot repository, snapshots only.
    pub fn maven_central_snapshots() -> (r: Repository)
        ensures
            r.url@ == "https://central.sonatype.com/repository/maven-snapshots"@,
            r.snapshots,
            !r.releases,
    {
        Repository {
            url: String::from_str("https://central.sonatype.com/repository/maven-snapshots"),
            snapshots: true,
            releases: false,
        }
    }

    /// A repository at `url`, which must parse as an absolute URL; its serialized form is
    /// kept without trailing slashes.
    pub fn new(url: &str, snapshots: bool, releases: bool) -> (r: Result<Repository, MavenError>)
        ensures
            match r {
                Ok(repo) => url_serialization(url@) matches Some(t) && repo.url@ == trim_slashes(t)
                    && repo.snapshots == snapshots && repo.releases == releases,
                Err(e) => url_serialization(url@) is None && e is InvalidUrl,
            },
    {
        match parse_url(url) {
            Ok(t) => Ok(Repository { url: without_trailing_slashes(t.as_str()), snapshots, releases }),
            Err(_) => {
                let mut message = String::from_str("cannot parse repository URL ");
                message.append(url);
                Err(MavenError::InvalidUrl(message))
            },
        }
    }

    /// Serves releases and snapshots.
    pub fn both(url: &str) -> (r: Result<Repository, MavenError>)
        ensures
            match r {
                Ok(repo) => url_serialization(url@) matches Some(t) && repo.url@ == trim_slashes(t)
                    && repo.snapshots && repo.releases,
                Err(e) => url_serialization(url@) is None && e is InvalidUrl,
            },
    {
        Self::new(url, true, true)
    }

    /// Serves releases only.
    pub fn releases(url: &str) -> (r: Result<Repository, MavenError>)
        ensures
            match r {
                Ok(repo) => url_serialization(url@) matches Some(t) && repo.url@ == trim_slashes(t)
                    && !repo.snapshots && repo.releases,
                Err(e) => url_serialization(url@) is None && e is InvalidUrl,
            },
    {
        Self::new(url, false, true)
    }

    /// Serves snapshots only.
    pub fn snapshots(url: &str) -> (r: Result<Repository, MavenError>)
        ensures
            match r {
                Ok(repo) => url_serialization(url@) matches Some(t) && repo.url@ == trim_slashes(t)
                    && repo.snapshots && !repo.releases,
                Err(e) => url_serialization(url@) is None && e is InvalidUrl,
            },
    {
        Self::new(url, true, false)
    }
}

} // verus!
