//! Coordinates (`groupId:artifactId[:extension[:classifier]]:version`), their textual form,
//! and the repository paths and file names they project to.
use vstd::prelude::*;

use crate::text::{free_of, lemma_split_join, lemma_split_single, same_text, split_on, split_text};
use crate::{
    group_path, is_snapshot_version, trim_slashes, without_trailing_slashes, ArtifactId, Classifier,
    GroupId, Repository, Version,
};

verus! {

/// What a coordinate holds, as character sequences.
pub struct Coordinate {
    pub group_id: Seq<char>,
    pub artifact_id: Seq<char>,
    pub version: Option<Seq<char>>,
    pub extension: Option<Seq<char>>,
    pub classifier: Option<Seq<char>>,
}

pub open spec fn opt_view<T: View>(o: Option<T>) -> Option<T::V> {
    match o {
        Some(x) => Some(x@),
        None => None,
    }
}

pub open spec fn colon() -> Seq<char> {
    seq![':']
}

/// The extension and classifier segments of the textual form: a lone classifier brings the
/// extension `jar` with it, and a lone `jar` extension is left out.
pub open spec fn extension_segments(e: Option<Seq<char>>, c: Option<Seq<char>>) -> Seq<char> {
    match (e, c) {
        (Some(e), Some(c)) => colon() + e + colon() + c,
        (None, Some(c)) => colon() + "jar"@ + colon() + c,
        (Some(e), None) => if e == "jar"@ {
            Seq::empty()
        } else {
            colon() + e
        },
        (None, None) => Seq::empty(),
    }
}

/// The textual form of a coordinate.
pub open spec fn render(c: Coordinate) -> Seq<char> {
    c.group_id + colon() + c.artifact_id + extension_segments(c.extension, c.classifier) + match c.version {
        Some(v) => colon() + v,
        None => Seq::empty(),
    }
}

/// The coordinate that a full textual form of three, four or five parts denotes.
pub open spec fn parse_coordinate(s: Seq<char>) -> Option<Coordinate> {
    let p = split_on(s, ':');
    if p.len() == 3 {
        Some(Coordinate { group_id: p[0], artifact_id: p[1], version: Some(p[2]), extension: None, classifier: None })
    } else if p.len() == 4 {
        Some(Coordinate { group_id: p[0], artifact_id: p[1], version: Some(p[3]), extension: Some(p[2]), classifier: None })
    } else if p.len() == 5 {
        Some(Coordinate {
            group_id: p[0],
            artifact_id: p[1],
            version: Some(p[4]),
            extension: Some(p[2]),
            classifier: Some(p[3]),
        })
    } else {
        None
    }
}

/// The extension that a coordinate stands for: `jar` where none is given.
pub open spec fn effective_extension(e: Option<Seq<char>>) -> Seq<char> {
    match e {
        Some(e) => e,
        None => "jar"@,
    }
}

/// `-classifier`, or nothing.
pub open spec fn classifier_suffix(c: Option<Seq<char>>) -> Seq<char> {
    match c {
        Some(c) => seq!['-'] + c,
        None => Seq::empty(),
    }
}

/// `artifactId-version[-classifier].extension`.
pub open spec fn file_name_of(artifact_id: Seq<char>, version: Seq<char>, c: Option<Seq<char>>, e: Option<Seq<char>>) -> Seq<char> {
    artifact_id + seq!['-'] + version + classifier_suffix(c) + seq!['.'] + effective_extension(e)
}

/// `group/with/slashes/artifactId`.
pub open spec fn artifact_dir(group_id: Seq<char>, artifact_id: Seq<char>) -> Seq<char> {
    group_path(group_id) + seq!['/'] + artifact_id
}

/// A coordinate's textual form could not be read.
#[derive(Debug)]
pub struct ParseArtifactError(pub String);

impl Clone for ParseArtifactError {
    fn clone(&self) -> (r: Self)
        ensures
            r == *self,
    {
        ParseArtifactError(self.0.clone())
    }
}

impl ParseArtifactError {
    /// The message that explains the failure.
    pub fn new(message: String) -> (r: ParseArtifactError)
        ensures
            r.0 == message,
    {
        ParseArtifactError(message)
    }

    pub fn to_string(&self) -> (r: String)
        ensures
            r == self.0,
    {
        self.0.clone()
    }
}

fn clone_opt_string(o: &Option<String>) -> (r: Option<String>)
    ensures
        r == *o,
{
    match o {
        Some(s) => Some(s.clone()),
        None => None,
    }
}

fn clone_opt_version(o: &Option<Version>) -> (r: Option<Version>)
    ensures
        r == *o,
{
    match o {
        Some(s) => Some(s.clone()),
        None => None,
    }
}

fn clone_opt_classifier(o: &Option<Classifier>) -> (r: Option<Classifier>)
    ensures
        r == *o,
{
    match o {
        Some(s) => Some(s.clone()),
        None => None,
    }
}

/// A coordinate: group, artifact, and optionally version, extension and classifier.
#[derive(Debug, PartialEq, Eq, PartialOrd, Ord, Hash)]
pub struct Artifact {
    pub group_id: GroupId,
    pub artifact_id: ArtifactId,
    pub version: Option<Version>,
    pub extension: Option<String>,
    pub classifier: Option<Classifier>,
}

impl View for Artifact {
    type V = Coordinate;

    open spec fn view(&self) -> Coordinate {
        Coordinate {
            group_id: self.group_id@,
            artifact_id: self.artifact_id@,
            version: opt_view(self.version),
            extension: opt_view(self.extension),
            classifier: opt_view(self.classifier),
        }
    }
}

impl Clone for Artifact {
    fn clone(&self) -> (r: Self)
        ensures
            r == *self,
    {
        Artifact {
            group_id: self.group_id.clone(),
            artifact_id: self.artifact_id.clone(),
            version: clone_opt_version(&self.version),
            extension: clone_opt_string(&self.extension),
            classifier: clone_opt_classifier(&self.classifier),
        }
    }
}

impl Artifact {
    pub fn new(group_id: GroupId, artifact_id: ArtifactId, version: Version) -> (r: Artifact)
        ensures
            r.group_id == group_id,
            r.artifact_id == artifact_id,
            r.version == Some(version),
            r.extension is None,
            r.classifier is None,
    {
        Artifact { group_id, artifact_id, version: Some(version), extension: None, classifier: None }
    }

    /// A coordinate without a version, as metadata queries use.
    pub fn partial(group_id: GroupId, artifact_id: ArtifactId) -> (r: Artifact)
        ensures
            r.group_id == group_id,
            r.artifact_id == artifact_id,
            r.version is None,
            r.extension is None,
            r.classifier is None,
    {
        Artifact { group_id, artifact_id, version: None, extension: None, classifier: None }
    }

    pub fn with_version(&self, version: Version) -> (r: Artifact)
        ensures
            r == (Artifact { version: Some(version), ..*self }),
    {
        let mut cloned = self.clone();
        cloned.version = Some(version);
        cloned
    }

    pub fn with_classifier(&self, classifier: Classifier) -> (r: Artifact)
        ensures
            r == (Artifact { classifier: Some(classifier), ..*self }),
    {
        let mut cloned = self.clone();
        cloned.classifier = Some(classifier);
        cloned
    }

    pub fn with_extension(&self, extension: String) -> (r: Artifact)
        ensures
            r == (Artifact { extension: Some(extension), ..*self }),
    {
        let mut cloned = self.clone();
        cloned.extension = Some(extension);
        cloned
    }

    pub fn without_extension(&self) -> (r: Artifact)
        ensures
            r == (Artifact { extension: None, ..*self }),
    {
        let mut cloned = self.clone();
        cloned.extension = None;
        cloned
    }

    pub fn is_snapshot(&self) -> (r: bool)
        ensures
            r == (self.version matches Some(v) && is_snapshot_version(v@)),
    {
        match &self.version {
            Some(v) => v.is_snapshot(),
            None => false,
        }
    }

    /// `group/with/slashes/artifactId/version`.
    pub fn path(&self) -> (r: String)
        requires
            self.version is Some,
        ensures
            r@ == artifact_dir(self.group_id@, self.artifact_id@) + seq!['/'] + self.version->0@,
    {
        let mut out = self.group_id.path_string();
        out.append("/");
        out.append(self.artifact_id.as_str());
        out.append("/");
        match &self.version {
            Some(v) => out.append(v.as_str()),
            None => {},
        }
        proof {
            reveal_strlit("/");
        }
        out
    }

    /// `artifactId-version[-classifier].extension`, with `jar` where no extension is given.
    pub fn file_name(&self) -> (r: String)
        requires
            self.version is Some,
        ensures
            r@ == file_name_of(self.artifact_id@, self.version->0@, self@.classifier, self@.extension),
    {
        match &self.version {
            Some(v) => file_name_with(&self.artifact_id, v, &self.classifier, &self.extension),
            None => String::new(),
        }
    }

    /// Reads `g:a:v`, `g:a:extension:v` or `g:a:extension:classifier:v`.
    pub fn parse(input: &str) -> (r: Result<Artifact, ParseArtifactError>)
        ensures
            match r {
                Ok(a) => parse_coordinate(input@) == Some(a@),
                Err(_) => parse_coordinate(input@) is None,
            },
    {
        let parts = split_text(input, ':');
        let ghost pv = parts@.map_values(|p: String| p@);
        assert(pv.len() == parts@.len());
        let n = parts.len();
        if n == 3 {
            assert(pv[0] == parts@[0]@ && pv[1] == parts@[1]@ && pv[2] == parts@[2]@);
            Ok(Artifact {
                group_id: GroupId(parts[0].clone()),
                artifact_id: ArtifactId(parts[1].clone()),
                version: Some(Version(parts[2].clone())),
                extension: None,
                classifier: None,
            })
        } else if n == 4 {
            assert(pv[0] == parts@[0]@ && pv[1] == parts@[1]@ && pv[2] == parts@[2]@ && pv[3] == parts@[3]@);
            Ok(Artifact {
                group_id: GroupId(parts[0].clone()),
                artifact_id: ArtifactId(parts[1].clone()),
                version: Some(Version(parts[3].clone())),
                extension: Some(parts[2].clone()),
                classifier: None,
            })
        } else if n == 5 {
            assert(pv[0] == parts@[0]@ && pv[1] == parts@[1]@ && pv[2] == parts@[2]@ && pv[3] == parts@[3]@
                && pv[4] == parts@[4]@);
            Ok(Artifact {
                group_id: GroupId(parts[0].clone()),
                artifact_id: ArtifactId(parts[1].clone()),
                version: Some(Version(parts[4].clone())),
                extension: Some(parts[2].clone()),
                classifier: Some(Classifier(parts[3].clone())),
            })
        } else {
            Err(ParseArtifactError(String::from_str("Unable to parse artifact: expected 3 to 5 parts")))
        }
    }

    /// The textual form: `g:a[:extension[:classifier]][:version]`.
    pub fn to_string(&self) -> (r: String)
        ensures
            r@ == render(self@),
    {
        let mut out = String::from_str(self.group_id.as_str());
        out.append(":");
        out.append(self.artifact_id.as_str());
        let seg = extension_text(&self.extension, &self.classifier);
        out.append(seg.as_str());
        match &self.version {
            Some(v) => {
                out.append(":");
                out.append(v.as_str());
            },
            None => {},
        }
        proof {
            reveal_strlit(":");
        }
        out
    }
}

fn extension_text(e: &Option<String>, c: &Option<Classifier>) -> (r: String)
    ensures
        r@ == extension_segments(opt_view(*e), opt_view(*c)),
{
    proof {
        reveal_strlit(":");
        reveal_strlit("jar");
    }
    let mut out = String::new();
    match (e, c) {
        (Some(e), Some(c)) => {
            out.append(":");
            out.append(e.as_str());
            out.append(":");
            out.append(c.as_str());
        },
        (None, Some(c)) => {
            out.append(":");
            out.append("jar");
            out.append(":");
            out.append(c.as_str());
        },
        (Some(e), None) => {
            if !same_text(e.as_str(), "jar") {
                out.append(":");
                out.append(e.as_str());
            }
        },
        (None, None) => {},
    }
    out
}

/// `artifactId-version[-classifier].extension`.
pub fn file_name_with(
    artifact_id: &ArtifactId,
    version: &Version,
    classifier: &Option<Classifier>,
    extension: &Option<String>,
) -> (r: String)
    ensures
        r@ == file_name_of(artifact_id@, version@, opt_view(*classifier), opt_view(*extension)),
{
    proof {
        reveal_strlit("-");
        reveal_strlit(".");
        reveal_strlit("jar");
    }
    let mut out = String::from_str(artifact_id.as_str());
    out.append("-");
    out.append(version.as_str());
    match classifier {
        Some(c) => {
            out.append("-");
            out.append(c.as_str());
        },
        None => {},
    }
    out.append(".");
    match extension {
        Some(e) => out.append(e.as_str()),
        None => out.append("jar"),
    }
    out
}

/// Pieces joined with `:` between them.
pub open spec fn join_colon(p: Seq<Seq<char>>) -> Seq<char>
    decreases p.len(),
{
    if p.len() <= 1 {
        if p.len() == 1 {
            p[0]
        } else {
            Seq::empty()
        }
    } else {
        p[0] + colon() + join_colon(p.drop_first())
    }
}

proof fn lemma_split_joined(p: Seq<Seq<char>>)
    requires
        p.len() >= 1,
        forall|i: int| 0 <= i < p.len() ==> free_of(#[trigger] p[i], ':'),
    ensures
        split_on(join_colon(p), ':') == p,
    decreases p.len(),
{
    lemma_split_single(p[0], ':');
    if p.len() > 1 {
        let rest = p.drop_first();
        assert forall|i: int| 0 <= i < rest.len() implies free_of(#[trigger] rest[i], ':') by {
            assert(rest[i] == p[i + 1]);
        }
        lemma_split_joined(rest);
        lemma_split_join(p[0], join_colon(rest), ':');
        assert(p[0] + colon() + join_colon(rest) == p[0] + seq![':'] + join_colon(rest));
        assert(seq![p[0]] + rest =~= p);
    } else {
        assert(seq![p[0]] =~= p);
    }
}

proof fn lemma_join3(a: Seq<char>, b: Seq<char>, c: Seq<char>)
    ensures
        join_colon(seq![a, b, c]) =~= a + colon() + b + colon() + c,
{
    assert(seq![a, b, c].drop_first() =~= seq![b, c]);
    assert(seq![b, c].drop_first() =~= seq![c]);
    assert(join_colon(seq![c]) == c);
    assert(join_colon(seq![b, c]) == b + colon() + c);
    assert(join_colon(seq![a, b, c]) == a + colon() + (b + colon() + c));
}

proof fn lemma_join4(a: Seq<char>, b: Seq<char>, c: Seq<char>, d: Seq<char>)
    ensures
        join_colon(seq![a, b, c, d]) =~= a + colon() + b + colon() + c + colon() + d,
{
    assert(seq![a, b, c, d].drop_first() =~= seq![b, c, d]);
    lemma_join3(b, c, d);
    assert(join_colon(seq![a, b, c, d]) == a + colon() + join_colon(seq![b, c, d]));
}

proof fn lemma_join5(a: Seq<char>, b: Seq<char>, c: Seq<char>, d: Seq<char>, e: Seq<char>)
    ensures
        join_colon(seq![a, b, c, d, e]) =~= a + colon() + b + colon() + c + colon() + d + colon() + e,
{
    assert(seq![a, b, c, d, e].drop_first() =~= seq![b, c, d, e]);
    lemma_join4(b, c, d, e);
    assert(join_colon(seq![a, b, c, d, e]) == a + colon() + join_colon(seq![b, c, d, e]));
}

/// Reading back the textual form of a full coordinate whose fields hold no `:` gives the same
/// group, artifact, version and classifier, and the same effective extension; the extension
/// comes back absent exactly when there is no classifier and the extension is `jar` or absent.
pub proof fn lemma_render_parse(c: Coordinate)
    requires
        c.version is Some,
        free_of(c.group_id, ':'),
        free_of(c.artifact_id, ':'),
        free_of(c.version->0, ':'),
        c.extension matches Some(e) ==> free_of(e, ':'),
        c.classifier matches Some(k) ==> free_of(k, ':'),
    ensures
        parse_coordinate(render(c)) matches Some(d) && d.group_id == c.group_id && d.artifact_id
            == c.artifact_id && d.version == c.version && d.classifier == c.classifier
            && effective_extension(d.extension) == effective_extension(c.extension) && (d.extension is None
            <==> (c.classifier is None && effective_extension(c.extension) == "jar"@)),
{
    let g = c.group_id;
    let a = c.artifact_id;
    let v = c.version->0;
    reveal_strlit("jar");
    assert(free_of("jar"@, ':'));
    let p = match (c.extension, c.classifier) {
        (Some(e), Some(k)) => seq![g, a, e, k, v],
        (None, Some(k)) => seq![g, a, "jar"@, k, v],
        (Some(e), None) => if e == "jar"@ {
            seq![g, a, v]
        } else {
            seq![g, a, e, v]
        },
        (None, None) => seq![g, a, v],
    };
    match (c.extension, c.classifier) {
        (Some(e), Some(k)) => lemma_join5(g, a, e, k, v),
        (None, Some(k)) => lemma_join5(g, a, "jar"@, k, v),
        (Some(e), None) => if e == "jar"@ {
            lemma_join3(g, a, v)
        } else {
            lemma_join4(g, a, e, v)
        },
        (None, None) => lemma_join3(g, a, v),
    }
    assert(render(c) =~= join_colon(p));
    lemma_split_joined(p);
}

/// A coordinate without a version: the subject of a metadata query.
#[derive(Debug, PartialEq, Eq)]
pub struct PartialArtifact {
    pub group_id: GroupId,
    pub artifact_id: ArtifactId,
}

impl PartialArtifact {
    pub fn new(group_id: GroupId, artifact_id: ArtifactId) -> (r: PartialArtifact)
        ensures
            r.group_id == group_id,
            r.artifact_id == artifact_id,
    {
        PartialArtifact { group_id, artifact_id }
    }

    /// The full coordinate with the given version.
    pub fn into_artifact(self, version: Version) -> (r: Artifact)
        ensures
            r == Artifact::spec_new(self.group_id, self.artifact_id, version),
    {
        Artifact::new(self.group_id, self.artifact_id, version)
    }

    /// `group/with/slashes/artifactId`.
    pub fn path(&self) -> (r: String)
        ensures
            r@ == artifact_dir(self.group_id@, self.artifact_id@),
    {
        let mut out = self.group_id.path_string();
        out.append("/");
        out.append(self.artifact_id.as_str());
        proof {
            reveal_strlit("/");
        }
        out
    }

    /// Reads `groupId:artifactId`: exactly two parts.
    pub fn parse(input: &str) -> (r: Result<PartialArtifact, ParseArtifactError>)
        ensures
            match r {
                Ok(p) => split_on(input@, ':') == seq![p.group_id@, p.artifact_id@],
                Err(_) => split_on(input@, ':').len() != 2,
            },
    {
        let parts = split_text(input, ':');
        let ghost pv = parts@.map_values(|p: String| p@);
        if parts.len() == 2 {
            assert(pv[0] == parts@[0]@ && pv[1] == parts@[1]@);
            let r = PartialArtifact { group_id: GroupId(parts[0].clone()), artifact_id: ArtifactId(parts[1].clone()) };
            assert(pv =~= seq![r.group_id@, r.artifact_id@]);
            Ok(r)
        } else {
            let mut message = String::from_str("expected <groupId>:<artifactId>, but was ");
            message.append(input);
            Err(ParseArtifactError(message))
        }
    }

    /// `groupId:artifactId`.
    pub fn to_string(&self) -> (r: String)
        ensures
            r@ == self.group_id@ + colon() + self.artifact_id@,
    {
        let mut out = String::from_str(self.group_id.as_str());
        out.append(":");
        out.append(self.artifact_id.as_str());
        proof {
            reveal_strlit(":");
        }
        out
    }
}

impl Artifact {
    pub open spec fn spec_new(group_id: GroupId, artifact_id: ArtifactId, version: Version) -> Artifact {
        Artifact { group_id, artifact_id, version: Some(version), extension: None, classifier: None }
    }

    /// The group and artifact alone.
    pub fn to_partial(&self) -> (r: PartialArtifact)
        ensures
            r.group_id == self.group_id,
            r.artifact_id == self.artifact_id,
    {
        PartialArtifact { group_id: self.group_id.clone(), artifact_id: self.artifact_id.clone() }
    }
}

/// The version segment of a resolved artifact's path: the coordinate's own version for a
/// snapshot, the resolved version otherwise.
pub open spec fn version_segment(c: Coordinate, resolved: Seq<char>) -> Seq<char> {
    if is_snapshot_version(c.version->0) {
        c.version->0
    } else {
        resolved
    }
}

/// Where a resolved artifact lies under a repository base.
pub open spec fn artifact_url(base: Seq<char>, c: Coordinate, resolved: Seq<char>) -> Seq<char> {
    trim_slashes(base) + seq!['/'] + artifact_dir(c.group_id, c.artifact_id) + seq!['/'] + version_segment(c, resolved)
        + seq!['/'] + file_name_of(c.artifact_id, resolved, c.classifier, c.extension)
}

/// A coordinate together with the concrete version that its file is stored under.
#[derive(Debug, PartialEq, Eq)]
pub struct ResolvedArtifact {
    pub artifact: Artifact,
    pub resolved_version: Version,
}

impl ResolvedArtifact {
    /// `group/with/slashes/artifactId/versionSegment`.
    pub fn path(&self) -> (r: String)
        requires
            self.artifact.version is Some,
        ensures
            r@ == artifact_dir(self.artifact.group_id@, self.artifact.artifact_id@) + seq!['/'] + version_segment(
                self.artifact@,
                self.resolved_version@,
            ),
    {
        let mut out = self.artifact.group_id.path_string();
        out.append("/");
        out.append(self.artifact.artifact_id.as_str());
        out.append("/");
        if self.artifact.is_snapshot() {
            match &self.artifact.version {
                Some(v) => out.append(v.as_str()),
                None => {},
            }
        } else {
            out.append(self.resolved_version.as_str());
        }
        proof {
            reveal_strlit("/");
        }
        out
    }

    /// The name of the stored file: `artifactId-resolvedVersion[-classifier].extension`.
    pub fn file_name(&self) -> (r: String)
        ensures
            r@ == file_name_of(self.artifact.artifact_id@, self.resolved_version@, self.artifact@.classifier, self.artifact@.extension),
    {
        file_name_with(&self.artifact.artifact_id, &self.resolved_version, &self.artifact.classifier, &self.artifact.extension)
    }

    /// The artifact's URL under `repository`.
    pub fn uri(&self, repository: &Repository) -> (r: String)
        requires
            self.artifact.version is Some,
        ensures
            r@ == artifact_url(repository.url@, self.artifact@, self.resolved_version@),
    {
        let mut out = without_trailing_slashes(repository.url.as_str());
        out.append("/");
        let p = self.path();
        out.append(p.as_str());
        out.append("/");
        let f = self.file_name();
        out.append(f.as_str());
        proof {
            reveal_strlit("/");
        }
        out
    }

    /// The coordinate with its version replaced by the resolved one.
    pub fn into_artifact(self) -> (r: Artifact)
        ensures
            r == (Artifact { version: Some(self.resolved_version), ..self.artifact }),
    {
        self.artifact.with_version(self.resolved_version)
    }
}

/// The URL of a resolved artifact has one slash between the base and the group path, and
/// none at the end of the base, whatever slashes the base ends with.
pub proof fn lemma_url_single_slash(base: Seq<char>, c: Coordinate, resolved: Seq<char>)
    requires
        c.version is Some,
        c.group_id.len() > 0,
        c.group_id[0] != '/' && c.group_id[0] != '.',
    ensures
        ({
            let b = trim_slashes(base);
            let u = artifact_url(base, c, resolved);
            &&& u.subrange(0, b.len() as int) == b
            &&& u[b.len() as int] == '/'
            &&& b.len() > 0 ==> u[b.len() - 1] != '/'
            &&& u[b.len() + 1int] != '/'
        }),
{
    crate::lemma_trim_slashes(base);
    let b = trim_slashes(base);
    let u = artifact_url(base, c, resolved);
    let rest = artifact_dir(c.group_id, c.artifact_id) + seq!['/'] + version_segment(c, resolved) + seq!['/']
        + file_name_of(c.artifact_id, resolved, c.classifier, c.extension);
    assert(u =~= b + seq!['/'] + rest);
    assert(rest[0] == group_path(c.group_id)[0]);
}

} // verus!
