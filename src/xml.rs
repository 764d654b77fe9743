//! XML documents as a flat sequence of tokens: element starts and ends by local name (namespaces
//! and attributes dropped), character data, and everything else.
use vstd::prelude::*;
use xml::reader::XmlEvent;

use crate::text::same_text;

verus! {

/// One event of an XML document.
#[derive(Debug, PartialEq, Eq)]
pub enum XmlToken {
    /// An element opens; its local name.
    Start(String),
    /// An element closes; its local name.
    End(String),
    /// Character data, whitespace or CDATA.
    Text(String),
    /// A declaration, processing instruction, comment or the end of the document.
    Other,
}

/// What a token holds, as character sequences.
pub enum TokenView {
    Start(Seq<char>),
    End(Seq<char>),
    Text(Seq<char>),
    Other,
}

impl View for XmlToken {
    type V = TokenView;

    open spec fn view(&self) -> TokenView {
        match self {
            XmlToken::Start(n) => TokenView::Start(n@),
            XmlToken::End(n) => TokenView::End(n@),
            XmlToken::Text(x) => TokenView::Text(x@),
            XmlToken::Other => TokenView::Other,
        }
    }
}

pub open spec fn tokens_view(t: Seq<XmlToken>) -> Seq<TokenView> {
    t.map_values(|x: XmlToken| x@)
}

/// The token sequence of a well-formed document, or `None` where the reader rejects it.
pub uninterp spec fn xml_reading(doc: Seq<char>) -> Option<Seq<TokenView>>;

#[verifier::external_type_specification]
#[verifier::external_body]
pub struct ExXmlError(xml::reader::Error);

/// Relies on xml-rs's `EventReader` with its default configuration, read to the end of the
/// document: the events it yields for `doc`, or its first error.
#[verifier::external_body]
pub(crate) fn read_tokens(doc: &str) -> (r: Result<Vec<XmlToken>, xml::reader::Error>)
    ensures
        match r {
            Ok(t) => xml_reading(doc@) == Some(tokens_view(t@)),
            Err(_) => xml_reading(doc@) is None,
        },
{
    xml::EventReader::from_str(doc).into_iter().map(|ev| ev.map(|ev| match ev {
        XmlEvent::StartElement { name, .. } => XmlToken::Start(name.local_name),
        XmlEvent::EndElement { name } => XmlToken::End(name.local_name),
        XmlEvent::Characters(s) => XmlToken::Text(s),
        XmlEvent::Whitespace(s) => XmlToken::Text(s),
        XmlEvent::CData(s) => XmlToken::Text(s),
        XmlEvent::StartDocument { .. } => XmlToken::Other,
        XmlEvent::EndDocument => XmlToken::Other,
        XmlEvent::ProcessingInstruction { .. } => XmlToken::Other,
        XmlEvent::Comment(_) => XmlToken::Other,
    })).collect()
}

/// The elements that the metadata and project schemas name, by local name.
#[derive(Clone, Copy, PartialEq, Eq, Structural, Debug)]
pub enum Tag {
    GroupId,
    ArtifactId,
    Versioning,
    Latest,
    Release,
    Versions,
    Version,
    LastUpdated,
    Snapshot,
    Timestamp,
    BuildNumber,
    SnapshotVersions,
    SnapshotVersion,
    Value,
    Updated,
    Classifier,
    Extension,
    Packaging,
    Parent,
    DependencyManagement,
    Dependencies,
    Dependency,
    Type,
    Scope,
    Properties,
    Unknown,
}

pub open spec fn element_tag(n: Seq<char>) -> Tag {
    if n == "groupId"@ {
        Tag::GroupId
    } else if n == "artifactId"@ {
        Tag::ArtifactId
    } else if n == "versioning"@ {
        Tag::Versioning
    } else if n == "latest"@ {
        Tag::Latest
    } else if n == "release"@ {
        Tag::Release
    } else if n == "versions"@ {
        Tag::Versions
    } else if n == "version"@ {
        Tag::Version
    } else if n == "lastUpdated"@ {
        Tag::LastUpdated
    } else if n == "snapshot"@ {
        Tag::Snapshot
    } else if n == "timestamp"@ {
        Tag::Timestamp
    } else if n == "buildNumber"@ {
        Tag::BuildNumber
    } else if n == "snapshotVersions"@ {
        Tag::SnapshotVersions
    } else if n == "snapshotVersion"@ {
        Tag::SnapshotVersion
    } else if n == "value"@ {
        Tag::Value
    } else if n == "updated"@ {
        Tag::Updated
    } else if n == "classifier"@ {
        Tag::Classifier
    } else if n == "extension"@ {
        Tag::Extension
    } else if n == "packaging"@ {
        Tag::Packaging
    } else if n == "parent"@ {
        Tag::Parent
    } else if n == "dependencyManagement"@ {
        Tag::DependencyManagement
    } else if n == "dependencies"@ {
        Tag::Dependencies
    } else if n == "dependency"@ {
        Tag::Dependency
    } else if n == "type"@ {
        Tag::Type
    } else if n == "scope"@ {
        Tag::Scope
    } else if n == "properties"@ {
        Tag::Properties
    } else {
        Tag::Unknown
    }
}

pub(crate) fn tag_of(n: &str) -> (r: Tag)
    ensures
        r == element_tag(n@),
{
    if same_text(n, "groupId") {
        Tag::GroupId
    } else if same_text(n, "artifactId") {
        Tag::ArtifactId
    } else if same_text(n, "versioning") {
        Tag::Versioning
    } else if same_text(n, "latest") {
        Tag::Latest
    } else if same_text(n, "release") {
        Tag::Release
    } else if same_text(n, "versions") {
        Tag::Versions
    } else if same_text(n, "version") {
        Tag::Version
    } else if same_text(n, "lastUpdated") {
        Tag::LastUpdated
    } else if same_text(n, "snapshot") {
        Tag::Snapshot
    } else if same_text(n, "timestamp") {
        Tag::Timestamp
    } else if same_text(n, "buildNumber") {
        Tag::BuildNumber
    } else if same_text(n, "snapshotVersions") {
        Tag::SnapshotVersions
    } else if same_text(n, "snapshotVersion") {
        Tag::SnapshotVersion
    } else if same_text(n, "value") {
        Tag::Value
    } else if same_text(n, "updated") {
        Tag::Updated
    } else if same_text(n, "classifier") {
        Tag::Classifier
    } else if same_text(n, "extension") {
        Tag::Extension
    } else if same_text(n, "packaging") {
        Tag::Packaging
    } else if same_text(n, "parent") {
        Tag::Parent
    } else if same_text(n, "dependencyManagement") {
        Tag::DependencyManagement
    } else if same_text(n, "dependencies") {
        Tag::Dependencies
    } else if same_text(n, "dependency") {
        Tag::Dependency
    } else if same_text(n, "type") {
        Tag::Type
    } else if same_text(n, "scope") {
        Tag::Scope
    } else if same_text(n, "properties") {
        Tag::Properties
    } else {
        Tag::Unknown
    }
}

/// The open elements below the root are exactly `q`, of at most four elements.
pub open spec fn below_root(p: Seq<Tag>, q: Seq<Tag>) -> bool {
    &&& q.len() <= 4
    &&& p.len() == q.len() + 1
    &&& q.len() > 0 ==> p[1] == q[0]
    &&& q.len() > 1 ==> p[2] == q[1]
    &&& q.len() > 2 ==> p[3] == q[2]
    &&& q.len() > 3 ==> p[4] == q[3]
}

pub(crate) fn at1(p: &Vec<Tag>, a: Tag) -> (r: bool)
    ensures
        r == below_root(p@, seq![a]),
{
    p.len() == 2 && p[1] == a
}

pub(crate) fn at2(p: &Vec<Tag>, a: Tag, b: Tag) -> (r: bool)
    ensures
        r == below_root(p@, seq![a, b]),
{
    p.len() == 3 && p[1] == a && p[2] == b
}

pub(crate) fn at3(p: &Vec<Tag>, a: Tag, b: Tag, c: Tag) -> (r: bool)
    ensures
        r == below_root(p@, seq![a, b, c]),
{
    p.len() == 4 && p[1] == a && p[2] == b && p[3] == c
}

pub(crate) fn at4(p: &Vec<Tag>, a: Tag, b: Tag, c: Tag, d: Tag) -> (r: bool)
    ensures
        r == below_root(p@, seq![a, b, c, d]),
{
    p.len() == 5 && p[1] == a && p[2] == b && p[3] == c && p[4] == d
}

/// The tags of the element names that the two schemas use.
pub proof fn lemma_tag_names()
    ensures
        element_tag("metadata"@) == Tag::Unknown,
        element_tag("groupId"@) == Tag::GroupId,
        element_tag("artifactId"@) == Tag::ArtifactId,
        element_tag("versioning"@) == Tag::Versioning,
        element_tag("latest"@) == Tag::Latest,
        element_tag("release"@) == Tag::Release,
        element_tag("versions"@) == Tag::Versions,
        element_tag("version"@) == Tag::Version,
        element_tag("lastUpdated"@) == Tag::LastUpdated,
        element_tag("snapshot"@) == Tag::Snapshot,
        element_tag("timestamp"@) == Tag::Timestamp,
        element_tag("buildNumber"@) == Tag::BuildNumber,
        element_tag("snapshotVersions"@) == Tag::SnapshotVersions,
        element_tag("snapshotVersion"@) == Tag::SnapshotVersion,
        element_tag("value"@) == Tag::Value,
        element_tag("updated"@) == Tag::Updated,
        element_tag("classifier"@) == Tag::Classifier,
        element_tag("extension"@) == Tag::Extension,
        element_tag("project"@) == Tag::Unknown,
        element_tag("packaging"@) == Tag::Packaging,
        element_tag("parent"@) == Tag::Parent,
        element_tag("dependencyManagement"@) == Tag::DependencyManagement,
        element_tag("dependencies"@) == Tag::Dependencies,
        element_tag("dependency"@) == Tag::Dependency,
        element_tag("type"@) == Tag::Type,
        element_tag("scope"@) == Tag::Scope,
        element_tag("properties"@) == Tag::Properties,
{
    reveal_strlit("metadata");
    reveal_strlit("project");
    reveal_strlit("groupId");
    reveal_strlit("artifactId");
    reveal_strlit("versioning");
    reveal_strlit("latest");
    reveal_strlit("release");
    reveal_strlit("versions");
    reveal_strlit("version");
    reveal_strlit("lastUpdated");
    reveal_strlit("snapshot");
    reveal_strlit("timestamp");
    reveal_strlit("buildNumber");
    reveal_strlit("snapshotVersions");
    reveal_strlit("snapshotVersion");
    reveal_strlit("value");
    reveal_strlit("updated");
    reveal_strlit("classifier");
    reveal_strlit("extension");
    reveal_strlit("packaging");
    reveal_strlit("parent");
    reveal_strlit("dependencyManagement");
    reveal_strlit("dependencies");
    reveal_strlit("dependency");
    reveal_strlit("type");
    reveal_strlit("scope");
    reveal_strlit("properties");
    assert("project"@.len() == 7 && "project"@[0] == 'p');
    assert("metadata"@.len() == 8 && "metadata"@[0] == 'm');
    assert("groupId"@.len() == 7 && "groupId"@[0] == 'g');
    assert("artifactId"@.len() == 10 && "artifactId"@[0] == 'a');
    assert("versioning"@.len() == 10 && "versioning"@[0] == 'v');
    assert("latest"@.len() == 6 && "latest"@[0] == 'l');
    assert("release"@.len() == 7 && "release"@[0] == 'r');
    assert("versions"@.len() == 8 && "versions"@[0] == 'v');
    assert("version"@.len() == 7 && "version"@[0] == 'v');
    assert("lastUpdated"@.len() == 11 && "lastUpdated"@[0] == 'l');
    assert("snapshot"@.len() == 8 && "snapshot"@[0] == 's');
    assert("timestamp"@.len() == 9 && "timestamp"@[0] == 't');
    assert("buildNumber"@.len() == 11 && "buildNumber"@[0] == 'b');
    assert("snapshotVersions"@.len() == 16 && "snapshotVersions"@[0] == 's');
    assert("snapshotVersion"@.len() == 15 && "snapshotVersion"@[0] == 's');
    assert("value"@.len() == 5 && "value"@[0] == 'v');
    assert("updated"@.len() == 7 && "updated"@[0] == 'u');
    assert("classifier"@.len() == 10 && "classifier"@[0] == 'c');
    assert("extension"@.len() == 9 && "extension"@[0] == 'e');
    assert("packaging"@.len() == 9 && "packaging"@[0] == 'p');
    assert("parent"@.len() == 6 && "parent"@[0] == 'p');
    assert("dependencyManagement"@.len() == 20 && "dependencyManagement"@[0] == 'd');
    assert("dependencies"@.len() == 12 && "dependencies"@[0] == 'd');
    assert("dependency"@.len() == 10 && "dependency"@[0] == 'd');
    assert("type"@.len() == 4 && "type"@[0] == 't');
    assert("scope"@.len() == 5 && "scope"@[0] == 's');
    assert("properties"@.len() == 10 && "properties"@[0] == 'p');
}


} // verus!
