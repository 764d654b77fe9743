//! Project descriptors (`pom.xml`): the project's own coordinate, its parent, its dependencies,
//! its managed dependencies and its properties.
//!
//! Like the metadata reader, the project reader keeps the path of open elements and takes values
//! from the character data of the elements at the positions of the schema: the direct children
//! of the root, `parent/*`, `dependencies/dependency/*`,
//! `dependencyManagement/dependencies/dependency/*` and `properties/*`. Any other element, such as
//! `build`, is passed over with all it holds.
use vstd::prelude::*;

use crate::artifact::{opt_view, Artifact, Coordinate, ParseArtifactError};
use crate::text::{split_on, split_text};
use crate::metadata::{block, leaf, opt_leaf, pop_path};
use crate::xml::{element_tag, lemma_tag_names, read_tokens, tag_of, tokens_view, xml_reading, Tag, TokenView, XmlToken};
use crate::{ArtifactId, Classifier, GroupId, Version};

verus! {

/// Properties in the order they were given; a later entry overrides an earlier one.
pub type PropertyList = Seq<(Seq<char>, Seq<char>)>;

/// The value of `name`: that of its last entry.
pub open spec fn lookup(es: PropertyList, name: Seq<char>) -> Option<Seq<char>>
    decreases es.len(),
{
    if es.len() == 0 {
        None
    } else if es.last().0 == name {
        Some(es.last().1)
    } else {
        lookup(es.drop_last(), name)
    }
}

/// A property map, kept as the list of its entries in order of insertion.
#[derive(Debug, PartialEq, Eq, Default)]
pub struct Properties {
    pub entries: Vec<(String, String)>,
}

impl View for Properties {
    type V = PropertyList;

    open spec fn view(&self) -> PropertyList {
        self.entries@.map_values(|e: (String, String)| (e.0@, e.1@))
    }
}

impl Properties {
    pub fn new() -> (r: Properties)
        ensures
            r@ == PropertyList::empty(),
    {
        let r = Properties { entries: Vec::new() };
        assert(r@ =~= PropertyList::empty());
        r
    }

    /// Sets `name` to `value`, over any earlier value.
    pub fn insert(&mut self, name: String, value: String)
        ensures
            final(self)@ == old(self)@.push((name@, value@)),
    {
        let ghost before = self@;
        self.entries.push((name, value));
        assert(self@ =~= before.push((name@, value@)));
    }

    /// The value of `name`, if it is set.
    pub fn get(&self, name: &str) -> (r: Option<String>)
        ensures
            opt_view(r) == lookup(self@, name@),
    {
        let mut i = self.entries.len();
        assert(self@.subrange(0, i as int) =~= self@);
        while i > 0
            invariant
                i <= self.entries@.len(),
                lookup(self@.subrange(0, i as int), name@) == lookup(self@, name@),
            decreases i,
        {
            let ghost pre = self@.subrange(0, i as int);
            assert(pre.drop_last() == self@.subrange(0, i - 1));
            assert(pre.last() == (self.entries@[i - 1].0@, self.entries@[i - 1].1@));
            if crate::text::same_text(self.entries[i - 1].0.as_str(), name) {
                return Some(self.entries[i - 1].1.clone());
            }
            i = i - 1;
        }
        None
    }

    /// All entries of `self`, then all entries of `other`.
    pub fn extend(&mut self, other: &Properties)
        ensures
            final(self)@ == old(self)@ + other@,
    {
        let ghost before = self@;
        let mut i: usize = 0;
        while i < other.entries.len()
            invariant
                i <= other.entries@.len(),
                self@ == before + other@.subrange(0, i as int),
            decreases other.entries@.len() - i,
        {
            let ghost prev = self@;
            self.insert(other.entries[i].0.clone(), other.entries[i].1.clone());
            assert(other@.subrange(0, i + 1) =~= other@.subrange(0, i as int).push(other@[i as int]));
            assert(self@ =~= before + other@.subrange(0, i + 1));
            i = i + 1;
        }
        assert(other@.subrange(0, other@.len() as int) =~= other@);
    }
}

impl Clone for Properties {
    fn clone(&self) -> (r: Self)
        ensures
            r@ == self@,
    {
        let mut r = Properties::new();
        r.extend(self);
        assert(r@ =~= self@);
        r
    }
}

pub struct DependencyView {
    pub artifact: Coordinate,
    pub scope: Option<Seq<char>>,
}

/// A dependency: a coordinate, possibly without version, and a scope.
#[derive(Debug, PartialEq, Eq)]
pub struct Dependency {
    pub artifact: Artifact,
    pub scope: Option<String>,
}

impl View for Dependency {
    type V = DependencyView;

    open spec fn view(&self) -> DependencyView {
        DependencyView { artifact: self.artifact@, scope: opt_view(self.scope) }
    }
}

impl Clone for Dependency {
    fn clone(&self) -> (r: Self)
        ensures
            r == *self,
    {
        Dependency {
            artifact: self.artifact.clone(),
            scope: match &self.scope {
                Some(s) => Some(s.clone()),
                None => None,
            },
        }
    }
}

pub open spec fn deps_view(d: Seq<Dependency>) -> Seq<DependencyView> {
    d.map_values(|x: Dependency| x@)
}

/// The `dependencyManagement` block.
#[derive(Debug, PartialEq, Eq, Default)]
pub struct DependencyManagement {
    pub dependencies: Vec<Dependency>,
}

pub struct ProjectView {
    pub artifact: Coordinate,
    pub parent: Option<Coordinate>,
    pub managed: Seq<DependencyView>,
    pub dependencies: Seq<DependencyView>,
    pub properties: PropertyList,
}

/// A parsed project descriptor.
#[derive(Debug, PartialEq, Eq)]
pub struct Project {
    pub artifact: Artifact,
    pub parent: Option<Artifact>,
    pub dependency_management: DependencyManagement,
    pub dependencies: Vec<Dependency>,
    pub properties: Properties,
}

impl View for Project {
    type V = ProjectView;

    open spec fn view(&self) -> ProjectView {
        ProjectView {
            artifact: self.artifact@,
            parent: opt_view(self.parent),
            managed: deps_view(self.dependency_management.dependencies@),
            dependencies: deps_view(self.dependencies@),
            properties: self.properties@,
        }
    }
}

impl Project {
    /// A project with nothing but its coordinate.
    pub fn new(artifact: Artifact) -> (r: Project)
        ensures
            r@.artifact == artifact@,
            r@.parent is None,
            r@.managed.len() == 0,
            r@.dependencies.len() == 0,
            r@.properties.len() == 0,
    {
        Project {
            artifact,
            parent: None,
            dependency_management: DependencyManagement { dependencies: Vec::new() },
            dependencies: Vec::new(),
            properties: Properties::new(),
        }
    }
}

/// A `groupId:artifactId:version` reference to a project.
#[derive(Debug, PartialEq, Eq)]
pub struct ProjectReference(pub Artifact);

impl ProjectReference {
    pub fn new(group_id: GroupId, artifact_id: ArtifactId, version: Version) -> (r: ProjectReference)
        ensures
            r.0 == Artifact::spec_new(group_id, artifact_id, version),
    {
        ProjectReference(Artifact::new(group_id, artifact_id, version))
    }

    /// Reads `groupId:artifactId:version`: exactly three parts.
    pub fn parse(input: &str) -> (r: Result<ProjectReference, ParseArtifactError>)
        ensures
            match r {
                Ok(p) => split_on(input@, ':') == seq![p.0.group_id@, p.0.artifact_id@, p.0.version->0@]
                    && p.0.version is Some && p.0.extension is None && p.0.classifier is None,
                Err(_) => split_on(input@, ':').len() != 3,
            },
    {
        let parts = split_text(input, ':');
        let ghost pv = parts@.map_values(|p: String| p@);
        if parts.len() == 3 {
            assert(pv[0] == parts@[0]@ && pv[1] == parts@[1]@ && pv[2] == parts@[2]@);
            let r = ProjectReference::new(
                GroupId(parts[0].clone()),
                ArtifactId(parts[1].clone()),
                Version(parts[2].clone()),
            );
            assert(pv =~= seq![r.0.group_id@, r.0.artifact_id@, r.0.version->0@]);
            Ok(r)
        } else {
            let mut message = String::from_str("expected <groupId>:<artifactId>:<version>, but was ");
            message.append(input);
            Err(ParseArtifactError(message))
        }
    }

    /// `group/with/slashes/artifactId/version`.
    pub fn path(&self) -> (r: String)
        requires
            self.0.version is Some,
        ensures
            r@ == crate::artifact::artifact_dir(self.0.group_id@, self.0.artifact_id@) + seq!['/'] + self.0.version->0@,
    {
        self.0.path()
    }
}

/// Why a project descriptor could not be read.
#[derive(Debug)]
pub enum PomParserError {
    /// The document is not well-formed XML.
    Xml(xml::reader::Error),
    /// The document is XML but misses what the project schema requires.
    Unexpected(String),
}

// ---------------------------------------------------------------------------------------------
// The reader's state machine
/// The fields of a coordinate read so far, with a scope for dependencies.
pub struct Draft {
    pub group_id: Option<Seq<char>>,
    pub artifact_id: Option<Seq<char>>,
    pub version: Option<Seq<char>>,
    pub extension: Option<Seq<char>>,
    pub classifier: Option<Seq<char>>,
    pub scope: Option<Seq<char>>,
}

pub open spec fn empty_draft() -> Draft {
    Draft { group_id: None, artifact_id: None, version: None, extension: None, classifier: None, scope: None }
}

/// The coordinate of a draft; group and artifact are required.
pub open spec fn draft_coordinate(d: Draft) -> Option<Coordinate> {
    match (d.group_id, d.artifact_id) {
        (Some(g), Some(a)) => Some(
            Coordinate { group_id: g, artifact_id: a, version: d.version, extension: d.extension, classifier: d.classifier },
        ),
        _ => None,
    }
}

/// A draft with the field that `tag` names set to `t`; `packaging` and `type` give the extension.
pub open spec fn set_field(d: Draft, tag: Tag, t: Seq<char>) -> Draft {
    match tag {
        Tag::GroupId => Draft { group_id: Some(t), ..d },
        Tag::ArtifactId => Draft { artifact_id: Some(t), ..d },
        Tag::Version => Draft { version: Some(t), ..d },
        Tag::Packaging => Draft { extension: Some(t), ..d },
        Tag::Type => Draft { extension: Some(t), ..d },
        Tag::Classifier => Draft { classifier: Some(t), ..d },
        Tag::Scope => Draft { scope: Some(t), ..d },
        _ => d,
    }
}

pub open spec fn own_field(t: Tag) -> bool {
    t == Tag::GroupId || t == Tag::ArtifactId || t == Tag::Version || t == Tag::Packaging || t == Tag::Classifier
}

pub open spec fn parent_field(t: Tag) -> bool {
    t == Tag::GroupId || t == Tag::ArtifactId || t == Tag::Version
}

pub open spec fn dependency_field(t: Tag) -> bool {
    t == Tag::GroupId || t == Tag::ArtifactId || t == Tag::Version || t == Tag::Type || t == Tag::Classifier
        || t == Tag::Scope
}

/// `root/dependencies/dependency` or `root/dependencyManagement/dependencies/dependency`, with
/// `extra` more elements below.
pub open spec fn in_dependency(p: Seq<Tag>, managed: bool, extra: int) -> bool {
    if managed {
        p.len() == 4 + extra && p[1] == Tag::DependencyManagement && p[2] == Tag::Dependencies && p[3] == Tag::Dependency
    } else {
        p.len() == 3 + extra && p[1] == Tag::Dependencies && p[2] == Tag::Dependency
    }
}

/// What the reader holds between two tokens.
pub struct PomState {
    pub path: Seq<Tag>,
    pub text: Seq<char>,
    pub property: Seq<char>,
    pub own: Draft,
    pub parent_draft: Draft,
    pub parent: Option<Coordinate>,
    pub dep: Draft,
    pub dependencies: Seq<DependencyView>,
    pub managed: Seq<DependencyView>,
    pub properties: PropertyList,
}

/// An element named `n` has opened; `s.path` ends with it.
pub open spec fn pom_start(s: PomState, n: Seq<char>) -> PomState {
    let p = s.path;
    if p.len() == 2 && p[1] == Tag::Parent {
        PomState { parent_draft: empty_draft(), ..s }
    } else if in_dependency(p, false, 0) || in_dependency(p, true, 0) {
        PomState { dep: empty_draft(), ..s }
    } else if p.len() == 3 && p[1] == Tag::Properties {
        PomState { property: n, ..s }
    } else {
        s
    }
}

/// An element closes; `s.path` still ends with it and `s.text` holds its character data.
pub open spec fn pom_end(s: PomState) -> Option<PomState> {
    let p = s.path;
    let t = s.text;
    if p.len() == 2 && own_field(p[1]) {
        Some(PomState { own: set_field(s.own, p[1], t), ..s })
    } else if p.len() == 3 && p[1] == Tag::Parent && parent_field(p[2]) {
        Some(PomState { parent_draft: set_field(s.parent_draft, p[2], t), ..s })
    } else if p.len() == 2 && p[1] == Tag::Parent {
        match (draft_coordinate(s.parent_draft), s.parent_draft.version) {
            (Some(c), Some(v)) => Some(
                PomState { parent: Some(Coordinate { extension: None, classifier: None, ..c }), ..s },
            ),
            _ => None,
        }
    } else if (in_dependency(p, false, 1) || in_dependency(p, true, 1)) && dependency_field(p.last()) {
        Some(PomState { dep: set_field(s.dep, p.last(), t), ..s })
    } else if in_dependency(p, false, 0) || in_dependency(p, true, 0) {
        match draft_coordinate(s.dep) {
            Some(c) => {
                let d = DependencyView { artifact: c, scope: s.dep.scope };
                if in_dependency(p, true, 0) {
                    Some(PomState { managed: s.managed.push(d), ..s })
                } else {
                    Some(PomState { dependencies: s.dependencies.push(d), ..s })
                }
            },
            None => None,
        }
    } else if p.len() == 3 && p[1] == Tag::Properties {
        Some(PomState { properties: s.properties.push((s.property, t)), ..s })
    } else {
        Some(s)
    }
}

pub open spec fn pom_step(s: PomState, tok: TokenView) -> Option<PomState> {
    match tok {
        TokenView::Start(n) => Some(pom_start(PomState { path: s.path.push(element_tag(n)), text: Seq::empty(), ..s }, n)),
        TokenView::End(_) => match pom_end(s) {
            Some(s2) => Some(PomState { path: crate::metadata::pop_path(s2.path), text: Seq::empty(), ..s2 }),
            None => None,
        },
        TokenView::Text(x) => Some(PomState { text: s.text + x, ..s }),
        TokenView::Other => Some(s),
    }
}

pub open spec fn pom_run(t: Seq<TokenView>, i: int, s: PomState) -> Option<PomState>
    decreases t.len() - i,
{
    if i >= t.len() {
        Some(s)
    } else {
        match pom_step(s, t[i]) {
            Some(s2) => pom_run(t, i + 1, s2),
            None => None,
        }
    }
}

pub open spec fn pom_initial() -> PomState {
    PomState {
        path: Seq::empty(),
        text: Seq::empty(),
        property: Seq::empty(),
        own: empty_draft(),
        parent_draft: empty_draft(),
        parent: None,
        dep: empty_draft(),
        dependencies: Seq::empty(),
        managed: Seq::empty(),
        properties: Seq::empty(),
    }
}

/// The well-known properties of a project's coordinate.
pub open spec fn seeded_properties(c: Coordinate) -> PropertyList {
    seq![("project.groupId"@, c.group_id), ("project.artifactId"@, c.artifact_id)] + match c.version {
        Some(v) => seq![("project.version"@, v)],
        None => Seq::empty(),
    }
}

/// The project's coordinate: a missing version is the parent's.
pub open spec fn with_inherited_version(c: Coordinate, parent: Option<Coordinate>) -> Coordinate {
    if c.version is None && parent is Some {
        Coordinate { version: parent->0.version, ..c }
    } else {
        c
    }
}

/// At the end of the document the project's own `groupId` and `artifactId` are required. The
/// well-known properties come first, so that the descriptor's own entries override them.
pub open spec fn pom_finish(s: PomState) -> Option<ProjectView> {
    match draft_coordinate(s.own) {
        Some(c) => {
            let c2 = with_inherited_version(c, s.parent);
            Some(
                ProjectView {
                    artifact: c2,
                    parent: s.parent,
                    managed: s.managed,
                    dependencies: s.dependencies,
                    properties: seeded_properties(c2) + s.properties,
                },
            )
        },
        None => None,
    }
}

/// The project that a token sequence describes, or `None` where it breaks the schema.
pub open spec fn project_from_tokens(t: Seq<TokenView>) -> Option<ProjectView> {
    match pom_run(t, 0, pom_initial()) {
        Some(s) => pom_finish(s),
        None => None,
    }
}

/// The fields of a coordinate read so far.
#[derive(Debug, Default)]
struct ArtifactState {
    group_id: Option<String>,
    artifact_id: Option<String>,
    version: Option<String>,
    extension: Option<String>,
    classifier: Option<String>,
    scope: Option<String>,
}

impl View for ArtifactState {
    type V = Draft;

    closed spec fn view(&self) -> Draft {
        Draft {
            group_id: opt_view(self.group_id),
            artifact_id: opt_view(self.artifact_id),
            version: opt_view(self.version),
            extension: opt_view(self.extension),
            classifier: opt_view(self.classifier),
            scope: opt_view(self.scope),
        }
    }
}

fn clone_opt(o: &Option<String>) -> (r: Option<String>)
    ensures
        r == *o,
{
    match o {
        Some(s) => Some(s.clone()),
        None => None,
    }
}

impl ArtifactState {
    fn new() -> (r: ArtifactState)
        ensures
            r@ == empty_draft(),
    {
        ArtifactState { group_id: None, artifact_id: None, version: None, extension: None, classifier: None, scope: None }
    }

    fn set(&mut self, tag: Tag, t: String)
        ensures
            final(self)@ == set_field(old(self)@, tag, t@),
    {
        match tag {
            Tag::GroupId => self.group_id = Some(t),
            Tag::ArtifactId => self.artifact_id = Some(t),
            Tag::Version => self.version = Some(t),
            Tag::Packaging => self.extension = Some(t),
            Tag::Type => self.extension = Some(t),
            Tag::Classifier => self.classifier = Some(t),
            Tag::Scope => self.scope = Some(t),
            _ => {},
        }
    }

    /// The coordinate read so far; group and artifact are required.
    fn to_artifact(&self) -> (r: Result<Artifact, PomParserError>)
        ensures
            match r {
                Ok(a) => draft_coordinate(self@) == Some(a@),
                Err(e) => draft_coordinate(self@) is None && e is Unexpected,
            },
    {
        match (&self.group_id, &self.artifact_id) {
            (Some(g), Some(a)) => Ok(
                Artifact {
                    group_id: GroupId(g.clone()),
                    artifact_id: ArtifactId(a.clone()),
                    version: match &self.version {
                        Some(v) => Some(Version(v.clone())),
                        None => None,
                    },
                    extension: clone_opt(&self.extension),
                    classifier: match &self.classifier {
                        Some(c) => Some(Classifier(c.clone())),
                        None => None,
                    },
                },
            ),
            (None, _) => Err(PomParserError::Unexpected(String::from_str("Missing groupId"))),
            (_, None) => Err(PomParserError::Unexpected(String::from_str("Missing artifactId"))),
        }
    }
}

struct PomReader {
    path: Vec<Tag>,
    text: String,
    property: String,
    own: ArtifactState,
    parent_draft: ArtifactState,
    parent: Option<Artifact>,
    dep: ArtifactState,
    dependencies: Vec<Dependency>,
    managed: Vec<Dependency>,
    properties: Properties,
}

impl View for PomReader {
    type V = PomState;

    closed spec fn view(&self) -> PomState {
        PomState {
            path: self.path@,
            text: self.text@,
            property: self.property@,
            own: self.own@,
            parent_draft: self.parent_draft@,
            parent: opt_view(self.parent),
            dep: self.dep@,
            dependencies: deps_view(self.dependencies@),
            managed: deps_view(self.managed@),
            properties: self.properties@,
        }
    }
}

fn is_own_field(t: Tag) -> (r: bool)
    ensures
        r == own_field(t),
{
    t == Tag::GroupId || t == Tag::ArtifactId || t == Tag::Version || t == Tag::Packaging || t == Tag::Classifier
}

fn is_parent_field(t: Tag) -> (r: bool)
    ensures
        r == parent_field(t),
{
    t == Tag::GroupId || t == Tag::ArtifactId || t == Tag::Version
}

fn is_dependency_field(t: Tag) -> (r: bool)
    ensures
        r == dependency_field(t),
{
    t == Tag::GroupId || t == Tag::ArtifactId || t == Tag::Version || t == Tag::Type || t == Tag::Classifier
        || t == Tag::Scope
}

fn at_dependency(p: &Vec<Tag>, managed: bool, extra: usize) -> (r: bool)
    requires
        extra <= 1,
    ensures
        r == in_dependency(p@, managed, extra as int),
{
    if managed {
        p.len() == 4 + extra && p[1] == Tag::DependencyManagement && p[2] == Tag::Dependencies && p[3] == Tag::Dependency
    } else {
        p.len() == 3 + extra && p[1] == Tag::Dependencies && p[2] == Tag::Dependency
    }
}

impl PomReader {
    fn new() -> (r: PomReader)
        ensures
            r@ == pom_initial(),
    {
        let r = PomReader {
            path: Vec::new(),
            text: String::new(),
            property: String::new(),
            own: ArtifactState::new(),
            parent_draft: ArtifactState::new(),
            parent: None,
            dep: ArtifactState::new(),
            dependencies: Vec::new(),
            managed: Vec::new(),
            properties: Properties::new(),
        };
        assert(deps_view(Seq::<Dependency>::empty()) =~= Seq::<DependencyView>::empty());
        r
    }

    fn on_start(&mut self, n: &String)
        ensures
            final(self)@ == pom_start(old(self)@, n@),
    {
        let len = self.path.len();
        if len == 2 && self.path[1] == Tag::Parent {
            self.parent_draft = ArtifactState::new();
        } else if at_dependency(&self.path, false, 0) || at_dependency(&self.path, true, 0) {
            self.dep = ArtifactState::new();
        } else if len == 3 && self.path[1] == Tag::Properties {
            self.property = n.clone();
        }
    }

    fn on_end(&mut self) -> (ok: bool)
        ensures
            ok == pom_end(old(self)@) is Some,
            ok ==> final(self)@ == pom_end(old(self)@)->0,
    {
        let len = self.path.len();
        let t = self.text.clone();
        if len == 2 && is_own_field(self.path[1]) {
            self.own.set(self.path[1], t);
        } else if len == 3 && self.path[1] == Tag::Parent && is_parent_field(self.path[2]) {
            self.parent_draft.set(self.path[2], t);
        } else if len == 2 && self.path[1] == Tag::Parent {
            if self.parent_draft.version.is_none() {
                return false;
            }
            match self.parent_draft.to_artifact() {
                Ok(a) => {
                    self.parent = Some(Artifact { extension: None, classifier: None, ..a });
                },
                Err(_) => return false,
            }
        } else if (at_dependency(&self.path, false, 1) || at_dependency(&self.path, true, 1)) && is_dependency_field(
            self.path[len - 1],
        ) {
            self.dep.set(self.path[len - 1], t);
        } else if at_dependency(&self.path, false, 0) || at_dependency(&self.path, true, 0) {
            match self.dep.to_artifact() {
                Ok(a) => {
                    let d = Dependency { artifact: a, scope: clone_opt(&self.dep.scope) };
                    let ghost dv = d@;
                    if at_dependency(&self.path, true, 0) {
                        let ghost before = self.managed@;
                        self.managed.push(d);
                        assert(deps_view(self.managed@) =~= deps_view(before).push(dv));
                    } else {
                        let ghost before = self.dependencies@;
                        self.dependencies.push(d);
                        assert(deps_view(self.dependencies@) =~= deps_view(before).push(dv));
                    }
                },
                Err(_) => return false,
            }
        } else if len == 3 && self.path[1] == Tag::Properties {
            self.properties.insert(self.property.clone(), t);
        }
        true
    }

    fn step(&mut self, tok: &XmlToken) -> (ok: bool)
        ensures
            ok == pom_step(old(self)@, tok@) is Some,
            ok ==> final(self)@ == pom_step(old(self)@, tok@)->0,
    {
        match tok {
            XmlToken::Start(n) => {
                let tag = tag_of(n.as_str());
                self.path.push(tag);
                self.text = String::new();
                self.on_start(n);
                true
            },
            XmlToken::End(_) => {
                if !self.on_end() {
                    return false;
                }
                if self.path.len() > 0 {
                    self.path.pop();
                }
                self.text = String::new();
                true
            },
            XmlToken::Text(x) => {
                self.text.append(x.as_str());
                true
            },
            XmlToken::Other => true,
        }
    }
}

/// Reads project descriptors.
pub struct PomParser {}

impl PomParser {
    /// Reads the project from a token sequence.
    pub fn from_tokens(tokens: &Vec<XmlToken>) -> (r: Result<Project, PomParserError>)
        ensures
            match r {
                Ok(p) => project_from_tokens(tokens_view(tokens@)) == Some(p@),
                Err(e) => project_from_tokens(tokens_view(tokens@)) is None && e is Unexpected,
            },
    {
        let mut reader = PomReader::new();
        let mut i: usize = 0;
        while i < tokens.len()
            invariant
                i <= tokens@.len(),
                pom_run(tokens_view(tokens@), i as int, reader@) == pom_run(tokens_view(tokens@), 0, pom_initial()),
            decreases tokens@.len() - i,
        {
            if !reader.step(&tokens[i]) {
                return Err(PomParserError::Unexpected(String::from_str("element breaks the project schema")));
            }
            i = i + 1;
        }
        let own = reader.own.to_artifact();
        match own {
            Ok(a) => {
                let artifact = if a.version.is_none() && reader.parent.is_some() {
                    match &reader.parent {
                        Some(p) => Artifact { version: clone_version(&p.version), ..a },
                        None => a,
                    }
                } else {
                    a
                };
                let mut properties = seeded(&artifact);
                properties.extend(&reader.properties);
                Ok(
                    Project {
                        artifact,
                        parent: reader.parent,
                        dependency_management: DependencyManagement { dependencies: reader.managed },
                        dependencies: reader.dependencies,
                        properties,
                    },
                )
            },
            Err(e) => Err(e),
        }
    }

    /// Reads a `pom.xml` document.
    pub fn from_str(input: &str) -> (r: Result<Project, PomParserError>)
        ensures
            match r {
                Ok(p) => xml_reading(input@) matches Some(t) && project_from_tokens(t) == Some(p@),
                Err(PomParserError::Xml(_)) => xml_reading(input@) is None,
                Err(PomParserError::Unexpected(_)) => xml_reading(input@) matches Some(t) && project_from_tokens(t) is None,
            },
    {
        match read_tokens(input) {
            Ok(tokens) => Self::from_tokens(&tokens),
            Err(e) => Err(PomParserError::Xml(e)),
        }
    }
}

fn clone_version(o: &Option<Version>) -> (r: Option<Version>)
    ensures
        r == *o,
{
    match o {
        Some(v) => Some(v.clone()),
        None => None,
    }
}

fn seeded(a: &Artifact) -> (r: Properties)
    ensures
        r@ == seeded_properties(a@),
{
    let mut r = Properties::new();
    r.insert(String::from_str("project.groupId"), a.group_id.0.clone());
    r.insert(String::from_str("project.artifactId"), a.artifact_id.0.clone());
    match &a.version {
        Some(v) => r.insert(String::from_str("project.version"), v.0.clone()),
        None => {},
    }
    assert(r@ =~= seeded_properties(a@));
    r
}


// ---------------------------------------------------------------------------------------------
// Reading back what a serializer writes
proof fn lemma_pom_shift(t: Seq<TokenView>, b: Seq<TokenView>, j: int, s: PomState)
    requires
        0 <= j <= b.len(),
    ensures
        pom_run(t + b, t.len() + j, s) == pom_run(b, j, s),
    decreases b.len() - j,
{
    if j < b.len() {
        assert((t + b)[t.len() + j] == b[j]);
        match pom_step(s, b[j]) {
            Some(s2) => lemma_pom_shift(t, b, j + 1, s2),
            None => {},
        }
    }
}

proof fn lemma_pom_concat_from(a: Seq<TokenView>, b: Seq<TokenView>, i: int, s: PomState)
    requires
        0 <= i <= a.len(),
    ensures
        pom_run(a + b, i, s) == match pom_run(a, i, s) {
            Some(s2) => pom_run(b, 0, s2),
            None => None,
        },
    decreases a.len() - i,
{
    if i == a.len() {
        lemma_pom_shift(a, b, 0, s);
    } else {
        assert((a + b)[i] == a[i]);
        match pom_step(s, a[i]) {
            Some(s2) => lemma_pom_concat_from(a, b, i + 1, s2),
            None => {},
        }
    }
}

/// Reading `a + b` reads `a`, then `b` from where `a` left off.
proof fn lemma_pom_concat(a: Seq<TokenView>, b: Seq<TokenView>, s: PomState)
    ensures
        pom_run(a + b, 0, s) == match pom_run(a, 0, s) {
            Some(s2) => pom_run(b, 0, s2),
            None => None,
        },
{
    lemma_pom_concat_from(a, b, 0, s);
}

proof fn lemma_pom_one(tok: TokenView, s: PomState)
    ensures
        pom_run(seq![tok], 0, s) == pom_step(s, tok),
{
    match pom_step(s, tok) {
        Some(s2) => {
            assert(pom_run(seq![tok], 1, s2) == Some(s2));
        },
        None => {},
    }
}

proof fn lemma_pom_empty(s: PomState)
    ensures
        pom_run(Seq::empty(), 0, s) == Some(s),
{
}

proof fn lemma_pom_leaf(name: Seq<char>, v: Seq<char>, s: PomState)
    ensures
        pom_run(leaf(name, v), 0, s) == ({
            let s1 = pom_start(PomState { path: s.path.push(element_tag(name)), text: Seq::empty(), ..s }, name);
            match pom_end(PomState { text: v, ..s1 }) {
                Some(s3) => Some(PomState { path: pop_path(s3.path), text: Seq::empty(), ..s3 }),
                None => None,
            }
        }),
{
    let t = leaf(name, v);
    assert(t == seq![TokenView::Start(name)] + seq![TokenView::Text(v), TokenView::End(name)]);
    assert(seq![TokenView::Text(v), TokenView::End(name)] == seq![TokenView::Text(v)] + seq![TokenView::End(name)]);
    lemma_pom_concat(seq![TokenView::Start(name)], seq![TokenView::Text(v), TokenView::End(name)], s);
    lemma_pom_one(TokenView::Start(name), s);
    let s1 = pom_start(PomState { path: s.path.push(element_tag(name)), text: Seq::empty(), ..s }, name);
    lemma_pom_concat(seq![TokenView::Text(v)], seq![TokenView::End(name)], s1);
    lemma_pom_one(TokenView::Text(v), s1);
    assert(s1.text + v =~= v);
    lemma_pom_one(TokenView::End(name), PomState { text: v, ..s1 });
}

proof fn lemma_pom_block(name: Seq<char>, inner: Seq<TokenView>, s: PomState)
    ensures
        pom_run(block(name, inner), 0, s) == ({
            let s1 = pom_start(PomState { path: s.path.push(element_tag(name)), text: Seq::empty(), ..s }, name);
            match pom_run(inner, 0, s1) {
                Some(s2) => pom_step(s2, TokenView::End(name)),
                None => None,
            }
        }),
{
    let start = seq![TokenView::Start(name)];
    let end = seq![TokenView::End(name)];
    lemma_pom_concat(start + inner, end, s);
    lemma_pom_concat(start, inner, s);
    lemma_pom_one(TokenView::Start(name), s);
    let s1 = pom_start(PomState { path: s.path.push(element_tag(name)), text: Seq::empty(), ..s }, name);
    match pom_run(inner, 0, s1) {
        Some(s2) => lemma_pom_one(TokenView::End(name), s2),
        None => {},
    }
}

/// A leaf whose effect on a draft is `set_field`, at the position `base` of the draft.
proof fn lemma_pom_field(name: Seq<char>, tag: Tag, v: Option<Seq<char>>, s: PomState)
    requires
        element_tag(name) == tag,
        s.text == Seq::<char>::empty(),
        ({
            let p = s.path.push(tag);
            ||| (p.len() == 2 && own_field(tag))
            ||| (p.len() == 3 && p[1] == Tag::Parent && parent_field(tag))
            ||| ((in_dependency(p, false, 1) || in_dependency(p, true, 1)) && dependency_field(tag))
        }),
    ensures
        pom_run(opt_leaf(name, v), 0, s) == Some(
            match v {
                Some(x) => {
                    let p = s.path.push(tag);
                    if p.len() == 2 {
                        PomState { own: set_field(s.own, tag, x), ..s }
                    } else if p.len() == 3 && p[1] == Tag::Parent {
                        PomState { parent_draft: set_field(s.parent_draft, tag, x), ..s }
                    } else {
                        PomState { dep: set_field(s.dep, tag, x), ..s }
                    }
                },
                None => s,
            },
        ),
{
    match v {
        Some(x) => {
            lemma_pom_leaf(name, x, s);
            let p = s.path.push(tag);
            assert(p.last() == tag);
            assert(pop_path(p) =~= s.path);
        },
        None => lemma_pom_empty(s),
    }
}

/// One `dependency` element.
pub open spec fn dependency_tokens(d: DependencyView) -> Seq<TokenView> {
    block(
        "dependency"@,
        leaf("groupId"@, d.artifact.group_id) + leaf("artifactId"@, d.artifact.artifact_id) + opt_leaf(
            "version"@,
            d.artifact.version,
        ) + opt_leaf("type"@, d.artifact.extension) + opt_leaf("classifier"@, d.artifact.classifier) + opt_leaf(
            "scope"@,
            d.scope,
        ),
    )
}

pub open spec fn dependency_list_tokens(ds: Seq<DependencyView>) -> Seq<TokenView>
    decreases ds.len(),
{
    if ds.len() == 0 {
        Seq::empty()
    } else {
        dependency_list_tokens(ds.drop_last()) + dependency_tokens(ds.last())
    }
}

pub open spec fn list_path(managed: bool) -> Seq<Tag> {
    if managed {
        seq![Tag::Unknown, Tag::DependencyManagement, Tag::Dependencies]
    } else {
        seq![Tag::Unknown, Tag::Dependencies]
    }
}

/// The parts of the state that a dependency element leaves as it found them.
pub open spec fn same_but_lists(s: PomState, t: PomState) -> bool {
    &&& t.path == s.path
    &&& t.text == s.text
    &&& t.own == s.own
    &&& t.parent == s.parent
    &&& t.properties == s.properties
}

proof fn lemma_pom_dependency(d: DependencyView, managed: bool, s: PomState)
    requires
        s.path == list_path(managed),
        s.text == Seq::<char>::empty(),
    ensures
        pom_run(dependency_tokens(d), 0, s) matches Some(t) && same_but_lists(s, t) && (if managed {
            t.managed == s.managed.push(d) && t.dependencies == s.dependencies
        } else {
            t.dependencies == s.dependencies.push(d) && t.managed == s.managed
        }),
{
    lemma_tag_names();
    let g = leaf("groupId"@, d.artifact.group_id);
    let a = leaf("artifactId"@, d.artifact.artifact_id);
    let v = opt_leaf("version"@, d.artifact.version);
    let x = opt_leaf("type"@, d.artifact.extension);
    let c = opt_leaf("classifier"@, d.artifact.classifier);
    let sc = opt_leaf("scope"@, d.scope);
    lemma_pom_block("dependency"@, g + a + v + x + c + sc, s);
    let s1 = pom_start(PomState { path: s.path.push(Tag::Dependency), text: Seq::empty(), ..s }, "dependency"@);
    assert(s1.dep == empty_draft());
    assert(opt_leaf("groupId"@, Some(d.artifact.group_id)) == g);
    assert(opt_leaf("artifactId"@, Some(d.artifact.artifact_id)) == a);
    lemma_pom_field("groupId"@, Tag::GroupId, Some(d.artifact.group_id), s1);
    let s2 = pom_run(g, 0, s1)->0;
    lemma_pom_field("artifactId"@, Tag::ArtifactId, Some(d.artifact.artifact_id), s2);
    let s3 = pom_run(a, 0, s2)->0;
    lemma_pom_field("version"@, Tag::Version, d.artifact.version, s3);
    let s4 = pom_run(v, 0, s3)->0;
    lemma_pom_field("type"@, Tag::Type, d.artifact.extension, s4);
    let s5 = pom_run(x, 0, s4)->0;
    lemma_pom_field("classifier"@, Tag::Classifier, d.artifact.classifier, s5);
    let s6 = pom_run(c, 0, s5)->0;
    lemma_pom_field("scope"@, Tag::Scope, d.scope, s6);
    let s7 = pom_run(sc, 0, s6)->0;
    assert(s7.dep == Draft {
        group_id: Some(d.artifact.group_id),
        artifact_id: Some(d.artifact.artifact_id),
        version: d.artifact.version,
        extension: d.artifact.extension,
        classifier: d.artifact.classifier,
        scope: d.scope,
    });
    assert(s7.path == s1.path);
    assert(pop_path(s7.path) =~= s.path);
    lemma_pom_concat(g + a + v + x + c, sc, s1);
    lemma_pom_concat(g + a + v + x, c, s1);
    lemma_pom_concat(g + a + v, x, s1);
    lemma_pom_concat(g + a, v, s1);
    lemma_pom_concat(g, a, s1);
}

proof fn lemma_pom_dependency_list(ds: Seq<DependencyView>, managed: bool, s: PomState)
    requires
        s.path == list_path(managed),
        s.text == Seq::<char>::empty(),
    ensures
        pom_run(dependency_list_tokens(ds), 0, s) matches Some(t) && same_but_lists(s, t) && (if managed {
            t.managed == s.managed + ds && t.dependencies == s.dependencies
        } else {
            t.dependencies == s.dependencies + ds && t.managed == s.managed
        }),
    decreases ds.len(),
{
    if ds.len() == 0 {
        lemma_pom_empty(s);
        assert(s.managed + ds =~= s.managed);
        assert(s.dependencies + ds =~= s.dependencies);
    } else {
        let pre = ds.drop_last();
        lemma_pom_dependency_list(pre, managed, s);
        lemma_pom_concat(dependency_list_tokens(pre), dependency_tokens(ds.last()), s);
        let s2 = pom_run(dependency_list_tokens(pre), 0, s)->0;
        lemma_pom_dependency(ds.last(), managed, s2);
        assert((s.managed + pre).push(ds.last()) =~= s.managed + ds);
        assert((s.dependencies + pre).push(ds.last()) =~= s.dependencies + ds);
    }
}

pub open spec fn property_tokens(ps: PropertyList) -> Seq<TokenView>
    decreases ps.len(),
{
    if ps.len() == 0 {
        Seq::empty()
    } else {
        property_tokens(ps.drop_last()) + leaf(ps.last().0, ps.last().1)
    }
}

proof fn lemma_pom_properties(ps: PropertyList, s: PomState)
    requires
        s.path == seq![Tag::Unknown, Tag::Properties],
        s.text == Seq::<char>::empty(),
    ensures
        pom_run(property_tokens(ps), 0, s) matches Some(t) && t == (PomState {
            property: t.property,
            properties: s.properties + ps,
            ..s
        }),
    decreases ps.len(),
{
    if ps.len() == 0 {
        lemma_pom_empty(s);
        assert(s.properties + ps =~= s.properties);
    } else {
        let pre = ps.drop_last();
        lemma_pom_properties(pre, s);
        lemma_pom_concat(property_tokens(pre), leaf(ps.last().0, ps.last().1), s);
        let s2 = pom_run(property_tokens(pre), 0, s)->0;
        lemma_pom_leaf(ps.last().0, ps.last().1, s2);
        let p = s2.path.push(element_tag(ps.last().0));
        assert(p.len() == 3 && p[1] == Tag::Properties);
        assert(pop_path(p) =~= s.path);
        assert((s.properties + pre).push(ps.last()) =~= s.properties + ps);
    }
}

/// The fields of the project's own coordinate.
pub open spec fn own_tokens(c: Coordinate) -> Seq<TokenView> {
    leaf("groupId"@, c.group_id) + leaf("artifactId"@, c.artifact_id) + opt_leaf("version"@, c.version) + opt_leaf(
        "packaging"@,
        c.extension,
    ) + opt_leaf("classifier"@, c.classifier)
}

pub open spec fn parent_tokens(o: Option<Coordinate>) -> Seq<TokenView> {
    match o {
        Some(c) => block(
            "parent"@,
            leaf("groupId"@, c.group_id) + leaf("artifactId"@, c.artifact_id) + opt_leaf("version"@, c.version),
        ),
        None => Seq::empty(),
    }
}

/// What a serializer writes for `p`: the project's coordinate, its parent, its properties, its
/// managed dependencies and its dependencies, each in its element.
pub open spec fn project_tokens(p: ProjectView) -> Seq<TokenView> {
    block(
        "project"@,
        own_tokens(p.artifact) + parent_tokens(p.parent) + block("properties"@, property_tokens(p.properties)) + block(
            "dependencyManagement"@,
            block("dependencies"@, dependency_list_tokens(p.managed)),
        ) + block("dependencies"@, dependency_list_tokens(p.dependencies)),
    )
}


proof fn lemma_pom_own(c: Coordinate, s: PomState)
    requires
        s.path == seq![Tag::Unknown],
        s.text == Seq::<char>::empty(),
        s.own == empty_draft(),
    ensures
        pom_run(own_tokens(c), 0, s) == Some(
            PomState {
                own: Draft {
                    group_id: Some(c.group_id),
                    artifact_id: Some(c.artifact_id),
                    version: c.version,
                    extension: c.extension,
                    classifier: c.classifier,
                    scope: None,
                },
                ..s
            },
        ),
{
    lemma_tag_names();
    let g = leaf("groupId"@, c.group_id);
    let a = leaf("artifactId"@, c.artifact_id);
    let v = opt_leaf("version"@, c.version);
    let x = opt_leaf("packaging"@, c.extension);
    let k = opt_leaf("classifier"@, c.classifier);
    assert(opt_leaf("groupId"@, Some(c.group_id)) == g);
    assert(opt_leaf("artifactId"@, Some(c.artifact_id)) == a);
    lemma_pom_field("groupId"@, Tag::GroupId, Some(c.group_id), s);
    let s2 = pom_run(g, 0, s)->0;
    lemma_pom_field("artifactId"@, Tag::ArtifactId, Some(c.artifact_id), s2);
    let s3 = pom_run(a, 0, s2)->0;
    lemma_pom_field("version"@, Tag::Version, c.version, s3);
    let s4 = pom_run(v, 0, s3)->0;
    lemma_pom_field("packaging"@, Tag::Packaging, c.extension, s4);
    let s5 = pom_run(x, 0, s4)->0;
    lemma_pom_field("classifier"@, Tag::Classifier, c.classifier, s5);
    lemma_pom_concat(g + a + v + x, k, s);
    lemma_pom_concat(g + a + v, x, s);
    lemma_pom_concat(g + a, v, s);
    lemma_pom_concat(g, a, s);
}

proof fn lemma_pom_parent(o: Option<Coordinate>, s: PomState)
    requires
        s.path == seq![Tag::Unknown],
        s.text == Seq::<char>::empty(),
        s.parent is None,
        o matches Some(c) ==> c.version is Some && c.extension is None && c.classifier is None,
    ensures
        pom_run(parent_tokens(o), 0, s) matches Some(t) && t == (PomState {
            parent: o,
            parent_draft: t.parent_draft,
            ..s
        }),
{
    lemma_tag_names();
    match o {
        Some(c) => {
            let g = leaf("groupId"@, c.group_id);
            let a = leaf("artifactId"@, c.artifact_id);
            let v = opt_leaf("version"@, c.version);
            lemma_pom_block("parent"@, g + a + v, s);
            let s1 = pom_start(PomState { path: s.path.push(Tag::Parent), text: Seq::empty(), ..s }, "parent"@);
            assert(s1.path == seq![Tag::Unknown, Tag::Parent]);
            assert(s1.parent_draft == empty_draft());
            assert(opt_leaf("groupId"@, Some(c.group_id)) == g);
            assert(opt_leaf("artifactId"@, Some(c.artifact_id)) == a);
            lemma_pom_field("groupId"@, Tag::GroupId, Some(c.group_id), s1);
            let s2 = pom_run(g, 0, s1)->0;
            lemma_pom_field("artifactId"@, Tag::ArtifactId, Some(c.artifact_id), s2);
            let s3 = pom_run(a, 0, s2)->0;
            lemma_pom_field("version"@, Tag::Version, c.version, s3);
            let s4 = pom_run(v, 0, s3)->0;
            lemma_pom_concat(g + a, v, s1);
            lemma_pom_concat(g, a, s1);
            assert(s4.path == s1.path);
            assert(draft_coordinate(s4.parent_draft) == Some(c));
            assert(pop_path(s4.path) =~= s.path);
        },
        None => lemma_pom_empty(s),
    }
}

/// Reading the tokens that a serializer writes for a project record gives the record back, with
/// the well-known `project.*` properties in front of its own. The record's parent names a
/// version and no extension or classifier, and a project without a version has no parent.
pub proof fn lemma_project_round_trip(p: ProjectView)
    requires
        p.parent matches Some(c) ==> c.version is Some && c.extension is None && c.classifier is None,
        p.artifact.version is None ==> p.parent is None,
    ensures
        project_from_tokens(project_tokens(p)) == Some(
            ProjectView { properties: seeded_properties(p.artifact) + p.properties, ..p },
        ),
{
    lemma_tag_names();
    let s0 = pom_initial();
    let own = own_tokens(p.artifact);
    let par = parent_tokens(p.parent);
    let props = block("properties"@, property_tokens(p.properties));
    let dm = block("dependencyManagement"@, block("dependencies"@, dependency_list_tokens(p.managed)));
    let deps = block("dependencies"@, dependency_list_tokens(p.dependencies));
    lemma_pom_block("project"@, own + par + props + dm + deps, s0);
    let s1 = pom_start(PomState { path: s0.path.push(Tag::Unknown), text: Seq::empty(), ..s0 }, "project"@);
    assert(s1.path == seq![Tag::Unknown]);
    lemma_pom_own(p.artifact, s1);
    let s2 = pom_run(own, 0, s1)->0;
    lemma_pom_parent(p.parent, s2);
    let s3 = pom_run(par, 0, s2)->0;
    // properties
    lemma_pom_block("properties"@, property_tokens(p.properties), s3);
    let s3a = pom_start(PomState { path: s3.path.push(Tag::Properties), text: Seq::empty(), ..s3 }, "properties"@);
    assert(s3a.path == seq![Tag::Unknown, Tag::Properties]);
    lemma_pom_properties(p.properties, s3a);
    let s3b = pom_run(property_tokens(p.properties), 0, s3a)->0;
    assert(Seq::<(Seq<char>, Seq<char>)>::empty() + p.properties =~= p.properties);
    assert(pop_path(s3b.path) =~= s3.path);
    let s4 = pom_run(props, 0, s3)->0;
    assert(s4.properties == p.properties);
    // managed dependencies
    lemma_pom_block("dependencyManagement"@, block("dependencies"@, dependency_list_tokens(p.managed)), s4);
    let s4a = pom_start(PomState { path: s4.path.push(Tag::DependencyManagement), text: Seq::empty(), ..s4 }, "dependencyManagement"@);
    assert(s4a.path == seq![Tag::Unknown, Tag::DependencyManagement]);
    lemma_pom_block("dependencies"@, dependency_list_tokens(p.managed), s4a);
    let s4b = pom_start(PomState { path: s4a.path.push(Tag::Dependencies), text: Seq::empty(), ..s4a }, "dependencies"@);
    assert(s4b.path == list_path(true));
    lemma_pom_dependency_list(p.managed, true, s4b);
    let s4c = pom_run(dependency_list_tokens(p.managed), 0, s4b)->0;
    assert(Seq::<DependencyView>::empty() + p.managed =~= p.managed);
    assert(pop_path(s4c.path) =~= s4a.path);
    let s4d = pom_run(block("dependencies"@, dependency_list_tokens(p.managed)), 0, s4a)->0;
    assert(pop_path(s4d.path) =~= s4.path);
    let s5 = pom_run(dm, 0, s4)->0;
    assert(s5.managed == p.managed);
    // dependencies
    lemma_pom_block("dependencies"@, dependency_list_tokens(p.dependencies), s5);
    let s5a = pom_start(PomState { path: s5.path.push(Tag::Dependencies), text: Seq::empty(), ..s5 }, "dependencies"@);
    assert(s5a.path == list_path(false));
    lemma_pom_dependency_list(p.dependencies, false, s5a);
    let s5b = pom_run(dependency_list_tokens(p.dependencies), 0, s5a)->0;
    assert(Seq::<DependencyView>::empty() + p.dependencies =~= p.dependencies);
    assert(pop_path(s5b.path) =~= s5.path);
    let s6 = pom_run(deps, 0, s5)->0;
    assert(s6.dependencies == p.dependencies);
    assert(s6.managed == p.managed);
    assert(s6.properties == p.properties);
    assert(s6.parent == p.parent);
    assert(draft_coordinate(s6.own) == Some(p.artifact));
    lemma_pom_concat(own + par + props + dm, deps, s1);
    lemma_pom_concat(own + par + props, dm, s1);
    lemma_pom_concat(own + par, props, s1);
    lemma_pom_concat(own, par, s1);
    assert(pop_path(s6.path) =~= Seq::<Tag>::empty());
}

} // verus!
