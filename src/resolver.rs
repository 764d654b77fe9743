//! The resolver's decisions, apart from the fetching that carries them out: property scopes and
//! `${name}` substitution, bill-of-materials import, dependency collection, version resolution
//! against repository metadata, and the URLs and file names that a download needs.
use vstd::prelude::*;

use crate::artifact::{
    artifact_dir, effective_extension, opt_view, Artifact, Coordinate, PartialArtifact,
    ResolvedArtifact,
};
use crate::metadata::{int_text, int_to_text, or_empty, SnapshotVersion, SnapshotVersionView, SnapshotView, VersionedMetadata, VersioningView};
use crate::project::{
    deps_view, lookup, pom_initial, pom_run, project_from_tokens, Dependency, DependencyView, Project, ProjectView,
    Properties, PropertyList,
};
use crate::text::{ends_with, free_of, same_text, text_ends_with};
use crate::xml::TokenView;
use crate::{
    is_latest_version, is_meta_version, is_release_version, is_snapshot_version, trim_slashes, without_trailing_slashes,
    ArtifactId, Classifier, GroupId, MavenError, Repository, Version,
};

verus! {

/// The failures of resolution: those of the library as a whole.
pub type ResolveError = MavenError;

// ---------------------------------------------------------------------------------------------
// Property substitution
/// The index of the first `}` in `s` at or after `i`.
pub open spec fn close_index(s: Seq<char>, i: int) -> Option<int>
    decreases s.len() - i,
{
    if i < 0 || i >= s.len() {
        None
    } else if s[i] == '}' {
        Some(i)
    } else {
        close_index(s, i + 1)
    }
}

/// The reference `${name}` that starts at `i`, where `name` is set in `props`: the index of its
/// closing `}` and the value.
pub open spec fn reference_at(s: Seq<char>, i: int, props: PropertyList) -> Option<(int, Seq<char>)> {
    if 0 <= i && i + 1 < s.len() && s[i] == '$' && s[i + 1] == '{' {
        match close_index(s, i + 2) {
            Some(j) => match lookup(props, s.subrange(i + 2, j)) {
                Some(v) => Some((j, v)),
                None => None,
            },
            None => None,
        }
    } else {
        None
    }
}

proof fn lemma_close_index(s: Seq<char>, i: int)
    ensures
        close_index(s, i) matches Some(j) ==> i <= j < s.len() && s[j] == '}',
    decreases s.len() - i,
{
    if 0 <= i < s.len() && s[i] != '}' {
        lemma_close_index(s, i + 1);
    }
}

/// `s` from `i` on, with every reference to a set property replaced by its value. Values are not
/// expanded again, and references to unset properties stay as they are.
pub open spec fn expand_from(s: Seq<char>, i: int, props: PropertyList) -> Seq<char>
    decreases s.len() - i,
{
    if i < 0 || i >= s.len() {
        Seq::empty()
    } else {
        match reference_at(s, i, props) {
            Some((j, v)) => if i < j < s.len() {
                v + expand_from(s, j + 1, props)
            } else {
                Seq::empty()
            },
            None => seq![s[i]] + expand_from(s, i + 1, props),
        }
    }
}

pub open spec fn expand(s: Seq<char>, props: PropertyList) -> Seq<char> {
    expand_from(s, 0, props)
}

fn find_close(s: &str, n: usize, i: usize) -> (r: Option<usize>)
    requires
        n == s@.len(),
        i <= n,
    ensures
        match r {
            Some(j) => close_index(s@, i as int) == Some(j as int),
            None => close_index(s@, i as int) is None,
        },
{
    let mut k = i;
    while k < n
        invariant
            n == s@.len(),
            i <= k <= n,
            close_index(s@, k as int) == close_index(s@, i as int),
        decreases n - k,
    {
        if s.get_char(k) == '}' {
            return Some(k);
        }
        k = k + 1;
    }
    None
}

/// `s` with every `${name}` whose `name` is set in `props` replaced by its value.
pub fn substitute(s: &str, props: &Properties) -> (r: String)
    ensures
        r@ == expand(s@, props@),
{
    let n = s.unicode_len();
    let mut out = String::new();
    let mut i: usize = 0;
    while i < n
        invariant
            n == s@.len(),
            i <= n,
            out@ + expand_from(s@, i as int, props@) == expand(s@, props@),
        decreases n - i,
    {
        let ghost before = out@;
        let mut replaced = false;
        if i + 1 < n && s.get_char(i) == '$' && s.get_char(i + 1) == '{' {
            match find_close(s, n, i + 2) {
                Some(j) => {
                    proof {
                        lemma_close_index(s@, i + 2);
                    }
                    let name = s.substring_char(i + 2, j);
                    match props.get(name) {
                        Some(v) => {
                            out.append(v.as_str());
                            assert(out@ + expand_from(s@, j + 1, props@) == before + expand_from(s@, i as int, props@)) by {
                                assert(v@ + expand_from(s@, j + 1, props@) == expand_from(s@, i as int, props@));
                            }
                            i = j + 1;
                            replaced = true;
                        },
                        None => {},
                    }
                },
                None => {},
            }
        }
        if !replaced {
            assert(reference_at(s@, i as int, props@) is None);
            out.append(s.substring_char(i, i + 1));
            assert(s@.subrange(i as int, i + 1) =~= seq![s@[i as int]]);
            i = i + 1;
        }
    }
    out
}

fn substitute_opt(o: &Option<String>, props: &Properties) -> (r: Option<String>)
    ensures
        opt_view(r) == expand_opt(opt_view(*o), props@),
{
    match o {
        Some(s) => Some(substitute(s.as_str(), props)),
        None => None,
    }
}

pub open spec fn expand_opt(o: Option<Seq<char>>, props: PropertyList) -> Option<Seq<char>> {
    match o {
        Some(s) => Some(expand(s, props)),
        None => None,
    }
}

/// A coordinate with the substitution applied to each of its fields.
pub open spec fn expand_coordinate(c: Coordinate, props: PropertyList) -> Coordinate {
    Coordinate {
        group_id: expand(c.group_id, props),
        artifact_id: expand(c.artifact_id, props),
        version: expand_opt(c.version, props),
        extension: expand_opt(c.extension, props),
        classifier: expand_opt(c.classifier, props),
    }
}

/// `artifact` with every property reference in its fields replaced.
pub fn substitute_artifact(artifact: &Artifact, props: &Properties) -> (r: Artifact)
    ensures
        r@ == expand_coordinate(artifact@, props@),
{
    Artifact {
        group_id: GroupId(substitute(artifact.group_id.as_str(), props)),
        artifact_id: ArtifactId(substitute(artifact.artifact_id.as_str(), props)),
        version: match &artifact.version {
            Some(v) => Some(Version(substitute(v.as_str(), props))),
            None => None,
        },
        extension: substitute_opt(&artifact.extension, props),
        classifier: match &artifact.classifier {
            Some(c) => Some(Classifier(substitute(c.as_str(), props))),
            None => None,
        },
    }
}

// ---------------------------------------------------------------------------------------------
// Property scopes
/// The properties of a chain of projects, the first one's first.
pub open spec fn chain_properties(chain: Seq<ProjectView>) -> PropertyList
    decreases chain.len(),
{
    if chain.len() == 0 {
        Seq::empty()
    } else {
        chain_properties(chain.drop_last()) + chain.last().properties
    }
}

pub open spec fn projects_view(ps: Seq<Project>) -> Seq<ProjectView> {
    ps.map_values(|p: Project| p@)
}

/// The effective property scope of `project` under `ancestors`, listed from the root ancestor
/// down to the immediate parent: the ancestors' properties in that order, then the project's own,
/// a later entry overriding an earlier one.
pub fn effective_scope(ancestors: &Vec<Project>, project: &Project) -> (r: Properties)
    ensures
        r@ == chain_properties(projects_view(ancestors@)) + project.properties@,
{
    let mut r = Properties::new();
    let mut i: usize = 0;
    assert(projects_view(ancestors@).subrange(0, 0) =~= Seq::<ProjectView>::empty());
    while i < ancestors.len()
        invariant
            i <= ancestors@.len(),
            r@ == chain_properties(projects_view(ancestors@).subrange(0, i as int)),
        decreases ancestors@.len() - i,
    {
        r.extend(&ancestors[i].properties);
        assert(projects_view(ancestors@).subrange(0, i + 1).drop_last() =~= projects_view(ancestors@).subrange(
            0,
            i as int,
        ));
        i = i + 1;
    }
    assert(projects_view(ancestors@).subrange(0, ancestors@.len() as int) =~= projects_view(ancestors@));
    r.extend(&project.properties);
    r
}

/// In `a + b` an entry of `b` wins over any of `a`.
pub proof fn lemma_lookup_concat(a: PropertyList, b: PropertyList, k: Seq<char>)
    ensures
        lookup(a + b, k) == match lookup(b, k) {
            Some(v) => Some(v),
            None => lookup(a, k),
        },
    decreases b.len(),
{
    if b.len() == 0 {
        assert(a + b =~= a);
    } else {
        assert((a + b).drop_last() =~= a + b.drop_last());
        assert((a + b).last() == b.last());
        lemma_lookup_concat(a, b.drop_last(), k);
    }
}

proof fn lemma_close_at(s: Seq<char>, i: int, j: int)
    requires
        0 <= i <= j < s.len(),
        s[j] == '}',
        forall|k: int| i <= k < j ==> s[k] != '}',
    ensures
        close_index(s, i) == Some(j),
    decreases j - i,
{
    if i < j {
        lemma_close_at(s, i + 1, j);
    }
}

/// The text of a reference to `name`.
pub open spec fn reference_text(name: Seq<char>) -> Seq<char> {
    seq!['$', '{'] + name + seq!['}']
}

/// A reference to a set property, alone in a string, expands to the property's value.
pub proof fn lemma_expand_reference(name: Seq<char>, props: PropertyList)
    requires
        free_of(name, '}'),
        lookup(props, name) is Some,
    ensures
        expand(reference_text(name), props) == lookup(props, name)->0,
{
    let s = reference_text(name);
    let j = name.len() as int + 2;
    assert forall|k: int| 2 <= k < j implies s[k] != '}' by {
        assert(s[k] == name[k - 2]);
    }
    lemma_close_at(s, 2, j);
    assert(s.subrange(2, j) =~= name);
    assert(expand_from(s, j + 1, props) == Seq::<char>::empty());
    assert(lookup(props, name)->0 + Seq::<char>::empty() =~= lookup(props, name)->0);
}

/// In the effective scope of a project read from a descriptor that sets no `project.version`
/// property of its own, `${project.version}` expands to the project's version: its own, or its
/// parent's where it gives none.
pub proof fn lemma_project_version_in_scope(t: Seq<TokenView>, ancestors: Seq<ProjectView>)
    requires
        pom_run(t, 0, pom_initial()) matches Some(s) && lookup(s.properties, "project.version"@) is None,
        project_from_tokens(t) matches Some(p) && p.artifact.version is Some,
    ensures
        ({
            let s = pom_run(t, 0, pom_initial())->0;
            let p = project_from_tokens(t)->0;
            &&& p.artifact.version == if s.own.version is Some {
                s.own.version
            } else {
                s.parent->0.version
            }
            &&& expand(reference_text("project.version"@), chain_properties(ancestors) + p.properties)
                == p.artifact.version->0
        }),
{
    reveal_strlit("project.version");
    reveal_strlit("project.groupId");
    reveal_strlit("project.artifactId");
    let s = pom_run(t, 0, pom_initial())->0;
    let p = project_from_tokens(t)->0;
    let v = p.artifact.version->0;
    let seeds = crate::project::seeded_properties(p.artifact);
    assert(seeds == seq![("project.groupId"@, p.artifact.group_id), ("project.artifactId"@, p.artifact.artifact_id)]
        + seq![("project.version"@, v)]);
    assert(seeds.last() == ("project.version"@, v));
    assert(lookup(seeds, "project.version"@) == Some(v));
    lemma_lookup_concat(seeds, s.properties, "project.version"@);
    lemma_lookup_concat(chain_properties(ancestors), p.properties, "project.version"@);
    assert(free_of("project.version"@, '}'));
    lemma_expand_reference("project.version"@, chain_properties(ancestors) + p.properties);
}

// ---------------------------------------------------------------------------------------------
// Bills of materials and dependency collection
pub open spec fn coords_view(v: Seq<Artifact>) -> Seq<Coordinate> {
    v.map_values(|a: Artifact| a@)
}

/// A managed dependency that imports a bill of materials: scope `import`, extension `pom`.
pub open spec fn is_import(d: DependencyView) -> bool {
    d.scope == Some("import"@) && effective_extension(d.artifact.extension) == "pom"@
}

/// The coordinates of the bills of materials that `ds` imports, in order, with `props`
/// substituted.
pub open spec fn imports_of(ds: Seq<DependencyView>, props: PropertyList) -> Seq<Coordinate>
    decreases ds.len(),
{
    if ds.len() == 0 {
        Seq::empty()
    } else {
        let r = imports_of(ds.drop_last(), props);
        if is_import(ds.last()) {
            r.push(expand_coordinate(ds.last().artifact, props))
        } else {
            r
        }
    }
}

/// The imports of a chain of projects, the first one's first.
pub open spec fn chain_imports(chain: Seq<ProjectView>, props: PropertyList) -> Seq<Coordinate>
    decreases chain.len(),
{
    if chain.len() == 0 {
        Seq::empty()
    } else {
        chain_imports(chain.drop_last(), props) + imports_of(chain.last().managed, props)
    }
}

fn is_import_entry(d: &Dependency) -> (r: bool)
    ensures
        r == is_import(d@),
{
    proof {
        reveal_strlit("jar");
        reveal_strlit("pom");
    }
    let scope_ok = match &d.scope {
        Some(s) => same_text(s.as_str(), "import"),
        None => false,
    };
    let pom = match &d.artifact.extension {
        Some(e) => same_text(e.as_str(), "pom"),
        None => false,
    };
    assert("jar"@[0] != "pom"@[0]);
    scope_ok && pom
}

fn push_imports(out: &mut Vec<Artifact>, ds: &Vec<Dependency>, props: &Properties)
    ensures
        coords_view(final(out)@) == coords_view(old(out)@) + imports_of(deps_view(ds@), props@),
{
    let ghost start = coords_view(out@);
    let mut i: usize = 0;
    assert(deps_view(ds@).subrange(0, 0) =~= Seq::<DependencyView>::empty());
    assert(start + Seq::<Coordinate>::empty() =~= start);
    while i < ds.len()
        invariant
            i <= ds@.len(),
            coords_view(out@) == start + imports_of(deps_view(ds@).subrange(0, i as int), props@),
        decreases ds@.len() - i,
    {
        let ghost pre = deps_view(ds@).subrange(0, i as int);
        assert(deps_view(ds@).subrange(0, i + 1).drop_last() =~= pre);
        assert(deps_view(ds@).subrange(0, i + 1).last() == ds@[i as int]@);
        if is_import_entry(&ds[i]) {
            let a = substitute_artifact(&ds[i].artifact, props);
            let ghost before = coords_view(out@);
            let ghost av = a@;
            out.push(a);
            assert(coords_view(out@) =~= before.push(av));
        }
        i = i + 1;
    }
    assert(deps_view(ds@).subrange(0, ds@.len() as int) =~= deps_view(ds@));
}

/// The bills of materials that `project` and its `ancestors` (root first) import: the ancestors'
/// imports in order, then the project's, each coordinate with the project's effective scope
/// substituted.
pub fn bom_imports(ancestors: &Vec<Project>, project: &Project) -> (r: Vec<Artifact>)
    ensures
        coords_view(r@) == chain_imports(
            projects_view(ancestors@).push(project@),
            chain_properties(projects_view(ancestors@)) + project.properties@,
        ),
{
    let scope = effective_scope(ancestors, project);
    let ghost props = scope@;
    let ghost chain = projects_view(ancestors@).push(project@);
    let mut out: Vec<Artifact> = Vec::new();
    let mut i: usize = 0;
    assert(coords_view(out@) =~= Seq::<Coordinate>::empty());
    assert(chain.subrange(0, 0) =~= Seq::<ProjectView>::empty());
    while i < ancestors.len()
        invariant
            i <= ancestors@.len(),
            chain == projects_view(ancestors@).push(project@),
            props == scope@,
            coords_view(out@) == chain_imports(chain.subrange(0, i as int), props),
        decreases ancestors@.len() - i,
    {
        push_imports(&mut out, &ancestors[i].dependency_management.dependencies, &scope);
        assert(chain.subrange(0, i + 1).drop_last() =~= chain.subrange(0, i as int));
        assert(chain.subrange(0, i + 1).last() == ancestors@[i as int]@);
        i = i + 1;
    }
    push_imports(&mut out, &project.dependency_management.dependencies, &scope);
    assert(chain.drop_last() =~= chain.subrange(0, ancestors@.len() as int));
    out
}

/// The managed coordinates of one bill of materials, with its own properties substituted.
pub open spec fn managed_of(ds: Seq<DependencyView>, props: PropertyList) -> Seq<Coordinate> {
    ds.map_values(|d: DependencyView| expand_coordinate(d.artifact, props))
}

/// The managed coordinates of several bills of materials, in the order they were imported.
pub open spec fn bom_entries(boms: Seq<ProjectView>) -> Seq<Coordinate>
    decreases boms.len(),
{
    if boms.len() == 0 {
        Seq::empty()
    } else {
        bom_entries(boms.drop_last()) + managed_of(boms.last().managed, boms.last().properties)
    }
}

/// The entry that manages `group:artifact`: the last one with that management key.
pub open spec fn managed_lookup(es: Seq<Coordinate>, g: Seq<char>, a: Seq<char>) -> Option<Coordinate>
    decreases es.len(),
{
    if es.len() == 0 {
        None
    } else if es.last().group_id == g && es.last().artifact_id == a {
        Some(es.last())
    } else {
        managed_lookup(es.drop_last(), g, a)
    }
}

/// The managed coordinates that `boms` contribute, in import order; a later entry for a
/// management key overrides an earlier one.
pub fn managed_entries(boms: &Vec<Project>) -> (r: Vec<Artifact>)
    ensures
        coords_view(r@) == bom_entries(projects_view(boms@)),
{
    let mut out: Vec<Artifact> = Vec::new();
    let mut b: usize = 0;
    assert(coords_view(out@) =~= Seq::<Coordinate>::empty());
    assert(projects_view(boms@).subrange(0, 0) =~= Seq::<ProjectView>::empty());
    while b < boms.len()
        invariant
            b <= boms@.len(),
            coords_view(out@) == bom_entries(projects_view(boms@).subrange(0, b as int)),
        decreases boms@.len() - b,
    {
        let bom = &boms[b];
        let ds = &bom.dependency_management.dependencies;
        let ghost start = coords_view(out@);
        let ghost m = managed_of(deps_view(ds@), bom.properties@);
        let mut i: usize = 0;
        assert(m.subrange(0, 0) =~= Seq::<Coordinate>::empty());
        assert(start + m.subrange(0, 0) =~= start);
        while i < ds.len()
            invariant
                i <= ds@.len(),
                ds == &bom.dependency_management.dependencies,
                m == managed_of(deps_view(ds@), bom.properties@),
                coords_view(out@) == start + m.subrange(0, i as int),
            decreases ds@.len() - i,
        {
            let a = substitute_artifact(&ds[i].artifact, &bom.properties);
            let ghost before = coords_view(out@);
            let ghost av = a@;
            out.push(a);
            assert(coords_view(out@) =~= before.push(av));
            assert(m.subrange(0, i + 1) =~= m.subrange(0, i as int).push(av));
            i = i + 1;
        }
        assert(m.subrange(0, ds@.len() as int) =~= m);
        assert(projects_view(boms@).subrange(0, b + 1).drop_last() =~= projects_view(boms@).subrange(0, b as int));
        assert(projects_view(boms@).subrange(0, b + 1).last() == boms@[b as int]@);
        b = b + 1;
    }
    assert(projects_view(boms@).subrange(0, boms@.len() as int) =~= projects_view(boms@));
    out
}

/// The entry of `managed` for `group:artifact`, if any.
pub fn find_managed(managed: &Vec<Artifact>, group_id: &GroupId, artifact_id: &ArtifactId) -> (r: Option<Artifact>)
    ensures
        opt_view(r) == managed_lookup(coords_view(managed@), group_id@, artifact_id@),
{
    let mut i = managed.len();
    assert(coords_view(managed@).subrange(0, i as int) =~= coords_view(managed@));
    while i > 0
        invariant
            i <= managed@.len(),
            managed_lookup(coords_view(managed@).subrange(0, i as int), group_id@, artifact_id@) == managed_lookup(
                coords_view(managed@),
                group_id@,
                artifact_id@,
            ),
        decreases i,
    {
        let ghost pre = coords_view(managed@).subrange(0, i as int);
        assert(pre.drop_last() =~= coords_view(managed@).subrange(0, i - 1));
        assert(pre.last() == managed@[i - 1]@);
        let m = &managed[i - 1];
        if same_text(m.group_id.as_str(), group_id.as_str()) && same_text(m.artifact_id.as_str(), artifact_id.as_str()) {
            return Some(m.clone());
        }
        i = i - 1;
    }
    None
}

/// What the direct dependencies `deps` come to: each with `scope` substituted; one without a
/// version takes the managed coordinate of its management key, or is dropped where none is.
pub open spec fn collect_from(deps: Seq<DependencyView>, scope: PropertyList, managed: Seq<Coordinate>) -> Seq<Coordinate>
    decreases deps.len(),
{
    if deps.len() == 0 {
        Seq::empty()
    } else {
        let r = collect_from(deps.drop_last(), scope, managed);
        let c = expand_coordinate(deps.last().artifact, scope);
        if c.version is Some {
            r.push(c)
        } else {
            match managed_lookup(managed, c.group_id, c.artifact_id) {
                Some(m) => r.push(m),
                None => r,
            }
        }
    }
}

/// The coordinates of the direct dependencies of `project`, in the order it declares them:
/// property references are resolved in its effective scope under `ancestors` (root first), and
/// a dependency without a version takes it from the entries of the imported `boms`.
pub fn collect_dependencies(ancestors: &Vec<Project>, project: &Project, boms: &Vec<Project>) -> (r: Vec<Artifact>)
    ensures
        coords_view(r@) == collect_from(
            project@.dependencies,
            chain_properties(projects_view(ancestors@)) + project.properties@,
            bom_entries(projects_view(boms@)),
        ),
{
    let scope = effective_scope(ancestors, project);
    let managed = managed_entries(boms);
    let deps = &project.dependencies;
    let mut out: Vec<Artifact> = Vec::new();
    let mut i: usize = 0;
    assert(coords_view(out@) =~= Seq::<Coordinate>::empty());
    assert(deps_view(deps@).subrange(0, 0) =~= Seq::<DependencyView>::empty());
    while i < deps.len()
        invariant
            i <= deps@.len(),
            deps == &project.dependencies,
            coords_view(out@) == collect_from(deps_view(deps@).subrange(0, i as int), scope@, coords_view(managed@)),
        decreases deps@.len() - i,
    {
        assert(deps_view(deps@).subrange(0, i + 1).drop_last() =~= deps_view(deps@).subrange(0, i as int));
        assert(deps_view(deps@).subrange(0, i + 1).last() == deps@[i as int]@);
        let c = substitute_artifact(&deps[i].artifact, &scope);
        let ghost before = coords_view(out@);
        if c.version.is_some() {
            let ghost cv = c@;
            out.push(c);
            assert(coords_view(out@) =~= before.push(cv));
        } else {
            match find_managed(&managed, &c.group_id, &c.artifact_id) {
                Some(m) => {
                    let ghost mv = m@;
                    out.push(m);
                    assert(coords_view(out@) =~= before.push(mv));
                },
                None => {},
            }
        }
        i = i + 1;
    }
    assert(deps_view(deps@).subrange(0, deps@.len() as int) =~= deps_view(deps@));
    out
}

/// In `a + b` an entry of `b` wins over any of `a`.
pub proof fn lemma_managed_lookup_concat(a: Seq<Coordinate>, b: Seq<Coordinate>, g: Seq<char>, k: Seq<char>)
    ensures
        managed_lookup(a + b, g, k) == match managed_lookup(b, g, k) {
            Some(c) => Some(c),
            None => managed_lookup(a, g, k),
        },
    decreases b.len(),
{
    if b.len() == 0 {
        assert(a + b =~= a);
    } else {
        assert((a + b).drop_last() =~= a + b.drop_last());
        assert((a + b).last() == b.last());
        lemma_managed_lookup_concat(a, b.drop_last(), g, k);
    }
}

/// Importing a bill of materials a second time right after the first changes no managed entry.
pub proof fn lemma_bom_import_idempotent(boms: Seq<ProjectView>, bom: ProjectView, g: Seq<char>, a: Seq<char>)
    ensures
        managed_lookup(bom_entries(boms.push(bom).push(bom)), g, a) == managed_lookup(bom_entries(boms.push(bom)), g, a),
{
    let once = boms.push(bom);
    let twice = once.push(bom);
    let m = managed_of(bom.managed, bom.properties);
    assert(twice.drop_last() == once);
    assert(once.drop_last() == boms);
    assert(bom_entries(twice) == bom_entries(once) + m);
    assert(bom_entries(once) == bom_entries(boms) + m);
    lemma_managed_lookup_concat(bom_entries(once), m, g, a);
    lemma_managed_lookup_concat(bom_entries(boms), m, g, a);
}

// ---------------------------------------------------------------------------------------------
// Version resolution
/// The suffix that names the newest build of a snapshot: `timestamp-buildNumber`.
pub open spec fn snapshot_tag(s: SnapshotView) -> Seq<char> {
    s.timestamp + seq!['-'] + int_text(s.build_number as int)
}

/// The value of the first entry that ends with `tag`.
pub open spec fn first_ending_with(es: Seq<SnapshotVersionView>, tag: Seq<char>) -> Option<Seq<char>>
    decreases es.len(),
{
    if es.len() == 0 {
        None
    } else if ends_with(es[0].value, tag) {
        Some(es[0].value)
    } else {
        first_ending_with(es.drop_first(), tag)
    }
}

/// The file version of snapshot `version` that the metadata of its directory names: the entry
/// that ends with the newest build's tag, or `version` itself where there is none.
pub open spec fn snapshot_resolution(m: VersioningView, version: Seq<char>) -> Seq<char> {
    match m.snapshot {
        Some(s) => match first_ending_with(or_empty(m.snapshot_versions), snapshot_tag(s)) {
            Some(x) => x,
            None => version,
        },
        None => version,
    }
}

/// The concrete version that `version` stands for, given the metadata that its kind calls for:
/// that of its snapshot directory for a snapshot, that of the artifact for a meta-version.
/// `None` where the pointer that a meta-version names is missing.
pub open spec fn resolved_version(version: Seq<char>, m: VersioningView) -> Option<Seq<char>> {
    if is_snapshot_version(version) {
        Some(snapshot_resolution(m, version))
    } else if is_release_version(version) {
        m.release
    } else if is_latest_version(version) {
        m.latest
    } else {
        Some(version)
    }
}

fn find_snapshot_file(entries: &Vec<SnapshotVersion>, tag: &str) -> (r: Option<Version>)
    ensures
        opt_view(r) == first_ending_with(crate::metadata::entries_view(entries@), tag@),
{
    let ghost es = crate::metadata::entries_view(entries@);
    let mut i: usize = 0;
    assert(es.subrange(0, es.len() as int) =~= es);
    while i < entries.len()
        invariant
            i <= entries@.len(),
            es == crate::metadata::entries_view(entries@),
            first_ending_with(es.subrange(i as int, es.len() as int), tag@) == first_ending_with(es, tag@),
        decreases entries@.len() - i,
    {
        let ghost rest = es.subrange(i as int, es.len() as int);
        assert(rest.drop_first() =~= es.subrange(i + 1, es.len() as int));
        assert(rest[0] == entries@[i as int]@);
        if text_ends_with(entries[i].value.as_str(), tag) {
            return Some(entries[i].value.clone());
        }
        i = i + 1;
    }
    None
}

/// What a coordinate resolves to, given the metadata that its version calls for (see
/// `plan_download`): the concrete version to store and fetch it under.
pub fn resolve_version(artifact: &Artifact, metadata: &VersionedMetadata) -> (r: Result<ResolvedArtifact, MavenError>)
    ensures
        match r {
            Ok(res) => res.artifact == *artifact && artifact.version is Some && resolved_version(
                artifact.version->0@,
                metadata.versioning@,
            ) == Some(res.resolved_version@),
            Err(e) => (artifact.version is None && e is Config) || (artifact.version matches Some(v)
                && resolved_version(v@, metadata.versioning@) is None && e is MetaUnresolved),
        },
{
    let version = match &artifact.version {
        Some(v) => v,
        None => return Err(MavenError::Config(String::from_str("the coordinate has no version"))),
    };
    let versioning = &metadata.versioning;
    if version.is_snapshot() {
        let resolved = match &versioning.snapshot {
            Some(s) => {
                let mut tag = s.timestamp.clone();
                tag.append("-");
                let b = int_to_text(s.buildNumber);
                tag.append(b.as_str());
                proof {
                    reveal_strlit("-");
                }
                assert(tag@ =~= snapshot_tag(s@));
                let empty: Vec<SnapshotVersion> = Vec::new();
                let entries = match &versioning.snapshot_versions {
                    Some(es) => es,
                    None => &empty,
                };
                assert(crate::metadata::entries_view(empty@) =~= Seq::<SnapshotVersionView>::empty());
                assert(crate::metadata::entries_view(entries@) == or_empty(versioning@.snapshot_versions));
                match find_snapshot_file(entries, tag.as_str()) {
                    Some(v) => v,
                    None => version.clone(),
                }
            },
            None => version.clone(),
        };
        Ok(ResolvedArtifact { artifact: artifact.clone(), resolved_version: resolved })
    } else if version.is_release() || version.is_latest() {
        let pointer = if version.is_release() {
            &versioning.release
        } else {
            &versioning.latest
        };
        match pointer {
            Some(v) => Ok(ResolvedArtifact { artifact: artifact.clone(), resolved_version: v.clone() }),
            None => Err(MavenError::MetaUnresolved),
        }
    } else {
        Ok(ResolvedArtifact { artifact: artifact.clone(), resolved_version: version.clone() })
    }
}

/// `base/group/with/slashes/artifactId/maven-metadata.xml`.
pub open spec fn metadata_url(base: Seq<char>, g: Seq<char>, a: Seq<char>) -> Seq<char> {
    trim_slashes(base) + seq!['/'] + artifact_dir(g, a) + "/maven-metadata.xml"@
}

/// `base/group/with/slashes/artifactId/version/maven-metadata.xml`.
pub open spec fn versioned_metadata_url(base: Seq<char>, g: Seq<char>, a: Seq<char>, v: Seq<char>) -> Seq<char> {
    trim_slashes(base) + seq!['/'] + artifact_dir(g, a) + seq!['/'] + v + "/maven-metadata.xml"@
}

/// The URL of the metadata that lists the versions of an artifact.
pub fn artifact_metadata_url(repository: &Repository, artifact: &PartialArtifact) -> (r: String)
    ensures
        r@ == metadata_url(repository.url@, artifact.group_id@, artifact.artifact_id@),
{
    let mut out = without_trailing_slashes(repository.url.as_str());
    out.append("/");
    let p = artifact.path();
    out.append(p.as_str());
    out.append("/maven-metadata.xml");
    proof {
        reveal_strlit("/");
    }
    out
}

/// The URL of the metadata of one version directory, which lists a snapshot's builds.
pub fn version_metadata_url(repository: &Repository, artifact: &Artifact) -> (r: String)
    requires
        artifact.version is Some,
    ensures
        r@ == versioned_metadata_url(repository.url@, artifact.group_id@, artifact.artifact_id@, artifact.version->0@),
{
    let mut out = without_trailing_slashes(repository.url.as_str());
    out.append("/");
    let p = artifact.path();
    out.append(p.as_str());
    out.append("/maven-metadata.xml");
    proof {
        reveal_strlit("/");
    }
    out
}

/// The first step of a download.
#[derive(Debug)]
pub enum DownloadPlan {
    /// Fetch the metadata at this URL, then resolve the version with `resolve_version`.
    Metadata(String),
    /// Fetch the file: the version is already concrete.
    Fetch(ResolvedArtifact),
}

/// How the download of `artifact` from `repository` begins. A snapshot needs the metadata of its
/// version directory, and a repository that serves snapshots; a meta-version needs the metadata
/// of the artifact; any other version is fetched as it is.
pub fn plan_download(repository: &Repository, artifact: &Artifact) -> (r: Result<DownloadPlan, MavenError>)
    ensures
        match r {
            Ok(DownloadPlan::Metadata(url)) => artifact.version matches Some(v) && (if is_snapshot_version(v@) {
                repository.snapshots && url@ == versioned_metadata_url(
                    repository.url@,
                    artifact.group_id@,
                    artifact.artifact_id@,
                    v@,
                )
            } else {
                is_meta_version(v@) && url@ == metadata_url(repository.url@, artifact.group_id@, artifact.artifact_id@)
            }),
            Ok(DownloadPlan::Fetch(res)) => artifact.version matches Some(v) && !is_snapshot_version(v@)
                && !is_meta_version(v@) && res.artifact == *artifact && res.resolved_version == v,
            Err(e) => (artifact.version is None && e is Config) || (artifact.version matches Some(v)
                && is_snapshot_version(v@) && !repository.snapshots && e is SnapshotNotAllowed),
        },
{
    let version = match &artifact.version {
        Some(v) => v,
        None => return Err(MavenError::Config(String::from_str("the coordinate has no version"))),
    };
    if version.is_snapshot() {
        if repository.snapshots {
            Ok(DownloadPlan::Metadata(version_metadata_url(repository, artifact)))
        } else {
            Err(MavenError::SnapshotNotAllowed)
        }
    } else if version.is_meta_version() {
        let partial = artifact.to_partial();
        Ok(DownloadPlan::Metadata(artifact_metadata_url(repository, &partial)))
    } else {
        Ok(DownloadPlan::Fetch(ResolvedArtifact { artifact: artifact.clone(), resolved_version: version.clone() }))
    }
}

/// The `size` newest of `versions`, which are listed oldest first: newest first.
pub fn newest_versions(versions: &Vec<Version>, size: usize) -> (r: Vec<Version>)
    ensures
        r@.len() == if size < versions@.len() {
            size as int
        } else {
            versions@.len() as int
        },
        forall|i: int| 0 <= i < r@.len() ==> #[trigger] r@[i] == versions@[versions@.len() - 1 - i],
{
    let n = versions.len();
    let mut out: Vec<Version> = Vec::new();
    let mut i: usize = 0;
    while i < n && i < size
        invariant
            n == versions@.len(),
            i <= n,
            i <= size,
            out@.len() == i,
            forall|j: int| 0 <= j < i ==> #[trigger] out@[j] == versions@[n - 1 - j],
        decreases n - i,
    {
        out.push(versions[n - 1 - i].clone());
        i = i + 1;
    }
    out
}

/// The bound on the length of a parent chain.
pub const MAX_PARENT_DEPTH: usize = 16;

/// The coordinate of the project descriptor of `artifact`: extension `pom`, no classifier.
pub fn pom_coordinate(artifact: &Artifact) -> (r: Artifact)
    ensures
        r@ == (Coordinate { extension: Some("pom"@), classifier: None, ..artifact@ }),
{
    let mut r = artifact.clone();
    r.extension = Some(String::from_str("pom"));
    r.classifier = None;
    r
}

/// One step of the walk up a parent chain, `depth` parents in: the descriptor to fetch next, or
/// `None` at the root. A chain longer than `MAX_PARENT_DEPTH` is taken for a cycle.
pub fn next_parent(project: &Project, depth: usize) -> (r: Result<Option<Artifact>, MavenError>)
    ensures
        match r {
            Ok(None) => project.parent is None,
            Ok(Some(a)) => project.parent matches Some(p) && depth < MAX_PARENT_DEPTH && a@ == (Coordinate {
                extension: Some("pom"@),
                classifier: None,
                ..p@
            }),
            Err(e) => project.parent is Some && depth >= MAX_PARENT_DEPTH && e is MalformedPom,
        },
{
    match &project.parent {
        None => Ok(None),
        Some(p) => {
            if depth >= MAX_PARENT_DEPTH {
                Err(MavenError::MalformedPom(String::from_str("the parent chain is too long")))
            } else {
                Ok(Some(pom_coordinate(p)))
            }
        },
    }
}

/// Whether `artifact` can be resolved as a file: a project descriptor alone cannot.
pub fn check_resolvable(artifact: &Artifact) -> (r: Result<(), MavenError>)
    ensures
        r is Ok <==> artifact@.extension != Some("pom"@),
        r matches Err(e) ==> e is Config,
{
    match &artifact.extension {
        Some(e) => {
            if same_text(e.as_str(), "pom") {
                Err(MavenError::Config(String::from_str("a pom packaging cannot be resolved as a file")))
            } else {
                Ok(())
            }
        },
        None => Ok(()),
    }
}

} // verus!
