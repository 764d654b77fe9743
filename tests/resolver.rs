use maven_artifact::artifact::{Artifact, PartialArtifact};
use maven_artifact::metadata::{int_to_text, VersionedMetadata};
use maven_artifact::project::{PomParser, Project, Properties};
use maven_artifact::resolver::{
    artifact_metadata_url, bom_imports, check_resolvable, collect_dependencies, effective_scope,
    managed_entries, newest_versions, next_parent, plan_download, resolve_version,
    substitute, DownloadPlan, MAX_PARENT_DEPTH,
};
use maven_artifact::{MavenError, Repository, Version};

fn central() -> Repository {
    Repository::releases("https://repo.example.com/maven2/").unwrap()
}

#[test]
fn fixed_version_download() {
    let a = Artifact::parse("org.example:lib:1.2.3").unwrap();
    match plan_download(&central(), &a).unwrap() {
        DownloadPlan::Fetch(resolved) => {
            assert_eq!(
                resolved.uri(&central()),
                "https://repo.example.com/maven2/org/example/lib/1.2.3/lib-1.2.3.jar"
            );
            assert_eq!(resolved.file_name(), "lib-1.2.3.jar");
        }
        other => panic!("unexpected plan {:?}", other),
    }
}

#[test]
fn release_resolution() {
    let a = Artifact::parse("org.example:lib:RELEASE").unwrap();
    match plan_download(&central(), &a).unwrap() {
        DownloadPlan::Metadata(url) => assert_eq!(
            url,
            "https://repo.example.com/maven2/org/example/lib/maven-metadata.xml"
        ),
        other => panic!("unexpected plan {:?}", other),
    }
    let meta = VersionedMetadata::from_str("<metadata><groupId>org.example</groupId><artifactId>lib</artifactId><versioning><latest>1.3.0-SNAPSHOT</latest><release>1.2.3</release></versioning></metadata>").unwrap();
    let resolved = resolve_version(&a, &meta).unwrap();
    assert_eq!(resolved.resolved_version, Version::from("1.2.3"));
    assert_eq!(resolved.file_name(), "lib-1.2.3.jar");
    assert_eq!(
        resolved.uri(&central()),
        "https://repo.example.com/maven2/org/example/lib/1.2.3/lib-1.2.3.jar"
    );
    let latest = Artifact::parse("org.example:lib:latest").unwrap();
    assert_eq!(
        resolve_version(&latest, &meta).unwrap().resolved_version,
        Version::from("1.3.0-SNAPSHOT")
    );
}

#[test]
fn meta_version_without_pointer_fails() {
    let a = Artifact::parse("org.example:lib:LATEST").unwrap();
    let meta = VersionedMetadata::from_str("<metadata><groupId>org.example</groupId><artifactId>lib</artifactId><versioning><release>1</release></versioning></metadata>").unwrap();
    assert!(matches!(resolve_version(&a, &meta), Err(MavenError::MetaUnresolved)));
}

const SNAPSHOT_DIR: &str = r#"<metadata><groupId>org.pac4j</groupId><artifactId>pac4j-http</artifactId><version>6.1.4-SNAPSHOT</version><versioning><snapshot><timestamp>20250607.033109</timestamp><buildNumber>15</buildNumber></snapshot><snapshotVersions><snapshotVersion><extension>pom</extension><value>6.1.4-20250607.033109-14</value><updated>1</updated></snapshotVersion><snapshotVersion><extension>jar</extension><value>6.1.4-20250607.033109-15</value><updated>20250607033109</updated></snapshotVersion></snapshotVersions></versioning></metadata>"#;

#[test]
fn snapshot_resolution() {
    let repo = Repository::both("https://repo.example.com/snapshots").unwrap();
    let a = Artifact::parse("org.pac4j:pac4j-http:6.1.4-SNAPSHOT").unwrap();
    match plan_download(&repo, &a).unwrap() {
        DownloadPlan::Metadata(url) => assert_eq!(
            url,
            "https://repo.example.com/snapshots/org/pac4j/pac4j-http/6.1.4-SNAPSHOT/maven-metadata.xml"
        ),
        other => panic!("unexpected plan {:?}", other),
    }
    let meta = VersionedMetadata::from_str(SNAPSHOT_DIR).unwrap();
    let resolved = resolve_version(&a, &meta).unwrap();
    assert_eq!(resolved.resolved_version, Version::from("6.1.4-20250607.033109-15"));
    let url = resolved.uri(&repo);
    assert!(url.ends_with("/6.1.4-SNAPSHOT/pac4j-http-6.1.4-20250607.033109-15.jar"));
    assert_eq!(resolved.file_name(), "pac4j-http-6.1.4-20250607.033109-15.jar");
}

#[test]
fn snapshot_without_matching_entry_keeps_its_version() {
    let a = Artifact::parse("g:a:1.0-SNAPSHOT").unwrap();
    let meta = VersionedMetadata::from_str("<metadata><groupId>g</groupId><artifactId>a</artifactId><versioning><snapshot><timestamp>t</timestamp><buildNumber>3</buildNumber></snapshot></versioning></metadata>").unwrap();
    assert_eq!(
        resolve_version(&a, &meta).unwrap().resolved_version,
        Version::from("1.0-SNAPSHOT")
    );
}

#[test]
fn snapshot_from_release_repository_is_refused() {
    let a = Artifact::parse("g:a:1.0-SNAPSHOT").unwrap();
    assert!(matches!(plan_download(&central(), &a), Err(MavenError::SnapshotNotAllowed)));
}

#[test]
fn coordinate_without_version_is_a_config_error() {
    let a = Artifact::parse("g:a:1").unwrap();
    let partial = a.to_partial().into_artifact(Version::from("1"));
    assert!(plan_download(&central(), &partial).is_ok());
    let none = Artifact { version: None, ..a };
    assert!(matches!(plan_download(&central(), &none), Err(MavenError::Config(_))));
}

#[test]
fn versions_select_newest_first() {
    let versions: Vec<Version> = (1..=10).map(|i| Version::from(format!("1.{i}"))).collect();
    let newest = newest_versions(&versions, 3);
    assert_eq!(
        newest,
        vec![Version::from("1.10"), Version::from("1.9"), Version::from("1.8")]
    );
    assert_eq!(newest_versions(&versions, 20).len(), 10);
    assert!(newest_versions(&versions, 0).is_empty());
    assert!(newest_versions(&Vec::new(), 3).is_empty());
}

fn bom() -> Project {
    PomParser::from_str(r#"<project><groupId>org.junit</groupId><artifactId>junit-bom</artifactId><version>5.11.0</version>
      <properties><y.version>9.9.9</y.version></properties>
      <dependencyManagement><dependencies>
        <dependency><groupId>X</groupId><artifactId>Y</artifactId><version>${y.version}</version></dependency>
        <dependency><groupId>X</groupId><artifactId>W</artifactId><version>2</version></dependency>
      </dependencies></dependencyManagement></project>"#).unwrap()
}

fn project_ab() -> Project {
    PomParser::from_str(r#"<project><groupId>A</groupId><artifactId>B</artifactId><version>1.0</version>
      <dependencyManagement><dependencies>
        <dependency><groupId>org.junit</groupId><artifactId>junit-bom</artifactId><version>5.11.0</version><type>pom</type><scope>import</scope></dependency>
        <dependency><groupId>not</groupId><artifactId>imported</artifactId><version>1</version></dependency>
      </dependencies></dependencyManagement>
      <dependencies>
        <dependency><groupId>X</groupId><artifactId>Y</artifactId></dependency>
        <dependency><groupId>X</groupId><artifactId>Z</artifactId><version>1.0</version></dependency>
        <dependency><groupId>not</groupId><artifactId>imported</artifactId></dependency>
      </dependencies></project>"#).unwrap()
}

#[test]
fn transitive_collection_with_bom() {
    let project = project_ab();
    let imports = bom_imports(&Vec::new(), &project);
    assert_eq!(imports.len(), 1);
    assert_eq!(imports[0].to_string(), "org.junit:junit-bom:pom:5.11.0");
    let deps = collect_dependencies(&Vec::new(), &project, &vec![bom()]);
    let rendered: Vec<String> = deps.iter().map(|a| a.to_string()).collect();
    assert_eq!(rendered, vec![String::from("X:Y:9.9.9"), String::from("X:Z:1.0")]);
}

#[test]
fn importing_a_bom_twice_changes_nothing() {
    let once = managed_entries(&vec![bom()]);
    let twice = managed_entries(&vec![bom(), bom()]);
    let project = project_ab();
    assert_eq!(
        collect_dependencies(&Vec::new(), &project, &vec![bom()]),
        collect_dependencies(&Vec::new(), &project, &vec![bom(), bom()])
    );
    assert_eq!(twice.len(), 2 * once.len());
}

#[test]
fn property_substitution() {
    let project = PomParser::from_str(r#"<project><groupId>g</groupId><artifactId>a</artifactId><version>1.2.3</version>
      <dependencies><dependency><groupId>com.example</groupId><artifactId>example-lib</artifactId><version>${project.version}</version></dependency></dependencies></project>"#).unwrap();
    let deps = collect_dependencies(&Vec::new(), &project, &Vec::new());
    assert_eq!(deps.len(), 1);
    assert_eq!(deps[0].version, Some(Version::from("1.2.3")));
}

#[test]
fn property_scope_follows_the_parent_chain() {
    let root = PomParser::from_str("<project><groupId>r</groupId><artifactId>root</artifactId><version>1</version><properties><a>root</a><b>root</b></properties></project>").unwrap();
    let parent = PomParser::from_str("<project><groupId>r</groupId><artifactId>parent</artifactId><version>2</version><properties><b>parent</b><c>parent</c></properties></project>").unwrap();
    let child = PomParser::from_str("<project><parent><groupId>r</groupId><artifactId>parent</artifactId><version>2</version></parent><artifactId>child</artifactId><groupId>r</groupId><properties><c>child</c></properties></project>").unwrap();
    let scope = effective_scope(&vec![root, parent], &child);
    assert_eq!(substitute("${a}/${b}/${c}/${project.version}/${project.artifactId}", &scope), "root/parent/child/2/child");
}

#[test]
fn substitution_edge_cases() {
    let mut props = Properties::new();
    props.insert(String::from("x"), String::from("${y}"));
    props.insert(String::from("y"), String::from("why"));
    assert_eq!(substitute("${x}", &props), "${y}");
    assert_eq!(substitute("${unknown}-${y}", &props), "${unknown}-why");
    assert_eq!(substitute("${y", &props), "${y");
    assert_eq!(substitute("$${y}}", &props), "$why}");
    assert_eq!(substitute("", &props), "");
}

#[test]
fn parent_walk_steps() {
    let child = PomParser::from_str("<project><parent><groupId>r</groupId><artifactId>parent</artifactId><version>2</version></parent><artifactId>child</artifactId><groupId>r</groupId></project>").unwrap();
    let next = next_parent(&child, 0).unwrap().unwrap();
    assert_eq!(next.to_string(), "r:parent:pom:2");
    assert!(matches!(next_parent(&child, MAX_PARENT_DEPTH), Err(MavenError::MalformedPom(_))));
    let root = Project::new(Artifact::parse("r:root:1").unwrap());
    assert!(next_parent(&root, 0).unwrap().is_none());
}

#[test]
fn pom_packaging_cannot_be_resolved() {
    assert!(check_resolvable(&Artifact::parse("g:a:pom:1").unwrap()).is_err());
    assert!(check_resolvable(&Artifact::parse("g:a:1").unwrap()).is_ok());
}

#[test]
fn metadata_url_of_a_partial_coordinate() {
    let p = PartialArtifact::parse("org.example:lib").unwrap();
    assert_eq!(
        artifact_metadata_url(&central(), &p),
        "https://repo.example.com/maven2/org/example/lib/maven-metadata.xml"
    );
}

#[test]
fn integers_print_in_decimal() {
    assert_eq!(int_to_text(15), "15");
    assert_eq!(int_to_text(0), "0");
    assert_eq!(int_to_text(-42), "-42");
    assert_eq!(int_to_text(i32::MIN), i32::MIN.to_string());
    assert_eq!(int_to_text(i32::MAX), i32::MAX.to_string());
}
