use maven_artifact::artifact::{Artifact, PartialArtifact, ResolvedArtifact};
use maven_artifact::project::ProjectReference;
use maven_artifact::{ArtifactId, Classifier, GroupId, Repository, Version};

#[test]
fn artifact_parse_gav() {
    let result = Artifact::parse("g:a:v").unwrap();
    assert_eq!(
        &result,
        &Artifact::new(GroupId::from("g"), ArtifactId::from("a"), Version::from("v"))
    );
    assert_eq!(&result.to_string(), "g:a:v")
}

#[test]
fn artifact_parse_full_gav() {
    let input = "groupId:artifact_id:packaging:classifier:version";
    let result = Artifact::parse(input).unwrap();
    assert_eq!(
        result,
        Artifact {
            group_id: GroupId::from("groupId"),
            artifact_id: ArtifactId::from("artifact_id"),
            version: Some(Version::from("version")),
            classifier: Some(Classifier::from("classifier")),
            extension: Some(String::from("packaging"))
        }
    );
    assert_eq!(result.to_string(), String::from(input))
}

#[test]
fn artifact_parse_missing_classifier() {
    let input = "groupId:artifact_id:packaging:version";
    let result = Artifact::parse(input).unwrap();
    assert_eq!(
        result,
        Artifact {
            group_id: GroupId::from("groupId"),
            artifact_id: ArtifactId::from("artifact_id"),
            version: Some(Version::from("version")),
            classifier: None,
            extension: Some(String::from("packaging"))
        }
    );
    assert_eq!(result.to_string(), String::from(input))
}

#[test]
fn artifact_resolved_uri() {
    let a = Artifact::new(
        GroupId::from("com.example"),
        ArtifactId::from("artifact"),
        Version::from("1.0.0"),
    );
    let resolved = ResolvedArtifact {
        artifact: a,
        resolved_version: Version::from("1.0.0"),
    };

    let base = Repository::maven_central();
    let parsed = resolved.uri(&base);
    let expected = url::Url::parse(&base.url)
        .unwrap()
        .join("/maven2/com/example/artifact/1.0.0/artifact-1.0.0.jar")
        .unwrap();
    assert_eq!(parsed, expected.as_str())
}

#[test]
fn parse_rejects_wrong_part_counts() {
    assert!(Artifact::parse("g:a").is_err());
    assert!(Artifact::parse("g").is_err());
    assert!(Artifact::parse("a:b:c:d:e:f").is_err());
    assert!(PartialArtifact::parse("g:a:v").is_err());
    assert!(ProjectReference::parse("g:a").is_err());
}

#[test]
fn render_then_parse_keeps_the_coordinate() {
    for text in ["g:a:v", "g:a:war:v", "g:a:war:sources:v", "org.example:lib:1.2.3"] {
        let a = Artifact::parse(text).unwrap();
        assert_eq!(a.to_string(), text);
        assert_eq!(Artifact::parse(&a.to_string()).unwrap(), a);
    }
}

#[test]
fn render_leaves_out_a_lone_jar_extension() {
    let a = Artifact::parse("g:a:jar:1.0").unwrap();
    assert_eq!(a.to_string(), "g:a:1.0");
    let back = Artifact::parse(&a.to_string()).unwrap();
    assert_eq!(back.extension, None);
    assert_eq!(back.version, a.version);
}

#[test]
fn render_brings_jar_with_a_lone_classifier() {
    let a = Artifact::new(GroupId::from("g"), ArtifactId::from("a"), Version::from("1.0"))
        .with_classifier(Classifier::from("sources"));
    assert_eq!(a.to_string(), "g:a:jar:sources:1.0");
    let back = Artifact::parse(&a.to_string()).unwrap();
    assert_eq!(back.classifier, Some(Classifier::from("sources")));
    assert_eq!(back.extension, Some(String::from("jar")));
}

#[test]
fn partial_artifact_parse_and_path() {
    let p = PartialArtifact::parse("org.example.deep:lib").unwrap();
    assert_eq!(p.group_id, GroupId::from("org.example.deep"));
    assert_eq!(p.path(), "org/example/deep/lib");
    assert_eq!(p.to_string(), "org.example.deep:lib");
    let a = p.into_artifact(Version::from("2.0"));
    assert_eq!(a.to_string(), "org.example.deep:lib:2.0");
}

#[test]
fn project_reference_parse_and_path() {
    let r = ProjectReference::parse("org.example:lib:1.0").unwrap();
    assert_eq!(r.path(), "org/example/lib/1.0");
}

#[test]
fn artifact_paths_and_file_names() {
    let a = Artifact::parse("org.example:lib:zip:dist:1.2.3").unwrap();
    assert_eq!(a.path(), "org/example/lib/1.2.3");
    assert_eq!(a.file_name(), "lib-1.2.3-dist.zip");
    let b = Artifact::parse("org.example:lib:1.2.3").unwrap();
    assert_eq!(b.file_name(), "lib-1.2.3.jar");
    assert_eq!(b.without_extension().file_name(), "lib-1.2.3.jar");
    assert_eq!(b.with_extension(String::from("pom")).file_name(), "lib-1.2.3.pom");
    assert_eq!(b.with_version(Version::from("2.0")).path(), "org/example/lib/2.0");
    assert_eq!(GroupId::from("a.b.c").path_string(), "a/b/c");
}

#[test]
fn version_classification() {
    assert!(Version::from("LATEST").is_latest());
    assert!(Version::from("LaTeSt").is_latest());
    assert!(Version::from("release").is_release());
    assert!(Version::from("Release").is_meta_version());
    assert!(!Version::from("1.0").is_meta_version());
    assert!(!Version::from("latest1").is_meta_version());
    assert!(Version::from("1.0-SNAPSHOT").is_snapshot());
    assert!(!Version::from("1.0-snapshot").is_snapshot());
    assert!(!Version::from("SNAPSHOT").is_snapshot());
    let a = Artifact::parse("g:a:1.0-SNAPSHOT").unwrap();
    assert!(a.is_snapshot());
    assert!(!Artifact::partial(GroupId::from("g"), ArtifactId::from("a")).is_snapshot());
}

#[test]
fn url_has_one_slash_after_the_base() {
    let repo = Repository::both("https://repo.example.com/maven2/").unwrap();
    assert_eq!(repo.url, "https://repo.example.com/maven2");
    let resolved = ResolvedArtifact {
        artifact: Artifact::parse("org.example:lib:1.2.3").unwrap(),
        resolved_version: Version::from("1.2.3"),
    };
    assert_eq!(
        resolved.uri(&repo),
        "https://repo.example.com/maven2/org/example/lib/1.2.3/lib-1.2.3.jar"
    );
    let slashes = Repository {
        url: String::from("https://repo.example.com/maven2//"),
        snapshots: false,
        releases: true,
    };
    assert_eq!(
        resolved.uri(&slashes),
        "https://repo.example.com/maven2/org/example/lib/1.2.3/lib-1.2.3.jar"
    );
}

#[test]
fn repository_rejects_an_invalid_url() {
    assert!(matches!(
        Repository::both("not a url"),
        Err(maven_artifact::MavenError::InvalidUrl(_))
    ));
    let r = Repository::releases("HTTPS://Example.COM").unwrap();
    assert_eq!(r.url, "https://example.com");
    assert!(r.releases && !r.snapshots);
    let s = Repository::snapshots("https://example.com/snap/").unwrap();
    assert!(s.snapshots && !s.releases);
}
