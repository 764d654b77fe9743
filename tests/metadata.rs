use maven_artifact::metadata::{
    parse_i32, MetadataError, Snapshot, SnapshotVersion, VersionedMetadata, Versioning,
};
use maven_artifact::{ArtifactId, Classifier, GroupId, Version};

#[test]
fn metadata_parse_simple() {
    let meta = r##"<?xml version="1.0" encoding="UTF-8"?><metadata><groupId>com.example</groupId><artifactId>example-cli</artifactId><versioning><latest>3.0.0</latest><release>3.0.0</release><versions><version>3.0.0</version></versions><lastUpdated>20250427133131</lastUpdated></versioning></metadata>"##;

    let metadata: VersionedMetadata = VersionedMetadata::from_str(meta).unwrap();
    assert_eq!(
        metadata,
        VersionedMetadata {
            group_id: GroupId::from("com.example"),
            artifact_id: ArtifactId::from("example-cli"),
            versioning: Versioning {
                latest: Some(Version::from("3.0.0")),
                release: Some(Version::from("3.0.0")),
                versions: Some(vec![Version::from("3.0.0")]),
                last_updated: Some(String::from("20250427133131")),
                snapshot: None,
                snapshot_versions: None
            }
        }
    )
}

const SNAPSHOT_DIR: &str = r#"<?xml version="1.0" encoding="UTF-8"?>
<metadata modelVersion="1.1.0">
  <groupId>org.pac4j</groupId>
  <artifactId>pac4j-http</artifactId>
  <version>6.1.4-SNAPSHOT</version>
  <versioning>
    <snapshot>
      <timestamp>20250607.033109</timestamp>
      <buildNumber>15</buildNumber>
    </snapshot>
    <lastUpdated>20250607033109</lastUpdated>
    <snapshotVersions>
      <snapshotVersion>
        <extension>jar</extension>
        <value>6.1.4-20250607.033109-15</value>
        <updated>20250607033109</updated>
      </snapshotVersion>
      <snapshotVersion>
        <classifier>sources</classifier>
        <extension>jar</extension>
        <value>6.1.4-20250607.033109-15</value>
        <updated>20250607033109</updated>
      </snapshotVersion>
    </snapshotVersions>
  </versioning>
</metadata>"#;

#[test]
fn metadata_parse_snapshot_directory() {
    let metadata = VersionedMetadata::from_str(SNAPSHOT_DIR).unwrap();
    let make = |classifier: Option<&str>| {
        SnapshotVersion::new(
            Version::from("6.1.4-20250607.033109-15"),
            String::from("20250607033109"),
            classifier.map(Classifier::from),
            Some(String::from("jar")),
        )
    };
    let expected = VersionedMetadata {
        group_id: GroupId::from("org.pac4j"),
        artifact_id: ArtifactId::from("pac4j-http"),
        versioning: Versioning {
            last_updated: Some(String::from("20250607033109")),
            snapshot: Some(Snapshot {
                timestamp: String::from("20250607.033109"),
                buildNumber: 15,
            }),
            snapshot_versions: Some(vec![make(None), make(Some("sources"))]),
            ..Default::default()
        },
    };
    assert_eq!(metadata, expected);
}

#[test]
fn metadata_ignores_namespaces_and_unknown_elements() {
    let doc = r#"<m:metadata xmlns:m="urn:x"><m:groupId>g</m:groupId><extra><groupId>other</groupId></extra><artifactId a="1">a</artifactId><versioning><versions><version>1</version><version>2</version></versions><versions><version>3</version></versions><release>1</release><release>2</release></versioning></m:metadata>"#;
    let m = VersionedMetadata::from_str(doc).unwrap();
    assert_eq!(m.group_id, GroupId::from("g"));
    assert_eq!(m.artifact_id, ArtifactId::from("a"));
    assert_eq!(
        m.versioning.versions,
        Some(vec![Version::from("1"), Version::from("2"), Version::from("3")])
    );
    assert_eq!(m.versioning.release, Some(Version::from("2")));
    assert_eq!(m.versioning.latest, None);
}

#[test]
fn metadata_missing_parts_are_errors() {
    let no_group = "<metadata><artifactId>a</artifactId><versioning/></metadata>";
    assert!(matches!(VersionedMetadata::from_str(no_group), Err(MetadataError::Unexpected(_))));
    let no_versioning = "<metadata><groupId>g</groupId><artifactId>a</artifactId></metadata>";
    assert!(matches!(VersionedMetadata::from_str(no_versioning), Err(MetadataError::Unexpected(_))));
    let bad_build = "<metadata><groupId>g</groupId><artifactId>a</artifactId><versioning><snapshot><timestamp>t</timestamp><buildNumber>x1</buildNumber></snapshot></versioning></metadata>";
    assert!(matches!(VersionedMetadata::from_str(bad_build), Err(MetadataError::Unexpected(_))));
    let half_snapshot = "<metadata><groupId>g</groupId><artifactId>a</artifactId><versioning><snapshot><timestamp>t</timestamp></snapshot></versioning></metadata>";
    assert!(matches!(VersionedMetadata::from_str(half_snapshot), Err(MetadataError::Unexpected(_))));
    let entry_without_value = "<metadata><groupId>g</groupId><artifactId>a</artifactId><versioning><snapshotVersions><snapshotVersion><updated>1</updated></snapshotVersion></snapshotVersions></versioning></metadata>";
    assert!(matches!(VersionedMetadata::from_str(entry_without_value), Err(MetadataError::Unexpected(_))));
}

#[test]
fn metadata_rejects_malformed_xml() {
    assert!(matches!(VersionedMetadata::from_str("<metadata><groupId>g</metadata>"), Err(MetadataError::Xml(_))));
}

#[test]
fn integers_read_like_from_str() {
    assert_eq!(parse_i32("15"), Some(15));
    assert_eq!(parse_i32("+7"), Some(7));
    assert_eq!(parse_i32("-2147483648"), Some(i32::MIN));
    assert_eq!(parse_i32("2147483647"), Some(i32::MAX));
    assert_eq!(parse_i32("2147483648"), None);
    assert_eq!(parse_i32("99999999999999999999"), None);
    assert_eq!(parse_i32(""), None);
    assert_eq!(parse_i32("-"), None);
    assert_eq!(parse_i32("1a"), None);
    for s in ["0", "-1", "123456", "-99999"] {
        assert_eq!(parse_i32(s), s.parse::<i32>().ok());
    }
}
