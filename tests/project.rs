use maven_artifact::artifact::Artifact;
use maven_artifact::project::{PomParser, PomParserError, Project, Properties};
use maven_artifact::{ArtifactId, GroupId, Version};

#[test]
fn parse_full() {
    let pom = r###"
            <project xmlns="http://maven.apache.org/POM/4.0.0" xmlns:xsi="http://www.w3.org/2001/XMLSchema-instance"
      xsi:schemaLocation="http://maven.apache.org/POM/4.0.0 http://maven.apache.org/xsd/maven-4.0.0.xsd">
      <modelVersion>4.0.0</modelVersion>
      <groupId>com.mycompany.app</groupId>
      <artifactId>my-app</artifactId>
      <version>1.0-SNAPSHOT</version>
      <name>my-app</name>
      <!-- FIXME change it to the project's website -->
      <url>http://www.example.com</url>
      <properties>
        <project.build.sourceEncoding>UTF-8</project.build.sourceEncoding>
        <maven.compiler.release>17</maven.compiler.release>
      </properties>
      <dependencyManagement>
        <dependencies>
          <dependency>
            <groupId>org.junit</groupId>
            <artifactId>junit-bom</artifactId>
            <version>5.11.0</version>
            <type>pom</type>
            <scope>import</scope>
          </dependency>
        </dependencies>
      </dependencyManagement>
      <dependencies>
        <dependency>
          <groupId>org.junit.jupiter</groupId>
          <artifactId>junit-jupiter-api</artifactId>
          <scope>test</scope>
        </dependency>
        <!-- Optionally: parameterized tests support -->
        <dependency>
          <groupId>org.junit.jupiter</groupId>
          <artifactId>junit-jupiter-params</artifactId>
          <scope>test</scope>
        </dependency>
      </dependencies>
      <build>
        <pluginManagement><!-- lock down plugins versions to avoid using Maven defaults (may be moved to parent pom) -->
           ... lots of helpful plugins
        </pluginManagement>
      </build>
    </project>
        "###;

    let parsed = PomParser::from_str(pom);
    println!("{:?}", parsed);
    assert!(parsed.is_ok());
}

#[test]
fn pom_fields_are_read_from_their_positions() {
    let pom = r#"<project>
      <parent><groupId>org.parent</groupId><artifactId>base</artifactId><version>7</version></parent>
      <artifactId>child</artifactId>
      <groupId>org.child</groupId>
      <packaging>war</packaging>
      <build><plugins><plugin><groupId>org.apache</groupId><artifactId>plugin</artifactId><version>9</version></plugin></plugins></build>
      <properties><lib.version>2.1</lib.version><empty></empty></properties>
      <dependencies>
        <dependency><groupId>x</groupId><artifactId>y</artifactId><version>${lib.version}</version><type>zip</type><classifier>c</classifier><scope>runtime</scope></dependency>
      </dependencies>
    </project>"#;
    let p = PomParser::from_str(pom).unwrap();
    assert_eq!(p.artifact.group_id, GroupId::from("org.child"));
    assert_eq!(p.artifact.artifact_id, ArtifactId::from("child"));
    assert_eq!(p.artifact.extension, Some(String::from("war")));
    assert_eq!(p.artifact.version, Some(Version::from("7")));
    let parent = p.parent.clone().unwrap();
    assert_eq!(parent.to_string(), "org.parent:base:7");
    assert_eq!(p.dependencies.len(), 1);
    let d = &p.dependencies[0];
    assert_eq!(d.artifact.to_string(), "x:y:zip:c:${lib.version}");
    assert_eq!(d.scope, Some(String::from("runtime")));
    assert_eq!(p.properties.get("lib.version"), Some(String::from("2.1")));
    assert_eq!(p.properties.get("empty"), Some(String::new()));
    assert_eq!(p.properties.get("project.version"), Some(String::from("7")));
    assert_eq!(p.properties.get("project.groupId"), Some(String::from("org.child")));
    assert_eq!(p.properties.get("missing"), None);
}

#[test]
fn pom_errors() {
    let no_group = "<project><artifactId>a</artifactId></project>";
    assert!(matches!(PomParser::from_str(no_group), Err(PomParserError::Unexpected(_))));
    let dependency_without_group = "<project><groupId>g</groupId><artifactId>a</artifactId><dependencies><dependency><artifactId>y</artifactId></dependency></dependencies></project>";
    assert!(matches!(PomParser::from_str(dependency_without_group), Err(PomParserError::Unexpected(_))));
    let parent_without_version = "<project><parent><groupId>g</groupId><artifactId>p</artifactId></parent><groupId>g</groupId><artifactId>a</artifactId></project>";
    assert!(matches!(PomParser::from_str(parent_without_version), Err(PomParserError::Unexpected(_))));
    assert!(matches!(PomParser::from_str("<project><groupId>"), Err(PomParserError::Xml(_))));
}

#[test]
fn properties_later_entries_win() {
    let mut props = Properties::new();
    props.insert(String::from("a"), String::from("1"));
    props.insert(String::from("b"), String::from("2"));
    props.insert(String::from("a"), String::from("3"));
    assert_eq!(props.get("a"), Some(String::from("3")));
    assert_eq!(props.get("b"), Some(String::from("2")));
    let mut other = Properties::new();
    other.insert(String::from("b"), String::from("4"));
    props.extend(&other);
    assert_eq!(props.get("b"), Some(String::from("4")));
}

#[test]
fn project_new_is_empty() {
    let p = Project::new(Artifact::parse("g:a:1").unwrap());
    assert!(p.parent.is_none());
    assert!(p.dependencies.is_empty());
    assert!(p.dependency_management.dependencies.is_empty());
    assert_eq!(p.properties.get("project.version"), None);
}
