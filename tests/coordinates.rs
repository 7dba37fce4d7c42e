use maven_coordinates::{Coordinates, ParseError};

fn parse(s: &str) -> Coordinates {
    Coordinates::parse(s).unwrap()
}

#[test]
fn parses_three_parts() {
    let c = parse("io.github.brawaru:artifact:1.0.0-SNAPSHOT");
    assert_eq!(c.group_id, "io.github.brawaru");
    assert_eq!(c.artifact_id, "artifact");
    assert_eq!(c.version, "1.0.0");
    assert_eq!(c.version_label.as_deref(), Some("SNAPSHOT"));
    assert_eq!(c.packaging, "jar");
    assert_eq!(c.classifier, None);
    assert_eq!(c.file_name(), "artifact-1.0.0-SNAPSHOT.jar");
}

#[test]
fn parses_five_parts() {
    let c = parse("io.github.brawaru:artifact:1.0.0-SNAPSHOT:jar:sources");
    assert_eq!(c.file_basename(), "artifact-1.0.0-SNAPSHOT-sources");
    assert_eq!(c.file_name(), "artifact-1.0.0-SNAPSHOT-sources.jar");
    assert_eq!(c.classifier.as_deref(), Some("sources"));
}

#[test]
fn parses_four_parts() {
    let c = parse("org.example:lib:2.1:pom");
    assert_eq!(c.group_id(), "org.example");
    assert_eq!(c.artifact_id(), "lib");
    assert_eq!(c.version(), "2.1");
    assert_eq!(c.version_label(), None);
    assert_eq!(c.packaging(), "pom");
    assert_eq!(c.classifier(), None);
}

#[test]
fn path_with_backslash() {
    let c = parse("io.github.brawaru:artifact:1.0.0-SNAPSHOT");
    assert_eq!(
        c.as_path_with_separator('\\'),
        "io\\github\\brawaru\\artifact\\1.0.0-SNAPSHOT\\artifact-1.0.0-SNAPSHOT.jar"
    );
}

#[test]
fn path_with_slash() {
    let c = parse("com.mojang:brigadier:1.0.18");
    assert_eq!(c.to_path(), "com/mojang/brigadier/1.0.18/brigadier-1.0.18.jar");
}

#[test]
fn path_of_group_with_empty_segments() {
    let c = parse("a..b:x:1");
    assert_eq!(c.to_path(), "a//b/x/1/x-1.jar");
}

#[test]
fn too_few_parts_fail() {
    assert!(matches!(Coordinates::parse("group:artifact"), Err(ParseError::InvalidInput)));
    assert!(matches!(Coordinates::parse(""), Err(ParseError::InvalidInput)));
    assert!(matches!(Coordinates::parse("group"), Err(ParseError::InvalidInput)));
}

#[test]
fn new_accepts_owned_and_borrowed() {
    let a = Coordinates::new("g:a:1").unwrap();
    let b = Coordinates::new(String::from("g:a:1")).unwrap();
    assert_eq!(a.to_string(), b.to_string());
    assert!(matches!(Coordinates::new("g:a"), Err(ParseError::InvalidInput)));
}

#[test]
fn version_splitting() {
    let c = parse("g:a:1.0.0-SNAPSHOT");
    assert_eq!(c.version, "1.0.0");
    assert_eq!(c.version_label.as_deref(), Some("SNAPSHOT"));
    let c = parse("g:a:1.0.0");
    assert_eq!(c.version, "1.0.0");
    assert_eq!(c.version_label, None);
}

#[test]
fn version_split_at_last_dash() {
    let c = parse("g:a:1.0-beta-2");
    assert_eq!(c.version, "1.0-beta");
    assert_eq!(c.version_label.as_deref(), Some("2"));
    assert_eq!(c.full_version(), "1.0-beta-2");
}

#[test]
fn trailing_dash_gives_empty_label() {
    let c = parse("g:a:1.0-");
    assert_eq!(c.version, "1.0");
    assert_eq!(c.version_label.as_deref(), Some(""));
    assert_eq!(c.full_version(), "1.0-");
}

#[test]
fn full_version_rejoins_token() {
    for token in ["1.0.0-SNAPSHOT", "1.0.0", "-", "a-b-c", ""] {
        let c = parse(&format!("g:a:{}", token));
        assert_eq!(c.full_version(), token);
    }
}

#[test]
fn empty_packaging_is_kept() {
    let c = parse("g:a:1::");
    assert_eq!(c.packaging, "");
    assert_eq!(c.classifier.as_deref(), Some(""));
    assert_eq!(c.file_name(), "a-1-.");
}

#[test]
fn extra_parts_are_ignored() {
    let c = parse("g:a:1:zip:linux:extra:more");
    assert_eq!(c.packaging, "zip");
    assert_eq!(c.classifier.as_deref(), Some("linux"));
    assert_eq!(c.to_string(), "g:a:1:zip:linux");
}

#[test]
fn resolve_trailing_slash_normalised() {
    let c = parse("io.github.brawaru:artifact:1.0.0-SNAPSHOT");
    let a = c.resolve("https://host/maven");
    let b = c.resolve("https://host/maven/");
    assert_eq!(a, b);
    assert_eq!(
        a,
        "https://host/maven/io/github/brawaru/artifact/1.0.0-SNAPSHOT/artifact-1.0.0-SNAPSHOT.jar"
    );
}

#[test]
fn resolve_empty_base() {
    let c = parse("g:a:1");
    assert_eq!(c.resolve(""), "/g/a/1/a-1.jar");
}

#[test]
fn setters_show_in_derived_strings() {
    let mut c = parse("io.github.brawaru:artifact:1.0.0-SNAPSHOT");
    c.set_version(String::from("2.0.0"));
    assert_eq!(c.full_version(), "2.0.0-SNAPSHOT");
    assert_eq!(c.file_name(), "artifact-2.0.0-SNAPSHOT.jar");
    assert_eq!(c.to_path(), "io/github/brawaru/artifact/2.0.0-SNAPSHOT/artifact-2.0.0-SNAPSHOT.jar");
    assert_eq!(c.to_string(), "io.github.brawaru:artifact:2.0.0-SNAPSHOT");
    c.set_version_label(None);
    c.set_classifier(Some(String::from("sources")));
    c.set_packaging(String::from("zip"));
    c.set_artifact_id(String::from("other"));
    c.set_group_id(String::from("org.x"));
    assert_eq!(c.file_basename(), "other-2.0.0-sources");
    assert_eq!(c.to_path(), "org/x/other/2.0.0/other-2.0.0-sources.zip");
    assert_eq!(c.to_string(), "org.x:other:2.0.0:zip:sources");
}

#[test]
fn setters_do_not_validate() {
    let mut c = parse("g:a:1");
    c.set_group_id(String::from("a:b"));
    assert_eq!(c.group_id(), "a:b");
    assert_eq!(c.to_string(), "a:b:a:1");
}

#[test]
fn to_string_omits_default_packaging() {
    assert_eq!(parse("g:a:1.0").to_string(), "g:a:1.0");
    assert_eq!(parse("g:a:1.0:jar").to_string(), "g:a:1.0");
}

#[test]
fn to_string_with_other_packaging() {
    assert_eq!(parse("g:a:1.0:pom").to_string(), "g:a:1.0:pom");
}

#[test]
fn to_string_with_classifier() {
    assert_eq!(parse("g:a:1.0:jar:sources").to_string(), "g:a:1.0:jar:sources");
    assert_eq!(parse("g:a:1.0-rc1:war:jdk11").to_string(), "g:a:1.0-rc1:war:jdk11");
}

#[test]
fn string_parse_round_trip() {
    for s in ["g.h:a:1.0-SNAPSHOT", "g:a:1:pom", "g:a:1-rc:jar:src", "g:a:1:jar"] {
        let c = parse(s);
        let d = parse(&c.to_string());
        assert_eq!(c.group_id, d.group_id);
        assert_eq!(c.artifact_id, d.artifact_id);
        assert_eq!(c.version, d.version);
        assert_eq!(c.version_label, d.version_label);
        assert_eq!(c.packaging, d.packaging);
        assert_eq!(c.classifier, d.classifier);
    }
}

#[test]
fn clones_are_independent() {
    let c = parse("g:a:1");
    let mut d = c.clone();
    d.set_version(String::from("2"));
    assert_eq!(c.version(), "1");
    assert_eq!(d.version(), "2");
}
