use jbx::resolver::{parse_coordinate, sanitize_path_segment, Module, Repository, Scope};
use jbx::version::{pick_higher_version, select_version_from_range};

#[test]
fn parses_simple_coordinate() {
    let dep = parse_coordinate("com.google:guava:33.0.0").unwrap();
    assert_eq!(dep.module.org, "com.google");
    assert_eq!(dep.module.name, "guava");
    assert_eq!(dep.version, "33.0.0");
}

#[test]
fn rejects_invalid_coordinate() {
    assert!(parse_coordinate("com.google:guava").is_err());
    assert!(parse_coordinate("").is_err());
}

#[test]
fn sanitize_path_segment_blocks_traversal() {
    assert_eq!(sanitize_path_segment("../../etc"), "_dotdot___dotdot__etc");
    assert_eq!(sanitize_path_segment("foo/bar"), "foo_bar");
    assert_eq!(sanitize_path_segment("foo\\bar"), "foo_bar");
    assert_eq!(sanitize_path_segment("normal"), "normal");
}

#[test]
fn version_comparison() {
    assert_eq!(pick_higher_version("1.0", "2.0"), "2.0");
    assert_eq!(pick_higher_version("2.0", "1.0"), "2.0");
    assert_eq!(pick_higher_version("1.0.0", "1.0.1"), "1.0.1");
    assert_eq!(pick_higher_version("1.0.0", "1.0.0"), "1.0.0");
    assert_eq!(
        pick_higher_version("33.3.1-jre", "33.3.0-jre"),
        "33.3.1-jre"
    );
    // Release beats SNAPSHOT (SNAPSHOT is pre-release)
    assert_eq!(pick_higher_version("2.0.0-SNAPSHOT", "2.0.0"), "2.0.0");
    assert_eq!(pick_higher_version("2.0.0", "2.0.0-SNAPSHOT"), "2.0.0");
    // Release beats alpha/beta/RC
    assert_eq!(pick_higher_version("1.0-alpha1", "1.0"), "1.0");
    assert_eq!(pick_higher_version("1.0", "1.0-beta1"), "1.0");
    assert_eq!(pick_higher_version("1.0-RC1", "1.0"), "1.0");
    // RC beats beta beats alpha
    assert_eq!(pick_higher_version("1.0-alpha1", "1.0-beta1"), "1.0-beta1");
    assert_eq!(pick_higher_version("1.0-beta1", "1.0-RC1"), "1.0-RC1");
    assert_eq!(pick_higher_version("1.0-RC1", "1.0-SNAPSHOT"), "1.0-RC1");
    // Longer release version beats shorter (1.0.0 > 1.0)
    assert_eq!(pick_higher_version("1.0", "1.0.0"), "1.0.0");
}

#[test]
fn version_range_selects_highest_matching_metadata_version() {
    let versions = vec![
        "1.79".to_string(),
        "1.80".to_string(),
        "1.80.1".to_string(),
        "1.81".to_string(),
    ];
    assert_eq!(
        select_version_from_range("[1.80,1.81)", &versions).unwrap(),
        "1.80.1"
    );
}

#[test]
fn classifier_is_parsed_from_four_segment_coordinate() {
    let dep = parse_coordinate("org.example:lib:sources:1.0").unwrap();
    assert_eq!(dep.module.org, "org.example");
    assert_eq!(dep.module.name, "lib");
    assert_eq!(dep.classifier, Some("sources".to_string()));
    assert_eq!(dep.version, "1.0");
}

#[test]
fn classifier_is_none_from_three_segment_coordinate() {
    let dep = parse_coordinate("org.example:lib:1.0").unwrap();
    assert_eq!(dep.classifier, None);
}

#[test]
fn version_ranges_with_open_and_exact_bounds() {
    let versions: Vec<String> = ["1.0", "1.5", "2.0", "2.1"].iter().map(|s| s.to_string()).collect();
    assert_eq!(select_version_from_range("[1.5,)", &versions).as_deref(), Some("2.1"));
    assert_eq!(select_version_from_range("(,2.0]", &versions).as_deref(), Some("2.0"));
    assert_eq!(select_version_from_range("(,2.0)", &versions).as_deref(), Some("1.5"));
    assert_eq!(select_version_from_range("[1.5]", &versions).as_deref(), Some("1.5"));
    assert_eq!(select_version_from_range("[3.0,4.0)", &versions), None);
    assert_eq!(select_version_from_range("1.5", &versions), None);
    assert_eq!(select_version_from_range("[", &versions), None);
}

#[test]
fn version_numbers_compare_numerically_and_qualifiers_case_insensitively() {
    assert_eq!(pick_higher_version("1.10", "1.9"), "1.10");
    assert_eq!(pick_higher_version("1.0-Alpha2", "1.0-BETA1"), "1.0-BETA1");
    assert_eq!(pick_higher_version("1.0-m", "1.0-rc1"), "1.0-rc1");
    // Only a bare `m` counts as a milestone; `M1` ranks as a release part.
    assert_eq!(pick_higher_version("1.0-M1", "1.0-rc1"), "1.0-M1");
    assert_eq!(pick_higher_version("1.0.x", "1.0.y"), "1.0.y");
}

#[test]
fn scopes_and_exclusions() {
    assert_eq!(Scope::parse_scope("runtime"), Scope::Runtime);
    assert_eq!(Scope::parse_scope("weird"), Scope::Compile);
    assert!(Scope::parse_scope("compile").is_in_classpath());
    assert!(!Scope::parse_scope("test").is_in_classpath());
    let module = Module { org: "com.google".into(), name: "guava".into() };
    let ex = jbx::resolver::Exclusion { org: "*".into(), name: "guava".into() };
    assert!(ex.matches(&module));
    let ex2 = jbx::resolver::Exclusion { org: "org.other".into(), name: "*".into() };
    assert!(!ex2.matches(&module));
}

#[test]
fn repository_urls() {
    let repo = Repository { id: "r".into(), url: "https://repo.example.org/m2//".into() };
    let module = Module { org: "org.slf4j".into(), name: "slf4j-api".into() };
    assert_eq!(repo.metadata_url(&module), "https://repo.example.org/m2/org/slf4j/slf4j-api/maven-metadata.xml");
    assert_eq!(repo.pom_url(&module, "2.0.13"), "https://repo.example.org/m2/org/slf4j/slf4j-api/2.0.13/slf4j-api-2.0.13.pom");
    assert_eq!(repo.jar_url(&module, "2.0.13", Some("sources")), "https://repo.example.org/m2/org/slf4j/slf4j-api/2.0.13/slf4j-api-2.0.13-sources.jar");
    assert_eq!(Repository::central().url, "https://repo1.maven.org/maven2");
}
