use jbx::catalog::Json;
use jbx::descriptor::{
    build_publish_descriptor, github_developer_from_owner, github_license_from_json,
    github_publish_metadata, no_descriptor, optional_object_string, parse_descriptor_coordinates,
    parse_descriptor_developers, parse_descriptor_licenses, parse_descriptor_scm,
    read_descriptor_fields, required_object_string, string_array, DescriptorFields,
    InferredPublishMetadata,
};
use jbx::directives::parse_directives;
use jbx::publish::{PublishError, PublishLicense};
use std::path::PathBuf;

fn s(v: &str) -> Json {
    Json::Str(v.to_string())
}

fn obj(members: Vec<(&str, Json)>) -> Json {
    Json::Object(members.into_iter().map(|(k, v)| (k.to_string(), v)).collect())
}

fn arr(items: Vec<Json>) -> Json {
    Json::Array(items)
}

fn full_descriptor() -> Json {
    obj(vec![
        ("main", s("Hello.java")),
        ("group", s("org.example")),
        ("id", s("hello")),
        ("version", s("1.2.3")),
        ("package", s("org.example.hello")),
        ("name", s("Hello")),
        ("url", s("https://example.org/hello")),
        ("licenses", arr(vec![obj(vec![("name", s("Apache-2.0")), ("url", s("https://apache.org/licenses"))])])),
        ("developers", arr(vec![obj(vec![("name", s("Ada")), ("email", s("  ada@example.org  ")), ("organization", s("   "))])])),
        ("scm", obj(vec![("connection", s("scm:git:https://example.org/hello.git")), ("url", s("https://example.org/hello"))])),
        ("java", s("21")),
        ("dependencies", arr(vec![s("org.slf4j:slf4j-api:2.0.9")])),
        ("sources", arr(vec![])),
        ("repositories", arr(vec![s("https://repo.example.org/maven")])),
    ])
}

fn read(json: &Json) -> DescriptorFields {
    match read_descriptor_fields(json) {
        Ok(f) => f,
        Err(e) => panic!("descriptor refused: {:?}", e),
    }
}

#[test]
fn required_and_optional_members() {
    let j = obj(vec![("name", s("  Ada ")), ("blank", s("  ")), ("num", Json::Number("3".into()))]);
    assert_eq!(required_object_string(&j, "name").unwrap(), "  Ada ");
    assert!(matches!(required_object_string(&j, "blank"), Err(PublishError::Required(n)) if n == "blank"));
    assert!(matches!(required_object_string(&j, "num"), Err(PublishError::Required(n)) if n == "num"));
    assert!(matches!(required_object_string(&j, "missing"), Err(PublishError::Required(n)) if n == "missing"));
    assert_eq!(optional_object_string(&j, "name"), Some("Ada".to_string()));
    assert_eq!(optional_object_string(&j, "blank"), None);
    assert_eq!(optional_object_string(&j, "num"), None);
}

#[test]
fn string_arrays_are_checked() {
    let j = obj(vec![("deps", arr(vec![s("a:b:1"), s("c:d:2")])), ("bad", arr(vec![s("x"), Json::Null])), ("text", s("a:b:1"))]);
    assert_eq!(string_array(&j, "deps").unwrap(), vec!["a:b:1".to_string(), "c:d:2".to_string()]);
    assert!(string_array(&j, "missing").unwrap().is_empty());
    assert!(matches!(string_array(&j, "bad"), Err(PublishError::NotStrings(n)) if n == "bad"));
    assert!(matches!(string_array(&j, "text"), Err(PublishError::NotStrings(n)) if n == "text"));
}

#[test]
fn coordinates_need_all_three_parts() {
    let c = parse_descriptor_coordinates(&obj(vec![("group", s("g")), ("id", s("a")), ("version", s("1"))])).unwrap();
    assert_eq!((c.group.as_str(), c.id.as_str(), c.version.as_str()), ("g", "a", "1"));
    assert!(matches!(parse_descriptor_coordinates(&obj(vec![("group", s("g")), ("version", s("1"))])), Err(PublishError::Required(n)) if n == "id"));
    assert!(matches!(parse_descriptor_coordinates(&obj(vec![("id", s("a"))])), Err(PublishError::Required(n)) if n == "group"));
    // An empty version is still a string: only blank license and developer texts are refused.
    let c = parse_descriptor_coordinates(&obj(vec![("group", s("g")), ("id", s("a")), ("version", s(""))])).unwrap();
    assert_eq!(c.version, "");
}

#[test]
fn licenses_developers_and_scm() {
    let j = full_descriptor();
    let l = parse_descriptor_licenses(&j).unwrap();
    assert_eq!(l.len(), 1);
    assert_eq!((l[0].name.as_str(), l[0].url.as_str()), ("Apache-2.0", "https://apache.org/licenses"));
    let d = parse_descriptor_developers(&j).unwrap();
    assert_eq!(d[0].name, "Ada");
    assert_eq!(d[0].email.as_deref(), Some("ada@example.org"));
    assert_eq!(d[0].organization, None);
    assert_eq!(d[0].organization_url, None);
    let scm = parse_descriptor_scm(&j).unwrap().unwrap();
    assert_eq!(scm.connection, "scm:git:https://example.org/hello.git");
    assert_eq!(scm.developer_connection, None);
    assert_eq!(scm.url, "https://example.org/hello");
    assert!(parse_descriptor_scm(&obj(vec![])).unwrap().is_none());
}

#[test]
fn refused_entries_name_the_first_problem() {
    let bad_second = obj(vec![("licenses", arr(vec![
        obj(vec![("name", s("MIT")), ("url", s("https://mit"))]),
        obj(vec![("name", s("X"))]),
        obj(vec![]),
    ]))]);
    assert!(matches!(parse_descriptor_licenses(&bad_second), Err(PublishError::Required(n)) if n == "url"));
    let not_array = obj(vec![("licenses", s("MIT"))]);
    assert!(matches!(parse_descriptor_licenses(&not_array), Err(PublishError::NotObjects(n)) if n == "licenses"));
    let not_object = obj(vec![("developers", arr(vec![s("Ada")]))]);
    assert!(matches!(parse_descriptor_developers(&not_object), Err(PublishError::Required(n)) if n == "name"));
    let scm = obj(vec![("scm", obj(vec![("url", s("u"))]))]);
    assert!(matches!(parse_descriptor_scm(&scm), Err(PublishError::Required(n)) if n == "connection"));
    let scm = obj(vec![("scm", obj(vec![("connection", s("c")), ("url", s(" "))]))]);
    assert!(matches!(parse_descriptor_scm(&scm), Err(PublishError::Required(n)) if n == "url"));
}

#[test]
fn descriptor_fields_are_read() {
    let f = read(&full_descriptor());
    assert_eq!(f.main.as_deref(), Some("Hello.java"));
    let c = f.coordinates.as_ref().unwrap();
    assert_eq!((c.group.as_str(), c.id.as_str(), c.version.as_str()), ("org.example", "hello", "1.2.3"));
    assert_eq!(f.package_name.as_deref(), Some("org.example.hello"));
    assert_eq!(f.java_version.as_deref(), Some("21"));
    assert_eq!(f.deps, vec!["org.slf4j:slf4j-api:2.0.9".to_string()]);
    assert!(f.sources.is_empty());
    assert!(f.sources_present);
    assert_eq!(f.repos, vec!["https://repo.example.org/maven".to_string()]);
    let f = read(&obj(vec![("name", s("x"))]));
    assert!(f.coordinates.is_none());
    assert!(!f.sources_present);
}

#[test]
fn descriptor_refusals_come_in_order() {
    let j = obj(vec![("id", s("a")), ("licenses", s("x"))]);
    assert!(matches!(read_descriptor_fields(&j), Err(PublishError::Required(n)) if n == "group"));
    let j = obj(vec![("licenses", s("x")), ("developers", s("y"))]);
    assert!(matches!(read_descriptor_fields(&j), Err(PublishError::NotObjects(n)) if n == "licenses"));
    let j = obj(vec![("dependencies", s("a:b:1")), ("repositories", Json::Null)]);
    assert!(matches!(read_descriptor_fields(&j), Err(PublishError::NotStrings(n)) if n == "dependencies"));
    let j = obj(vec![("repositories", Json::Null)]);
    assert!(matches!(read_descriptor_fields(&j), Err(PublishError::NotStrings(n)) if n == "repositories"));
}

#[test]
fn github_license_and_owner() {
    let l = github_license_from_json(&obj(vec![("name", s("MIT License")), ("spdxId", s("MIT"))])).unwrap();
    assert_eq!(l.name, "MIT License");
    assert_eq!(l.url, "https://spdx.org/licenses/MIT.html");
    let l = github_license_from_json(&obj(vec![("name", s("Other")), ("spdxId", s(""))])).unwrap();
    assert_eq!(l.url, "https://opensource.org/licenses");
    assert!(github_license_from_json(&obj(vec![("name", s(""))])).is_none());
    let d = github_developer_from_owner(&obj(vec![("login", s("octo"))])).unwrap();
    assert_eq!(d.name, "octo");
    assert_eq!(d.organization_url.as_deref(), Some("https://github.com/octo"));
    assert!(github_developer_from_owner(&obj(vec![])).is_none());
}

#[test]
fn github_metadata_with_and_without_gh() {
    let m = github_publish_metadata("octo/hello", None);
    assert_eq!(m.url.as_deref(), Some("https://github.com/octo/hello"));
    assert!(m.license.is_none() && m.developer.is_none());
    let scm = m.scm.unwrap();
    assert_eq!(scm.connection, "scm:git:https://github.com/octo/hello.git");
    assert_eq!(scm.developer_connection.as_deref(), Some("scm:git:ssh://git@github.com/octo/hello.git"));
    assert_eq!(scm.url, "https://github.com/octo/hello");
    let gh = obj(vec![
        ("url", s("https://github.com/Octo/Hello")),
        ("licenseInfo", obj(vec![("name", s("Apache License 2.0")), ("spdxId", s("Apache-2.0"))])),
        ("owner", obj(vec![("login", s("Octo"))])),
    ]);
    let m = github_publish_metadata("octo/hello", Some(&gh));
    assert_eq!(m.url.as_deref(), Some("https://github.com/Octo/Hello"));
    assert_eq!(m.license.unwrap().url, "https://spdx.org/licenses/Apache-2.0.html");
    assert_eq!(m.developer.unwrap().name, "Octo");
}

fn github() -> Option<InferredPublishMetadata> {
    Some(github_publish_metadata("octo/hello", None))
}

#[test]
fn directives_and_github_fill_in() {
    let directives = parse_directives("//GAV org.acme:tool:2.0\n//DESCRIPTION A tool\n//JAVA 17\n//DEPS a:b:1\n//SOURCES Util.java\n");
    let d = build_publish_descriptor(PathBuf::from("Tool.java"), PathBuf::from("."), no_descriptor(), &directives, github(), None, None, false).unwrap();
    assert_eq!(d.script, PathBuf::from("Tool.java"));
    assert_eq!((d.coordinates.group.as_str(), d.coordinates.id.as_str(), d.coordinates.version.as_str()), ("org.acme", "tool", "2.0"));
    assert_eq!(d.name.as_deref(), Some("org.acme:tool"));
    assert_eq!(d.description.as_deref(), Some("A tool"));
    assert_eq!(d.url.as_deref(), Some("https://github.com/octo/hello"));
    assert!(d.licenses.is_empty());
    assert_eq!(d.java_version.as_deref(), Some("17"));
    assert_eq!(d.deps, vec!["a:b:1".to_string()]);
    assert_eq!(d.sources, vec!["Util.java".to_string()]);
    assert!(d.auto_discover_sources);
    assert!(d.scm.is_some());
}

#[test]
fn descriptor_wins_and_overrides_apply() {
    let directives = parse_directives("//GAV org.acme:tool:2.0\n//DEPS a:b:1\n");
    let f = read(&full_descriptor());
    let d = build_publish_descriptor(PathBuf::from("Hello.java"), PathBuf::from("pkg"), f, &directives, github(), Some("1.3.0".into()), Some("org.example.app".into()), true).unwrap();
    assert_eq!(d.descriptor_dir, PathBuf::from("pkg"));
    assert_eq!((d.coordinates.group.as_str(), d.coordinates.version.as_str()), ("org.example", "1.3.0"));
    assert_eq!(d.package_name.as_deref(), Some("org.example.app"));
    assert_eq!(d.name.as_deref(), Some("Hello"));
    assert_eq!(d.description.as_deref(), Some("hello published with jbx"));
    assert_eq!(d.url.as_deref(), Some("https://example.org/hello"));
    assert_eq!(d.deps, vec!["org.slf4j:slf4j-api:2.0.9".to_string()]);
    assert!(d.sources.is_empty());
    assert!(!d.auto_discover_sources);
    assert_eq!(d.scm.unwrap().connection, "scm:git:https://example.org/hello.git");
}

#[test]
fn settled_descriptor_refusals() {
    let none = parse_directives("");
    let r = build_publish_descriptor(PathBuf::from("A.java"), PathBuf::from("."), no_descriptor(), &none, None, None, None, false);
    assert!(matches!(r, Err(PublishError::NoCoordinates)));
    let bad_gav = parse_directives("//GAV org.acme:tool\n");
    let r = build_publish_descriptor(PathBuf::from("A.java"), PathBuf::from("."), no_descriptor(), &bad_gav, None, None, None, false);
    assert!(matches!(r, Err(PublishError::BadGav(_))));
    let gav = parse_directives("//GAV org.acme:tool:2.0-SNAPSHOT\n");
    let r = build_publish_descriptor(PathBuf::from("A.java"), PathBuf::from("."), no_descriptor(), &gav, None, None, None, false);
    assert!(matches!(r, Err(PublishError::Snapshot)));
    let gav = parse_directives("//GAV org..acme:tool:2.0\n");
    let r = build_publish_descriptor(PathBuf::from("A.java"), PathBuf::from("."), no_descriptor(), &gav, None, None, None, false);
    assert!(matches!(r, Err(PublishError::InvalidGroup(_))));
    let gav = parse_directives("//GAV org.acme:..:2.0\n");
    let r = build_publish_descriptor(PathBuf::from("A.java"), PathBuf::from("."), no_descriptor(), &gav, None, None, None, false);
    assert!(matches!(r, Err(PublishError::InvalidPart(n, _)) if n == "id"));
    let gav = parse_directives("//GAV org.acme:tool:2.0\n");
    let r = build_publish_descriptor(PathBuf::from("A.java"), PathBuf::from("."), no_descriptor(), &gav, None, None, Some("1bad".into()), false);
    assert!(matches!(r, Err(PublishError::InvalidPackage(p)) if p == "1bad"));
    let r = build_publish_descriptor(PathBuf::from("A.java"), PathBuf::from("."), no_descriptor(), &gav, None, None, None, true);
    assert!(matches!(r, Err(PublishError::MissingMetadata(n)) if n == "url"));
    let r = build_publish_descriptor(PathBuf::from("A.java"), PathBuf::from("."), no_descriptor(), &gav, github(), None, None, true);
    assert!(matches!(r, Err(PublishError::NoLicense)));
    let mut with_license = github_publish_metadata("octo/hello", None);
    with_license.license = Some(PublishLicense { name: "MIT".into(), url: "https://mit".into() });
    let r = build_publish_descriptor(PathBuf::from("A.java"), PathBuf::from("."), no_descriptor(), &gav, Some(with_license), None, None, true);
    assert!(matches!(r, Err(PublishError::NoDeveloper)));
}
