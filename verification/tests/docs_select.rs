use jbx::catalog::Json;
use jbx::directives::{parse_directives, KeyValue};
use jbx::docs::DocsCoordinate;
use jbx::docs_select::{
    docs_artifact_url, docs_json, docs_repositories, docs_source_json, docs_type_matches_filters,
    filter_docs_types, filter_model_types, key_values_json, looks_like_docs_coordinate, repo_json,
    simple_glob_match, sort_docs_types, split_docs_coordinate, tools_payload, DocsCoordinateError,
};
use jbx::publish::PublishError;
use jbx::resolver::Repository;

fn ty(name: &str, qualified: &str) -> Json {
    Json::Object(vec![("name".into(), Json::Str(name.into())), ("qualifiedName".into(), Json::Str(qualified.into()))])
}

fn member<'a>(j: &'a Json, key: &str) -> &'a Json {
    match j {
        Json::Object(m) => &m.iter().find(|(k, _)| k == key).unwrap().1,
        _ => panic!("not an object"),
    }
}

fn text<'a>(j: &'a Json, key: &str) -> &'a str {
    match member(j, key) {
        Json::Str(s) => s.as_str(),
        other => panic!("not text: {:?}", other),
    }
}

#[test]
fn globs_and_filters() {
    assert!(simple_glob_match("*", "x"));
    assert!(simple_glob_match("*Test", "CalcTest"));
    assert!(simple_glob_match("Calc*", "Calculator"));
    assert!(!simple_glob_match("Calc", "Calc"));
    let calc = ty("Calc", "org.example.Calc");
    let filters = |v: &[&str]| v.iter().map(|s| s.to_string()).collect::<Vec<_>>();
    assert!(docs_type_matches_filters(&calc, &filters(&[" Calc "])));
    assert!(docs_type_matches_filters(&calc, &filters(&["example.Calc"])));
    assert!(docs_type_matches_filters(&calc, &filters(&["org.*"])));
    assert!(!docs_type_matches_filters(&calc, &filters(&["Other", "ample.Calc"])));
    let kept = filter_docs_types(vec![ty("A", "p.A"), ty("B", "p.B")], &filters(&["B"]));
    assert_eq!(kept.len(), 1);
    assert_eq!(text(&kept[0], "name"), "B");
    assert_eq!(filter_docs_types(vec![ty("A", "p.A")], &vec![]).len(), 1);
    let model = Json::Object(vec![("schema".into(), Json::Str("s".into())), ("types".into(), Json::Array(vec![ty("A", "p.A"), ty("B", "p.B")]))]);
    let narrowed = filter_model_types(model, &filters(&["A"]));
    match member(&narrowed, "types") {
        Json::Array(v) => assert_eq!(v.len(), 1),
        _ => panic!("no types"),
    }
}

#[test]
fn docs_types_sort_by_qualified_name() {
    let sorted = sort_docs_types(vec![ty("B", "p.B"), ty("A", "p.A"), ty("Z", "a.Z")]);
    let names: Vec<&str> = sorted.iter().map(|t| text(t, "qualifiedName")).collect();
    assert_eq!(names, vec!["a.Z", "p.A", "p.B"]);
}

#[test]
fn docs_coordinates() {
    assert!(looks_like_docs_coordinate("org.acme:lib"));
    assert!(looks_like_docs_coordinate("org.acme:lib:1.0"));
    assert!(!looks_like_docs_coordinate("org.acme:lib:1.0:all"));
    assert!(!looks_like_docs_coordinate("https://x:y"));
    assert!(!looks_like_docs_coordinate("Lib.java"));
    let (g, a, v) = split_docs_coordinate("org.acme:lib:1.0").unwrap();
    assert_eq!((g.as_str(), a.as_str(), v.as_deref()), ("org.acme", "lib", Some("1.0")));
    assert_eq!(split_docs_coordinate("org.acme:lib").unwrap().2, None);
    assert!(matches!(split_docs_coordinate("lib"), Err(DocsCoordinateError::NotCoordinates)));
    assert!(matches!(split_docs_coordinate("org..acme:lib"), Err(DocsCoordinateError::Invalid(PublishError::InvalidGroup(_)))));
    assert!(matches!(split_docs_coordinate("org.acme:..:1"), Err(DocsCoordinateError::Invalid(PublishError::InvalidPart(n, _))) if n == "id"));
}

#[test]
fn docs_urls_and_repositories() {
    let repo = Repository { id: "central".into(), url: "https://repo1.maven.org/maven2/".into() };
    let c = DocsCoordinate { group: "org.acme".into(), id: "lib".into(), version: "1.0".into() };
    assert_eq!(docs_artifact_url(&repo, &c, "lib-1.0-javadoc.jar"), "https://repo1.maven.org/maven2/org/acme/lib/1.0/lib-1.0-javadoc.jar");
    let repos = vec![
        Repository { id: "central".into(), url: "c".into() },
        Repository { id: "a".into(), url: "a".into() },
        Repository { id: "b".into(), url: "b".into() },
    ];
    let ordered: Vec<String> = docs_repositories(repos).into_iter().map(|r| r.id).collect();
    assert_eq!(ordered, vec!["a", "b", "central"]);
}

#[test]
fn directives_as_json() {
    let r = repo_json("acme=https://repo.acme.org");
    assert_eq!(text(&r, "id"), "acme");
    assert_eq!(text(&r, "url"), "https://repo.acme.org");
    let r = repo_json("https://repo.acme.org");
    assert!(matches!(member(&r, "id"), Json::Null));
    let kvs = vec![KeyValue { key: "a.jar".into(), value: Some("x".into()) }, KeyValue { key: "b.jar".into(), value: None }];
    match key_values_json(&kvs) {
        Json::Array(v) => {
            assert_eq!(text(&v[0], "value"), "x");
            assert!(matches!(member(&v[1], "value"), Json::Null));
        }
        _ => panic!("not an array"),
    }
    let docs = vec![
        KeyValue { key: "README.md".into(), value: None },
        KeyValue { key: "guide".into(), value: Some("docs/guide.md".into()) },
        KeyValue { key: "USAGE.md".into(), value: None },
    ];
    let j = docs_json(&docs);
    match &j {
        Json::Object(m) => {
            assert_eq!(m.len(), 2);
            assert_eq!(m[0].0, "main");
            match &m[0].1 {
                Json::Array(v) => {
                    assert_eq!(v.len(), 2);
                    assert_eq!(text(&v[1], "originalResource"), "USAGE.md");
                }
                _ => panic!("not an array"),
            }
            assert_eq!(m[1].0, "guide");
        }
        _ => panic!("not an object"),
    }
}

#[test]
fn source_and_tools_json() {
    let d = parse_directives("//DESCRIPTION Adds\n//DEPS a:b:1\n//DOCS README.md\n//JAVA 21\n//REPOS acme=https://r\n");
    let c = DocsCoordinate { group: "g".into(), id: "a".into(), version: "1".into() };
    let j = docs_source_json("src/Calc.java", "Calc.java", &d, Some(&c));
    assert_eq!(text(&j, "name"), "Calc.java");
    assert_eq!(text(&j, "description"), "Adds");
    assert_eq!(text(&j, "java"), "21");
    assert!(matches!(member(&j, "main"), Json::Null));
    assert_eq!(text(member(&j, "artifact"), "coordinate"), "g:a:1");
    let t = tools_payload("Calc.java", "/c", &Some("Calc".into()), &vec!["/x.jar".into()], &d);
    assert_eq!(text(&t, "originalResource"), "Calc.java");
    assert_eq!(text(&t, "mainClass"), "Calc");
    match member(&t, "repositories") {
        Json::Array(v) => assert_eq!(text(&v[0], "id"), "acme"),
        _ => panic!("no repositories"),
    }
    assert!(matches!(member(&t, "applicationJar"), Json::Null));
    assert!(matches!(member(&t, "enablePreview"), Json::Bool(false)));
}
