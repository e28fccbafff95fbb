use jbx::catalog::{
    put_catalog_entry, set_list_member, set_text_member,
    catalog_ref_plan, catalog_script_plan,
    alias_name_from_ref, alias_remove, all_catalog_templates, join_url_path, read_catalog_aliases,
    read_catalog_refs, read_catalog_templates, script_ref_plan, validate_catalog_entry_name,
    CatalogError, Json, PathPlan,
};
use std::path::Path;

fn s(t: &str) -> Json {
    Json::Str(t.to_string())
}

fn obj(members: Vec<(&str, Json)>) -> Json {
    Json::Object(members.into_iter().map(|(k, v)| (k.to_string(), v)).collect())
}

#[test]
fn alias_names_come_from_script_file_names() {
    assert_eq!(alias_name_from_ref("https://e.com/x/hello.java?raw=1").unwrap(), "hello");
    assert_eq!(alias_name_from_ref("scripts\\tool.jsh").unwrap(), "tool");
    assert_eq!(alias_name_from_ref("app.kt").unwrap(), "app");
    assert_eq!(alias_name_from_ref("noext").unwrap(), "noext");
    assert!(matches!(alias_name_from_ref(".java"), Err(CatalogError::NoAliasName(_))));
}

#[test]
fn entry_names_start_with_a_letter() {
    assert!(validate_catalog_entry_name("my-alias_2").is_ok());
    assert!(matches!(validate_catalog_entry_name(""), Err(CatalogError::EmptyName)));
    assert!(matches!(validate_catalog_entry_name("2x"), Err(CatalogError::InvalidName(_))));
    assert!(matches!(validate_catalog_entry_name("a.b"), Err(CatalogError::InvalidName(_))));
}

#[test]
fn url_paths_join_with_one_slash() {
    assert_eq!(join_url_path("https://e.com/base/", "/x/y.java"), "https://e.com/base/x/y.java");
    assert_eq!(join_url_path("https://e.com", "y.java"), "https://e.com/y.java");
}

#[test]
fn script_references_are_planned_by_kind() {
    assert!(matches!(script_ref_plan(None, "https://e/a.java", false, false), PathPlan::Text(t) if t == "https://e/a.java"));
    assert!(matches!(script_ref_plan(Some("https://e/base"), "a.java", false, false), PathPlan::Text(t) if t == "https://e/base/a.java"));
    assert!(matches!(script_ref_plan(Some("/abs"), "a.java", false, true), PathPlan::Under(b, r) if b == "/abs" && r == "a.java"));
    assert!(matches!(script_ref_plan(Some("rel"), "a.java", false, false), PathPlan::InCatalogDir(p) if p == vec!["rel", "a.java"]));
    assert!(matches!(script_ref_plan(None, "a.java", false, false), PathPlan::InCatalogDir(p) if p == vec!["a.java"]));
    assert!(matches!(script_ref_plan(Some("rel"), "/x/a.java", true, false), PathPlan::Text(t) if t == "/x/a.java"));
}

#[test]
fn aliases_are_read_sorted_with_their_options() {
    let catalog = obj(vec![
        ("base-ref", s("scripts")),
        (
            "aliases",
            obj(vec![
                ("zeta", obj(vec![("script-ref", s("z.java"))])),
                (
                    "alpha",
                    obj(vec![
                        ("scriptRef", s("a.java")),
                        ("description", s("First")),
                        ("dependencies", Json::Array(vec![s("g:a:1"), Json::Number("3".into()), s("g:b:2")])),
                        ("runtime-options", s("-Xmx1g -Dx=1")),
                        ("java-options", Json::Array(vec![s("-ea")])),
                        ("java-agents", Json::Array(vec![s("agent.jar=opt")])),
                        ("java", s("21")),
                    ]),
                ),
                ("broken", obj(vec![("description", s("no script"))])),
            ]),
        ),
    ]);
    let aliases = read_catalog_aliases(&catalog, Path::new("/cat"));
    assert_eq!(aliases.len(), 2);
    assert_eq!(aliases[0].name, "alpha");
    assert_eq!(aliases[0].script_ref, "a.java");
    assert_eq!(aliases[0].description.as_deref(), Some("First"));
    assert_eq!(aliases[0].deps, vec!["g:a:1", "g:b:2"]);
    assert_eq!(aliases[0].runtime_options, vec!["-Xmx1g", "-Dx=1", "-ea"]);
    assert_eq!(aliases[0].java_agents[0].key, "agent.jar");
    assert_eq!(aliases[0].java_agents[0].value.as_deref(), Some("opt"));
    assert_eq!(aliases[0].java_version.as_deref(), Some("21"));
    assert_eq!(aliases[0].script, Path::new("/cat/scripts/a.java"));
    assert_eq!(aliases[1].name, "zeta");
}

#[test]
fn catalog_refs_and_templates_are_read() {
    let catalog = obj(vec![
        (
            "catalogs",
            obj(vec![
                ("team", obj(vec![("catalog-ref", s("team")), ("import", Json::Bool(true))])),
                ("other", obj(vec![("catalogRef", s("/abs/jbang-catalog.json")), ("description", s("d"))])),
            ]),
        ),
        (
            "templates",
            obj(vec![(
                "web",
                obj(vec![
                    ("description", s("Web app")),
                    ("file-refs", obj(vec![("{basename}.java", s("tpl/Web.java")), ("bad", Json::Null)])),
                    ("properties", obj(vec![("port", obj(vec![("default", s("8080"))])), ("host", obj(vec![]))])),
                ]),
            )]),
        ),
    ]);
    let refs = read_catalog_refs(&catalog, Path::new("/cat"));
    assert_eq!(refs.len(), 2);
    assert_eq!(refs[0].name, "other");
    assert_eq!(refs[0].catalog, Path::new("/abs/jbang-catalog.json"));
    assert!(!refs[0].import_items);
    assert_eq!(refs[1].name, "team");
    assert!(refs[1].import_items);
    assert_eq!(refs[1].catalog, Path::new("/cat/team/jbang-catalog.json"));
    let templates = read_catalog_templates(&catalog, Path::new("/cat"));
    assert_eq!(templates.len(), 1);
    assert_eq!(templates[0].file_refs, vec![("{basename}.java".to_string(), "tpl/Web.java".to_string())]);
    assert_eq!(templates[0].properties, vec![("port".to_string(), Some("8080".to_string())), ("host".to_string(), None)]);
    let all = all_catalog_templates(templates);
    let names: Vec<&str> = all.iter().map(|t| t.name.as_str()).collect();
    assert_eq!(names, vec!["agent", "cli", "compact", "hello", "java", "test", "web"]);
}

#[test]
fn removing_an_alias() {
    let mut catalog = obj(vec![("aliases", obj(vec![("a", obj(vec![])), ("b", obj(vec![]))]))]);
    assert!(alias_remove(&mut catalog, "a").unwrap());
    match &catalog {
        Json::Object(m) => match &m[0].1 {
            Json::Object(a) => {
                assert_eq!(a.len(), 1);
                assert_eq!(a[0].0, "b");
            }
            _ => panic!("aliases is not an object"),
        },
        _ => panic!("catalog is not an object"),
    }
    assert!(!alias_remove(&mut catalog, "a").unwrap());
    assert!(matches!(alias_remove(&mut catalog, "bad name"), Err(CatalogError::InvalidName(_))));
    let mut not_object = Json::Array(vec![]);
    assert!(!alias_remove(&mut not_object, "a").unwrap());
}

#[test]
fn catalog_references_are_planned_on_their_text() {
    assert!(matches!(catalog_script_plan(None, "a.java"), PathPlan::InCatalogDir(p) if p == vec!["a.java".to_string()]));
    assert!(matches!(catalog_script_plan(Some("scripts"), "a.java"),
        PathPlan::InCatalogDir(p) if p == vec!["scripts".to_string(), "a.java".to_string()]));
    assert!(matches!(catalog_script_plan(Some("/opt/s"), "a.java"),
        PathPlan::Under(b, r) if b == "/opt/s" && r == "a.java"));
    assert!(matches!(catalog_script_plan(Some("https://h/x/"), "a.java"), PathPlan::Text(t) if t == "https://h/x/a.java"));
    assert!(matches!(catalog_script_plan(None, "https://h/a.java"), PathPlan::Text(t) if t == "https://h/a.java"));
    assert!(matches!(catalog_ref_plan("team"), PathPlan::InCatalogDir(p) if p == vec!["team".to_string(), "jbang-catalog.json".to_string()]));
    assert!(matches!(catalog_ref_plan("team/jbang-catalog.json"), PathPlan::InCatalogDir(p) if p == vec!["team/jbang-catalog.json".to_string()]));
    assert!(matches!(catalog_ref_plan("/abs/team"), PathPlan::Under(b, f) if b == "/abs/team" && f == "jbang-catalog.json"));
    assert!(matches!(catalog_ref_plan("/abs/jbang-catalog.json"), PathPlan::Text(t) if t == "/abs/jbang-catalog.json"));
}

#[test]
fn catalog_entries_are_put_into_their_section() {
    let mut catalog = Json::Object(vec![("aliases".to_string(), Json::Object(vec![("a".to_string(), Json::Null)]))]);
    assert!(matches!(
        put_catalog_entry(&mut catalog, "aliases", "a", Json::Bool(true), false),
        Err(CatalogError::Exists(n)) if n == "a"
    ));
    assert!(put_catalog_entry(&mut catalog, "aliases", "a", Json::Bool(true), true).is_ok());
    assert!(put_catalog_entry(&mut catalog, "catalogs", "team", Json::Null, false).is_ok());
    match &catalog {
        Json::Object(m) => {
            assert_eq!(m.len(), 2);
            assert!(matches!(&m[0].1, Json::Object(a) if a.len() == 1 && matches!(a[0].1, Json::Bool(true))));
            assert_eq!(m[1].0, "catalogs");
            assert!(matches!(&m[1].1, Json::Object(c) if c.len() == 1 && c[0].0 == "team"));
        }
        _ => panic!("catalog is not an object"),
    }
    let mut not_object = Json::Array(vec![]);
    assert!(matches!(
        put_catalog_entry(&mut not_object, "aliases", "a", Json::Null, true),
        Err(CatalogError::NotAnObject)
    ));
    let mut entry: Vec<(String, Json)> = Vec::new();
    set_text_member(&mut entry, "description", Some(String::new()));
    set_list_member(&mut entry, "deps", Vec::new());
    assert!(entry.is_empty());
    set_list_member(&mut entry, "deps", vec!["g:a:1".to_string()]);
    set_text_member(&mut entry, "java", Some("21".to_string()));
    assert_eq!(entry.len(), 2);
    assert!(matches!(&entry[0].1, Json::Array(a) if a.len() == 1 && matches!(&a[0], Json::Str(x) if x == "g:a:1")));
}
