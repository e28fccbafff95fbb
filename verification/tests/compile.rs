use jbx::apps::{render_wrapper_script, wrapper_target, AppEntry};
use jbx::catalog::{
    PathPlan,
    find_named, merge_catalog_items, resolve_catalog_alias, sort_named, template_ref, CatalogAlias,
    CatalogTemplate, TemplateRef,
};
use jbx::compile::{
    apply_alias_to_build, apply_alias_to_run, apply_build_options, binary_deps,
    cache_project_key, declared_source_refs, dedupe_directive_lists, extend_directive_lists,
    java_arguments, javac_arguments, needs_release_flag, parse_cache_entry, render_cache_entry,
    BuildOptions, RunOptions,
};
use jbx::directives::{parse_directives, Directives, KeyValue};
use jbx::init::{
    fill_template, render_catalog_template, template_replacements, template_source_ref, InitError,
    InitOptions,
};
use jbx::trust::{remote_resource_refs, resource_url_to_fetch, sort_resources, RemoteRelativeResource};
use std::path::PathBuf;

fn strings(v: &[&str]) -> Vec<String> {
    v.iter().map(|s| s.to_string()).collect()
}

fn alias(name: &str) -> CatalogAlias {
    CatalogAlias {
        name: name.to_string(),
        script_ref: format!("{name}.java"),
        script_plan: PathPlan::InCatalogDir(vec![format!("{name}.java")]),
        script: PathBuf::from(format!("/catalog/{name}.java")),
        description: None,
        arguments: strings(&["--alias-arg"]),
        deps: strings(&["a:b:1"]),
        repos: strings(&["jitpack"]),
        sources: strings(&["Helper.java"]),
        files: strings(&["conf.txt"]),
        classpaths: vec![PathBuf::from("/lib/x.jar")],
        javac_options: strings(&["-g"]),
        runtime_options: strings(&["-Xmx1g"]),
        java_agents: vec![KeyValue { key: "agent.jar".to_string(), value: None }],
        java_version: Some("17".to_string()),
        main_class: Some("app.Main".to_string()),
    }
}

fn build_options() -> BuildOptions {
    BuildOptions {
        script: PathBuf::from("hello.java"),
        extra_deps: strings(&["c:d:2"]),
        extra_repos: Vec::new(),
        extra_sources: Vec::new(),
        extra_files: Vec::new(),
        classpath: Vec::new(),
        javac_options: strings(&["-Xlint"]),
        runtime_options: Vec::new(),
        java_agents: Vec::new(),
        java_version: None,
        main_class: Some("cli.Main".to_string()),
        cache_dir: None,
        trust_remote: false,
    }
}

#[test]
fn wrapper_reads_back_its_script() {
    let wrapper = render_wrapper_script("/usr/local/bin/jbx", "/home/me/my scripts/hello.java");
    assert_eq!(wrapper_target(&wrapper), Some("/home/me/my scripts/hello.java".to_string()));
    let plain = render_wrapper_script("/usr/bin/jbx", "/tmp/a.java");
    assert_eq!(wrapper_target(&plain), Some("/tmp/a.java".to_string()));
}

#[test]
fn named_items_are_found_and_merged_in_order() {
    let merged = merge_catalog_items(vec![alias("zeta"), alias("alpha")], vec![vec![alias("beta")], vec![alias("alpha")]]);
    let names: Vec<&str> = merged.iter().map(|a| a.name.as_str()).collect();
    assert_eq!(names, vec!["alpha", "alpha", "beta", "zeta"]);
    assert_eq!(merged[0].script_ref, "alpha.java");
    assert_eq!(find_named(merged, "beta").map(|a| a.name), Some("beta".to_string()));
    assert!(resolve_catalog_alias(vec![alias("one")], "two").is_none());
    assert_eq!(resolve_catalog_alias(vec![alias("one"), alias("two")], "two").unwrap().name, "two");
}

#[test]
fn app_entries_sort_by_name() {
    let entries = sort_named(vec![
        AppEntry { name: "b".to_string(), target: "1".to_string() },
        AppEntry { name: "a".to_string(), target: "2".to_string() },
    ]);
    assert_eq!(entries[0].name, "a");
    assert_eq!(entries[1].target, "1");
}

#[test]
fn template_names_may_name_a_catalog() {
    assert!(matches!(template_ref("cli"), TemplateRef::Listed(n) if n == "cli"));
    match template_ref("web@acme@x") {
        TemplateRef::InCatalog { template, catalog } => {
            assert_eq!(template, "web");
            assert_eq!(catalog, "acme@x");
        }
        TemplateRef::Listed(_) => panic!("expected a catalog template"),
    }
}

#[test]
fn remote_resources_are_planned_and_sorted() {
    let d = parse_directives("//SOURCES b/Two.java One.java\n//DEPS org:lib:1 Dep.java\n//FILES conf=res/app.conf\n");
    assert_eq!(remote_resource_refs(&d), strings(&["b/Two.java", "One.java", "Dep.java", "res/app.conf"]));
    let remote = "https://e.com/x/main.java?raw=1";
    assert_eq!(resource_url_to_fetch(remote, "b/Two.java").unwrap(), Some("https://e.com/x/b/Two.java".to_string()));
    assert_eq!(resource_url_to_fetch(remote, "org:lib:1").unwrap(), None);
    assert_eq!(resource_url_to_fetch(remote, "").unwrap(), None);
    assert!(resource_url_to_fetch(remote, "/etc/passwd").is_err());
    assert!(resource_url_to_fetch(remote, "a/../b.java").is_err());
    let r = |rr: &str, url: &str| RemoteRelativeResource { resource_ref: rr.to_string(), url: url.to_string(), body: String::new() };
    let sorted = sort_resources(vec![r("b", "2"), r("a", "9"), r("b", "1")]);
    let keys: Vec<(&str, &str)> = sorted.iter().map(|x| (x.resource_ref.as_str(), x.url.as_str())).collect();
    assert_eq!(keys, vec![("a", "9"), ("b", "1"), ("b", "2")]);
}

#[test]
fn build_options_extend_the_directives() {
    let mut d = parse_directives("//DEPS a:b:1\n//JAVA 21\n//MAIN old.Main\n");
    apply_build_options(&mut d, &build_options());
    assert_eq!(d.deps, strings(&["a:b:1", "c:d:2"]));
    assert_eq!(d.javac_options, strings(&["-Xlint"]));
    assert_eq!(d.java_version, Some("21".to_string()));
    assert_eq!(d.main_class, Some("cli.Main".to_string()));
}

#[test]
fn companion_directives_are_merged_once() {
    let mut d = parse_directives("//DEPS a:b:1 Helper.java\n//SOURCES Util.java\n");
    let companion = parse_directives("//DEPS a:b:1 x:y:3\n//SOURCES Util.java More.java\n");
    assert_eq!(declared_source_refs(&d), strings(&["Util.java", "Helper.java"]));
    extend_directive_lists(&mut d, &companion);
    dedupe_directive_lists(&mut d);
    assert_eq!(d.deps, strings(&["a:b:1", "Helper.java", "x:y:3"]));
    assert_eq!(d.sources, strings(&["Util.java", "More.java"]));
    assert_eq!(binary_deps(&d.deps), strings(&["a:b:1", "x:y:3"]));
}

#[test]
fn javac_command_line() {
    let mut d = Directives::default();
    d.javac_options = strings(&["-g"]);
    let args = javac_arguments("/c", Some("a.jar:b.jar".to_string()), &d, 21, &strings(&["Main.java"]));
    assert_eq!(args, strings(&["-d", "/c", "-classpath", "a.jar:b.jar", "-g", "Main.java"]));
    d.enable_preview = true;
    assert!(needs_release_flag(&d));
    let args = javac_arguments("/c", None, &d, 25, &strings(&["Main.java"]));
    assert_eq!(args, strings(&["-d", "/c", "-g", "--enable-preview", "--release", "25", "Main.java"]));
    d.javac_options = strings(&["--enable-preview", "--release=21"]);
    assert!(!needs_release_flag(&d));
    let args = javac_arguments("/c", None, &d, 25, &Vec::new());
    assert_eq!(args, strings(&["-d", "/c", "--enable-preview", "--release=21"]));
}

#[test]
fn java_command_line() {
    let mut d = Directives::default();
    d.java_agents = vec![
        KeyValue { key: "a.jar".to_string(), value: Some("x=1".to_string()) },
        KeyValue { key: "b.jar".to_string(), value: None },
    ];
    d.runtime_options = strings(&["-Xmx1g"]);
    d.enable_preview = true;
    let args = java_arguments(&d, &strings(&["-ea"]), "/c:/l.jar", "app.Main", &strings(&["x"]));
    assert_eq!(
        args,
        strings(&["-javaagent:a.jar=x=1", "-javaagent:b.jar", "-Xmx1g", "-ea", "--enable-preview", "-cp", "/c:/l.jar", "app.Main", "x"])
    );
    let args = java_arguments(&d, &strings(&["--enable-preview"]), "cp", "M", &Vec::new());
    assert_eq!(args, strings(&["-javaagent:a.jar=x=1", "-javaagent:b.jar", "-Xmx1g", "--enable-preview", "-cp", "cp", "M"]));
}

#[test]
fn cache_records_read_back() {
    let text = render_cache_entry("/s/hello.java", "/cache/ab/classes");
    assert_eq!(text, "/s/hello.java\t/cache/ab/classes\n");
    assert_eq!(parse_cache_entry(&text), Some(("/s/hello.java".to_string(), "/cache/ab/classes".to_string())));
    assert_eq!(parse_cache_entry("only-one-part\n"), None);
    assert_eq!(parse_cache_entry("\tclasses"), None);
    assert_eq!(parse_cache_entry("a\tb\textra"), Some(("a".to_string(), "b".to_string())));
}

#[test]
fn cache_keys_are_sixteen_hex_digits() {
    let key = cache_project_key("/s/hello.java", "class A {}");
    assert_eq!(key.len(), 16);
    assert!(key.chars().all(|c| c.is_ascii_hexdigit()));
    assert_ne!(key, cache_project_key("/s/hello.java", "class B {}"));
    assert_eq!(key, cache_project_key("/s/hello.java", "class A {}"));
}

#[test]
fn aliases_prepend_their_settings() {
    let run = RunOptions {
        script: PathBuf::from("tool"),
        script_args: strings(&["user-arg"]),
        extra_deps: strings(&["u:v:1"]),
        extra_repos: Vec::new(),
        extra_sources: Vec::new(),
        extra_files: Vec::new(),
        classpath: Vec::new(),
        javac_options: Vec::new(),
        runtime_options: Vec::new(),
        java_agents: Vec::new(),
        java_version: Some("21".to_string()),
        main_class: None,
        cache_dir: None,
        trust_remote: true,
    };
    let r = apply_alias_to_run(run, alias("tool"));
    assert_eq!(r.script, PathBuf::from("/catalog/tool.java"));
    assert_eq!(r.script_args, strings(&["--alias-arg", "user-arg"]));
    assert_eq!(r.extra_deps, strings(&["a:b:1", "u:v:1"]));
    assert_eq!(r.java_version, Some("21".to_string()));
    assert_eq!(r.main_class, Some("app.Main".to_string()));
    assert!(r.trust_remote);
    let b = apply_alias_to_build(build_options(), alias("tool"));
    assert_eq!(b.extra_deps, strings(&["a:b:1", "c:d:2"]));
    assert_eq!(b.classpath, vec![PathBuf::from("/lib/x.jar")]);
    assert_eq!(b.java_version, Some("17".to_string()));
    assert_eq!(b.main_class, Some("cli.Main".to_string()));
}

fn template(props: Vec<(&str, Option<&str>)>) -> CatalogTemplate {
    CatalogTemplate {
        name: "web".to_string(),
        description: None,
        file_refs: vec![("{basename}.java".to_string(), "tpl/web.java".to_string())],
        properties: props.into_iter().map(|(k, v)| (k.to_string(), v.map(|s| s.to_string()))).collect(),
        catalog_dir: PathBuf::from("/catalog"),
        base_ref: None,
    }
}

#[test]
fn catalog_templates_are_filled() {
    let t = template(vec![("port", Some("8080"))]);
    assert_eq!(template_source_ref(&t).unwrap(), "tpl/web.java");
    let values = template_replacements(&t, "Hello", &None).unwrap();
    assert_eq!(values.len(), 6);
    assert_eq!(values[4], ("port".to_string(), "8080".to_string()));
    assert_eq!(values[5], ("javaVersion".to_string(), "25".to_string()));
    assert_eq!(fill_template("class {{className}} { int p = {port}; }", &values), "class Hello { int p = 8080; }");
    let options = InitOptions {
        script: PathBuf::from("Hello.java"),
        deps: strings(&["a:b:1"]),
        java_version: Some("21".to_string()),
        template: Some("web".to_string()),
        force: false,
    };
    let text = render_catalog_template(&t, "Hello", &options, "//JAVA {javaVersion}\nclass {name} {}\n").unwrap();
    assert_eq!(text, "//JAVA 21\n//DEPS a:b:1\nclass Hello {}\n");
    let missing = template(vec![("port", Some("1")), ("host", None), ("user", None)]);
    assert!(matches!(template_replacements(&missing, "H", &None), Err(InitError::PropertyWithoutDefault(k)) if k == "host"));
    let mut empty = template(Vec::new());
    empty.file_refs.clear();
    assert!(matches!(template_source_ref(&empty), Err(InitError::NoFileRefs(n)) if n == "web"));
}
