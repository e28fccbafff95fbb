use jbx::directives::KeyValue;
use jbx::remote::{
    dedupe_key_values, dedupe_strings, ensure_remote_url, format_java_agent,
    has_source_or_release_option, is_remote_url, looks_like_binary_dependency, remote_file_name,
    resolve_remote_resource_url, split_file_ref, validate_remote_relative_ref, RemoteError,
};

#[test]
fn remote_urls_are_http_or_https() {
    assert!(is_remote_url("https://example.com/a.java"));
    assert!(is_remote_url("http://x"));
    assert!(!is_remote_url("ftp://x"));
    assert!(!is_remote_url("Hello.java"));
    assert!(ensure_remote_url("https://e.com/x").is_ok());
    assert!(matches!(ensure_remote_url("file.java"), Err(RemoteError::NotRemote(u)) if u == "file.java"));
}

#[test]
fn resources_resolve_against_the_script_directory_or_origin() {
    let base = "https://example.com/scripts/app/Main.java?raw=1#top";
    assert_eq!(
        resolve_remote_resource_url(base, "util/Helper.java").unwrap(),
        "https://example.com/scripts/app/util/Helper.java"
    );
    assert_eq!(
        resolve_remote_resource_url(base, "/other/X.java").unwrap(),
        "https://example.com/other/X.java"
    );
    assert_eq!(
        resolve_remote_resource_url("https://example.com", "A.java").unwrap(),
        "https://example.com/A.java"
    );
    assert!(matches!(
        resolve_remote_resource_url("example.com/x", "A.java"),
        Err(RemoteError::InvalidRemoteUrl(_))
    ));
}

#[test]
fn remote_resource_refs_must_be_plain_relative_paths() {
    assert!(validate_remote_relative_ref("util/Helper.java").is_ok());
    assert!(matches!(validate_remote_relative_ref("/abs.java"), Err(RemoteError::NotRelative(_))));
    assert!(matches!(validate_remote_relative_ref("a\\b.java"), Err(RemoteError::NotRelative(_))));
    assert!(matches!(validate_remote_relative_ref("../up.java"), Err(RemoteError::BadSegment(_))));
    assert!(matches!(validate_remote_relative_ref("a//b.java"), Err(RemoteError::BadSegment(_))));
    assert!(matches!(validate_remote_relative_ref("./a.java"), Err(RemoteError::BadSegment(_))));
}

#[test]
fn remote_file_names() {
    assert_eq!(remote_file_name("https://e.com/x/Hello.java?x=1"), "Hello.java");
    assert_eq!(remote_file_name("https://e.com/x/hello"), "hello.java");
    assert_eq!(remote_file_name("https://e.com/x/"), "RemoteScript.java");
}

#[test]
fn directive_rules() {
    assert!(looks_like_binary_dependency("org.example:lib:1.0"));
    assert!(!looks_like_binary_dependency("Other.java"));
    assert!(!looks_like_binary_dependency("a:b.java"));
    assert!(has_source_or_release_option(&["-g".to_string(), "--release=17".to_string()]));
    assert!(has_source_or_release_option(&["-sourcepath".to_string()]));
    assert!(!has_source_or_release_option(&["-g".to_string(), "-Xlint".to_string()]));
    assert_eq!(
        format_java_agent(&KeyValue { key: "agent.jar".into(), value: Some("opt=1".into()) }),
        "-javaagent:agent.jar=opt=1"
    );
    assert_eq!(format_java_agent(&KeyValue { key: "a.jar".into(), value: None }), "-javaagent:a.jar");
    assert_eq!(split_file_ref("conf/app.properties=app.properties"), (Some("conf/app.properties".to_string()), "app.properties".to_string()));
    assert_eq!(split_file_ref("data.txt"), (None, "data.txt".to_string()));
}

#[test]
fn dedupe_keeps_first_occurrences() {
    let mut v = vec!["a".to_string(), "b".to_string(), "a".to_string(), "c".to_string(), "b".to_string()];
    dedupe_strings(&mut v);
    assert_eq!(v, vec!["a", "b", "c"]);
    let mut kv = vec![
        KeyValue { key: "x".into(), value: None },
        KeyValue { key: "x".into(), value: Some("1".into()) },
        KeyValue { key: "x".into(), value: None },
    ];
    dedupe_key_values(&mut kv);
    assert_eq!(kv.len(), 2);
    assert_eq!(kv[1].value.as_deref(), Some("1"));
}

#[test]
fn remote_relative_resources_reject_dot_segments() {
    assert!(matches!(
        jbx::remote::validate_remote_relative_ref("helpers/./Helper.java"),
        Err(jbx::remote::RemoteError::BadSegment(_))
    ));
}

#[test]
fn plain_relative_references_are_accepted() {
    assert!(validate_remote_relative_ref("a/b/C.java").is_ok());
    assert!(validate_remote_relative_ref("C.java").is_ok());
    assert!(matches!(validate_remote_relative_ref("a/"), Err(RemoteError::BadSegment(_))));
}

#[test]
fn relative_ref_check_follows_the_platform_answer() {
    assert!(matches!(jbx::remote::check_remote_relative_ref("c:/a.java", true), Err(RemoteError::NotRelative(r)) if r == "c:/a.java"));
    assert!(jbx::remote::check_remote_relative_ref("c:/a.java", false).is_ok());
    assert!(matches!(jbx::remote::check_remote_relative_ref("a/../b.java", false), Err(RemoteError::BadSegment(_))));
    assert!(matches!(jbx::remote::check_remote_relative_ref("/a.java", false), Err(RemoteError::NotRelative(_))));
}
