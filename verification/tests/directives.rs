use jbx::{parse_directives, split_directive_words};

#[test]
fn parses_core_jbang_directives() {
    let src = r#"
//JAVA 21
//DEPS org.slf4j:slf4j-simple:2.0.13, org.slf4j:slf4j-api:2.0.13
//REPOS central=https://repo1.maven.org/maven2
//SOURCES helper.java
//JAVAC_OPTIONS --enable-preview "-Xlint:all"
//RUNTIME_OPTIONS --enable-preview '-Ddemo=true'
//MAIN com.acme.Main
//PREVIEW
class Main {}
"#;

    let directives = parse_directives(src);
    assert_eq!(directives.java_version.as_deref(), Some("21"));
    assert_eq!(directives.main_class.as_deref(), Some("com.acme.Main"));
    assert_eq!(
        directives.deps,
        vec![
            "org.slf4j:slf4j-simple:2.0.13",
            "org.slf4j:slf4j-api:2.0.13"
        ]
    );
    assert_eq!(
        directives.repos,
        vec!["central=https://repo1.maven.org/maven2"]
    );
    assert_eq!(directives.sources, vec!["helper.java"]);
    assert!(directives.enable_preview);
    assert_eq!(
        directives.javac_options,
        vec!["--enable-preview", "-Xlint:all"]
    );
    assert_eq!(
        directives.runtime_options,
        vec!["--enable-preview", "-Ddemo=true"]
    );
}

#[test]
fn splits_like_jbang_spaces_semicolons_commas_tabs_with_quotes() {
    assert_eq!(
        split_directive_words(r#"a:b:1, c:d:2; "quoted value" 'single value'"#),
        vec!["a:b:1", "c:d:2", "quoted value", "single value"]
    );
}

#[test]
fn directive_trailing_comment_is_dropped_but_slashes_in_values_kept() {
    let d = parse_directives("//DEPS a:b:1 // pinned\n//REPOS x=https://example.org/repo //tail\n");
    assert_eq!(d.deps, vec!["a:b:1"]);
    assert_eq!(d.repos, vec!["x=https://example.org/repo", "//tail"]);
}

#[test]
fn description_lines_are_joined_and_unknown_keys_ignored() {
    let d = parse_directives("//DESCRIPTION first\r\n// DESCRIPTION second\n//UNKNOWN x\n///DEPS a:b:1\n//DEPSX a:b:2");
    assert_eq!(d.description.as_deref(), Some("first\nsecond"));
    assert!(d.deps.is_empty());
}

#[test]
fn agents_and_manifest_entries_are_key_values() {
    let d = parse_directives("//JAVAAGENT agent.jar=opt other.jar\n//MANIFEST Premain-Class=A\n//DOCS guide=https://x\n");
    assert_eq!(d.java_agents.len(), 2);
    assert_eq!(d.java_agents[0].key, "agent.jar");
    assert_eq!(d.java_agents[0].value.as_deref(), Some("opt"));
    assert_eq!(d.java_agents[1].value, None);
    assert_eq!(d.manifest_options[0].key, "Premain-Class");
    assert_eq!(d.docs[0].key, "guide");
    assert_eq!(d.docs[0].value.as_deref(), Some("https://x"));
}

#[test]
fn prefixed_keys_and_flags() {
    let d = parse_directives("//PREVIEW\n//CDS\n//NOINTEGRATIONS\n//Q:JAVA 17\n//JAVA 21\n");
    assert!(d.enable_preview && d.enable_cds && d.disable_integrations);
    assert_eq!(d.java_version.as_deref(), Some("21"));
}
