use jbx::catalog::Json;
use jbx::check::{
    apply_check_options, check_base_options, check_compiler_options, check_java_arguments,
    check_release_needed, check_report_lines, error_prone_coordinate, error_prone_jdk_flags,
    merge_check_directives, CheckError,
};
use jbx::cli::{split_cli_key_values, split_cli_words};
use jbx::directives::parse_directives;

fn strings(v: &[&str]) -> Vec<String> {
    v.iter().map(|s| s.to_string()).collect()
}

fn obj(members: Vec<(&str, Json)>) -> Json {
    Json::Object(members.into_iter().map(|(k, v)| (k.to_string(), v)).collect())
}

#[test]
fn cli_words_split_like_directives() {
    assert_eq!(split_cli_words(&strings(&["a:b:1,c:d:2", "e:f:3"])), strings(&["a:b:1", "c:d:2", "e:f:3"]));
    assert!(split_cli_words(&vec![]).is_empty());
    let kv = split_cli_key_values(&strings(&["agent.jar=opt other.jar"]));
    assert_eq!(kv.len(), 2);
    assert_eq!(kv[0].key, "agent.jar");
    assert_eq!(kv[0].value.as_deref(), Some("opt"));
    assert_eq!(kv[1].value, None);
}

#[test]
fn check_directives_are_gathered() {
    let a = parse_directives("//DEPS a:b:1\n//JAVAC_OPTIONS -Xlint:none\n");
    let b = parse_directives("//DEPS c:d:2\n//REPOS https://repo\n//JAVA 21\n//PREVIEW\n");
    let c = parse_directives("//JAVA 17\n");
    let d = merge_check_directives(&vec![a, b, c]);
    assert_eq!(d.deps, strings(&["a:b:1", "c:d:2"]));
    assert_eq!(d.repos, strings(&["https://repo"]));
    assert_eq!(d.javac_options, strings(&["-Xlint:none"]));
    assert_eq!(d.java_version.as_deref(), Some("21"));
    assert!(d.enable_preview);
    let mut d = d;
    apply_check_options(&mut d, &strings(&["x:y:3"]), &vec![], &strings(&["-g"]), Some("23".into()));
    assert_eq!(d.deps, strings(&["a:b:1", "c:d:2", "x:y:3"]));
    assert_eq!(d.javac_options, strings(&["-Xlint:none", "-g"]));
    assert_eq!(d.java_version.as_deref(), Some("23"));
}

#[test]
fn check_options_with_preview_and_error_prone() {
    let d = parse_directives("//PREVIEW\n");
    let base = check_base_options("/tmp/classes", Some("a.jar:b.jar".into()), &d);
    assert_eq!(base, strings(&["-Xlint:all", "-proc:none", "-d", "/tmp/classes", "-classpath", "a.jar:b.jar", "--enable-preview"]));
    assert!(check_release_needed(&base, true));
    let opts = check_compiler_options(base, true, 21, true, true);
    assert_eq!(opts, strings(&[
        "-Xlint:all", "-proc:none", "-d", "/tmp/classes", "-classpath", "a.jar:b.jar", "--enable-preview",
        "--release", "21", "-Werror", "-XDcompilePolicy=simple", "--should-stop=ifError=FLOW",
        "-Xplugin:ErrorProne -Xep:DefaultPackage:OFF",
    ]));
}

#[test]
fn check_options_keep_a_given_source_level() {
    let d = parse_directives("//PREVIEW\n//JAVAC_OPTIONS --release=17 --enable-preview\n");
    let base = check_base_options("c", None, &d);
    assert_eq!(base, strings(&["-Xlint:all", "-proc:none", "-d", "c", "--release=17", "--enable-preview"]));
    assert!(!check_release_needed(&base, true));
    assert_eq!(check_compiler_options(base.clone(), true, 21, false, false), base);
    let plain = check_base_options("c", None, &parse_directives(""));
    assert!(!check_release_needed(&plain, false));
}

#[test]
fn check_command_line() {
    assert_eq!(error_prone_coordinate("2.39.0"), "com.google.errorprone:error_prone_core:2.39.0");
    let flags = error_prone_jdk_flags();
    assert_eq!(flags.len(), 10);
    assert_eq!(flags[0], "--add-exports=jdk.compiler/com.sun.tools.javac.api=ALL-UNNAMED");
    let args = check_java_arguments("w.jar", &strings(&["-Xlint:all"]), &strings(&["A.java", "B.java"]));
    assert_eq!(args.len(), 10 + 3 + 1 + 1 + 2);
    assert_eq!(&args[10..], &strings(&["-cp", "w.jar", "dev.telegraphic.jbx.check.JbxCheckCompiler", "-Xlint:all", "--", "A.java", "B.java"])[..]);
}

#[test]
fn check_report_lines_format_diagnostics() {
    let payload = obj(vec![("diagnostics", Json::Array(vec![
        obj(vec![("kind", Json::Str("WARNING".into())), ("file", Json::Str("A.java".into())), ("line", Json::Number("3".into())), ("column", Json::Number("7".into())), ("message", Json::Str("unused".into()))]),
        obj(vec![("kind", Json::Str("ERROR".into())), ("line", Json::Number("0".into())), ("column", Json::Number("2".into())), ("message", Json::Str("bad".into()))]),
        obj(vec![("line", Json::Number("2.5".into())), ("column", Json::Number("1".into()))]),
    ]))]);
    assert_eq!(check_report_lines(&payload).unwrap(), strings(&[
        "A.java:3:7: warning: unused",
        "<compiler>: error: bad",
        "<compiler>: unknown: ",
    ]));
    let empty = obj(vec![("diagnostics", Json::Array(vec![]))]);
    assert_eq!(check_report_lines(&empty).unwrap(), strings(&["check passed"]));
    assert!(matches!(check_report_lines(&obj(vec![])), Err(CheckError::NoDiagnostics)));
}
