use jbx::junit::{
    is_junit_launcher, is_maven_tool_shorthand, is_test_stem, junit_launcher_coordinate,
    test_companion_names, test_script_index, xml_attr,
};

#[test]
fn xml_attr_preserves_quoted_values_with_spaces() {
    let attrs = r#"classname="ExampleTest" name="[1] display name with spaces" time="0.001""#;
    assert_eq!(
        xml_attr(attrs, "name").as_deref(),
        Some("[1] display name with spaces")
    );
    assert_eq!(xml_attr(attrs, "classname").as_deref(), Some("ExampleTest"));
}

#[test]
fn xml_attr_reads_single_quoted_and_bare_values() {
    let attrs = "  a='x y'  b=plain c = \"spaced\"";
    assert_eq!(xml_attr(attrs, "a").as_deref(), Some("x y"));
    assert_eq!(xml_attr(attrs, "b").as_deref(), Some("plain"));
    assert_eq!(xml_attr(attrs, "c").as_deref(), Some("spaced"));
    assert_eq!(xml_attr(attrs, "d"), None);
}

#[test]
fn xml_attr_gives_up_on_unterminated_quotes() {
    assert_eq!(xml_attr("a=\"open b=1", "b"), None);
    assert_eq!(xml_attr("no attributes here", "a"), None);
    assert_eq!(xml_attr("", "a"), None);
}

#[test]
fn xml_declarations_are_stripped() {
    assert_eq!(jbx::junit::strip_xml_declaration("<?xml version=\"1.0\"?>\n  <testsuite/>"), "<testsuite/>");
    assert_eq!(jbx::junit::strip_xml_declaration("<testsuite/>"), "<testsuite/>");
    assert_eq!(jbx::junit::strip_xml_declaration("<?xml version"), "<?xml version");
}

#[test]
fn reports_are_merged() {
    let none: Vec<String> = vec![];
    assert_eq!(jbx::junit::merge_junit_reports(&none), "");
    let one = vec!["<?xml version=\"1.0\"?><testsuite/>".to_string()];
    assert_eq!(jbx::junit::merge_junit_reports(&one), one[0]);
    let two = vec!["  <?xml version=\"1.0\"?>\n<testsuite name=\"a\"/>".to_string(), "<testsuite name=\"b\"/>".to_string()];
    assert_eq!(jbx::junit::merge_junit_reports(&two), "<testsuites>\n<testsuite name=\"a\"/>\n<testsuite name=\"b\"/>\n</testsuites>\n");
}

fn member<'a>(j: &'a jbx::catalog::Json, key: &str) -> &'a jbx::catalog::Json {
    match j {
        jbx::catalog::Json::Object(m) => &m.iter().find(|(k, _)| k == key).unwrap().1,
        _ => panic!("not an object"),
    }
}

fn text(j: &jbx::catalog::Json) -> &str {
    match j {
        jbx::catalog::Json::Str(s) | jbx::catalog::Json::Number(s) => s.as_str(),
        _ => panic!("not text"),
    }
}

#[test]
fn junit_xml_is_summarised() {
    let xml = "<testsuites>\n<testsuite name=\"a\" tests=\"3\" failures=\"1\" errors=\"0\" skipped=\"1\">\n\
<testcase classname=\"demo.ATest\" name=\"ok\" time=\"0.01\"/>\n\
<testcase classname=\"demo.ATest\" name=\"bad\" time=\"0.02\"><failure message=\"x\"/></testcase>\n\
<testcase classname=\"demo.ATest\" name=\"later\" time=\"0\"><skipped/></testcase>\n\
</testsuite>\n<testsuite name=\"b\" tests=\"1\" errors=\"1\" failures=\"oops\">\n\
<testcase classname=\"demo.BTest\" name=\"boom\"><error type=\"E\"/></testcase>\n</testsuite>\n</testsuites>\n";
    let j = jbx::junit::junit_xml_to_json(xml);
    assert_eq!(text(member(&j, "tests")), "4");
    assert_eq!(text(member(&j, "failures")), "1");
    assert_eq!(text(member(&j, "errors")), "1");
    assert_eq!(text(member(&j, "skipped")), "1");
    let cases = match member(&j, "testCases") {
        jbx::catalog::Json::Array(items) => items,
        _ => panic!("no cases"),
    };
    let statuses: Vec<&str> = cases.iter().map(|c| text(member(c, "status"))).collect();
    assert_eq!(statuses, vec!["passed", "failed", "skipped", "errored"]);
    assert_eq!(text(member(&cases[3], "className")), "demo.BTest");
    assert_eq!(text(member(&cases[3], "time")), "");
}

#[test]
fn test_command_helpers() {
    assert_eq!(junit_launcher_coordinate("1.11.0"), "org.junit.platform:junit-platform-console-standalone:1.11.0");
    assert!(is_junit_launcher("junit-platform-console-standalone-1.11.0.jar"));
    assert!(!is_junit_launcher("junit-jupiter-5.jar"));
    assert!(is_test_stem("FooTest") && is_test_stem("FooTests") && is_test_stem("FooIT"));
    assert!(!is_test_stem("Foo"));
    let stems: Vec<String> = vec!["Alpha".into(), "BetaTest".into(), "GammaTest".into()];
    assert_eq!(test_script_index(&stems), Some(1));
    let stems: Vec<String> = vec!["Alpha".into(), "Beta".into()];
    assert_eq!(test_script_index(&stems), Some(0));
    assert_eq!(test_script_index(&vec![]), None);
    assert_eq!(test_companion_names("CalcTest"), vec!["Calc.java".to_string()]);
    assert_eq!(test_companion_names("CalcTests"), vec!["Calc.java".to_string()]);
    assert_eq!(test_companion_names("CalcIT"), vec!["Calc.java".to_string()]);
    assert!(test_companion_names("Test").is_empty());
    assert!(is_maven_tool_shorthand("org.acme:tool"));
    assert!(is_maven_tool_shorthand("org.acme:tool:1.0:all"));
    assert!(!is_maven_tool_shorthand("org.acme::1.0"));
    assert!(!is_maven_tool_shorthand("https://x:y"));
    assert!(!is_maven_tool_shorthand("Hello.java"));
}

#[test]
fn junit_launcher_arguments() {
    let agents = jbx::cli::split_cli_key_values(&vec!["a.jar=x".to_string()]);
    let args = jbx::junit::junit_java_arguments(&agents, &vec!["-Xmx1g".into()], &vec![], "l.jar", "c:d", "/r", true, &vec!["--fail-if-no-tests".into()]);
    let expected: Vec<String> = ["-javaagent:a.jar=x", "-Xmx1g", "-jar", "l.jar", "execute", "--class-path", "c:d", "--scan-class-path", "--reports-dir", "/r", "--details=none", "--disable-banner", "--fail-if-no-tests"].iter().map(|s| s.to_string()).collect();
    assert_eq!(args, expected);
}
