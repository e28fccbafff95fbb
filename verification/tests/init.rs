use jbx::init::{
    init_template, init_templates, insert_template_deps, is_java_identifier,
    java_class_name_from_stem, render_init_script, validate_init_java_version, InitError,
    InitOptions,
};
use std::path::PathBuf;

fn options(deps: &[&str], java: Option<&str>) -> InitOptions {
    InitOptions {
        script: PathBuf::from("Hello.java"),
        deps: deps.iter().map(|d| d.to_string()).collect(),
        java_version: java.map(|j| j.to_string()),
        template: None,
        force: false,
    }
}

#[test]
fn builtin_templates_are_listed_in_order() {
    let names: Vec<&str> = init_templates().iter().map(|t| t.name).collect();
    assert_eq!(names, vec!["hello", "java", "compact", "cli", "agent", "test"]);
}

#[test]
fn init_template_defaults_to_hello_and_rejects_unknown_names() {
    assert_eq!(init_template(None).unwrap().name, "hello");
    assert_eq!(init_template(Some("cli")).unwrap().description, "Picocli command-line application");
    assert!(matches!(init_template(Some("nope")), Err(InitError::UnknownTemplate(n)) if n == "nope"));
}

#[test]
fn unnamed_class_templates_need_java_25() {
    let hello = init_template(Some("hello")).unwrap();
    let cli = init_template(Some("cli")).unwrap();
    assert!(validate_init_java_version(hello, None).is_ok());
    assert!(validate_init_java_version(hello, Some("25")).is_ok());
    assert!(matches!(
        validate_init_java_version(hello, Some("21")),
        Err(InitError::NeedsJava25(n)) if n == "hello"
    ));
    assert!(validate_init_java_version(cli, Some("17")).is_ok());
    assert!(matches!(
        validate_init_java_version(cli, Some("abc")),
        Err(InitError::InvalidJavaVersion(_))
    ));
}

#[test]
fn java_identifiers_and_class_names() {
    assert!(is_java_identifier("Hello"));
    assert!(is_java_identifier("_x$1"));
    assert!(!is_java_identifier("1abc"));
    assert!(!is_java_identifier("my-app"));
    assert!(!is_java_identifier(""));
    assert_eq!(java_class_name_from_stem("my-app_test"), "MyAppTest");
    assert_eq!(java_class_name_from_stem("123"), "Test123");
    assert_eq!(java_class_name_from_stem("---"), "Test");
    assert_eq!(java_class_name_from_stem("fooBar"), "FooBar");
}

#[test]
fn hello_script_has_header_hint_and_body() {
    let t = init_template(Some("hello")).unwrap();
    let text = render_init_script(t, "Hello", &options(&[], None));
    assert_eq!(
        text,
        "///usr/bin/env jbang \"$0\" \"$@\" ; exit $?\n//JAVA 25+\n// //DEPS <dependency1> <dependency2>\nvoid main(String... args) {\n    IO.println(\"Hello World\");\n}\n"
    );
}

#[test]
fn cli_script_names_its_class_and_lists_deps() {
    let t = init_template(Some("cli")).unwrap();
    let text = render_init_script(t, "Tool", &options(&["a:b:1"], Some("21")));
    assert!(text.starts_with("///usr/bin/env jbang \"$0\" \"$@\" ; exit $?\n//JAVA 21\n//DEPS a:b:1\n//DEPS info.picocli:picocli:4.7.6\n\nimport picocli.CommandLine;"));
    assert!(text.contains("class Tool implements Callable<Integer>"));
    assert!(text.contains("new CommandLine(new Tool()).execute(args)"));
    assert!(!text.contains("// //DEPS"));
}

#[test]
fn agent_and_test_scripts() {
    let agent = render_init_script(init_template(Some("agent")).unwrap(), "Agent", &options(&[], None));
    assert!(agent.contains("//JAVAAGENT\n//MANIFEST Premain-Class=Agent\n"));
    assert!(agent.contains("public class Agent {"));
    assert!(agent.contains("This is a jbx javaagent.\\n"));
    let test = render_init_script(init_template(Some("test")).unwrap(), "GreetTest", &options(&[], None));
    assert!(test.contains("//DEPS org.junit.jupiter:junit-jupiter-api:5.11.4\n"));
    assert!(test.contains("class GreetTest {"));
}

#[test]
fn template_deps_go_after_launcher_and_java_lines() {
    let content = "///usr/bin/env jbx \"$0\"\n//JAVA 21\n//JAVA 25\nclass A {}\n";
    assert_eq!(
        insert_template_deps(content, &["x:y:1".to_string(), "z:w:2".to_string()]),
        "///usr/bin/env jbx \"$0\"\n//JAVA 21\n//JAVA 25\n//DEPS x:y:1\n//DEPS z:w:2\nclass A {}\n"
    );
    assert_eq!(insert_template_deps("class A {}", &["d:e:3".to_string()]), "//DEPS d:e:3\nclass A {}");
    assert_eq!(insert_template_deps("", &["d:e:3".to_string()]), "//DEPS d:e:3\n");
    assert_eq!(insert_template_deps("#!/bin/x", &["d:e:3".to_string()]), "#!/bin/x//DEPS d:e:3\n");
}

#[test]
fn init_rejects_lower_java_for_unnamed_class_templates() {
    let template = jbx::init::init_template(None).unwrap();
    assert!(matches!(
        jbx::init::validate_init_java_version(template, Some("17")),
        Err(jbx::init::InitError::NeedsJava25(n)) if n == "hello"
    ));
}

#[test]
fn init_rejects_unknown_template() {
    assert!(matches!(
        jbx::init::init_template(Some("bogus")),
        Err(jbx::init::InitError::UnknownTemplate(n)) if n == "bogus"
    ));
}
