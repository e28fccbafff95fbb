use jbx::apps::{render_wrapper_script, shell_quote, shell_quote_path, validate_app_name, wrapper_target, AppError};
use jbx::export::{
    fold_manifest_line, percent_encode_manifest_path, percent_encode_manifest_segment,
    render_manifest,
};

#[test]
fn manifest_paths_are_percent_encoded() {
    assert_eq!(percent_encode_manifest_path("/tmp/my lib/a+b.jar"), "/tmp/my%20lib/a%2Bb.jar");
    assert_eq!(percent_encode_manifest_path("C:/x~y"), "C:/x~y");
    assert_eq!(percent_encode_manifest_segment("a/b:c d"), "a%2Fb%3Ac%20d");
    assert_eq!(percent_encode_manifest_segment("é"), "%C3%A9");
}

#[test]
fn manifest_lines_fold_at_72_bytes() {
    assert_eq!(fold_manifest_line("Main-Class: A"), "Main-Class: A\n");
    let long = "x".repeat(150);
    let folded = fold_manifest_line(&long);
    let lines: Vec<&str> = folded.lines().collect();
    assert_eq!(lines[0].len(), 72);
    assert_eq!(lines[1], format!(" {}", "x".repeat(71)));
    assert_eq!(lines[2], " xxxxxxx");
    assert_eq!(fold_manifest_line(""), "");
}

#[test]
fn manifest_has_main_class_and_optional_class_path() {
    assert_eq!(render_manifest("app.Main", ""), "Manifest-Version: 1.0\nMain-Class: app.Main\n\n");
    assert_eq!(
        render_manifest("M", "lib/a.jar lib/b.jar"),
        "Manifest-Version: 1.0\nMain-Class: M\nClass-Path: lib/a.jar lib/b.jar\n\n"
    );
}

#[test]
fn app_names() {
    assert!(validate_app_name("hello").is_ok());
    assert!(matches!(validate_app_name(""), Err(AppError::EmptyName)));
    assert!(matches!(validate_app_name("jbx"), Err(AppError::ReservedName)));
    assert!(matches!(validate_app_name("a/b"), Err(AppError::InvalidName(_))));
    assert!(matches!(validate_app_name(".."), Err(AppError::InvalidName(_))));
}

#[test]
fn shell_quoting() {
    assert_eq!(shell_quote("/usr/bin/jbx"), "/usr/bin/jbx");
    assert_eq!(shell_quote("/my dir/a.java"), "'/my dir/a.java'");
    assert_eq!(shell_quote("/a$b"), "'/a$b'");
    assert_eq!(shell_quote("it's"), "'it'\\''s'");
}

#[test]
fn wrapper_scripts_name_their_target() {
    let w = render_wrapper_script("/usr/bin/jbx", "/home/u/my scripts/hello.java");
    assert_eq!(w, "#!/bin/sh\nexec /usr/bin/jbx run -- '/home/u/my scripts/hello.java' \"$@\"\n");
    assert_eq!(wrapper_target(&w).as_deref(), Some("/home/u/my scripts/hello.java"));
    let plain = render_wrapper_script("/usr/bin/jbx", "/tmp/a.java");
    assert_eq!(wrapper_target(&plain).as_deref(), Some("/tmp/a.java"));
    assert_eq!(wrapper_target("#!/bin/sh\necho hi\n"), None);
}

#[test]
fn paths_are_quoted_by_their_text() {
    assert_eq!(shell_quote_path("/usr/bin/jbx"), "/usr/bin/jbx");
    assert_eq!(shell_quote_path("/tmp/my app/Hello.java"), "'/tmp/my app/Hello.java'");
}

#[test]
fn folded_lines_fit_and_unfold_to_the_line() {
    let line = format!("Class-Path: {}", "lib/é-dependency-0.1.jar ".repeat(12));
    let folded = fold_manifest_line(&line);
    assert!(folded.ends_with('\n'));
    let mut rebuilt = String::new();
    for (k, piece) in folded.trim_end_matches('\n').split('\n').enumerate() {
        assert!(piece.len() <= 72, "piece {k} has {} bytes", piece.len());
        if k == 0 {
            rebuilt.push_str(piece);
        } else {
            assert!(piece.starts_with(' '));
            rebuilt.push_str(&piece[1..]);
        }
    }
    assert_eq!(rebuilt, line);
}
