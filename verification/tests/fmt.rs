use jbx::fmt::{
    formatter_jar_arguments, is_compact_source, is_ignored_fmt_dir, looks_like_compact_source,
    native_formatter_classifier, native_formatter_url, split_compact_prefix,
    starts_with_java_type_declaration, unwrap_compact_source, update_brace_depth,
    verify_formatter_download, wrap_compact_source, DownloadError, UnwrapError,
};

#[test]
fn compact_sources_are_recognised() {
    assert!(is_compact_source("import java.util.*;\n\nvoid main() {\n    IO.println(1);\n}\n"));
    assert!(!is_compact_source("public class A {\n    void main() {}\n}\n"));
    assert!(!is_compact_source("class A {}\n"));
    assert!(is_compact_source("class A {}\nvoid main(String[] args) {}\n"));
    assert!(starts_with_java_type_declaration("public final class X {"));
    assert!(starts_with_java_type_declaration("@interface Marker {}"));
    assert!(!starts_with_java_type_declaration("void main() {"));
    assert_eq!(update_brace_depth(0, "a { b { } "), 1);
    assert_eq!(update_brace_depth(0, "}}}"), 0);
    assert!(looks_like_compact_source("void main() { IO.println(\"x\"); }"));
    assert!(!looks_like_compact_source("public class A { void main() {} }"));
}

#[test]
fn compact_sources_are_wrapped_and_unwrapped() {
    let source = "#!/usr/bin/env jbx\n// comment\n/* block\n   still */\nimport java.util.List;\n\nvoid main() {\nIO.println(1);\n}\n\n";
    let (prefix, body) = split_compact_prefix(source);
    assert_eq!(prefix, "#!/usr/bin/env jbx\n// comment\n/* block\n   still */\nimport java.util.List;\n\n");
    assert_eq!(body, "void main() {\nIO.println(1);\n}");
    let wrapped = wrap_compact_source(&prefix, &body);
    assert_eq!(wrapped, format!("{prefix}class __JuvFormatterWrapper {{\n    void main() {{\n    IO.println(1);\n    }}\n}}\n"));
    let formatted = format!("{prefix}class __JuvFormatterWrapper {{\n    void main() {{\n        IO.println(1);\n    }}\n\n}}\n");
    assert_eq!(unwrap_compact_source(&formatted).unwrap(), format!("{prefix}void main() {{\n    IO.println(1);\n}}\n\n"));
    assert!(matches!(unwrap_compact_source("void main() {}\n"), Err(UnwrapError::NoWrapper)));
    assert!(matches!(unwrap_compact_source("class __JuvFormatterWrapper {\n  x\n"), Err(UnwrapError::NoWrapperEnd)));
}

#[test]
fn formatter_helpers() {
    assert!(is_ignored_fmt_dir(".git") && is_ignored_fmt_dir("target"));
    assert!(!is_ignored_fmt_dir("src"));
    assert_eq!(native_formatter_classifier("linux", "x86_64"), Some("linux-glibc_x86-64"));
    assert_eq!(native_formatter_classifier("macos", "aarch64"), Some("macos_aarch64"));
    assert_eq!(native_formatter_classifier("windows", "x86_64"), None);
    assert_eq!(
        native_formatter_url("2.91.0", "macos_aarch64"),
        "https://repo1.maven.org/maven2/com/palantir/javaformat/palantir-java-format-native/2.91.0/palantir-java-format-native-2.91.0-nativeImage-macos_aarch64.bin"
    );
    let args = formatter_jar_arguments("a.jar:b.jar");
    assert_eq!(args.len(), 9);
    assert_eq!(args[7], "a.jar:b.jar");
    assert_eq!(args[8], "com.palantir.javaformat.java.Main");
}

#[test]
fn formatter_downloads_are_checked() {
    let sha = "2cf24dba5fb0a30e26e83b2ac5b9e29e1b161e5c1fa7425e73043362938b9824  hello.bin\n";
    assert!(verify_formatter_download(b"hello", sha).is_ok());
    assert!(matches!(verify_formatter_download(b"hullo", sha), Err(DownloadError::ChecksumMismatch)));
    assert!(matches!(verify_formatter_download(b"hello", "  \n"), Err(DownloadError::EmptyChecksum)));
}
