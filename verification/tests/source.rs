use jbx::source::{infer_main_class_from_source, main_class_for};

#[test]
fn main_class_is_qualified_by_the_declared_package() {
    assert_eq!(main_class_for("Hello", "package com.example;\nclass Hello {}"), "com.example.Hello");
    assert_eq!(main_class_for("Main", "// comment\n  package a.b_c ;\n"), "a.b_c.Main");
    assert_eq!(main_class_for("Main", "class Main { String package; }"), "Main");
    assert_eq!(main_class_for("Main", "package 1bad;"), "Main");
}

#[test]
fn main_class_uses_the_file_stem() {
    assert_eq!(
        infer_main_class_from_source("/work/Hello.java", "void main() {}").as_deref(),
        Some("Hello")
    );
    assert_eq!(
        infer_main_class_from_source("src/App.java", "package org.demo;\n").as_deref(),
        Some("org.demo.App")
    );
}

#[test]
fn main_class_needs_a_file_stem() {
    assert_eq!(infer_main_class_from_source("", "class X {}"), None);
    assert_eq!(infer_main_class_from_source("..", "class X {}"), None);
    assert_eq!(infer_main_class_from_source("dir/.hidden", "class X {}").as_deref(), Some(".hidden"));
    assert_eq!(
        infer_main_class_from_source("src/Hello.java", "package com.acme;\nclass Hello {}").as_deref(),
        Some("com.acme.Hello")
    );
}
