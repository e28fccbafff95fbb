use jbx::catalog::Json;
use jbx::docs::{
    inline_markdown, join_signature_parts, render_docs_markdown, render_member_signature,
    DocsCoordinate, MemberKind,
};
use jbx::java_source::{
    count_char, extract_docs_types_from_source, normalize_java_type_spacing, parse_annotation,
    parse_field, parse_java_package, parse_member_declaration, parse_method_or_constructor,
    parse_modifiers, parse_parameters, parse_throws, parse_type_declaration, parse_visibility,
    qualify_name, qualify_type, split_java_commas, split_java_words, split_parameter_type_and_name,
    split_type_and_name, strip_leading_modifiers, strip_method_type_parameters, DocsMember,
};

fn s(t: &str) -> Json {
    Json::Str(t.to_string())
}

fn obj(members: Vec<(&str, Json)>) -> Json {
    Json::Object(members.into_iter().map(|(k, v)| (k.to_string(), v)).collect())
}

fn get<'a>(j: &'a Json, key: &str) -> &'a Json {
    j.get(key).unwrap_or_else(|| panic!("missing {key}"))
}

fn text(j: &Json, key: &str) -> String {
    get(j, key).as_str().unwrap().to_string()
}

fn texts(j: &Json) -> Vec<String> {
    match j {
        Json::Array(items) => items.iter().map(|i| i.as_str().unwrap().to_string()).collect(),
        _ => panic!("not an array"),
    }
}

fn strings(v: &[&str]) -> Vec<String> {
    v.iter().map(|x| x.to_string()).collect()
}

#[test]
fn words_and_commas() {
    assert_eq!(split_java_words("  public  static, void main(String[] args)"), strings(&["public", "static", "void", "main(String[]", "args)"]));
    assert_eq!(split_java_commas("Map<String, Integer> a, int b, f(x, y) c,"), strings(&["Map<String, Integer> a", "int b", "f(x, y) c"]));
    assert_eq!(inline_markdown("  a\n  b\tc "), "a b c");
    assert_eq!(join_signature_parts(&strings(&["", "int", "", "x"])), "int x");
}

#[test]
fn type_names_are_qualified() {
    assert_eq!(normalize_java_type_spacing(" Map < String ,List< Integer > > "), "Map<String, List<Integer>>");
    assert_eq!(normalize_java_type_spacing("int [ ]"), "int[]");
    assert_eq!(qualify_name("com.x", "Foo"), "com.x.Foo");
    assert_eq!(qualify_name("", "Foo"), "Foo");
    assert_eq!(qualify_name("com.x", "a.Foo"), "a.Foo");
    assert_eq!(qualify_type("com.x", "java.lang.String"), "String");
    assert_eq!(qualify_type("com.x", "Widget"), "com.x.Widget");
    assert_eq!(qualify_type("com.x", "Widget,"), "com.x.Widget");
    assert_eq!(qualify_type("com.x", "int"), "int");
    assert_eq!(qualify_type("com.x", "String..."), "String...");
    assert_eq!(qualify_type("com.x", "List<Widget>"), "List<Widget>");
    assert_eq!(qualify_type("com.x", "T"), "T");
    assert_eq!(qualify_type("com.x", "BadThingException"), "BadThingException");
    assert_eq!(qualify_type("com.x", "Widget[]"), "com.x.Widget[]");
}

#[test]
fn modifiers_and_visibility() {
    let tokens = strings(&["protected", "static", "final", "int", "x"]);
    assert_eq!(parse_visibility(&tokens), "protected");
    assert_eq!(parse_modifiers(&tokens), strings(&["protected", "static", "final"]));
    assert_eq!(parse_visibility(&strings(&["int", "x"])), "package");
    assert_eq!(strip_leading_modifiers("  public static final int x"), "int x");
    assert_eq!(strip_method_type_parameters(" <T extends Comparable<T>> List<T> "), "List<T>");
    assert_eq!(strip_method_type_parameters("List<T>"), "List<T>");
}

#[test]
fn declarations_split_into_type_and_name() {
    assert_eq!(split_type_and_name("public int count"), Some(("public int".to_string(), "count".to_string())));
    assert_eq!(split_type_and_name("count"), None);
    assert_eq!(split_parameter_type_and_name("final String name"), Some(("String".to_string(), "name".to_string())));
    assert_eq!(split_parameter_type_and_name("a.b c.d"), None);
    assert_eq!(parse_throws("throws IOException, Widget", "com.x"), strings(&["IOException", "com.x.Widget"]));
    assert!(parse_throws("", "com.x").is_empty());
    assert_eq!(count_char("{ a { } ", '{'), 2);
}

#[test]
fn parameters_and_annotations() {
    let ps = parse_parameters("String name, int[] values, Widget", "com.x");
    assert_eq!(ps.len(), 3);
    assert_eq!(text(&ps[0], "name"), "name");
    assert_eq!(text(&ps[0], "type"), "String");
    assert_eq!(text(&ps[1], "type"), "int[]");
    assert_eq!(text(&ps[2], "name"), "arg2");
    assert_eq!(text(&ps[2], "type"), "com.x.Widget");
    assert!(parse_parameters("   ", "com.x").is_empty());
    let a = parse_annotation("@Override", "com.x");
    assert_eq!(text(&a, "qualifiedName"), "java.lang.Override");
    let b = parse_annotation("@Inject(optional = true)", "com.x");
    assert_eq!(text(&b, "qualifiedName"), "com.x.Inject");
    assert_eq!(parse_java_package("// x\npackage com.example.app ;\nclass A {}\n"), Some("com.example.app".to_string()));
    assert_eq!(parse_java_package("class A {}"), None);
}

#[test]
fn members_are_read() {
    let f = parse_field("private static final int MAX", "com.x", "Box", Vec::new()).unwrap();
    assert_eq!(text(&f, "qualifiedName"), "com.x.Box.MAX");
    assert_eq!(text(&f, "visibility"), "private");
    assert_eq!(text(&f, "type"), "int");
    assert_eq!(texts(get(&f, "modifiers")), strings(&["private", "static", "final"]));
    match parse_method_or_constructor("public Box(int size)", "com.x", "Box", Vec::new()).unwrap() {
        DocsMember::Constructor(c) => assert_eq!(text(&c, "name"), "Box"),
        _ => panic!("expected a constructor"),
    }
    match parse_method_or_constructor("public static <T> List<T> of(T first) throws IOException", "com.x", "Box", Vec::new()).unwrap() {
        DocsMember::Method(m) => {
            assert_eq!(text(&m, "returnType"), "List<T>");
            assert_eq!(texts(get(&m, "throws")), strings(&["IOException"]));
        }
        _ => panic!("expected a method"),
    }
    assert!(parse_member_declaration("return x;", "com.x", "Box", Vec::new()).is_none());
    match parse_member_declaration("private String label = \"x\";", "com.x", "Box", Vec::new()).unwrap() {
        DocsMember::Field(f) => assert_eq!(text(&f, "type"), "String"),
        _ => panic!("expected a field"),
    }
    let t = parse_type_declaration("public final class Box extends Base implements Runnable, Shape {", "com.x", Vec::new()).unwrap();
    assert_eq!(t.qualified_name, "com.x.Box");
    assert_eq!(t.modifiers, strings(&["public", "final"]));
    assert_eq!(t.extends, Some("com.x.Base".to_string()));
    assert_eq!(t.implements, strings(&["com.x.Runnable", "com.x.Shape"]));
}

#[test]
fn sources_are_read_into_types() {
    let src = "package demo;\n\n/** A box. */\n@Deprecated\npublic class Box {\n    private int size;\n    public Box(int size) {\n        this.size = size;\n    }\n    public int size() {\n        return size;\n    }\n}\n";
    let types = extract_docs_types_from_source(src);
    assert_eq!(types.len(), 1);
    let t = &types[0];
    assert_eq!(text(t, "qualifiedName"), "demo.Box");
    assert_eq!(text(t, "kind"), "class");
    match get(t, "annotations") {
        Json::Array(a) => assert_eq!(text(&a[0], "qualifiedName"), "java.lang.Deprecated"),
        _ => panic!(),
    }
    match get(t, "fields") {
        Json::Array(f) => assert_eq!(text(&f[0], "name"), "size"),
        _ => panic!(),
    }
    match get(t, "methods") {
        Json::Array(m) => {
            assert_eq!(m.len(), 1);
            assert_eq!(text(&m[0], "returnType"), "int");
        }
        _ => panic!(),
    }
    match get(t, "constructors") {
        Json::Array(c) => assert_eq!(c.len(), 1),
        _ => panic!(),
    }
}

#[test]
fn markdown_is_rendered() {
    let source = obj(vec![
        ("name", s("Hello.java")),
        ("description", s("Says hello.")),
        ("docs", Json::Array(vec![obj(vec![("key", s("usage")), ("value", s("run it"))]), obj(vec![("key", s("note"))])])),
        ("dependencies", Json::Array(vec![s("a:b:1")])),
    ]);
    let method = obj(vec![
        ("name", s("greet")),
        ("returnType", s("String")),
        ("modifiers", Json::Array(vec![s("public")])),
        ("parameters", Json::Array(vec![obj(vec![("type", s("String")), ("name", s("who")), ("description", s("the  name"))])])),
        ("throws", Json::Array(vec![s("IOException")])),
        ("description", s("Greets\n someone.")),
        ("returnDescription", s("a greeting")),
    ]);
    let field = obj(vec![("name", s("count")), ("type", s("int")), ("modifiers", Json::Array(vec![s("static")]))]);
    let ty = obj(vec![
        ("qualifiedName", s("demo.Hello")),
        ("kind", s("class")),
        ("description", s("")),
        ("examples", Json::Array(vec![s("  new Hello();  "), s("   ")])),
        ("fields", Json::Array(vec![field])),
        ("constructors", Json::Array(vec![])),
        ("methods", Json::Array(vec![method.clone_shallow()])),
    ]);
    assert_eq!(render_member_signature(MemberKind::Method, &method), Some("String greet(String who) throws IOException".to_string()));
    let md = render_docs_markdown("Hello", Some(&DocsCoordinate { group: "g".into(), id: "a".into(), version: "1".into() }), &[source], &[ty]);
    let expected = "# Hello\n\nArtifact: `g:a:1`\n\n## Hello.java\n\nSays hello.\n\n- usage: run it\n- note\n\nDependencies:\n- `a:b:1`\n\n## `demo.Hello`\n\nKind: class\n\n### Examples\n\n```java\nnew Hello();\n```\n\n### Fields\n\n- `static int count`\n\n### Methods\n\n- `String greet(String who) throws IOException` — Greets someone.\n  - `who`: the name\n  - Returns: a greeting\n\n";
    assert_eq!(md, expected);
}

trait ShallowClone {
    fn clone_shallow(&self) -> Json;
}

impl ShallowClone for Json {
    fn clone_shallow(&self) -> Json {
        match self {
            Json::Null => Json::Null,
            Json::Bool(b) => Json::Bool(*b),
            Json::Number(n) => Json::Number(n.clone()),
            Json::Str(t) => Json::Str(t.clone()),
            Json::Array(items) => Json::Array(items.iter().map(|i| i.clone_shallow()).collect()),
            Json::Object(m) => Json::Object(m.iter().map(|(k, v)| (k.clone(), v.clone_shallow())).collect()),
        }
    }
}

const JAVAP: &str = "Classfile /tmp/x/com/example/Greeter.class\n  Last modified 1 Jan 2024; size 500 bytes\n  SHA-256 checksum abc\n  Compiled from \"Greeter.java\"\npublic class com.example.Greeter\n  minor version: 0\n  flags: (0x0021) ACC_PUBLIC, ACC_SUPER\n{\n  public static final int LIMIT;\n    descriptor: I\n\n  public java.lang.String greet(java.lang.String, int);\n    descriptor: (Ljava/lang/String;I)Ljava/lang/String;\n    flags: (0x0001) ACC_PUBLIC\n    MethodParameters:\n      Name                           Flags\n      who\n      times\n}\n";

#[test]
fn javap_parameter_tables_are_read() {
    let table = jbx::java_source::javap_parameter_names(JAVAP);
    assert_eq!(table.len(), 1);
    assert_eq!(table[0].0, "greet");
    assert_eq!(table[0].1[..2].to_vec(), strings(&["who", "times"]));
}

#[test]
fn javap_types_are_read() {
    let t = jbx::java_source::parse_javap_type(JAVAP).unwrap();
    assert_eq!(text(&t, "qualifiedName"), "com.example.Greeter");
    assert_eq!(text(&t, "package"), "com.example");
    assert_eq!(text(&t, "name"), "Greeter");
    assert_eq!(text(&t, "visibility"), "public");
    match get(&t, "fields") {
        Json::Array(f) => {
            assert_eq!(f.len(), 1);
            assert_eq!(text(&f[0], "name"), "LIMIT");
            assert_eq!(text(&f[0], "type"), "int");
        }
        _ => panic!(),
    }
    match get(&t, "methods") {
        Json::Array(m) => {
            assert_eq!(m.len(), 1);
            assert_eq!(text(&m[0], "returnType"), "String");
            match get(&m[0], "parameters") {
                Json::Array(ps) => {
                    assert_eq!(text(&ps[0], "name"), "who");
                    assert_eq!(text(&ps[0], "type"), "String");
                    assert_eq!(text(&ps[1], "name"), "times");
                }
                _ => panic!(),
            }
        }
        _ => panic!(),
    }
    assert!(jbx::java_source::parse_javap_type("nothing here").is_none());
}
