use jbx::catalog::Json;
use jbx::javadoc::{
    enrich_member_with_javadoc, extract_javadoc_examples, extract_javadoc_member_docs,
    extract_javadoc_signatures, extract_javadoc_type_description, html_fragment_to_markdown,
    html_unescape, is_javadoc_member_signature, is_javadoc_type_page, is_javadoc_type_signature,
    is_markdown_block_line, json_set, normalize_code_block, normalize_doc_text,
    normalize_markdown_text, parse_javadoc_type_page, strip_html_tags,
    strip_leading_annotation_lines, JavadocMemberDoc,
};
use jbx::java_source::{parse_member_declaration, DocsMember};

fn member<'a>(j: &'a Json, key: &str) -> Option<&'a Json> {
    match j {
        Json::Object(m) => m.iter().find(|(k, _)| k == key).map(|(_, v)| v),
        _ => None,
    }
}

fn text<'a>(j: &'a Json, key: &str) -> &'a str {
    match member(j, key) {
        Some(Json::Str(s)) => s.as_str(),
        other => panic!("{key} is not text: {:?}", other),
    }
}

fn items<'a>(j: &'a Json, key: &str) -> &'a Vec<Json> {
    match member(j, key) {
        Some(Json::Array(v)) => v,
        other => panic!("{key} is not an array: {:?}", other),
    }
}

#[test]
fn html_text_helpers() {
    assert_eq!(html_unescape("a &lt;b&gt; &amp;lt; &quot;c&quot; &#39;d&#39;&nbsp;e"), "a <b> &lt; \"c\" 'd' e");
    assert_eq!(strip_html_tags("<code>List&lt;T&gt;</code> of <b>x</b>"), " List<T>  of  x ");
    assert_eq!(normalize_doc_text("  a \n b\t\tc  "), "a b c");
    assert_eq!(normalize_code_block("\n  int x = 1;   \n  return x;\n\n"), "int x = 1;\n  return x;");
}

#[test]
fn markdown_is_normalised() {
    assert_eq!(normalize_markdown_text("First line\nsecond line\n\n\n\nNext paragraph"), "First line second line\n\nNext paragraph");
    assert_eq!(normalize_markdown_text("Intro\n- one\n- two\nafter"), "Intro\n- one\n- two\nafter");
    assert_eq!(normalize_markdown_text("Text\n```java\n  code();  \n```\nmore"), "Text\n```java\n  code();\n```\nmore");
    assert!(is_markdown_block_line("# Title"));
    assert!(is_markdown_block_line("12. item"));
    assert!(!is_markdown_block_line("12.item"));
    assert!(!is_markdown_block_line("plain"));
}

#[test]
fn html_fragments_become_markdown() {
    assert_eq!(html_fragment_to_markdown("Returns the <b>sum</b>."), "Returns the **sum**.");
    assert_eq!(html_fragment_to_markdown("<p>One</p><p>Two</p>"), "One\n\nTwo");
}

#[test]
fn signatures_are_recognised() {
    assert_eq!(strip_leading_annotation_lines("  @Deprecated\n  @Override public int x()"), "public int x()");
    assert_eq!(strip_leading_annotation_lines("@Deprecated"), "");
    assert!(is_javadoc_member_signature("public static int add(int a, int b)"));
    assert!(is_javadoc_member_signature("@Deprecated protected void old()"));
    assert!(!is_javadoc_member_signature("int add(int a, int b)"));
    assert!(!is_javadoc_member_signature("public class Calc"));
    assert!(is_javadoc_type_signature("public final class Calc"));
    assert!(!is_javadoc_type_signature("public int add()"));
}

#[test]
fn type_pages_are_recognised() {
    assert!(is_javadoc_type_page("org/example/Calc.html"));
    assert!(is_javadoc_type_page("Calc.html"));
    assert!(!is_javadoc_type_page("org/example/package-summary.html"));
    assert!(!is_javadoc_type_page("org/example/class-use/Calc.html"));
    assert!(!is_javadoc_type_page("org/example/calc.html"));
    assert!(!is_javadoc_type_page("org/example/index.html"));
    assert!(!is_javadoc_type_page("org/example/Calc.java"));
}

const PAGE: &str = r#"<html><body>
<h1 class="title">Class Calc</h1>
<pre>public class Calc</pre>
<section class="class-description" id="class-description">
<div class="type-signature">public class Calc</div>
<div class="block">Adds <code>numbers</code>.</div>
<pre>Calc c = new Calc();
c.add(1, 2);</pre>
</section>
<section class="detail" id="add(int,int)">
<h3>add</h3>
<div class="member-signature"><span class="modifiers">public</span>&nbsp;<span class="return-type">int</span>&nbsp;<span class="element-name">add</span>(int&nbsp;a, int&nbsp;b)</div>
<div class="block">Adds two numbers.</div>
<dl class="notes">
<dt>Parameters:</dt>
<dd><code>a</code> - the first</dd>
<dd><code>b</code> - the second</dd>
<dt>Returns:</dt>
<dd>the sum</dd>
</dl>
</section>
</body></html>"#;

#[test]
fn member_docs_come_from_detail_sections() {
    let docs = extract_javadoc_member_docs(PAGE);
    assert_eq!(docs.len(), 1);
    assert_eq!(docs[0].signature, "public int add (int a, int b)");
    assert_eq!(docs[0].description.as_deref(), Some("Adds two numbers."));
    assert_eq!(docs[0].parameter_descriptions, vec![("a".to_string(), "the first".to_string()), ("b".to_string(), "the second".to_string())]);
    assert_eq!(docs[0].return_description.as_deref(), Some("the sum"));
    assert_eq!(extract_javadoc_signatures(PAGE), vec!["public int add (int a, int b)".to_string()]);
}

#[test]
fn bare_signatures_come_from_pre_blocks() {
    let html = "<pre>public static String name();</pre><pre>class X</pre><pre>public int size()</pre>";
    assert_eq!(extract_javadoc_signatures(html), vec!["public static String name()".to_string(), "public int size()".to_string()]);
    let docs = extract_javadoc_member_docs(html);
    assert_eq!(docs.len(), 2);
    assert!(docs[0].description.is_none() && docs[0].parameter_descriptions.is_empty());
}

#[test]
fn examples_and_description() {
    assert_eq!(extract_javadoc_examples(PAGE), vec!["Calc c = new Calc();\nc.add(1, 2);".to_string()]);
    assert_eq!(extract_javadoc_type_description(PAGE).as_deref(), Some("Adds `numbers`."));
    assert_eq!(extract_javadoc_type_description("<p>none</p>"), None);
}

#[test]
fn json_members_are_set() {
    let j = Json::Object(vec![("a".into(), Json::Null)]);
    let j = json_set(j, "b", Json::Str("x".into()));
    let j = json_set(j, "a", Json::Bool(true));
    match &j {
        Json::Object(m) => {
            assert_eq!(m.len(), 2);
            assert_eq!(m[0].0, "a");
            assert!(matches!(m[0].1, Json::Bool(true)));
            assert_eq!(m[1].0, "b");
        }
        _ => panic!("not an object"),
    }
}

#[test]
fn members_are_enriched() {
    let mut m = parse_member_declaration("public int add(int a, int b)", "org.example", "Calc", vec![]).unwrap();
    let doc = JavadocMemberDoc {
        signature: "public int add(int a, int b)".into(),
        description: Some("Adds.".into()),
        parameter_descriptions: vec![("b".into(), "second".into())],
        return_description: Some("the sum".into()),
    };
    enrich_member_with_javadoc(&mut m, &doc);
    let json = match &m {
        DocsMember::Method(j) => j,
        _ => panic!("not a method"),
    };
    assert_eq!(text(json, "description"), "Adds.");
    assert_eq!(text(json, "returnDescription"), "the sum");
    let params = items(json, "parameters");
    assert!(member(&params[0], "description").is_none());
    assert_eq!(text(&params[1], "description"), "second");
}

#[test]
fn type_pages_become_json() {
    let ty = parse_javadoc_type_page("org/example/Calc.html", PAGE).unwrap();
    assert_eq!(text(&ty, "kind"), "class");
    assert_eq!(text(&ty, "name"), "Calc");
    assert_eq!(text(&ty, "qualifiedName"), "org.example.Calc");
    assert_eq!(text(&ty, "package"), "org.example");
    assert_eq!(text(&ty, "description"), "Adds `numbers`.");
    let methods = items(&ty, "methods");
    assert_eq!(methods.len(), 1);
    assert_eq!(text(&methods[0], "name"), "add");
    assert_eq!(text(&methods[0], "description"), "Adds two numbers.");
    assert_eq!(text(&methods[0], "returnDescription"), "the sum");
    let iface = parse_javadoc_type_page("Shape.html", "<pre>public interface Shape</pre>").unwrap();
    assert_eq!(text(&iface, "kind"), "interface");
    assert_eq!(text(&iface, "package"), "");
    assert!(parse_javadoc_type_page("A.html", "<pre>public int f) x(</pre>").is_none());
}

fn at<'a>(j: &'a Json, key: &str) -> &'a Json {
    member(j, key).unwrap_or_else(|| panic!("no member {key}"))
}

fn nth(j: &Json, i: usize) -> &Json {
    match j {
        Json::Array(v) => &v[i],
        other => panic!("not an array: {:?}", other),
    }
}

fn str_of(j: &Json) -> &str {
    match j {
        Json::Str(s) => s.as_str(),
        other => panic!("not a string: {:?}", other),
    }
}

fn s(v: &str) -> Json {
    Json::Str(v.to_string())
}

fn obj(members: Vec<(&str, Json)>) -> Json {
    Json::Object(members.into_iter().map(|(k, v)| (k.to_string(), v)).collect())
}

#[test]
fn javadoc_type_description_is_extracted_and_rendered() {
    let html = r#"
            <div class="description">
              <pre>public class <span class="typeNameLabel">Example</span></pre>
              <div class="block"><p>Example reads and writes JSON.
                It supports <code>tree</code> values.</p></div>
            </div>
            <div class="member-signature">public void run()</div>
        "#;
    let ty = parse_javadoc_type_page("com/example/Example.html", html).unwrap();
    assert_eq!(str_of(at(&ty, "description")), "Example reads and writes JSON. It supports `tree` values.");

    let markdown = jbx::docs::render_docs_markdown("example", None, &[], &[ty]);
    assert!(markdown.contains("Example reads and writes JSON. It supports `tree` values."), "{markdown}");
}

#[test]
fn javadoc_full_signatures_parse_fields_constructors_methods_and_parameters() {
    let html = r#"
            <div class="description">
              <pre>public class <span class="typeNameLabel">Example</span></pre>
              <div class="block">Useful example.
                <pre>Example example = new Example("demo", Map.of());
String value = example.readValue("{}", String.class);</pre>
              </div>
            </div>
            <ul class="blockList">
              <li class="blockList">
                <h4>COUNT</h4>
                <pre>public static final&nbsp;int&nbsp;COUNT</pre>
              </li>
              <li class="blockList">
                <h4>Example</h4>
                <pre>public&nbsp;Example( String &nbsp;name,
       java.util.Map&lt;String, Object&gt;&nbsp;options)
        throws IOException</pre>
              </li>
              <li class="blockList">
                <h4>readValue</h4>
                <pre>public final&nbsp;&lt;T&gt;&nbsp;T&nbsp;readValue( String &nbsp;content,
       Class &lt;T&gt;&nbsp;valueType,
       String...&nbsp;features)
        throws IOException,
               IllegalArgumentException</pre>
              </li>
            </ul>
        "#;
    let ty = parse_javadoc_type_page("com/example/Example.html", html).unwrap();

    assert_eq!(str_of(at(nth(at(&ty, "fields"), 0), "name")), "COUNT");
    assert_eq!(str_of(at(nth(at(&ty, "fields"), 0), "type")), "int");
    assert!(str_of(at(&ty, "description")).contains("```"));
    assert!(str_of(at(&ty, "description")).contains("example.readValue"));
    match at(&ty, "examples") {
        Json::Array(v) => assert_eq!(v.len(), 1),
        other => panic!("no examples: {:?}", other),
    }
    assert!(str_of(nth(at(&ty, "examples"), 0)).contains("example.readValue"));

    let ctor = nth(at(&ty, "constructors"), 0);
    assert_eq!(str_of(at(ctor, "name")), "Example");
    assert_eq!(str_of(at(nth(at(ctor, "parameters"), 0), "name")), "name");
    assert_eq!(str_of(at(nth(at(ctor, "parameters"), 0), "type")), "String");
    assert_eq!(str_of(at(nth(at(ctor, "parameters"), 1), "name")), "options");
    assert_eq!(str_of(at(nth(at(ctor, "parameters"), 1), "type")), "java.util.Map<String, Object>");
    assert_eq!(str_of(nth(at(ctor, "throws"), 0)), "IOException");

    let method = nth(at(&ty, "methods"), 0);
    assert_eq!(str_of(at(method, "name")), "readValue");
    assert_eq!(str_of(nth(at(method, "modifiers"), 0)), "public");
    assert_eq!(str_of(nth(at(method, "modifiers"), 1)), "final");
    assert_eq!(str_of(at(method, "returnType")), "T");
    assert_eq!(str_of(at(nth(at(method, "parameters"), 0), "name")), "content");
    assert_eq!(str_of(at(nth(at(method, "parameters"), 1), "name")), "valueType");
    assert_eq!(str_of(at(nth(at(method, "parameters"), 1), "type")), "Class<T>");
    assert_eq!(str_of(at(nth(at(method, "parameters"), 2), "name")), "features");
    assert_eq!(str_of(at(nth(at(method, "parameters"), 2), "type")), "String...");
    assert_eq!(str_of(nth(at(method, "throws"), 1)), "IllegalArgumentException");
}

#[test]
fn markdown_renders_type_members_for_agent_context() {
    let ty = obj(vec![
        ("kind", s("class")),
        ("name", s("Example")),
        ("qualifiedName", s("com.example.Example")),
        ("description", s("Useful example.")),
        ("examples", Json::Array(vec![s("Example example = new Example(\"demo\");\nString value = example.readValue(\"{}\");")])),
        ("fields", Json::Array(vec![obj(vec![("name", s("COUNT")), ("type", s("int")), ("modifiers", Json::Array(vec![s("public"), s("static"), s("final")]))])])),
        ("constructors", Json::Array(vec![obj(vec![("name", s("Example")), ("parameters", Json::Array(vec![obj(vec![("name", s("name")), ("type", s("String"))])])), ("throws", Json::Array(vec![s("IOException")]))])])),
        ("methods", Json::Array(vec![obj(vec![("name", s("readValue")), ("returnType", s("T")), ("parameters", Json::Array(vec![obj(vec![("name", s("content")), ("type", s("String"))])])), ("throws", Json::Array(vec![s("IOException")]))])])),
    ]);
    let markdown = jbx::docs::render_docs_markdown("example", None, &[], &[ty]);

    assert!(markdown.contains("### Examples"), "{markdown}");
    assert!(markdown.contains("String value = example.readValue"), "{markdown}");
    assert!(markdown.contains("### Fields"), "{markdown}");
    assert!(markdown.contains("- `public static final int COUNT`"), "{markdown}");
    assert!(markdown.contains("### Constructors"), "{markdown}");
    assert!(markdown.contains("- `Example(String name) throws IOException`"), "{markdown}");
    assert!(markdown.contains("### Methods"), "{markdown}");
    assert!(markdown.contains("- `T readValue(String content) throws IOException`"), "{markdown}");
}
