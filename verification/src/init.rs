//! Built-in `init` templates and the scripts they render.
use vstd::prelude::*;
use crate::jdk::{major_of, parse_java_version_directive, JdkError};
use crate::pom::str_views;
use crate::resolver::opt_view;
use crate::text::{
    chars_of, has_prefix, push_char, replace_all, replace_seq, starts_with, str_eq, string_of,
};
use crate::catalog::CatalogTemplate;
use crate::resolver::prop_views;

verus! {

/// A built-in template of `init`.
#[derive(Debug, Clone, Copy, PartialEq, Eq)]
pub struct InitTemplate {
    pub name: &'static str,
    pub description: &'static str,
}

/// The names of the built-in templates, in the order they are listed.
pub open spec fn init_template_names() -> Seq<Seq<char>> {
    seq!["hello"@, "java"@, "compact"@, "cli"@, "agent"@, "test"@]
}

/// The descriptions of the built-in templates, in the same order.
pub open spec fn init_template_descriptions() -> Seq<Seq<char>> {
    seq![
        "Basic Java 25 unnamed-class Hello World script"@,
        "Alias for hello"@,
        "Java 25 compact-source Hello World script"@,
        "Picocli command-line application"@,
        "Java agent skeleton"@,
        "JUnit test class"@,
    ]
}

/// The built-in templates: `hello`, its alias `java`, `compact`, `cli`,
/// `agent` and `test`, each with its description.
pub fn init_templates() -> (r: Vec<InitTemplate>)
    ensures
        r.len() == 6,
        forall|i: int|
            0 <= i < 6 ==> (#[trigger] r@[i]).name@ == init_template_names()[i]
                && r@[i].description@ == init_template_descriptions()[i],
{
    let mut r: Vec<InitTemplate> = Vec::new();
    r.push(InitTemplate { name: "hello", description: "Basic Java 25 unnamed-class Hello World script" });
    r.push(InitTemplate { name: "java", description: "Alias for hello" });
    r.push(InitTemplate { name: "compact", description: "Java 25 compact-source Hello World script" });
    r.push(InitTemplate { name: "cli", description: "Picocli command-line application" });
    r.push(InitTemplate { name: "agent", description: "Java agent skeleton" });
    r.push(InitTemplate { name: "test", description: "JUnit test class" });
    r
}

/// Why `init` refuses a template or a Java version.
#[derive(Debug)]
pub enum InitError {
    /// No built-in template has this name.
    UnknownTemplate(String),
    /// The requested Java version does not start with a major version.
    InvalidJavaVersion(JdkError),
    /// The named template needs Java 25 or later.
    NeedsJava25(String),
    /// A catalog template names no file to copy.
    NoFileRefs(String),
    /// A property of a catalog template has no default value.
    PropertyWithoutDefault(String),
}

/// The template name that was asked for: `hello` when none was.
pub open spec fn requested_template(template: Option<&str>) -> Seq<char> {
    match template {
        Some(t) => t@,
        None => "hello"@,
    }
}

/// Finds a built-in template by name (`hello` when none is given).
pub fn init_template(template: Option<&str>) -> (r: Result<InitTemplate, InitError>)
    ensures
        match r {
            Ok(t) => exists|i: int|
                0 <= i < 6 && #[trigger] init_template_names()[i] == requested_template(template)
                    && t.name@ == init_template_names()[i] && t.description@
                    == init_template_descriptions()[i],
            Err(e) => !init_template_names().contains(requested_template(template)) && (e matches InitError::UnknownTemplate(n)
                && n@ == requested_template(template)),
        },
{
    let name: &str = match template {
        Some(t) => t,
        None => "hello",
    };
    let all = init_templates();
    let mut i: usize = 0;
    while i < all.len()
        invariant
            all.len() == 6,
            forall|k: int|
                0 <= k < 6 ==> (#[trigger] all@[k]).name@ == init_template_names()[k]
                    && all@[k].description@ == init_template_descriptions()[k],
            i <= 6,
            name@ == requested_template(template),
            forall|k: int| 0 <= k < i ==> init_template_names()[k] != name@,
        decreases all.len() - i,
    {
        if str_eq(all[i].name, name) {
            assert(all@[i as int].name@ == init_template_names()[i as int]);
            assert(init_template_names()[i as int] == requested_template(template));
            return Ok(all[i]);
        }
        i += 1;
    }
    proof {
        if init_template_names().contains(name@) {
            let k = choose|k: int| 0 <= k < 6 && init_template_names()[k] == name@;
            assert(init_template_names()[k] != name@);
        }
    }
    Err(InitError::UnknownTemplate(name.to_owned()))
}

/// The templates written as a Java 25 unnamed class.
pub open spec fn needs_java25(name: Seq<char>) -> bool {
    name == "hello"@ || name == "java"@ || name == "compact"@
}

/// Checks a requested Java version against a template: it must start with
/// a major version, and templates written as an unnamed class need 25 or
/// later.
pub fn validate_init_java_version(template: InitTemplate, version: Option<&str>) -> (r: Result<
    (),
    InitError,
>)
    ensures
        match version {
            None => r is Ok,
            Some(v) => match major_of(v@) {
                None => r matches Err(InitError::InvalidJavaVersion(JdkError::InvalidVersionDirective(t))) && t@ == v@,
                Some(m) => if needs_java25(template.name@) && m < 25 {
                    r matches Err(InitError::NeedsJava25(n)) && n@ == template.name@
                } else {
                    r is Ok
                },
            },
        },
{
    let v = match version {
        None => {
            return Ok(());
        },
        Some(v) => v,
    };
    let major = match parse_java_version_directive(v) {
        Ok(m) => m,
        Err(e) => {
            return Err(InitError::InvalidJavaVersion(e));
        },
    };
    let n = template.name;
    if (str_eq(n, "hello") || str_eq(n, "java") || str_eq(n, "compact")) && major < 25 {
        return Err(InitError::NeedsJava25(n.to_owned()));
    }
    Ok(())
}

// ─── Java identifiers ────────────────────────────────────────────────────────

/// An ASCII letter.
pub open spec fn is_ascii_alpha(c: char) -> bool {
    ('a' <= c && c <= 'z') || ('A' <= c && c <= 'Z')
}

/// An ASCII letter or digit.
pub open spec fn is_ascii_alnum(c: char) -> bool {
    is_ascii_alpha(c) || ('0' <= c && c <= '9')
}

/// A character that may start an identifier.
pub open spec fn ident_start(c: char) -> bool {
    c == '_' || c == '$' || is_ascii_alpha(c)
}

/// A character that may continue an identifier.
pub open spec fn ident_part(c: char) -> bool {
    c == '_' || c == '$' || is_ascii_alnum(c)
}

/// An ASCII Java identifier: a letter, `_` or `$`, then letters, digits,
/// `_` or `$`.
pub open spec fn java_ident(s: Seq<char>) -> bool {
    s.len() > 0 && ident_start(s[0]) && forall|i: int| 1 <= i < s.len() ==> ident_part(#[trigger] s[i])
}

/// Whether `text` can name a Java class.
pub fn is_java_identifier(text: &str) -> (r: bool)
    ensures
        r == java_ident(text@),
{
    let c = chars_of(text);
    if c.len() == 0 {
        return false;
    }
    let first = c[0];
    if !(first == '_' || first == '$' || ('a' <= first && first <= 'z') || ('A' <= first && first <= 'Z')) {
        return false;
    }
    let mut i: usize = 1;
    while i < c.len()
        invariant
            c@ == text@,
            1 <= i <= c.len(),
            forall|k: int| 1 <= k < i ==> ident_part(#[trigger] c@[k]),
        decreases c.len() - i,
    {
        let ch = c[i];
        if !(ch == '_' || ch == '$' || ('a' <= ch && ch <= 'z') || ('A' <= ch && ch <= 'Z') || ('0' <= ch
            && ch <= '9')) {
            return false;
        }
        i += 1;
    }
    true
}

/// The ASCII upper-case form of `c`; other characters are unchanged.
pub open spec fn ascii_upper(c: char) -> char {
    if 'a' <= c && c <= 'z' {
        ((c as u32) - 32) as char
    } else {
        c
    }
}

fn ascii_upper_char(c: char) -> (r: char)
    ensures
        r == ascii_upper(c),
{
    if 'a' <= c && c <= 'z' {
        let b = c as u8;
        assert(b as u32 == c as u32);
        (b - 32) as char
    } else {
        c
    }
}

/// Reading a file stem for a class name: the name so far, and whether the
/// next kept character starts a word.
pub open spec fn class_name_fold(s: Seq<char>) -> (Seq<char>, bool)
    decreases s.len(),
{
    if s.len() == 0 {
        (Seq::empty(), true)
    } else {
        let (out, upper) = class_name_fold(s.drop_last());
        let ch = s.last();
        if ident_part(ch) {
            if ch == '_' {
                (out, true)
            } else if upper {
                (out.push(ascii_upper(ch)), false)
            } else {
                (out.push(ch), false)
            }
        } else {
            (out, true)
        }
    }
}

/// The class name for a test file stem: letters, digits and `$` are kept,
/// every other character separates words, and each word starts upper-case;
/// `Test` goes in front of a name that is empty or starts with a digit.
pub open spec fn class_name_of(stem: Seq<char>) -> Seq<char> {
    let out = class_name_fold(stem).0;
    if out.len() == 0 || ('0' <= out[0] && out[0] <= '9') {
        "Test"@ + out
    } else {
        out
    }
}

/// The class name that a test template uses for a file stem.
pub fn java_class_name_from_stem(stem: &str) -> (r: String)
    ensures
        r@ == class_name_of(stem@),
{
    let c = chars_of(stem);
    let mut out: Vec<char> = Vec::new();
    let mut upper = true;
    let mut i: usize = 0;
    while i < c.len()
        invariant
            c@ == stem@,
            i <= c.len(),
            class_name_fold(stem@.take(i as int)) == (out@, upper),
        decreases c.len() - i,
    {
        assert(stem@.take(i + 1).drop_last() =~= stem@.take(i as int));
        let ch = c[i];
        if ch == '_' || ch == '$' || ('a' <= ch && ch <= 'z') || ('A' <= ch && ch <= 'Z') || ('0' <= ch
            && ch <= '9') {
            if ch == '_' {
                upper = true;
            } else if upper {
                out.push(ascii_upper_char(ch));
                upper = false;
            } else {
                out.push(ch);
                upper = false;
            }
        } else {
            upper = true;
        }
        i += 1;
    }
    assert(stem@.take(c.len() as int) =~= stem@);
    let mut r = String::new();
    if out.len() == 0 || ('0' <= out[0] && out[0] <= '9') {
        r.append("Test");
    }
    let tail = string_of(out.as_slice());
    r.append(tail.as_str());
    r
}

// ─── Rendering ──────────────────────────────────────────────────────────────

/// What `init` is asked to create.
#[derive(Debug)]
pub struct InitOptions {
    pub script: std::path::PathBuf,
    pub deps: Vec<String>,
    pub java_version: Option<String>,
    pub template: Option<String>,
    pub force: bool,
}

/// One `//DEPS` line per dependency.
pub open spec fn deps_lines(deps: Seq<Seq<char>>) -> Seq<char>
    decreases deps.len(),
{
    if deps.len() == 0 {
        Seq::empty()
    } else {
        deps_lines(deps.drop_last()) + "//DEPS "@ + deps.last() + "\n"@
    }
}

fn push_deps_lines(out: &mut String, deps: &[String])
    ensures
        final(out)@ == old(out)@ + deps_lines(str_views(deps@)),
{
    let ghost o = out@;
    let ghost dv = str_views(deps@);
    let mut i: usize = 0;
    assert(dv.take(0) =~= Seq::<Seq<char>>::empty());
    while i < deps.len()
        invariant
            dv == str_views(deps@),
            i <= deps.len(),
            out@ == o + deps_lines(dv.take(i as int)),
        decreases deps.len() - i,
    {
        assert(dv.take(i + 1).drop_last() =~= dv.take(i as int));
        assert(dv.take(i + 1).last() == deps@[i as int]@);
        out.append("//DEPS ");
        out.append(deps[i].as_str());
        out.append("\n");
        assert(out@ =~= o + deps_lines(dv.take(i + 1)));
        i += 1;
    }
    assert(dv.take(deps.len() as int) =~= dv);
}

/// The header of a rendered script: the launcher line, a `//JAVA` line when
/// a version is given, and the dependencies.
pub open spec fn header_text(java: Option<Seq<char>>, deps: Seq<Seq<char>>) -> Seq<char> {
    "///usr/bin/env jbang \"$0\" \"$@\" ; exit $?\n"@ + match java {
        Some(v) => "//JAVA "@ + v + "\n"@,
        None => Seq::empty(),
    } + deps_lines(deps)
}

/// The Java version of a rendered script: the requested one, else the
/// template's default.
pub open spec fn java_or(options: InitOptions, default_java: Option<Seq<char>>) -> Option<Seq<char>> {
    match options.java_version {
        Some(v) => Some(v@),
        None => default_java,
    }
}

fn render_header(options: &InitOptions, default_java: Option<&str>, out: &mut String)
    ensures
        final(out)@ == old(out)@ + header_text(
            java_or(*options, match default_java {
                Some(d) => Some(d@),
                None => None,
            }),
            str_views(options.deps@),
        ),
{
    let ghost o = out@;
    out.append("///usr/bin/env jbang \"$0\" \"$@\" ; exit $?\n");
    let java: Option<&str> = match &options.java_version {
        Some(v) => Some(v.as_str()),
        None => default_java,
    };
    match java {
        Some(v) => {
            out.append("//JAVA ");
            out.append(v);
            out.append("\n");
        },
        None => {},
    }
    let ghost mid = out@;
    push_deps_lines(out, options.deps.as_slice());
    assert(out@ =~= o + header_text(
        java_or(*options, match default_java {
            Some(d) => Some(d@),
            None => None,
        }),
        str_views(options.deps@),
    ));
}

/// The hint left in a script that declares no dependencies.
pub open spec fn dependency_hint(deps: Seq<Seq<char>>) -> Seq<char> {
    if deps.len() == 0 {
        "// //DEPS <dependency1> <dependency2>\n"@
    } else {
        Seq::empty()
    }
}

fn render_dependency_hint(options: &InitOptions, out: &mut String)
    ensures
        final(out)@ == old(out)@ + dependency_hint(str_views(options.deps@)),
{
    if options.deps.len() == 0 {
        out.append("// //DEPS <dependency1> <dependency2>\n");
    } else {
        assert(out@ =~= out@ + Seq::<char>::empty());
    }
}

/// The body of the `hello`, `java` and `compact` templates.
pub open spec fn hello_body() -> Seq<char> {
    "void main(String... args) {\n    IO.println(\"Hello World\");\n}\n"@
}

/// The body of the `cli` template, for class name `n`.
pub open spec fn cli_body(n: Seq<char>) -> Seq<char> {
    "\nimport picocli.CommandLine;\nimport picocli.CommandLine.Command;\nimport picocli.CommandLine.Parameters;\n\nimport java.util.concurrent.Callable;\n\n@Command(name = \""@ + n + "\", mixinStandardHelpOptions = true, version = \""@ + n + " 0.1\",\n        description = \""@ + n + " made with jbx\")\nclass "@ + n + " implements Callable<Integer> {\n\n    @Parameters(index = \"0\", description = \"The greeting to print\", defaultValue = \"World!\")\n    private String greeting;\n\n    public static void main(String... args) {\n        int exitCode = new CommandLine(new "@ + n + "()).execute(args);\n        System.exit(exitCode);\n    }\n\n    @Override\n    public Integer call() {\n        System.out.println(\"Hello \" + greeting);\n        return 0;\n    }\n}\n"@
}

fn push_cli_body(out: &mut String, n: &str)
    ensures
        final(out)@ == old(out)@ + cli_body(n@),
{
    let ghost o = out@;
    out.append("\nimport picocli.CommandLine;\nimport picocli.CommandLine.Command;\nimport picocli.CommandLine.Parameters;\n\nimport java.util.concurrent.Callable;\n\n@Command(name = \"");
    out.append(n);
    out.append("\", mixinStandardHelpOptions = true, version = \"");
    out.append(n);
    out.append(" 0.1\",\n        description = \"");
    out.append(n);
    out.append(" made with jbx\")\nclass ");
    out.append(n);
    out.append(" implements Callable<Integer> {\n\n    @Parameters(index = \"0\", description = \"The greeting to print\", defaultValue = \"World!\")\n    private String greeting;\n\n    public static void main(String... args) {\n        int exitCode = new CommandLine(new ");
    out.append(n);
    out.append("()).execute(args);\n        System.exit(exitCode);\n    }\n\n    @Override\n    public Integer call() {\n        System.out.println(\"Hello \" + greeting);\n        return 0;\n    }\n}\n");
    assert(out@ =~= o + cli_body(n@));
}

/// The body of the `test` template, for class name `n`.
pub open spec fn test_body(n: Seq<char>) -> Seq<char> {
    "\nimport org.junit.jupiter.api.Test;\n\nimport static org.junit.jupiter.api.Assertions.assertEquals;\n\nclass "@ + n + " {\n\n    @Test\n    void greets() {\n        assertEquals(\"Hello World\", greeting());\n    }\n\n    private String greeting() {\n        return \"Hello World\";\n    }\n}\n"@
}

fn push_test_body(out: &mut String, n: &str)
    ensures
        final(out)@ == old(out)@ + test_body(n@),
{
    let ghost o = out@;
    out.append("\nimport org.junit.jupiter.api.Test;\n\nimport static org.junit.jupiter.api.Assertions.assertEquals;\n\nclass ");
    out.append(n);
    out.append(" {\n\n    @Test\n    void greets() {\n        assertEquals(\"Hello World\", greeting());\n    }\n\n    private String greeting() {\n        return \"Hello World\";\n    }\n}\n");
    assert(out@ =~= o + test_body(n@));
}

/// The body of the `agent` template, for class name `n`.
pub open spec fn agent_body(n: Seq<char>) -> Seq<char> {
    "import java.lang.instrument.ClassFileTransformer;\nimport java.lang.instrument.IllegalClassFormatException;\nimport java.lang.instrument.Instrumentation;\nimport java.nio.file.Files;\nimport java.nio.file.Path;\nimport java.nio.file.Paths;\nimport java.security.ProtectionDomain;\n\npublic class "@ + n + " {\n\n    public static void premain(String agentArgs, Instrumentation instrumentation) {\n        System.out.println(\"jbx agent "@ + n + " loaded. Will dump all loaded classes into `classes/`\");\n        instrumentation.addTransformer(new ClassLogger());\n    }\n\n    public static void main(String[] args) {\n        System.out.println(\"This is a jbx javaagent.\\n\" +\n                           \"Usage: \\n\" +\n                           \"   jbx run --javaagent="@ + n + ".java yourApp.java\");\n    }\n\n    public static class ClassLogger implements ClassFileTransformer {\n        @Override\n        public byte[] transform(ClassLoader loader,\n                                String className,\n                                Class<?> classBeingRedefined,\n                                ProtectionDomain protectionDomain,\n                                byte[] classfileBuffer) throws IllegalClassFormatException {\n            try {\n                Path path = Paths.get(\"classes/\" + className + \".class\");\n                Files.createDirectories(path.getParent());\n                Files.write(path, classfileBuffer);\n            } catch (Throwable ignored) {\n                System.err.println(ignored);\n            }\n            return classfileBuffer;\n        }\n    }\n}\n"@
}

fn push_agent_body(out: &mut String, n: &str)
    ensures
        final(out)@ == old(out)@ + agent_body(n@),
{
    let ghost o = out@;
    out.append("import java.lang.instrument.ClassFileTransformer;\nimport java.lang.instrument.IllegalClassFormatException;\nimport java.lang.instrument.Instrumentation;\nimport java.nio.file.Files;\nimport java.nio.file.Path;\nimport java.nio.file.Paths;\nimport java.security.ProtectionDomain;\n\npublic class ");
    out.append(n);
    out.append(" {\n\n    public static void premain(String agentArgs, Instrumentation instrumentation) {\n        System.out.println(\"jbx agent ");
    out.append(n);
    out.append(" loaded. Will dump all loaded classes into `classes/`\");\n        instrumentation.addTransformer(new ClassLogger());\n    }\n\n    public static void main(String[] args) {\n        System.out.println(\"This is a jbx javaagent.\\n\" +\n                           \"Usage: \\n\" +\n                           \"   jbx run --javaagent=");
    out.append(n);
    out.append(".java yourApp.java\");\n    }\n\n    public static class ClassLogger implements ClassFileTransformer {\n        @Override\n        public byte[] transform(ClassLoader loader,\n                                String className,\n                                Class<?> classBeingRedefined,\n                                ProtectionDomain protectionDomain,\n                                byte[] classfileBuffer) throws IllegalClassFormatException {\n            try {\n                Path path = Paths.get(\"classes/\" + className + \".class\");\n                Files.createDirectories(path.getParent());\n                Files.write(path, classfileBuffer);\n            } catch (Throwable ignored) {\n                System.err.println(ignored);\n            }\n            return classfileBuffer;\n        }\n    }\n}\n");
    assert(out@ =~= o + agent_body(n@));
}

/// The `hello` (and `java`) script: Java 25 or the requested version.
pub open spec fn hello_script(options: InitOptions) -> Seq<char> {
    header_text(java_or(options, Some("25+"@)), str_views(options.deps@)) + dependency_hint(
        str_views(options.deps@),
    ) + hello_body()
}

/// The `cli` script for class `n`.
pub open spec fn cli_script(n: Seq<char>, options: InitOptions) -> Seq<char> {
    header_text(java_or(options, None), str_views(options.deps@))
        + "//DEPS info.picocli:picocli:4.7.6\n"@ + dependency_hint(str_views(options.deps@))
        + cli_body(n)
}

/// The `test` script for class `n`.
pub open spec fn test_script(n: Seq<char>, options: InitOptions) -> Seq<char> {
    header_text(java_or(options, None), str_views(options.deps@))
        + "//DEPS org.junit.jupiter:junit-jupiter-api:5.11.4\n"@ + dependency_hint(
        str_views(options.deps@),
    ) + test_body(n)
}

/// The manifest directives of the `agent` script for class `n`.
pub open spec fn agent_directives(n: Seq<char>) -> Seq<char> {
    "//JAVAAGENT\n//MANIFEST Premain-Class="@ + n
        + "\n//MANIFEST Can-Redefine-Classes=true\n//MANIFEST Can-Retransform-Classes=true\n//MANIFEST Can-Set-Native-Method-Prefix=true\n"@
}

/// The `agent` script for class `n`.
pub open spec fn agent_script(n: Seq<char>, options: InitOptions) -> Seq<char> {
    header_text(java_or(options, None), str_views(options.deps@)) + agent_directives(n)
        + dependency_hint(str_views(options.deps@)) + "\n"@ + agent_body(n)
}

/// The script that a built-in template renders for class `n`.
pub open spec fn init_script_text(name: Seq<char>, n: Seq<char>, options: InitOptions) -> Seq<char> {
    if name == "compact"@ {
        hello_script(options)
    } else if name == "cli"@ {
        cli_script(n, options)
    } else if name == "agent"@ {
        agent_script(n, options)
    } else if name == "test"@ {
        test_script(n, options)
    } else {
        hello_script(options)
    }
}

fn render_hello_init_script(options: &InitOptions) -> (r: String)
    ensures
        r@ == hello_script(*options),
{
    let mut out = String::new();
    render_header(options, Some("25+"), &mut out);
    render_dependency_hint(options, &mut out);
    out.append("void main(String... args) {\n    IO.println(\"Hello World\");\n}\n");
    assert(out@ =~= hello_script(*options));
    out
}

fn render_cli_init_script(base_name: &str, options: &InitOptions) -> (r: String)
    ensures
        r@ == cli_script(base_name@, *options),
{
    let mut out = String::new();
    render_header(options, None, &mut out);
    out.append("//DEPS info.picocli:picocli:4.7.6\n");
    render_dependency_hint(options, &mut out);
    push_cli_body(&mut out, base_name);
    assert(out@ =~= cli_script(base_name@, *options));
    out
}

fn render_test_init_script(base_name: &str, options: &InitOptions) -> (r: String)
    ensures
        r@ == test_script(base_name@, *options),
{
    let mut out = String::new();
    render_header(options, None, &mut out);
    out.append("//DEPS org.junit.jupiter:junit-jupiter-api:5.11.4\n");
    render_dependency_hint(options, &mut out);
    push_test_body(&mut out, base_name);
    assert(out@ =~= test_script(base_name@, *options));
    out
}

fn render_agent_init_script(base_name: &str, options: &InitOptions) -> (r: String)
    ensures
        r@ == agent_script(base_name@, *options),
{
    let mut out = String::new();
    render_header(options, None, &mut out);
    out.append("//JAVAAGENT\n//MANIFEST Premain-Class=");
    out.append(base_name);
    out.append(
        "\n//MANIFEST Can-Redefine-Classes=true\n//MANIFEST Can-Retransform-Classes=true\n//MANIFEST Can-Set-Native-Method-Prefix=true\n",
    );
    render_dependency_hint(options, &mut out);
    out.append("\n");
    push_agent_body(&mut out, base_name);
    assert(out@ =~= agent_script(base_name@, *options));
    out
}

/// Renders a built-in template for class `base_name`.
pub fn render_init_script(template: InitTemplate, base_name: &str, options: &InitOptions) -> (r:
    String)
    ensures
        r@ == init_script_text(template.name@, base_name@, *options),
{
    let n = template.name;
    if str_eq(n, "compact") {
        render_hello_init_script(options)
    } else if str_eq(n, "cli") {
        render_cli_init_script(base_name, options)
    } else if str_eq(n, "agent") {
        render_agent_init_script(base_name, options)
    } else if str_eq(n, "test") {
        render_test_init_script(base_name, options)
    } else {
        render_hello_init_script(options)
    }
}

// ─── Adding dependencies to a template ──────────────────────────────────────

/// The position just past the line that starts at `i` (past its `\n`, or
/// the end of the text).
pub open spec fn line_end(s: Seq<char>, i: int) -> int
    decreases s.len() - i,
{
    if i < 0 || i >= s.len() {
        s.len() as int
    } else if s[i] == '\n' {
        i + 1
    } else {
        line_end(s, i + 1)
    }
}

pub proof fn lemma_line_end(s: Seq<char>, i: int)
    requires
        0 <= i <= s.len(),
    ensures
        i <= line_end(s, i) <= s.len(),
        i < s.len() ==> i < line_end(s, i),
    decreases s.len() - i,
{
    if i < s.len() && s[i] != '\n' {
        lemma_line_end(s, i + 1);
    }
}

/// The position past the `//JAVA` lines that start at `k`.
pub open spec fn java_lines_end(s: Seq<char>, k: int) -> int
    decreases s.len() - k,
{
    if 0 <= k < s.len() && has_prefix(s.subrange(k, s.len() as int), "//JAVA "@) {
        proof {
            lemma_line_end(s, k);
        }
        java_lines_end(s, line_end(s, k))
    } else {
        k
    }
}

/// Where dependencies go in a template: after a launcher line (`///usr/bin/env `
/// or `#!`) and the `//JAVA` lines that follow it.
pub open spec fn deps_insert_at(s: Seq<char>) -> int {
    let first = if s.len() > 0 && (has_prefix(s, "///usr/bin/env "@) || has_prefix(s, "#!"@)) {
        line_end(s, 0)
    } else {
        0
    };
    java_lines_end(s, first)
}

fn find_line_end(s: &[char], i: usize) -> (r: usize)
    requires
        i <= s.len(),
    ensures
        r == line_end(s@, i as int),
{
    let mut j = i;
    while j < s.len() && s[j] != '\n'
        invariant
            i <= j <= s.len(),
            line_end(s@, i as int) == line_end(s@, j as int),
        decreases s.len() - j,
    {
        j += 1;
    }
    if j < s.len() {
        j + 1
    } else {
        j
    }
}

/// A template with one `//DEPS` line per dependency added after its
/// launcher and `//JAVA` lines.
pub fn insert_template_deps(content: &str, deps: &[String]) -> (r: String)
    ensures
        r@ == content@.subrange(0, deps_insert_at(content@)) + deps_lines(str_views(deps@))
            + content@.subrange(deps_insert_at(content@), content@.len() as int),
{
    let c = chars_of(content);
    let launcher = chars_of("///usr/bin/env ");
    let hash_bang = chars_of("#!");
    let java = chars_of("//JAVA ");
    let mut at: usize = 0;
    if c.len() > 0 && (starts_with(c.as_slice(), launcher.as_slice()) || starts_with(
        c.as_slice(),
        hash_bang.as_slice(),
    )) {
        at = find_line_end(c.as_slice(), 0);
    }
    proof {
        lemma_line_end(c@, 0);
    }
    let ghost first = at as int;
    while at < c.len() && crate::text::matches_at(c.as_slice(), java.as_slice(), at)
        invariant
            c@ == content@,
            java@ == "//JAVA "@,
            at <= c.len(),
            java_lines_end(c@, first) == java_lines_end(c@, at as int),
        decreases c.len() - at,
    {
        proof {
            assert(c@.subrange(at as int, c.len() as int).take(java@.len() as int) =~= c@.subrange(
                at as int,
                at + java@.len(),
            ));
            lemma_line_end(c@, at as int);
        }
        at = find_line_end(c.as_slice(), at);
    }
    proof {
        if at < c.len() && java@.len() <= c.len() - at {
            assert(c@.subrange(at as int, c.len() as int).take(java@.len() as int) =~= c@.subrange(
                at as int,
                at + java@.len(),
            ));
        }
    }
    let mut out = crate::text::substring(c.as_slice(), 0, at);
    push_deps_lines(&mut out, deps);
    let rest = crate::text::substring(c.as_slice(), at, c.len());
    out.append(rest.as_str());
    out
}

// ─── Catalog templates ───────────────────────────────────────────────────────

/// The text with which a template view is inserted: the template with
/// `//DEPS` lines for `deps` after its launcher and `//JAVA` lines.
pub open spec fn with_template_deps(content: Seq<char>, deps: Seq<Seq<char>>) -> Seq<char> {
    content.subrange(0, deps_insert_at(content)) + deps_lines(deps) + content.subrange(
        deps_insert_at(content),
        content.len() as int,
    )
}

/// The defaults of a template's properties, in order; the key of the first
/// property without one.
pub open spec fn property_defaults(props: Seq<(Seq<char>, Option<Seq<char>>)>) -> Result<
    Seq<(Seq<char>, Seq<char>)>,
    Seq<char>,
>
    decreases props.len(),
{
    if props.len() == 0 {
        Ok(Seq::empty())
    } else {
        match property_defaults(props.drop_last()) {
            Err(k) => Err(k),
            Ok(d) => match props.last().1 {
                Some(v) => Ok(d.push((props.last().0, v))),
                None => Err(props.last().0),
            },
        }
    }
}

/// What fills a catalog template: the script's base name as `basename`,
/// `baseName`, `className` and `name`, each property's default, then
/// `javaVersion` (`25` unless one was asked for).
pub open spec fn template_values(
    base: Seq<char>,
    props: Seq<(Seq<char>, Option<Seq<char>>)>,
    java: Option<Seq<char>>,
) -> Result<Seq<(Seq<char>, Seq<char>)>, Seq<char>> {
    match property_defaults(props) {
        Err(k) => Err(k),
        Ok(d) => Ok(
            seq![("basename"@, base), ("baseName"@, base), ("className"@, base), ("name"@, base)] + d
                + seq![
                ("javaVersion"@, match java {
                    Some(j) => j,
                    None => "25"@,
                }),
            ],
        ),
    }
}

/// `content` with, value after value, every `{{key}}` and then every `{key}`
/// replaced by the value.
pub open spec fn filled(content: Seq<char>, values: Seq<(Seq<char>, Seq<char>)>) -> Seq<char>
    decreases values.len(),
{
    if values.len() == 0 {
        content
    } else {
        let (k, v) = values.last();
        let c = filled(content, values.drop_last());
        replace_all(replace_all(c, "{{"@ + k + "}}"@, v), "{"@ + k + "}"@, v)
    }
}

/// The script made from a catalog template whose file holds `content`: the
/// template filled, with `//DEPS` lines for `deps` when there are any; the
/// key of a property without a default refuses it.
pub open spec fn catalog_template_text(
    content: Seq<char>,
    base: Seq<char>,
    props: Seq<(Seq<char>, Option<Seq<char>>)>,
    java: Option<Seq<char>>,
    deps: Seq<Seq<char>>,
) -> Result<Seq<char>, Seq<char>> {
    match template_values(base, props, java) {
        Err(k) => Err(k),
        Ok(values) => {
            let f = filled(content, values);
            Ok(
                if deps.len() == 0 {
                    f
                } else {
                    with_template_deps(f, deps)
                },
            )
        },
    }
}

/// The views of a template's properties.
pub open spec fn prop_opt_views(v: Seq<(String, Option<String>)>) -> Seq<(Seq<char>, Option<Seq<char>>)> {
    v.map_values(|p: (String, Option<String>)| (p.0@, opt_view(p.1)))
}

/// The file that a catalog template copies: the source of its first file
/// reference.
pub fn template_source_ref(template: &CatalogTemplate) -> (r: Result<String, InitError>)
    ensures
        template.file_refs.len() > 0 ==> (r matches Ok(s) && s@ == template.file_refs@[0].1@),
        template.file_refs.len() == 0 ==> (r matches Err(InitError::NoFileRefs(n)) && n@
            == template.name@),
{
    if template.file_refs.len() == 0 {
        return Err(InitError::NoFileRefs(template.name.clone()));
    }
    Ok(template.file_refs[0].1.clone())
}

fn replace_text(content: String, pattern: &str, value: &str) -> (r: String)
    requires
        pattern@.len() > 0,
    ensures
        r@ == replace_all(content@, pattern@, value@),
{
    let c = chars_of(content.as_str());
    let p = chars_of(pattern);
    let v = chars_of(value);
    let out = replace_seq(c.as_slice(), p.as_slice(), v.as_slice());
    string_of(out.as_slice())
}

fn braced(key: &str, double: bool) -> (r: String)
    ensures
        r@ == (if double {
            "{{"@ + key@ + "}}"@
        } else {
            "{"@ + key@ + "}"@
        }),
{
    let mut out = if double {
        "{{".to_owned()
    } else {
        "{".to_owned()
    };
    out.append(key);
    if double {
        out.append("}}");
    } else {
        out.append("}");
    }
    out
}

/// Fills a template: every `{{key}}` and `{key}` replaced by its value.
pub fn fill_template(content: &str, values: &Vec<(String, String)>) -> (r: String)
    ensures
        r@ == filled(content@, prop_views(values@)),
{
    let ghost vs = prop_views(values@);
    let mut out = content.to_owned();
    let mut i: usize = 0;
    assert(vs.take(0) =~= Seq::<(Seq<char>, Seq<char>)>::empty());
    while i < values.len()
        invariant
            vs == prop_views(values@),
            i <= values.len(),
            out@ == filled(content@, vs.take(i as int)),
        decreases values.len() - i,
    {
        assert(vs.take(i + 1).drop_last() =~= vs.take(i as int));
        assert(vs.take(i + 1).last() == (values@[i as int].0@, values@[i as int].1@));
        let double = braced(values[i].0.as_str(), true);
        let single = braced(values[i].0.as_str(), false);
        proof {
            reveal_strlit("{{");
            reveal_strlit("{");
        }
        let step = replace_text(out, double.as_str(), values[i].1.as_str());
        out = replace_text(step, single.as_str(), values[i].1.as_str());
        i += 1;
    }
    assert(vs.take(values.len() as int) =~= vs);
    out
}

/// What fills a catalog template for a script with base name `base_name`.
pub fn template_replacements(
    template: &CatalogTemplate,
    base_name: &str,
    java_version: &Option<String>,
) -> (r: Result<Vec<(String, String)>, InitError>)
    ensures
        match template_values(base_name@, prop_opt_views(template.properties@), opt_view(*java_version)) {
            Ok(values) => r matches Ok(v) && prop_views(v@) == values,
            Err(k) => r matches Err(InitError::PropertyWithoutDefault(n)) && n@ == k,
        },
{
    let ghost ps = prop_opt_views(template.properties@);
    let mut defaults: Vec<(String, String)> = Vec::new();
    let mut i: usize = 0;
    assert(ps.take(0) =~= Seq::<(Seq<char>, Option<Seq<char>>)>::empty());
    assert(prop_views(defaults@) =~= Seq::<(Seq<char>, Seq<char>)>::empty());
    while i < template.properties.len()
        invariant
            ps == prop_opt_views(template.properties@),
            i <= template.properties.len(),
            property_defaults(ps.take(i as int)) == Ok::<Seq<(Seq<char>, Seq<char>)>, Seq<char>>(
                prop_views(defaults@),
            ),
        decreases template.properties.len() - i,
    {
        assert(ps.take(i + 1).drop_last() =~= ps.take(i as int));
        assert(ps.take(i + 1).last() == ps[i as int]);
        match &template.properties[i].1 {
            Some(v) => {
                let ghost before = prop_views(defaults@);
                defaults.push((template.properties[i].0.clone(), v.clone()));
                assert(prop_views(defaults@) =~= before.push(
                    (template.properties@[i as int].0@, v@),
                ));
            },
            None => {
                proof {
                    lemma_property_defaults_err(ps, i as int);
                }
                return Err(InitError::PropertyWithoutDefault(template.properties[i].0.clone()));
            },
        }
        i += 1;
    }
    assert(ps.take(i as int) =~= ps);
    let mut out: Vec<(String, String)> = Vec::new();
    out.push(("basename".to_owned(), base_name.to_owned()));
    out.push(("baseName".to_owned(), base_name.to_owned()));
    out.push(("className".to_owned(), base_name.to_owned()));
    out.push(("name".to_owned(), base_name.to_owned()));
    let ghost head = prop_views(out@);
    out.append(&mut defaults);
    let java = match java_version {
        Some(j) => j.clone(),
        None => "25".to_owned(),
    };
    out.push(("javaVersion".to_owned(), java));
    assert(prop_views(out@) =~= template_values(base_name@, ps, opt_view(*java_version))->Ok_0);
    Ok(out)
}

/// A property without a default at `i`, after properties that all have
/// one, is the first one missing.
proof fn lemma_property_defaults_err(ps: Seq<(Seq<char>, Option<Seq<char>>)>, i: int)
    requires
        0 <= i < ps.len(),
        property_defaults(ps.take(i)) is Ok,
        ps[i].1 is None,
    ensures
        property_defaults(ps) == Err::<Seq<(Seq<char>, Seq<char>)>, Seq<char>>(ps[i].0),
    decreases ps.len() - i,
{
    let n = ps.len();
    if i == n - 1 {
        assert(ps.drop_last() =~= ps.take(i));
    } else {
        assert(ps.drop_last().take(i) =~= ps.take(i));
        lemma_property_defaults_err(ps.drop_last(), i);
    }
}

/// Makes the script of a catalog template whose file holds `content`.
pub fn render_catalog_template(
    template: &CatalogTemplate,
    base_name: &str,
    options: &InitOptions,
    content: &str,
) -> (r: Result<String, InitError>)
    ensures
        match catalog_template_text(
            content@,
            base_name@,
            prop_opt_views(template.properties@),
            opt_view(options.java_version),
            str_views(options.deps@),
        ) {
            Ok(t) => r matches Ok(s) && s@ == t,
            Err(k) => r matches Err(InitError::PropertyWithoutDefault(n)) && n@ == k,
        },
{
    let values = template_replacements(template, base_name, &options.java_version)?;
    let filled_text = fill_template(content, &values);
    if options.deps.len() == 0 {
        Ok(filled_text)
    } else {
        Ok(insert_template_deps(filled_text.as_str(), options.deps.as_slice()))
    }
}

} // verus!
