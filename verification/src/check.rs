//! `jbx check`: the directives of the checked sources, the compiler's
//! options, the command line of the checking compiler, and its report.
use vstd::prelude::*;
use crate::catalog::{json_get, Json};
use crate::compile::{append_strings, contains_option};
use crate::directives::{empty_directives, new_directives, ostr, strs, Directives, DirectivesView};
use crate::text::{
    all_digits, ascii_lower, ascii_lower_char, chars_of, decimal, decimal_string, digits_value,
    has_prefix, parse_decimal, push_char, starts_with, str_eq,
};

verus! {

// ─── Directives ──────────────────────────────────────────────────────────────

/// The directives of several checked sources together: their dependencies,
/// repositories and compiler options one after the other, the first Java
/// version given, and preview features if any source asks for them.
pub open spec fn check_directives_of(ds: Seq<DirectivesView>) -> DirectivesView
    decreases ds.len(),
{
    if ds.len() == 0 {
        empty_directives()
    } else {
        let a = check_directives_of(ds.drop_last());
        let p = ds.last();
        DirectivesView {
            deps: a.deps + p.deps,
            repos: a.repos + p.repos,
            javac_options: a.javac_options + p.javac_options,
            java_version: if a.java_version is Some {
                a.java_version
            } else {
                p.java_version
            },
            enable_preview: a.enable_preview || p.enable_preview,
            ..a
        }
    }
}

/// Gathers the directives of the checked sources, in order.
pub fn merge_check_directives(parsed: &Vec<Directives>) -> (r: Directives)
    ensures
        r@ == check_directives_of(parsed@.map_values(|d: Directives| d@)),
{
    let ghost pv = parsed@.map_values(|d: Directives| d@);
    let mut out = new_directives();
    let mut i: usize = 0;
    assert(pv.take(0) =~= Seq::<DirectivesView>::empty());
    while i < parsed.len()
        invariant
            pv == parsed@.map_values(|d: Directives| d@),
            i <= parsed.len(),
            out@ == check_directives_of(pv.take(i as int)),
        decreases parsed.len() - i,
    {
        assert(pv.take(i + 1).drop_last() =~= pv.take(i as int));
        assert(pv.take(i + 1).last() == parsed@[i as int]@);
        let p = &parsed[i];
        let ghost a = out@;
        append_strings(&mut out.deps, &p.deps);
        append_strings(&mut out.repos, &p.repos);
        append_strings(&mut out.javac_options, &p.javac_options);
        if out.java_version.is_none() {
            out.java_version = match &p.java_version {
                Some(v) => Some(v.clone()),
                None => None,
            };
        }
        out.enable_preview = out.enable_preview || p.enable_preview;
        assert(out@ =~= check_directives_of(pv.take(i + 1)));
        i += 1;
    }
    assert(pv.take(parsed.len() as int) =~= pv);
    out
}

/// The directives after the command line's: its dependencies, repositories
/// and compiler options added, its Java version in place of theirs.
pub open spec fn with_check_options(
    d: DirectivesView,
    deps: Seq<Seq<char>>,
    repos: Seq<Seq<char>>,
    javac_options: Seq<Seq<char>>,
    java_version: Option<Seq<char>>,
) -> DirectivesView {
    DirectivesView {
        deps: d.deps + deps,
        repos: d.repos + repos,
        javac_options: d.javac_options + javac_options,
        java_version: if java_version is Some {
            java_version
        } else {
            d.java_version
        },
        ..d
    }
}

/// Adds what the command line gives to the directives of the checked
/// sources.
pub fn apply_check_options(
    d: &mut Directives,
    deps: &Vec<String>,
    repos: &Vec<String>,
    javac_options: &Vec<String>,
    java_version: Option<String>,
)
    ensures
        final(d)@ == with_check_options(
            old(d)@,
            strs(deps@),
            strs(repos@),
            strs(javac_options@),
            ostr(java_version),
        ),
{
    append_strings(&mut d.deps, deps);
    append_strings(&mut d.repos, repos);
    append_strings(&mut d.javac_options, javac_options);
    if java_version.is_some() {
        d.java_version = java_version;
    }
}

// ─── Compiler options ────────────────────────────────────────────────────────

/// An option that sets the source level for `jbx check`.
pub open spec fn check_source_option(o: Seq<char>) -> bool {
    o == "--source"@ || o == "-source"@ || o == "--release"@ || o == "-release"@ || has_prefix(
        o,
        "--source="@,
    ) || has_prefix(o, "--release="@)
}

/// The options before the release: lint everything, no annotation
/// processing, the classes directory, the class path when there is one, the
/// directives' compiler options, and `--enable-preview` with preview
/// features unless it is there already.
pub open spec fn check_base(
    classes_dir: Seq<char>,
    classpath: Option<Seq<char>>,
    d: DirectivesView,
) -> Seq<Seq<char>> {
    let head = seq!["-Xlint:all"@, "-proc:none"@, "-d"@, classes_dir] + (match classpath {
        Some(cp) => seq!["-classpath"@, cp],
        None => Seq::empty(),
    }) + d.javac_options;
    if d.enable_preview && !head.contains("--enable-preview"@) {
        head.push("--enable-preview"@)
    } else {
        head
    }
}

/// The first options of a check.
pub fn check_base_options(classes_dir: &str, classpath: Option<String>, d: &Directives) -> (r: Vec<
    String,
>)
    ensures
        strs(r@) == check_base(classes_dir@, ostr(classpath), d@),
{
    let mut out: Vec<String> = Vec::new();
    out.push("-Xlint:all".to_owned());
    out.push("-proc:none".to_owned());
    out.push("-d".to_owned());
    out.push(classes_dir.to_owned());
    match classpath {
        Some(cp) => {
            out.push("-classpath".to_owned());
            out.push(cp);
        },
        None => {},
    }
    append_strings(&mut out, &d.javac_options);
    let ghost head = strs(out@);
    assert(head =~= seq!["-Xlint:all"@, "-proc:none"@, "-d"@, classes_dir@] + (match ostr(
        classpath,
    ) {
        Some(cp) => seq!["-classpath"@, cp],
        None => Seq::<Seq<char>>::empty(),
    }) + d@.javac_options);
    if d.enable_preview && !contains_option(&out, "--enable-preview") {
        out.push("--enable-preview".to_owned());
        assert(strs(out@) =~= head.push("--enable-preview"@));
    }
    out
}

/// Whether the check needs `--release`: preview features are on and no
/// option sets the source level.
pub open spec fn check_needs_release(base: Seq<Seq<char>>, enable_preview: bool) -> bool {
    enable_preview && !exists|i: int| 0 <= i < base.len() && check_source_option(#[trigger] base[i])
}

fn is_check_source_option(o: &str) -> (r: bool)
    ensures
        r == check_source_option(o@),
{
    let c = chars_of(o);
    let source_eq = chars_of("--source=");
    let release_eq = chars_of("--release=");
    str_eq(o, "--source") || str_eq(o, "-source") || str_eq(o, "--release") || str_eq(o, "-release")
        || starts_with(c.as_slice(), source_eq.as_slice()) || starts_with(
        c.as_slice(),
        release_eq.as_slice(),
    )
}

/// Whether the check must be told the JDK's release.
pub fn check_release_needed(base: &Vec<String>, enable_preview: bool) -> (r: bool)
    ensures
        r == check_needs_release(strs(base@), enable_preview),
{
    if !enable_preview {
        return false;
    }
    let mut i: usize = 0;
    while i < base.len()
        invariant
            i <= base.len(),
            forall|k: int| 0 <= k < i ==> !check_source_option(#[trigger] strs(base@)[k]),
        decreases base.len() - i,
    {
        if is_check_source_option(base[i].as_str()) {
            assert(check_source_option(strs(base@)[i as int]));
            return false;
        }
        i += 1;
    }
    true
}

/// The options that Error Prone needs from `javac`.
pub open spec fn error_prone_options() -> Seq<Seq<char>> {
    seq![
        "-XDcompilePolicy=simple"@,
        "--should-stop=ifError=FLOW"@,
        "-Xplugin:ErrorProne -Xep:DefaultPackage:OFF"@,
    ]
}

/// The compiler options of a check: the first options, `--release` with the
/// JDK's major version where it is needed, `-Werror` when warnings are
/// errors, and Error Prone's options unless it is off.
pub open spec fn check_options(
    base: Seq<Seq<char>>,
    enable_preview: bool,
    release: u32,
    warnings_as_errors: bool,
    error_prone: bool,
) -> Seq<Seq<char>> {
    base + (if check_needs_release(base, enable_preview) {
        seq!["--release"@, decimal(release as nat)]
    } else {
        Seq::empty()
    }) + (if warnings_as_errors {
        seq!["-Werror"@]
    } else {
        Seq::empty()
    }) + (if error_prone {
        error_prone_options()
    } else {
        Seq::empty()
    })
}

/// Completes the compiler options of a check. `release` is used only where
/// [`check_release_needed`] holds.
pub fn check_compiler_options(
    base: Vec<String>,
    enable_preview: bool,
    release: u32,
    warnings_as_errors: bool,
    error_prone: bool,
) -> (r: Vec<String>)
    ensures
        strs(r@) == check_options(strs(base@), enable_preview, release, warnings_as_errors, error_prone),
{
    let ghost b = strs(base@);
    let needs = check_release_needed(&base, enable_preview);
    let mut out = base;
    if needs {
        out.push("--release".to_owned());
        out.push(decimal_string(release as u64));
    }
    let ghost with_release = strs(out@);
    assert(with_release =~= b + (if needs {
        seq!["--release"@, decimal(release as nat)]
    } else {
        Seq::<Seq<char>>::empty()
    }));
    if warnings_as_errors {
        out.push("-Werror".to_owned());
    }
    let ghost with_werror = strs(out@);
    assert(with_werror =~= with_release + (if warnings_as_errors {
        seq!["-Werror"@]
    } else {
        Seq::<Seq<char>>::empty()
    }));
    if error_prone {
        out.push("-XDcompilePolicy=simple".to_owned());
        out.push("--should-stop=ifError=FLOW".to_owned());
        out.push("-Xplugin:ErrorProne -Xep:DefaultPackage:OFF".to_owned());
    }
    assert(strs(out@) =~= with_werror + (if error_prone {
        error_prone_options()
    } else {
        Seq::<Seq<char>>::empty()
    }));
    out
}

/// The Maven coordinate of Error Prone at `version`.
pub open spec fn error_prone_coordinate_of(version: Seq<char>) -> Seq<char> {
    "com.google.errorprone:error_prone_core:"@ + version
}

/// The Maven coordinate of Error Prone at `version`.
pub fn error_prone_coordinate(version: &str) -> (r: String)
    ensures
        r@ == error_prone_coordinate_of(version@),
{
    let mut out = "com.google.errorprone:error_prone_core:".to_owned();
    out.append(version);
    out
}

/// The JVM flags that open the compiler's internals to Error Prone.
pub open spec fn error_prone_jdk_flags_of() -> Seq<Seq<char>> {
    seq![
        "--add-exports=jdk.compiler/com.sun.tools.javac.api=ALL-UNNAMED"@,
        "--add-exports=jdk.compiler/com.sun.tools.javac.file=ALL-UNNAMED"@,
        "--add-exports=jdk.compiler/com.sun.tools.javac.main=ALL-UNNAMED"@,
        "--add-exports=jdk.compiler/com.sun.tools.javac.model=ALL-UNNAMED"@,
        "--add-exports=jdk.compiler/com.sun.tools.javac.parser=ALL-UNNAMED"@,
        "--add-exports=jdk.compiler/com.sun.tools.javac.processing=ALL-UNNAMED"@,
        "--add-exports=jdk.compiler/com.sun.tools.javac.tree=ALL-UNNAMED"@,
        "--add-exports=jdk.compiler/com.sun.tools.javac.util=ALL-UNNAMED"@,
        "--add-opens=jdk.compiler/com.sun.tools.javac.code=ALL-UNNAMED"@,
        "--add-opens=jdk.compiler/com.sun.tools.javac.comp=ALL-UNNAMED"@,
    ]
}

/// The JVM flags that open the compiler's internals to Error Prone.
pub fn error_prone_jdk_flags() -> (r: Vec<String>)
    ensures
        strs(r@) == error_prone_jdk_flags_of(),
{
    let mut out: Vec<String> = Vec::new();
    out.push("--add-exports=jdk.compiler/com.sun.tools.javac.api=ALL-UNNAMED".to_owned());
    out.push("--add-exports=jdk.compiler/com.sun.tools.javac.file=ALL-UNNAMED".to_owned());
    out.push("--add-exports=jdk.compiler/com.sun.tools.javac.main=ALL-UNNAMED".to_owned());
    out.push("--add-exports=jdk.compiler/com.sun.tools.javac.model=ALL-UNNAMED".to_owned());
    out.push("--add-exports=jdk.compiler/com.sun.tools.javac.parser=ALL-UNNAMED".to_owned());
    out.push("--add-exports=jdk.compiler/com.sun.tools.javac.processing=ALL-UNNAMED".to_owned());
    out.push("--add-exports=jdk.compiler/com.sun.tools.javac.tree=ALL-UNNAMED".to_owned());
    out.push("--add-exports=jdk.compiler/com.sun.tools.javac.util=ALL-UNNAMED".to_owned());
    out.push("--add-opens=jdk.compiler/com.sun.tools.javac.code=ALL-UNNAMED".to_owned());
    out.push("--add-opens=jdk.compiler/com.sun.tools.javac.comp=ALL-UNNAMED".to_owned());
    assert(strs(out@) =~= error_prone_jdk_flags_of());
    out
}

/// The `java` arguments that run the checking compiler: Error Prone's JVM
/// flags, its class path and main class, the compiler options, `--`, and
/// the files.
pub open spec fn check_java_args(
    wrapper_classpath: Seq<char>,
    options: Seq<Seq<char>>,
    files: Seq<Seq<char>>,
) -> Seq<Seq<char>> {
    error_prone_jdk_flags_of() + seq![
        "-cp"@,
        wrapper_classpath,
        "dev.telegraphic.jbx.check.JbxCheckCompiler"@,
    ] + options + seq!["--"@] + files
}

/// The `java` arguments that run the checking compiler.
pub fn check_java_arguments(wrapper_classpath: &str, options: &Vec<String>, files: &Vec<String>) -> (r:
    Vec<String>)
    ensures
        strs(r@) == check_java_args(wrapper_classpath@, strs(options@), strs(files@)),
{
    let mut out = error_prone_jdk_flags();
    out.push("-cp".to_owned());
    out.push(wrapper_classpath.to_owned());
    out.push("dev.telegraphic.jbx.check.JbxCheckCompiler".to_owned());
    let ghost head = strs(out@);
    assert(head =~= error_prone_jdk_flags_of() + seq![
        "-cp"@,
        wrapper_classpath@,
        "dev.telegraphic.jbx.check.JbxCheckCompiler"@,
    ]);
    append_strings(&mut out, options);
    let ghost with_opts = strs(out@);
    out.push("--".to_owned());
    let ghost mid = strs(out@);
    assert(mid =~= with_opts.push("--"@));
    append_strings(&mut out, files);
    assert(strs(out@) =~= check_java_args(wrapper_classpath@, strs(options@), strs(files@)));
    out
}

// ─── The report ──────────────────────────────────────────────────────────────

/// Why the checking compiler's report cannot be read.
#[derive(Debug)]
pub enum CheckError {
    /// The report has no `diagnostics` array.
    NoDiagnostics,
    /// The wrapper's output is not a JSON document.
    InvalidOutput,
}

/// The text of a string member, or `default`.
pub open spec fn str_or(j: Json, name: Seq<char>, default: Seq<char>) -> Seq<char> {
    match crate::descriptor::str_member(j, name) {
        Some(s) => s,
        None => default,
    }
}

/// A member that is a positive integer as JSON writes one (digits only, at
/// most `i64::MAX`), if it is one.
pub open spec fn positive_member(j: Json, name: Seq<char>) -> Option<nat> {
    match json_get(j, name) {
        Some(Json::Number(t)) => if t@.len() > 0 && all_digits(t@) && 0 < digits_value(t@)
            <= 0x7fff_ffff_ffff_ffff {
            Some(digits_value(t@))
        } else {
            None
        },
        _ => None,
    }
}

/// One diagnostic as a line: `file:line:column: kind: message` when line
/// and column are positive, else `file: kind: message`. The kind is in
/// ASCII lower case; a missing file is `<compiler>`, a missing kind
/// `UNKNOWN`, a missing message empty.
pub open spec fn diagnostic_line(d: Json) -> Seq<char> {
    let kind = str_or(d, "kind"@, "UNKNOWN"@).map_values(|c: char| ascii_lower(c));
    let file = str_or(d, "file"@, "<compiler>"@);
    let message = str_or(d, "message"@, Seq::empty());
    match (positive_member(d, "line"@), positive_member(d, "column"@)) {
        (Some(l), Some(c)) => file + ":"@ + decimal(l) + ":"@ + decimal(c) + ": "@ + kind + ": "@
            + message,
        _ => file + ": "@ + kind + ": "@ + message,
    }
}

/// The lines that report a check: one per diagnostic, or `check passed`
/// when there is none; refused when the report has no `diagnostics` array.
pub open spec fn check_report_of(payload: Json) -> Option<Seq<Seq<char>>> {
    match json_get(payload, "diagnostics"@) {
        Some(Json::Array(items)) => if items@.len() == 0 {
            Some(seq!["check passed"@])
        } else {
            Some(items@.map_values(|d: Json| diagnostic_line(d)))
        },
        _ => None,
    }
}

fn ascii_lowercase(s: &str) -> (r: String)
    ensures
        r@ == s@.map_values(|c: char| ascii_lower(c)),
{
    let c = chars_of(s);
    let mut out = String::new();
    let mut i: usize = 0;
    while i < c.len()
        invariant
            c@ == s@,
            i <= c.len(),
            out@ == s@.take(i as int).map_values(|c: char| ascii_lower(c)),
        decreases c.len() - i,
    {
        push_char(&mut out, ascii_lower_char(c[i]));
        assert(s@.take(i + 1) =~= s@.take(i as int).push(s@[i as int]));
        assert(out@ =~= s@.take(i + 1).map_values(|c: char| ascii_lower(c)));
        i += 1;
    }
    assert(s@.take(c.len() as int) =~= s@);
    out
}

fn text_or(j: &Json, name: &str, default: &str) -> (r: String)
    ensures
        r@ == str_or(*j, name@, default@),
{
    match j.get(name) {
        Some(v) => match v.as_str() {
            Some(s) => s.to_owned(),
            None => default.to_owned(),
        },
        None => default.to_owned(),
    }
}

fn positive(j: &Json, name: &str) -> (r: Option<u64>)
    ensures
        match positive_member(*j, name@) {
            Some(n) => r == Some(n as u64),
            None => r is None,
        },
{
    match j.get(name) {
        Some(Json::Number(t)) => {
            let c = chars_of(t.as_str());
            if c.len() == 0 || c[0] == '+' {
                return None;
            }
            proof {
                assert(crate::text::parse_unsigned(t@, 0x7fff_ffff_ffff_ffff) == (if t@.len() > 0
                    && all_digits(t@) && digits_value(t@) <= 0x7fff_ffff_ffff_ffff {
                    Some(digits_value(t@))
                } else {
                    None
                }));
            }
            match parse_decimal(c.as_slice(), 0x7fff_ffff_ffff_ffff) {
                Some(n) => if n > 0 {
                    Some(n)
                } else {
                    None
                },
                None => None,
            }
        },
        _ => None,
    }
}

fn diagnostic_text(d: &Json) -> (r: String)
    ensures
        r@ == diagnostic_line(*d),
{
    let kind_text = text_or(d, "kind", "UNKNOWN");
    let kind = ascii_lowercase(kind_text.as_str());
    let file = text_or(d, "file", "<compiler>");
    let message = text_or(d, "message", "");
    proof {
        reveal_strlit("");
    }
    let mut out = file;
    match (positive(d, "line"), positive(d, "column")) {
        (Some(l), Some(c)) => {
            out.append(":");
            out.append(decimal_string(l).as_str());
            out.append(":");
            out.append(decimal_string(c).as_str());
            out.append(": ");
        },
        _ => {
            out.append(": ");
        },
    }
    out.append(kind.as_str());
    out.append(": ");
    out.append(message.as_str());
    out
}

/// The lines that report a check (see [`check_report_of`]).
pub fn check_report_lines(payload: &Json) -> (r: Result<Vec<String>, CheckError>)
    ensures
        match check_report_of(*payload) {
            Some(lines) => r matches Ok(v) && strs(v@) == lines,
            None => r matches Err(CheckError::NoDiagnostics),
        },
{
    let items = match payload.get("diagnostics") {
        Some(Json::Array(items)) => items,
        _ => return Err(CheckError::NoDiagnostics),
    };
    let mut out: Vec<String> = Vec::new();
    if items.len() == 0 {
        out.push("check passed".to_owned());
        assert(strs(out@) =~= seq!["check passed"@]);
        return Ok(out);
    }
    let mut i: usize = 0;
    while i < items.len()
        invariant
            i <= items.len(),
            strs(out@) == items@.take(i as int).map_values(|d: Json| diagnostic_line(d)),
        decreases items.len() - i,
    {
        let ghost before = strs(out@);
        out.push(diagnostic_text(&items[i]));
        assert(strs(out@) =~= before.push(diagnostic_line(items@[i as int])));
        assert(items@.take(i + 1).map_values(|d: Json| diagnostic_line(d)) =~= items@.take(
            i as int,
        ).map_values(|d: Json| diagnostic_line(d)).push(diagnostic_line(items@[i as int])));
        i += 1;
    }
    assert(items@.take(items.len() as int) =~= items@);
    Ok(out)
}


/// The human report of a check wrapper's output: the output must be a JSON
/// document, which `check_report_lines` reads.
pub fn check_report_from_output(stdout: &str) -> (r: Result<Vec<String>, CheckError>)
    ensures
        match crate::json_text::json_text_value(stdout@) {
            None => r matches Err(CheckError::InvalidOutput),
            Some(v) => exists|j: Json|
                #![trigger crate::catalog::json_view(j)]
                crate::catalog::json_view(j) == v && match check_report_of(j) {
                    Some(lines) => r matches Ok(x) && strs(x@) == lines,
                    None => r matches Err(CheckError::NoDiagnostics),
                },
        },
{
    match crate::json_text::parse_json_text(stdout) {
        Some(payload) => check_report_lines(&payload),
        None => Err(CheckError::InvalidOutput),
    }
}

} // verus!
