//! What a script's source says about the class to run.
use vstd::prelude::*;
use crate::resolver::opt_view;
use crate::remote::last_index_of;
use crate::text::has_prefix;

verus! {

/// The regular expression that finds a package declaration: a line that,
/// after leading white space, reads `package a.b.c;`.
pub open spec fn package_pattern() -> Seq<char> {
    "(?m)^\\s*package\\s+([A-Za-z_][A-Za-z0-9_]*(?:\\.[A-Za-z_][A-Za-z0-9_]*)*)\\s*;"@
}

/// The package that a Java source declares: the first capture of the first
/// match of the package pattern.
pub open spec fn declared_package(source: Seq<char>) -> Option<Seq<char>> {
    let g = crate::pattern::regex_groups(package_pattern(), source);
    if g.len() > 0 {
        g[0].0
    } else {
        None
    }
}

/// The package that a Java source declares.
pub(crate) fn package_name(source: &str) -> (r: Option<String>)
    ensures
        opt_view(r) == declared_package(source@),
{
    let g = crate::pattern::capture_groups(
        "(?m)^\\s*package\\s+([A-Za-z_][A-Za-z0-9_]*(?:\\.[A-Za-z_][A-Za-z0-9_]*)*)\\s*;",
        source,
    );
    if g.len() == 0 {
        return None;
    }
    assert(g@.map_values(|c: (Option<String>, Option<String>)| (opt_view(c.0), opt_view(c.1)))[0] == (
        opt_view(g@[0].0),
        opt_view(g@[0].1),
    ));
    match &g[0].0 {
        Some(p) => Some(p.clone()),
        None => None,
    }
}

/// A path text that every platform splits alike at `/`: it holds no
/// backslash and no `:`, and does not start with `//`, so no platform reads a
/// prefix or another separator in it.
pub open spec fn portable_path(t: Seq<char>) -> bool {
    !t.contains('\\') && !t.contains(':') && !has_prefix(t, "//"@)
}

/// The file name of a `/`-separated path: its last component, with trailing
/// `/` and `.` components left out; none where that component is `..` or
/// there is no component.
pub open spec fn file_name_of(t: Seq<char>) -> Option<Seq<char>>
    decreases t.len(),
{
    if t.len() == 0 {
        None
    } else if t.last() == '/' {
        file_name_of(t.drop_last())
    } else {
        let name = match last_index_of(t, '/') {
            Some(i) => t.skip(i + 1),
            None => t,
        };
        if name == "."@ {
            if t.len() == 1 {
                None
            } else {
                file_name_of(t.drop_last())
            }
        } else if name == ".."@ {
            None
        } else {
            Some(name)
        }
    }
}

/// A file name without its extension: the part before its last `.`, unless
/// that `.` is its first character.
pub open spec fn stem_of_name(name: Seq<char>) -> Seq<char> {
    match last_index_of(name, '.') {
        Some(k) => if k > 0 {
            name.take(k)
        } else {
            name
        },
        None => name,
    }
}

/// The file stem of a `/`-separated path.
pub open spec fn file_stem_of(t: Seq<char>) -> Option<Seq<char>> {
    match file_name_of(t) {
        Some(n) => Some(stem_of_name(n)),
        None => None,
    }
}

/// `Path::file_stem` of the path `path`, as text. How a path splits differs
/// between platforms; for a portable path text the result is what the
/// documentation of `Path::components`, `file_name` and `file_stem` gives on
/// every platform (`file_stem_of`). A stem taken from a `str` is always text.
#[verifier::external_body]
fn file_stem_text(path: &str) -> (r: Option<String>)
    ensures
        portable_path(path@) ==> opt_view(r) == file_stem_of(path@),
{
    std::path::Path::new(path).file_stem().and_then(|s| s.to_str()).map(|s| s.to_owned())
}

/// The class that runs a script whose file stem is `stem`: qualified by the
/// package its source declares.
pub open spec fn main_class_of(stem: Seq<char>, source: Seq<char>) -> Seq<char> {
    match declared_package(source) {
        Some(p) => p + seq!['.'] + stem,
        None => stem,
    }
}

/// The class that runs a script with file stem `stem` and source `source`.
pub fn main_class_for(stem: &str, source: &str) -> (r: String)
    ensures
        r@ == main_class_of(stem@, source@),
{
    match package_name(source) {
        Some(p) => {
            let mut out = p;
            crate::text::push_char(&mut out, '.');
            out.append(stem);
            out
        },
        None => stem.to_owned(),
    }
}

/// The main class of a script: its file stem, qualified by the package that
/// its source declares; `None` when the path has no file stem. The path is
/// given as text.
pub fn infer_main_class_from_source(script: &str, source: &str) -> (r: Option<String>)
    ensures
        portable_path(script@) ==> match file_stem_of(script@) {
            Some(stem) => r matches Some(c) && c@ == main_class_of(stem, source@),
            None => r is None,
        },
        r matches Some(c) ==> exists|stem: Seq<char>| c@ == #[trigger] main_class_of(stem, source@),
{
    match file_stem_text(script) {
        Some(stem) => {
            let c = main_class_for(stem.as_str(), source);
            assert(c@ == main_class_of(stem@, source@));
            Some(c)
        },
        None => None,
    }
}

} // verus!
