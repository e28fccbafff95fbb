//! `juvx`: run an executable JAR named by its Maven coordinates.
use std::path::PathBuf;
use vstd::prelude::*;
use crate::resolver::{
    coordinate_dep, coordinate_parts, jar_file_name, parse_coordinate, Module, Repository,
    ResolveError,
};
use crate::text::{chars_of, split_chars, split_first, split_first_char, str_eq, string_of, views};

verus! {

/// What `juvx` runs.
#[derive(Debug, Clone)]
pub struct JuvxOptions {
    pub coordinate: String,
    pub repos: Vec<String>,
    pub cache_dir: Option<PathBuf>,
    pub main_class: Option<String>,
    pub args: Vec<String>,
}

/// The repository that a `--repo` value names: `id=url`, or a URL used as its
/// own id.
pub open spec fn repo_of(arg: Seq<char>) -> (Seq<char>, Seq<char>) {
    match split_first(arg, '=') {
        Some((id, url)) => (id, url),
        None => (arg, arg),
    }
}

/// `central` and `mavenCentral` name Maven Central.
pub open spec fn names_central(arg: Seq<char>) -> bool {
    arg == "central"@ || arg == "mavenCentral"@
}

/// The repositories that `--repo` values add after Maven Central.
pub open spec fn extra_repos(args: Seq<Seq<char>>) -> Seq<(Seq<char>, Seq<char>)>
    decreases args.len(),
{
    if args.len() == 0 {
        Seq::empty()
    } else {
        let prev = extra_repos(args.drop_last());
        if names_central(args.last()) {
            prev
        } else {
            prev.push(repo_of(args.last()))
        }
    }
}

/// The `(id, url)` pairs of a list of repositories.
pub open spec fn repo_views(v: Seq<Repository>) -> Seq<(Seq<char>, Seq<char>)> {
    v.map_values(|r: Repository| (r.id@, r.url@))
}

/// The views of a list of strings.
pub open spec fn str_views(v: Seq<String>) -> Seq<Seq<char>> {
    v.map_values(|s: String| s@)
}

/// The repositories to resolve against: Maven Central first, then every
/// `--repo` value that does not name Central.
pub fn maven_repositories(repo_args: &[String]) -> (r: Vec<Repository>)
    ensures
        repo_views(r@) == seq![("central"@, "https://repo1.maven.org/maven2"@)] + extra_repos(
            str_views(repo_args@),
        ),
{
    let mut repos = vec![Repository::central()];
    let ghost args = str_views(repo_args@);
    let mut i: usize = 0;
    assert(args.take(0) =~= Seq::<Seq<char>>::empty());
    assert(repo_views(repos@) =~= seq![("central"@, "https://repo1.maven.org/maven2"@)]
        + extra_repos(args.take(0)));
    while i < repo_args.len()
        invariant
            args == str_views(repo_args@),
            i <= repo_args.len(),
            repo_views(repos@) == seq![("central"@, "https://repo1.maven.org/maven2"@)]
                + extra_repos(args.take(i as int)),
        decreases repo_args.len() - i,
    {
        let repo = &repo_args[i];
        proof {
            assert(args.take(i + 1).drop_last() =~= args.take(i as int));
            assert(args.take(i + 1).last() == repo@);
        }
        let ghost before = repo_views(repos@);
        if str_eq(repo.as_str(), "central") || str_eq(repo.as_str(), "mavenCentral") {
        } else {
            let c = chars_of(repo.as_str());
            match split_first_char(c.as_slice(), '=') {
                Some((id, url)) => {
                    repos.push(
                        Repository { id: string_of(id.as_slice()), url: string_of(url.as_slice()) },
                    );
                },
                None => {
                    repos.push(Repository { id: repo.clone(), url: repo.clone() });
                },
            }
            assert(repo_views(repos@) =~= before.push(repo_of(repo@)));
        }
        i += 1;
    }
    assert(args.take(repo_args.len() as int) =~= args);
    repos
}

/// The file name of the JAR that a coordinate names.
pub fn primary_jar_name(coordinate: &str) -> (r: Result<String, ResolveError>)
    ensures
        match coordinate_dep(coordinate@) {
            Some(d) => r matches Ok(x) && x@ == jar_file_name(d.module.1, d.version, d.classifier),
            None => r matches Err(ResolveError::InvalidCoordinate(c)) && c@ == coordinate@,
        },
{
    let dep = parse_coordinate(coordinate)?;
    let mut out = chars_of(dep.module.name.as_str());
    out.push('-');
    let v = chars_of(dep.version.as_str());
    crate::text::append_chars(&mut out, v.as_slice());
    match &dep.classifier {
        Some(c) => {
            out.push('-');
            let cc = chars_of(c.as_str());
            crate::text::append_chars(&mut out, cc.as_slice());
        },
        None => {},
    }
    let jar = chars_of(".jar");
    crate::text::append_chars(&mut out, jar.as_slice());
    proof {
        reveal_strlit("-");
    }
    Ok(string_of(out.as_slice()))
}

/// What a `juvx` coordinate asks for.
#[derive(Debug, Clone)]
pub enum JuvxTarget {
    /// A full coordinate, run as given.
    Exact(String),
    /// `group:artifact`: the latest version of the module.
    Latest(Module),
}

/// Reads a `juvx` coordinate: `group:artifact` asks for the latest version;
/// anything else must be a full coordinate.
pub fn juvx_target(coordinate: &str) -> (r: Result<JuvxTarget, ResolveError>)
    ensures
        coordinate_parts(coordinate@).len() == 2 ==> (r matches Ok(JuvxTarget::Latest(m))
            && m@ == (coordinate_parts(coordinate@)[0], coordinate_parts(coordinate@)[1])),
        coordinate_parts(coordinate@).len() != 2 ==> match coordinate_dep(coordinate@) {
            Some(_) => r matches Ok(JuvxTarget::Exact(c)) && c@ == coordinate@,
            None => r matches Err(ResolveError::InvalidCoordinate(c)) && c@ == coordinate@,
        },
{
    let c = chars_of(coordinate);
    let seps = vec![':'];
    assert(seps@ =~= seq![':']);
    let parts = split_chars(c.as_slice(), seps.as_slice());
    if parts.len() != 2 {
        parse_coordinate(coordinate)?;
        return Ok(JuvxTarget::Exact(coordinate.to_owned()));
    }
    assert(views(parts@)[0] == parts@[0]@ && views(parts@)[1] == parts@[1]@);
    Ok(
        JuvxTarget::Latest(
            Module { org: string_of(parts[0].as_slice()), name: string_of(parts[1].as_slice()) },
        ),
    )
}

/// The full coordinate of the latest version of a module.
pub fn latest_coordinate(module: &Module, version: &str) -> (r: String)
    ensures
        r@ == module.org@ + seq![':'] + module.name@ + seq![':'] + version@,
{
    let mut out = chars_of(module.org.as_str());
    out.push(':');
    let n = chars_of(module.name.as_str());
    crate::text::append_chars(&mut out, n.as_slice());
    out.push(':');
    let v = chars_of(version);
    crate::text::append_chars(&mut out, v.as_slice());
    string_of(out.as_slice())
}

} // verus!
