//! Compiling and running a script: how its directives combine with the
//! command line and with the sources it declares, and the `javac` and `java`
//! command lines that follow from them.
use vstd::prelude::*;
use crate::catalog::CatalogAlias;
use crate::directives::{kvs, ostr, strs, Directives, DirectivesView, KeyValue};
use crate::export::ExportOptions;
use crate::remote::{
    binary_dependency, dedupe_key_values, dedupe_strings, first_occurrences, format_java_agent,
    has_source_or_release_option, java_agent_option, looks_like_binary_dependency,
    source_or_release_option,
};
use crate::text::{
    chars_of, decimal, decimal_string, end_without_ws, is_ws, lemma_split_on_after_sep,
    lemma_split_on_plain, slice_chars, split_chars, split_on, str_eq, string_of, trim_end, views,
};
use crate::trust::{push_bytes, sha256_hex, sha256_hex_of, source_deps};

verus! {

/// What `run` is asked to do.
#[derive(Debug)]
pub struct RunOptions {
    pub script: std::path::PathBuf,
    pub script_args: Vec<String>,
    pub extra_deps: Vec<String>,
    pub extra_repos: Vec<String>,
    pub extra_sources: Vec<String>,
    pub extra_files: Vec<String>,
    pub classpath: Vec<std::path::PathBuf>,
    pub javac_options: Vec<String>,
    pub runtime_options: Vec<String>,
    pub java_agents: Vec<KeyValue>,
    pub java_version: Option<String>,
    pub main_class: Option<String>,
    pub cache_dir: Option<std::path::PathBuf>,
    pub trust_remote: bool,
}

/// What `build` is asked to do.
#[derive(Debug)]
pub struct BuildOptions {
    pub script: std::path::PathBuf,
    pub extra_deps: Vec<String>,
    pub extra_repos: Vec<String>,
    pub extra_sources: Vec<String>,
    pub extra_files: Vec<String>,
    pub classpath: Vec<std::path::PathBuf>,
    pub javac_options: Vec<String>,
    pub runtime_options: Vec<String>,
    pub java_agents: Vec<KeyValue>,
    pub java_version: Option<String>,
    pub main_class: Option<String>,
    pub cache_dir: Option<std::path::PathBuf>,
    pub trust_remote: bool,
}

/// A compiled script.
#[derive(Debug)]
pub struct BuildOutput {
    pub classes_dir: std::path::PathBuf,
    pub classpath: Vec<std::path::PathBuf>,
    pub main_class: Option<String>,
    pub directives: Directives,
}

/// A compiled script in the cache.
#[derive(Debug)]
pub struct CacheEntry {
    pub script: std::path::PathBuf,
    pub classes_dir: std::path::PathBuf,
    pub cache_dir: std::path::PathBuf,
}

// ─── Combining directives ────────────────────────────────────────────────────

pub(crate) fn append_strings(dst: &mut Vec<String>, src: &Vec<String>)
    ensures
        strs(final(dst)@) == strs(old(dst)@) + strs(src@),
{
    let ghost d0 = strs(dst@);
    let mut i: usize = 0;
    while i < src.len()
        invariant
            i <= src.len(),
            strs(dst@) == d0 + strs(src@).take(i as int),
        decreases src.len() - i,
    {
        let ghost before = strs(dst@);
        dst.push(src[i].clone());
        assert(strs(dst@) =~= before.push(src@[i as int]@));
        assert(strs(src@).take(i + 1) =~= strs(src@).take(i as int).push(src@[i as int]@));
        i += 1;
    }
    assert(strs(src@).take(src.len() as int) =~= strs(src@));
}

fn append_entries(dst: &mut Vec<KeyValue>, src: &Vec<KeyValue>)
    ensures
        kvs(final(dst)@) == kvs(old(dst)@) + kvs(src@),
{
    let ghost d0 = kvs(dst@);
    let mut i: usize = 0;
    while i < src.len()
        invariant
            i <= src.len(),
            kvs(dst@) == d0 + kvs(src@).take(i as int),
        decreases src.len() - i,
    {
        let ghost before = kvs(dst@);
        dst.push(KeyValue { key: src[i].key.clone(), value: crate::resolver::copy_opt(&src[i].value) });
        assert(kvs(dst@) =~= before.push(src@[i as int]@));
        assert(kvs(src@).take(i + 1) =~= kvs(src@).take(i as int).push(src@[i as int]@));
        i += 1;
    }
    assert(kvs(src@).take(src.len() as int) =~= kvs(src@));
}

/// The directives of a script with what the command line adds: its
/// dependencies, repositories, sources, files, compiler and runtime options
/// and agents come after the script's own; a Java version or main class
/// given on the command line replaces the script's.
pub open spec fn with_options(
    d: DirectivesView,
    deps: Seq<Seq<char>>,
    repos: Seq<Seq<char>>,
    sources: Seq<Seq<char>>,
    files: Seq<Seq<char>>,
    javac: Seq<Seq<char>>,
    runtime: Seq<Seq<char>>,
    agents: Seq<(Seq<char>, Option<Seq<char>>)>,
    java_version: Option<Seq<char>>,
    main_class: Option<Seq<char>>,
) -> DirectivesView {
    DirectivesView {
        deps: d.deps + deps,
        repos: d.repos + repos,
        sources: d.sources + sources,
        files: d.files + files,
        javac_options: d.javac_options + javac,
        runtime_options: d.runtime_options + runtime,
        java_agents: d.java_agents + agents,
        java_version: if java_version is Some {
            java_version
        } else {
            d.java_version
        },
        main_class: if main_class is Some {
            main_class
        } else {
            d.main_class
        },
        ..d
    }
}

/// Adds what a build is asked for to the directives of its script.
pub fn apply_build_options(directives: &mut Directives, options: &BuildOptions)
    ensures
        final(directives)@ == with_options(
            old(directives)@,
            strs(options.extra_deps@),
            strs(options.extra_repos@),
            strs(options.extra_sources@),
            strs(options.extra_files@),
            strs(options.javac_options@),
            strs(options.runtime_options@),
            kvs(options.java_agents@),
            ostr(options.java_version),
            ostr(options.main_class),
        ),
{
    append_strings(&mut directives.deps, &options.extra_deps);
    append_strings(&mut directives.repos, &options.extra_repos);
    append_strings(&mut directives.sources, &options.extra_sources);
    append_strings(&mut directives.files, &options.extra_files);
    append_strings(&mut directives.javac_options, &options.javac_options);
    append_strings(&mut directives.runtime_options, &options.runtime_options);
    append_entries(&mut directives.java_agents, &options.java_agents);
    match &options.java_version {
        Some(v) => {
            directives.java_version = Some(v.clone());
        },
        None => {},
    }
    match &options.main_class {
        Some(m) => {
            directives.main_class = Some(m.clone());
        },
        None => {},
    }
}

/// The directives with the lists that sources pass on to the script that
/// declares them extended by those of `more`: dependencies, repositories,
/// compiler, runtime and native options, agents, files and sources.
pub open spec fn extended_by(d: DirectivesView, more: DirectivesView) -> DirectivesView {
    DirectivesView {
        deps: d.deps + more.deps,
        repos: d.repos + more.repos,
        javac_options: d.javac_options + more.javac_options,
        runtime_options: d.runtime_options + more.runtime_options,
        native_options: d.native_options + more.native_options,
        java_agents: d.java_agents + more.java_agents,
        files: d.files + more.files,
        sources: d.sources + more.sources,
        ..d
    }
}

/// Merging a companion source's directives into the script's gives the
/// lists that reading the script and then the companion gives: the script's
/// dependencies, repositories, options, agents, files and sources, followed
/// by the companion's.
pub proof fn law_companion_lists_follow_script(script: Seq<Seq<char>>, companion: Seq<Seq<char>>)
    ensures
        crate::directives::same_lists(
            extended_by(
                crate::directives::directives_of_lines(script),
                crate::directives::directives_of_lines(companion),
            ),
            crate::directives::directives_of_lines(script + companion),
        ),
{
    crate::directives::law_lists_of_concatenated_lines(script, companion);
}

/// Extends the lists that sources pass on by those of `more`.
pub fn extend_directive_lists(d: &mut Directives, more: &Directives)
    ensures
        final(d)@ == extended_by(old(d)@, more@),
{
    append_strings(&mut d.deps, &more.deps);
    append_strings(&mut d.repos, &more.repos);
    append_strings(&mut d.javac_options, &more.javac_options);
    append_strings(&mut d.runtime_options, &more.runtime_options);
    append_strings(&mut d.native_options, &more.native_options);
    append_entries(&mut d.java_agents, &more.java_agents);
    append_strings(&mut d.files, &more.files);
    append_strings(&mut d.sources, &more.sources);
}

/// The directives with each list that sources pass on kept at the first
/// occurrence of each entry.
pub open spec fn deduplicated(d: DirectivesView) -> DirectivesView {
    DirectivesView {
        deps: first_occurrences(d.deps),
        repos: first_occurrences(d.repos),
        javac_options: first_occurrences(d.javac_options),
        runtime_options: first_occurrences(d.runtime_options),
        native_options: first_occurrences(d.native_options),
        java_agents: first_occurrences(d.java_agents),
        files: first_occurrences(d.files),
        sources: first_occurrences(d.sources),
        ..d
    }
}

/// Keeps the first occurrence of each entry in the lists that sources pass
/// on.
pub fn dedupe_directive_lists(d: &mut Directives)
    ensures
        final(d)@ == deduplicated(old(d)@),
{
    dedupe_strings(&mut d.deps);
    dedupe_strings(&mut d.repos);
    dedupe_strings(&mut d.javac_options);
    dedupe_strings(&mut d.runtime_options);
    dedupe_strings(&mut d.native_options);
    dedupe_key_values(&mut d.java_agents);
    dedupe_strings(&mut d.files);
    dedupe_strings(&mut d.sources);
}

/// The references of a source that name further sources: its sources, then
/// its dependencies that are not Maven artifacts.
pub open spec fn source_refs(d: DirectivesView) -> Seq<Seq<char>> {
    d.sources + source_deps(d.deps)
}

/// Lists the references of a source that name further sources.
pub fn declared_source_refs(d: &Directives) -> (r: Vec<String>)
    ensures
        strs(r@) == source_refs(d@),
{
    let mut out: Vec<String> = Vec::new();
    append_strings(&mut out, &d.sources);
    let ghost head = strs(out@);
    assert(head =~= d@.sources);
    let mut k: usize = 0;
    assert(d@.deps.take(0) =~= Seq::<Seq<char>>::empty());
    while k < d.deps.len()
        invariant
            k <= d.deps.len(),
            strs(out@) == head + source_deps(d@.deps.take(k as int)),
        decreases d.deps.len() - k,
    {
        assert(d@.deps.take(k + 1).drop_last() =~= d@.deps.take(k as int));
        assert(d@.deps.take(k + 1).last() == d.deps@[k as int]@);
        if !looks_like_binary_dependency(d.deps[k].as_str()) {
            let ghost before = strs(out@);
            out.push(d.deps[k].clone());
            assert(strs(out@) =~= before.push(d.deps@[k as int]@));
        }
        k += 1;
    }
    assert(d@.deps.take(k as int) =~= d@.deps);
    out
}

/// The dependencies that name Maven artifacts, in order.
pub open spec fn binary_deps_of(deps: Seq<Seq<char>>) -> Seq<Seq<char>>
    decreases deps.len(),
{
    if deps.len() == 0 {
        Seq::empty()
    } else if binary_dependency(deps.last()) {
        binary_deps_of(deps.drop_last()).push(deps.last())
    } else {
        binary_deps_of(deps.drop_last())
    }
}

/// The dependencies that name Maven artifacts, which are resolved from
/// repositories; the others are sources.
pub fn binary_deps(deps: &Vec<String>) -> (r: Vec<String>)
    ensures
        strs(r@) == binary_deps_of(strs(deps@)),
{
    let ghost ds = strs(deps@);
    let mut out: Vec<String> = Vec::new();
    let mut k: usize = 0;
    assert(ds.take(0) =~= Seq::<Seq<char>>::empty());
    while k < deps.len()
        invariant
            ds == strs(deps@),
            k <= deps.len(),
            strs(out@) == binary_deps_of(ds.take(k as int)),
        decreases deps.len() - k,
    {
        assert(ds.take(k + 1).drop_last() =~= ds.take(k as int));
        assert(ds.take(k + 1).last() == deps@[k as int]@);
        if looks_like_binary_dependency(deps[k].as_str()) {
            let ghost before = strs(out@);
            out.push(deps[k].clone());
            assert(strs(out@) =~= before.push(deps@[k as int]@));
        }
        k += 1;
    }
    assert(ds.take(k as int) =~= ds);
    out
}

// ─── Command lines ───────────────────────────────────────────────────────────

/// Whether the compiler must be given `--release`: preview features are on
/// and the options do not set the source level already.
pub open spec fn needs_release(d: DirectivesView) -> bool {
    d.enable_preview && !exists|i: int|
        0 <= i < d.javac_options.len() && source_or_release_option(#[trigger] d.javac_options[i])
}

/// Whether `javac` must be told the release of the JDK.
pub fn needs_release_flag(d: &Directives) -> (r: bool)
    ensures
        r == needs_release(d@),
{
    let h = has_source_or_release_option(d.javac_options.as_slice());
    proof {
        let o = d@.javac_options;
        if h {
            let i = choose|i: int|
                0 <= i < d.javac_options.len() && source_or_release_option(
                    #[trigger] d.javac_options@[i]@,
                );
            assert(o[i] == d.javac_options@[i]@);
        } else {
            assert forall|i: int| 0 <= i < o.len() implies !source_or_release_option(
                #[trigger] o[i],
            ) by {
                assert(o[i] == d.javac_options@[i]@);
            }
        }
    }
    d.enable_preview && !h
}

/// The `javac` arguments: the output directory, the class path unless it is
/// empty, the compiler options, and with preview features `--enable-preview`
/// (unless given) and `--release` with the JDK's release (unless the source
/// level is set); then the sources.
pub open spec fn javac_args(
    classes_dir: Seq<char>,
    classpath: Option<Seq<char>>,
    d: DirectivesView,
    release: u32,
    sources: Seq<Seq<char>>,
) -> Seq<Seq<char>> {
    seq!["-d"@, classes_dir] + (match classpath {
        Some(cp) => seq!["-classpath"@, cp],
        None => Seq::empty(),
    }) + d.javac_options + (if d.enable_preview && !d.javac_options.contains("--enable-preview"@) {
        seq!["--enable-preview"@]
    } else {
        Seq::empty()
    }) + (if needs_release(d) {
        seq!["--release"@, decimal(release as nat)]
    } else {
        Seq::empty()
    }) + sources
}

pub(crate) fn contains_option(options: &Vec<String>, option: &str) -> (r: bool)
    ensures
        r == strs(options@).contains(option@),
{
    let mut i: usize = 0;
    while i < options.len()
        invariant
            i <= options.len(),
            forall|k: int| 0 <= k < i ==> strs(options@)[k] != option@,
        decreases options.len() - i,
    {
        if str_eq(options[i].as_str(), option) {
            assert(strs(options@)[i as int] == option@);
            return true;
        }
        i += 1;
    }
    false
}

/// The arguments of the `javac` run that compiles a script. `release` is the
/// JDK's major version; it is used only where `needs_release_flag` holds.
pub fn javac_arguments(
    classes_dir: &str,
    classpath: Option<String>,
    d: &Directives,
    release: u32,
    sources: &Vec<String>,
) -> (r: Vec<String>)
    ensures
        strs(r@) == javac_args(classes_dir@, ostr(classpath), d@, release, strs(sources@)),
{
    let mut out: Vec<String> = Vec::new();
    out.push("-d".to_owned());
    out.push(classes_dir.to_owned());
    match classpath {
        Some(cp) => {
            out.push("-classpath".to_owned());
            out.push(cp);
        },
        None => {},
    }
    let ghost head = strs(out@);
    append_strings(&mut out, &d.javac_options);
    let ghost with_opts = strs(out@);
    if d.enable_preview && !contains_option(&d.javac_options, "--enable-preview") {
        out.push("--enable-preview".to_owned());
        assert(strs(out@) =~= with_opts.push("--enable-preview"@));
    }
    let ghost with_preview = strs(out@);
    if needs_release_flag(d) {
        out.push("--release".to_owned());
        out.push(decimal_string(release as u64));
        assert(strs(out@) =~= with_preview + seq!["--release"@, decimal(release as nat)]);
    }
    let ghost with_release = strs(out@);
    append_strings(&mut out, sources);
    assert(strs(out@) =~= javac_args(classes_dir@, ostr(classpath), d@, release, strs(sources@)));
    out
}

/// The `java` arguments: an option per agent, the script's runtime options,
/// those of the command line, `--enable-preview` with preview features
/// (unless given), then the class path, the main class and the script's
/// arguments.
pub open spec fn java_args(
    d: DirectivesView,
    runtime: Seq<Seq<char>>,
    classpath: Seq<char>,
    main_class: Seq<char>,
    args: Seq<Seq<char>>,
) -> Seq<Seq<char>> {
    d.java_agents.map_values(|a: (Seq<char>, Option<Seq<char>>)| java_agent_option(a))
        + d.runtime_options + runtime + (if d.enable_preview && !(d.runtime_options
        + runtime).contains("--enable-preview"@) {
        seq!["--enable-preview"@]
    } else {
        Seq::empty()
    }) + seq!["-cp"@, classpath, main_class] + args
}

/// The arguments of the `java` run that starts a compiled script.
pub fn java_arguments(
    d: &Directives,
    runtime_options: &Vec<String>,
    classpath: &str,
    main_class: &str,
    script_args: &Vec<String>,
) -> (r: Vec<String>)
    ensures
        strs(r@) == java_args(d@, strs(runtime_options@), classpath@, main_class@, strs(script_args@)),
{
    let mut out: Vec<String> = Vec::new();
    let ghost agents = d@.java_agents;
    let mut i: usize = 0;
    while i < d.java_agents.len()
        invariant
            agents == d@.java_agents,
            i <= d.java_agents.len(),
            strs(out@) == agents.take(i as int).map_values(
                |a: (Seq<char>, Option<Seq<char>>)| java_agent_option(a),
            ),
        decreases d.java_agents.len() - i,
    {
        let ghost before = strs(out@);
        let opt = format_java_agent(&d.java_agents[i]);
        assert(agents[i as int] == d.java_agents@[i as int]@);
        assert(opt@ == java_agent_option(agents[i as int]));
        out.push(opt);
        assert(strs(out@) =~= before.push(java_agent_option(agents[i as int])));
        assert(agents.take(i + 1).map_values(
            |a: (Seq<char>, Option<Seq<char>>)| java_agent_option(a),
        ) =~= agents.take(i as int).map_values(
            |a: (Seq<char>, Option<Seq<char>>)| java_agent_option(a),
        ).push(java_agent_option(agents[i as int])));
        assert(strs(out@) =~= agents.take(i + 1).map_values(
            |a: (Seq<char>, Option<Seq<char>>)| java_agent_option(a),
        ));
        i += 1;
    }
    assert(agents.take(i as int) =~= agents);
    append_strings(&mut out, &d.runtime_options);
    append_strings(&mut out, runtime_options);
    let ghost opts = strs(out@);
    let given = contains_option(&d.runtime_options, "--enable-preview") || contains_option(
        runtime_options,
        "--enable-preview",
    );
    proof {
        let both = d@.runtime_options + strs(runtime_options@);
        if both.contains("--enable-preview"@) {
            let k = choose|k: int| 0 <= k < both.len() && both[k] == "--enable-preview"@;
            if k < d@.runtime_options.len() {
                assert(d@.runtime_options[k] == both[k]);
            } else {
                assert(strs(runtime_options@)[k - d@.runtime_options.len()] == both[k]);
            }
        }
        if d@.runtime_options.contains("--enable-preview"@) {
            let k = choose|k: int| 0 <= k < d@.runtime_options.len() && d@.runtime_options[k]
                == "--enable-preview"@;
            assert(both[k] == "--enable-preview"@);
        }
        if strs(runtime_options@).contains("--enable-preview"@) {
            let k = choose|k: int| 0 <= k < strs(runtime_options@).len() && strs(runtime_options@)[k]
                == "--enable-preview"@;
            assert(both[k + d@.runtime_options.len()] == "--enable-preview"@);
        }
    }
    if d.enable_preview && !given {
        out.push("--enable-preview".to_owned());
        assert(strs(out@) =~= opts.push("--enable-preview"@));
    }
    let ghost before_cp = strs(out@);
    out.push("-cp".to_owned());
    out.push(classpath.to_owned());
    out.push(main_class.to_owned());
    assert(strs(out@) =~= before_cp + seq!["-cp"@, classpath@, main_class@]);
    append_strings(&mut out, script_args);
    assert(strs(out@) =~= java_args(
        d@,
        strs(runtime_options@),
        classpath@,
        main_class@,
        strs(script_args@),
    ));
    out
}

// ─── Cache records ───────────────────────────────────────────────────────────

/// The record of a compiled script: its path and its classes directory,
/// separated by a tab, on one line.
pub open spec fn cache_entry_text(script: Seq<char>, classes_dir: Seq<char>) -> Seq<char> {
    script + seq!['\t'] + classes_dir + seq!['\n']
}

/// Writes the record of a compiled script.
pub fn render_cache_entry(script: &str, classes_dir: &str) -> (r: String)
    ensures
        r@ == cache_entry_text(script@, classes_dir@),
{
    let mut out = script.to_owned();
    out.append("\t");
    out.append(classes_dir);
    out.append("\n");
    proof {
        reveal_strlit("\t");
        reveal_strlit("\n");
    }
    assert(out@ =~= cache_entry_text(script@, classes_dir@));
    out
}

/// What a record says: the text without trailing white space, split at
/// tabs; the script and classes directory are the first two pieces, and
/// neither may be empty.
pub open spec fn cache_entry_parts(text: Seq<char>) -> Option<(Seq<char>, Seq<char>)> {
    let p = split_on(trim_end(text), seq!['\t']);
    if p.len() >= 2 && p[0].len() > 0 && p[1].len() > 0 {
        Some((p[0], p[1]))
    } else {
        None
    }
}

/// Reads the record of a compiled script.
pub fn parse_cache_entry(text: &str) -> (r: Option<(String, String)>)
    ensures
        match cache_entry_parts(text@) {
            Some((a, b)) => r matches Some((x, y)) && x@ == a && y@ == b,
            None => r is None,
        },
{
    let c = chars_of(text);
    let n = end_without_ws(c.as_slice());
    let t = slice_chars(c.as_slice(), 0, n);
    let tab = vec!['\t'];
    assert(tab@ =~= seq!['\t']);
    let parts = split_chars(t.as_slice(), tab.as_slice());
    if parts.len() >= 2 && parts[0].len() > 0 && parts[1].len() > 0 {
        assert(views(parts@)[0] == parts@[0]@);
        assert(views(parts@)[1] == parts@[1]@);
        Some((string_of(parts[0].as_slice()), string_of(parts[1].as_slice())))
    } else {
        proof {
            if parts.len() >= 2 {
                assert(views(parts@)[0] == parts@[0]@);
                assert(views(parts@)[1] == parts@[1]@);
            }
        }
        None
    }
}

/// A record reads back as the script and classes directory it was written
/// with, for non-empty paths without tabs whose classes directory does not
/// end in white space.
pub proof fn law_cache_entry_round_trip(script: Seq<char>, classes_dir: Seq<char>)
    requires
        script.len() > 0,
        classes_dir.len() > 0,
        !script.contains('\t'),
        !classes_dir.contains('\t'),
        !is_ws(classes_dir.last()),
    ensures
        cache_entry_parts(cache_entry_text(script, classes_dir)) == Some((script, classes_dir)),
{
    let body = script + seq!['\t'] + classes_dir;
    let text = cache_entry_text(script, classes_dir);
    assert(text.drop_last() =~= body);
    assert(is_ws('\n'));
    assert(body.last() == classes_dir.last());
    assert(trim_end(body) == body);
    assert(trim_end(text) == trim_end(body));
    let tab = seq!['\t'];
    assert forall|i: int| 0 <= i < script.len() implies !tab.contains(#[trigger] script[i]) by {
        if tab.contains(script[i]) {
            assert(tab[0] == '\t');
            assert(script.contains(script[i]));
        }
    }
    assert forall|i: int| 0 <= i < classes_dir.len() implies !tab.contains(#[trigger] classes_dir[i]) by {
        if tab.contains(classes_dir[i]) {
            assert(classes_dir.contains(classes_dir[i]));
        }
    }
    assert(tab.contains('\t')) by {
        assert(tab[0] == '\t');
    }
    lemma_split_on_plain(script, tab);
    lemma_split_on_after_sep(script, '\t', classes_dir, tab);
    assert(split_on(body, tab) =~= seq![script, classes_dir]);
}

// ─── Cache directories ───────────────────────────────────────────────────────

/// The name of the cache directory of a script: the first 16 hexadecimal
/// digits of the SHA-256 digest of its path followed by its source.
pub open spec fn project_key(script: Seq<char>, source: Seq<char>) -> Seq<char> {
    sha256_hex_of(vstd::utf8::encode_utf8(script) + vstd::utf8::encode_utf8(source)).take(16)
}

/// Names the cache directory of a script.
pub fn cache_project_key(script: &str, source: &str) -> (r: String)
    ensures
        r@ == project_key(script@, source@),
{
    let mut data: Vec<u8> = Vec::new();
    push_bytes(&mut data, script);
    push_bytes(&mut data, source);
    assert(data@ =~= vstd::utf8::encode_utf8(script@) + vstd::utf8::encode_utf8(source@));
    let hex = sha256_hex(data.as_slice());
    let c = chars_of(hex.as_str());
    string_of(slice_chars(c.as_slice(), 0, 16).as_slice())
}

// ─── Aliases ─────────────────────────────────────────────────────────────────

fn prepend<T>(prefix: Vec<T>, existing: &mut Vec<T>)
    ensures
        final(existing)@ == prefix@ + old(existing)@,
{
    let mut p = prefix;
    p.append(existing);
    *existing = p;
}

/// The value asked for, else the alias's.
pub open spec fn or_alias(asked: Option<String>, alias: Option<String>) -> Option<String> {
    if asked is Some {
        asked
    } else {
        alias
    }
}

/// A run of an alias: the alias's script, its arguments, dependencies,
/// repositories, sources, files, class path, options and agents before those
/// of the command line, and its Java version and main class where the command
/// line names none.
pub fn apply_alias_to_run(options: RunOptions, alias: CatalogAlias) -> (r: RunOptions)
    ensures
        r.script == alias.script,
        r.script_args@ == alias.arguments@ + options.script_args@,
        r.extra_deps@ == alias.deps@ + options.extra_deps@,
        r.extra_repos@ == alias.repos@ + options.extra_repos@,
        r.extra_sources@ == alias.sources@ + options.extra_sources@,
        r.extra_files@ == alias.files@ + options.extra_files@,
        r.classpath@ == alias.classpaths@ + options.classpath@,
        r.javac_options@ == alias.javac_options@ + options.javac_options@,
        r.runtime_options@ == alias.runtime_options@ + options.runtime_options@,
        r.java_agents@ == alias.java_agents@ + options.java_agents@,
        r.java_version == or_alias(options.java_version, alias.java_version),
        r.main_class == or_alias(options.main_class, alias.main_class),
        r.cache_dir == options.cache_dir,
        r.trust_remote == options.trust_remote,
{
    let CatalogAlias {
        script,
        arguments,
        deps,
        repos,
        sources,
        files,
        classpaths,
        javac_options,
        runtime_options,
        java_agents,
        java_version,
        main_class,
        ..
    } = alias;
    let mut o = options;
    o.script = script;
    prepend(arguments, &mut o.script_args);
    prepend(deps, &mut o.extra_deps);
    prepend(repos, &mut o.extra_repos);
    prepend(sources, &mut o.extra_sources);
    prepend(files, &mut o.extra_files);
    prepend(classpaths, &mut o.classpath);
    prepend(javac_options, &mut o.javac_options);
    prepend(runtime_options, &mut o.runtime_options);
    prepend(java_agents, &mut o.java_agents);
    if o.java_version.is_none() {
        o.java_version = java_version;
    }
    if o.main_class.is_none() {
        o.main_class = main_class;
    }
    o
}

/// A build of an alias: as a run, without arguments.
pub fn apply_alias_to_build(options: BuildOptions, alias: CatalogAlias) -> (r: BuildOptions)
    ensures
        r.script == alias.script,
        r.extra_deps@ == alias.deps@ + options.extra_deps@,
        r.extra_repos@ == alias.repos@ + options.extra_repos@,
        r.extra_sources@ == alias.sources@ + options.extra_sources@,
        r.extra_files@ == alias.files@ + options.extra_files@,
        r.classpath@ == alias.classpaths@ + options.classpath@,
        r.javac_options@ == alias.javac_options@ + options.javac_options@,
        r.runtime_options@ == alias.runtime_options@ + options.runtime_options@,
        r.java_agents@ == alias.java_agents@ + options.java_agents@,
        r.java_version == or_alias(options.java_version, alias.java_version),
        r.main_class == or_alias(options.main_class, alias.main_class),
        r.cache_dir == options.cache_dir,
        r.trust_remote == options.trust_remote,
{
    let CatalogAlias {
        script,
        deps,
        repos,
        sources,
        files,
        classpaths,
        javac_options,
        runtime_options,
        java_agents,
        java_version,
        main_class,
        ..
    } = alias;
    let mut o = options;
    o.script = script;
    prepend(deps, &mut o.extra_deps);
    prepend(repos, &mut o.extra_repos);
    prepend(sources, &mut o.extra_sources);
    prepend(files, &mut o.extra_files);
    prepend(classpaths, &mut o.classpath);
    prepend(javac_options, &mut o.javac_options);
    prepend(runtime_options, &mut o.runtime_options);
    prepend(java_agents, &mut o.java_agents);
    if o.java_version.is_none() {
        o.java_version = java_version;
    }
    if o.main_class.is_none() {
        o.main_class = main_class;
    }
    o
}

/// An export of an alias: as a build.
pub fn apply_alias_to_export(options: ExportOptions, alias: CatalogAlias) -> (r: ExportOptions)
    ensures
        r.script == alias.script,
        r.output == options.output,
        r.force == options.force,
        r.kind == options.kind,
        r.extra_deps@ == alias.deps@ + options.extra_deps@,
        r.extra_repos@ == alias.repos@ + options.extra_repos@,
        r.extra_sources@ == alias.sources@ + options.extra_sources@,
        r.extra_files@ == alias.files@ + options.extra_files@,
        r.classpath@ == alias.classpaths@ + options.classpath@,
        r.javac_options@ == alias.javac_options@ + options.javac_options@,
        r.runtime_options@ == alias.runtime_options@ + options.runtime_options@,
        r.java_agents@ == alias.java_agents@ + options.java_agents@,
        r.java_version == or_alias(options.java_version, alias.java_version),
        r.main_class == or_alias(options.main_class, alias.main_class),
        r.cache_dir == options.cache_dir,
        r.trust_remote == options.trust_remote,
{
    let CatalogAlias {
        script,
        deps,
        repos,
        sources,
        files,
        classpaths,
        javac_options,
        runtime_options,
        java_agents,
        java_version,
        main_class,
        ..
    } = alias;
    let mut o = options;
    o.script = script;
    prepend(deps, &mut o.extra_deps);
    prepend(repos, &mut o.extra_repos);
    prepend(sources, &mut o.extra_sources);
    prepend(files, &mut o.extra_files);
    prepend(classpaths, &mut o.classpath);
    prepend(javac_options, &mut o.javac_options);
    prepend(runtime_options, &mut o.runtime_options);
    prepend(java_agents, &mut o.java_agents);
    if o.java_version.is_none() {
        o.java_version = java_version;
    }
    if o.main_class.is_none() {
        o.main_class = main_class;
    }
    o
}

} // verus!
