//! Maven coordinates, repositories and dependency resolution.
//!
//! Coordinates such as `org.slf4j:slf4j-api:2.0.13` name a module and a
//! version. Resolution follows POM dependencies transitively, reconciles
//! conflicting versions by picking the higher one, and stops when no new
//! module/version pair appears.
use vstd::prelude::*;
use crate::text::{
    append_chars, chars_eq, chars_of, contains_seq, end_without_ws, has_prefix, has_suffix,
    occurs_at, replace_all, replace_chars,
    replace_seq, replace_set, slice_chars, split_chars, split_on, str_eq, string_of, views,
};

verus! {

// ─── Data model ─────────────────────────────────────────────────────────────

/// A Maven module: `groupId:artifactId`.
#[derive(Debug, Clone, Hash, PartialEq, Eq)]
pub struct Module {
    pub org: String,
    pub name: String,
}

impl View for Module {
    type V = (Seq<char>, Seq<char>);

    open spec fn view(&self) -> (Seq<char>, Seq<char>) {
        (self.org@, self.name@)
    }
}

impl Module {
    /// Whether two modules name the same group and artifact.
    pub fn same(&self, other: &Module) -> (r: bool)
        ensures
            r == (self@ == other@),
    {
        str_eq(self.org.as_str(), other.org.as_str()) && str_eq(
            self.name.as_str(),
            other.name.as_str(),
        )
    }

    /// A copy of this module.
    pub fn duplicate(&self) -> (r: Module)
        ensures
            r@ == self@,
    {
        Module { org: self.org.clone(), name: self.name.clone() }
    }
}

/// Maven dependency scope.
#[derive(Debug, Clone, Copy, Hash, PartialEq, Eq, Structural)]
pub enum Scope {
    Compile,
    Runtime,
    Provided,
    Test,
    System,
    Import,
}

/// The scope that a scope name denotes; unknown names mean `Compile`, as in
/// Maven.
pub open spec fn scope_of(s: Seq<char>) -> Scope {
    if s == "runtime"@ {
        Scope::Runtime
    } else if s == "provided"@ {
        Scope::Provided
    } else if s == "test"@ {
        Scope::Test
    } else if s == "system"@ {
        Scope::System
    } else if s == "import"@ {
        Scope::Import
    } else {
        Scope::Compile
    }
}

impl Scope {
    /// Parses a scope name.
    pub fn parse_scope(s: &str) -> (r: Scope)
        ensures
            r == scope_of(s@),
    {
        if str_eq(s, "runtime") {
            Scope::Runtime
        } else if str_eq(s, "provided") {
            Scope::Provided
        } else if str_eq(s, "test") {
            Scope::Test
        } else if str_eq(s, "system") {
            Scope::System
        } else if str_eq(s, "import") {
            Scope::Import
        } else {
            Scope::Compile
        }
    }

    /// Whether artifacts of this scope belong on the runtime classpath.
    pub fn is_in_classpath(&self) -> (r: bool)
        ensures
            r == (*self == Scope::Compile || *self == Scope::Runtime),
    {
        match self {
            Scope::Compile | Scope::Runtime => true,
            _ => false,
        }
    }
}

/// An exclusion rule; `*` in either field matches anything.
#[derive(Debug, Clone, Hash, PartialEq, Eq)]
pub struct Exclusion {
    pub org: String,
    pub name: String,
}

impl View for Exclusion {
    type V = (Seq<char>, Seq<char>);

    open spec fn view(&self) -> (Seq<char>, Seq<char>) {
        (self.org@, self.name@)
    }
}

/// An exclusion `(org, name)` matches a module `(org, name)`.
pub open spec fn excludes(ex: (Seq<char>, Seq<char>), m: (Seq<char>, Seq<char>)) -> bool {
    (ex.0 == "*"@ || ex.0 == m.0) && (ex.1 == "*"@ || ex.1 == m.1)
}

impl Exclusion {
    /// Whether this exclusion matches `module`.
    pub fn matches(&self, module: &Module) -> (r: bool)
        ensures
            r == excludes(self@, module@),
    {
        (str_eq(self.org.as_str(), "*") || str_eq(self.org.as_str(), module.org.as_str()))
            && (str_eq(self.name.as_str(), "*") || str_eq(
            self.name.as_str(),
            module.name.as_str(),
        ))
    }

    /// A copy of this exclusion.
    pub fn duplicate(&self) -> (r: Exclusion)
        ensures
            r@ == self@,
    {
        Exclusion { org: self.org.clone(), name: self.name.clone() }
    }
}

/// A dependency declaration. Its exclusions hold no rule twice.
#[derive(Debug, Clone)]
pub struct Dependency {
    pub module: Module,
    pub version: String,
    pub scope: Scope,
    pub optional: bool,
    pub exclusions: Vec<Exclusion>,
    pub classifier: Option<String>,
}

/// What a dependency declaration says.
#[verifier::ext_equal]
pub struct DepView {
    pub module: (Seq<char>, Seq<char>),
    pub version: Seq<char>,
    pub scope: Scope,
    pub optional: bool,
    pub exclusions: Seq<(Seq<char>, Seq<char>)>,
    pub classifier: Option<Seq<char>>,
}

/// The view of an optional string.
pub open spec fn opt_view(o: Option<String>) -> Option<Seq<char>> {
    match o {
        Some(s) => Some(s@),
        None => None,
    }
}

/// The views of a sequence of exclusions.
pub open spec fn exclusion_views(v: Seq<Exclusion>) -> Seq<(Seq<char>, Seq<char>)> {
    v.map_values(|e: Exclusion| e@)
}

impl View for Dependency {
    type V = DepView;

    open spec fn view(&self) -> DepView {
        DepView {
            module: self.module@,
            version: self.version@,
            scope: self.scope,
            optional: self.optional,
            exclusions: exclusion_views(self.exclusions@),
            classifier: opt_view(self.classifier),
        }
    }
}

/// A copy of an optional string.
pub fn copy_opt(o: &Option<String>) -> (r: Option<String>)
    ensures
        opt_view(r) == opt_view(*o),
{
    match o {
        Some(s) => Some(s.clone()),
        None => None,
    }
}

/// A copy of a list of exclusions.
pub fn copy_exclusions(v: &Vec<Exclusion>) -> (r: Vec<Exclusion>)
    ensures
        exclusion_views(r@) == exclusion_views(v@),
{
    let mut r: Vec<Exclusion> = Vec::new();
    let mut i: usize = 0;
    while i < v.len()
        invariant
            i <= v.len(),
            exclusion_views(r@) == exclusion_views(v@).take(i as int),
        decreases v.len() - i,
    {
        let ghost before = exclusion_views(r@);
        let e = v[i].duplicate();
        r.push(e);
        assert(exclusion_views(r@) =~= before.push(v@[i as int]@));
        assert(exclusion_views(v@).take(i + 1) =~= exclusion_views(v@).take(i as int).push(
            v@[i as int]@,
        ));
        i += 1;
    }
    assert(exclusion_views(v@).take(v.len() as int) =~= exclusion_views(v@));
    r
}

impl Dependency {
    /// A copy of this dependency.
    pub fn duplicate(&self) -> (r: Dependency)
        ensures
            r@ == self@,
    {
        Dependency {
            module: self.module.duplicate(),
            version: self.version.clone(),
            scope: self.scope,
            optional: self.optional,
            exclusions: copy_exclusions(&self.exclusions),
            classifier: copy_opt(&self.classifier),
        }
    }
}

// ─── Coordinates ─────────────────────────────────────────────────────────────

/// Errors of coordinate parsing and dependency resolution.
#[derive(Debug, Clone)]
pub enum ResolveError {
    /// The coordinate does not have at least three `:`-separated parts.
    InvalidCoordinate(String),
    /// The metadata of a module lists no version.
    NoVersions(Module),
    /// No published version of a module lies within a range.
    NoMatchingVersion(Module, String),
    /// Metadata or a POM could not be fetched; the text says why.
    Fetch(String),
    /// A parent POM chain is longer than the limit.
    ParentChainTooDeep,
    /// A parent POM refers back to one of its descendants.
    CircularParent(Module, String),
    /// Resolution did not reach a fixpoint within the iteration limit.
    NotConverged,
    /// POM imports nest deeper than the recursion budget.
    RecursionLimit,
}

/// The `:`-separated parts of a coordinate.
pub open spec fn coordinate_parts(coord: Seq<char>) -> Seq<Seq<char>> {
    split_on(coord, seq![':'])
}

/// The dependency that a coordinate denotes, if it has at least three parts:
/// `group:artifact:version`, or `group:artifact:classifier:version` when it has
/// four or more (later parts are ignored). Scope `Compile`, not optional, no
/// exclusions.
pub open spec fn coordinate_dep(coord: Seq<char>) -> Option<DepView> {
    let p = coordinate_parts(coord);
    if p.len() < 3 {
        None
    } else {
        Some(
            DepView {
                module: (p[0], p[1]),
                version: if p.len() >= 4 {
                    p[3]
                } else {
                    p[2]
                },
                scope: Scope::Compile,
                optional: false,
                exclusions: Seq::empty(),
                classifier: if p.len() >= 4 {
                    Some(p[2])
                } else {
                    None
                },
            },
        )
    }
}

/// Parses a Maven coordinate such as `org.slf4j:slf4j-api:2.0.13` or
/// `org.example:lib:sources:1.0`.
pub fn parse_coordinate(coord: &str) -> (r: Result<Dependency, ResolveError>)
    ensures
        match coordinate_dep(coord@) {
            Some(d) => r matches Ok(dep) && dep@ == d,
            None => r matches Err(ResolveError::InvalidCoordinate(c)) && c@ == coord@,
        },
{
    let c = chars_of(coord);
    let seps = vec![':'];
    assert(seps@ =~= seq![':']);
    let parts = split_chars(c.as_slice(), seps.as_slice());
    let ghost p = coordinate_parts(coord@);
    assert(views(parts@) == p);
    if parts.len() < 3 {
        return Err(ResolveError::InvalidCoordinate(string_of(c.as_slice())));
    }
    assert(p[0] == parts@[0]@ && p[1] == parts@[1]@ && p[2] == parts@[2]@);
    let org = string_of(parts[0].as_slice());
    let name = string_of(parts[1].as_slice());
    let (classifier, version) = if parts.len() >= 4 {
        assert(p[3] == parts@[3]@);
        (Some(string_of(parts[2].as_slice())), string_of(parts[3].as_slice()))
    } else {
        (None, string_of(parts[2].as_slice()))
    };
    let r = Dependency {
        module: Module { org, name },
        version,
        scope: Scope::Compile,
        optional: false,
        exclusions: Vec::new(),
        classifier,
    };
    assert(exclusion_views(r.exclusions@) =~= Seq::empty());
    Ok(r)
}

/// A string made safe for use as one path segment: every `..` becomes
/// `_dotdot_`, then every `/`, `\` and NUL becomes `_`.
pub open spec fn sanitized(s: Seq<char>) -> Seq<char> {
    replace_set(replace_all(s, ".."@, "_dotdot_"@), seq!['/', '\\', '\0'], "_"@)
}

/// Sanitizes a string for use as one filesystem path segment.
pub fn sanitize_path_segment(s: &str) -> (r: String)
    ensures
        r@ == sanitized(s@),
{
    let c = chars_of(s);
    let dots = chars_of("..");
    let repl = chars_of("_dotdot_");
    assert(dots@.len() == 2) by {
        reveal_strlit("..");
    }
    let step = replace_seq(c.as_slice(), dots.as_slice(), repl.as_slice());
    let set = vec!['/', '\\', '\0'];
    assert(set@ =~= seq!['/', '\\', '\0']);
    let under = chars_of("_");
    let out = replace_chars(step.as_slice(), set.as_slice(), under.as_slice());
    string_of(out.as_slice())
}

/// No two neighbouring characters of `s` are both `.`.
pub open spec fn no_double_dot(s: Seq<char>) -> bool {
    forall|i: int| 0 <= i < s.len() - 1 ==> !(#[trigger] s[i] == '.' && s[i + 1] == '.')
}

/// Replacing every `..` by `_dotdot_` leaves no two neighbouring dots, and
/// the result starts with a dot only where the input does.
proof fn lemma_dotdot_gone(s: Seq<char>)
    ensures
        no_double_dot(replace_all(s, ".."@, "_dotdot_"@)),
        replace_all(s, ".."@, "_dotdot_"@).len() > 0 && replace_all(s, ".."@, "_dotdot_"@)[0]
            == '.' ==> s.len() > 0 && s[0] == '.',
    decreases s.len(),
{
    reveal_strlit("..");
    reveal_strlit("_dotdot_");
    let p = ".."@;
    let t = "_dotdot_"@;
    let r = replace_all(s, p, t);
    if s.len() == 0 {
    } else if has_prefix(s, p) {
        let rest = s.skip(2);
        lemma_dotdot_gone(rest);
        let rr = replace_all(rest, p, t);
        assert(r == t + rr);
        assert forall|i: int| 0 <= i < r.len() - 1 implies !(#[trigger] r[i] == '.' && r[i + 1]
            == '.') by {
            if i >= 8 {
                assert(r[i] == rr[i - 8]);
                assert(r[i + 1] == rr[i - 7]);
            } else {
                assert(r[i] == t[i]);
            }
        }
    } else {
        let rest = s.drop_first();
        lemma_dotdot_gone(rest);
        let rr = replace_all(rest, p, t);
        assert(r == seq![s[0]] + rr);
        if s[0] == '.' && rest.len() > 0 {
            assert(rest[0] != '.') by {
                if rest[0] == '.' {
                    assert(s.take(2) =~= p);
                }
            }
        }
        assert forall|i: int| 0 <= i < r.len() - 1 implies !(#[trigger] r[i] == '.' && r[i + 1]
            == '.') by {
            if i >= 1 {
                assert(r[i] == rr[i - 1]);
                assert(r[i + 1] == rr[i]);
            } else {
                assert(r[1] == rr[0]);
            }
        }
    }
}

/// Replacing each character of `set` by the one-character text `t` keeps the
/// length and changes exactly those characters.
proof fn lemma_replace_set_pointwise(s: Seq<char>, set: Seq<char>, t: Seq<char>)
    requires
        t.len() == 1,
    ensures
        replace_set(s, set, t).len() == s.len(),
        forall|i: int|
            0 <= i < s.len() ==> #[trigger] replace_set(s, set, t)[i] == (if set.contains(s[i]) {
                t[0]
            } else {
                s[i]
            }),
    decreases s.len(),
{
    if s.len() > 0 {
        lemma_replace_set_pointwise(s.drop_first(), set, t);
        let r = replace_set(s, set, t);
        let rr = replace_set(s.drop_first(), set, t);
        let head = if set.contains(s[0]) {
            t
        } else {
            seq![s[0]]
        };
        assert(r == head + rr);
        assert forall|i: int| 0 <= i < s.len() implies #[trigger] r[i] == (if set.contains(s[i]) {
            t[0]
        } else {
            s[i]
        }) by {
            if i > 0 {
                assert(r[i] == rr[i - 1]);
                assert(s[i] == s.drop_first()[i - 1]);
            }
        }
    }
}

/// A sanitized path segment holds no `/`, `\` or NUL, and no `..`: it cannot
/// climb out of the directory it is joined to.
pub proof fn law_sanitized_segment_is_safe(s: Seq<char>)
    ensures
        !sanitized(s).contains('/'),
        !sanitized(s).contains('\\'),
        !sanitized(s).contains('\0'),
        !contains_seq(sanitized(s), ".."@),
{
    reveal_strlit("_");
    reveal_strlit("..");
    let step = replace_all(s, ".."@, "_dotdot_"@);
    let set = seq!['/', '\\', '\0'];
    lemma_dotdot_gone(s);
    lemma_replace_set_pointwise(step, set, "_"@);
    let r = sanitized(s);
    assert forall|i: int| 0 <= i < r.len() implies #[trigger] r[i] != '/' && r[i] != '\\' && r[i]
        != '\0' by {
        if set.contains(step[i]) {
        } else {
            if step[i] == '/' {
                assert(set[0] == '/');
            }
            if step[i] == '\\' {
                assert(set[1] == '\\');
            }
            if step[i] == '\0' {
                assert(set[2] == '\0');
            }
        }
    }
    assert forall|i: int| !occurs_at(r, ".."@, i) by {
        if occurs_at(r, ".."@, i) {
            assert(r.subrange(i, i + 2)[0] == r[i]);
            assert(r.subrange(i, i + 2)[1] == r[i + 1]);
            assert(r[i] == step[i]);
            assert(r[i + 1] == step[i + 1]);
        }
    }
}

// ─── Repositories ────────────────────────────────────────────────────────────

/// A Maven repository.
#[derive(Debug, Clone)]
pub struct Repository {
    pub id: String,
    pub url: String,
}

/// `s` without its trailing `c` characters (`str::trim_end_matches`).
pub open spec fn trim_end_char(s: Seq<char>, c: char) -> Seq<char>
    decreases s.len(),
{
    if s.len() > 0 && s.last() == c {
        trim_end_char(s.drop_last(), c)
    } else {
        s
    }
}

/// The directory path of a group: its dots become slashes.
pub open spec fn group_path(org: Seq<char>) -> Seq<char> {
    replace_set(org, seq!['.'], "/"@)
}

/// `url/group/path/artifact`: the directory of a module in a repository.
pub open spec fn module_base(url: Seq<char>, m: (Seq<char>, Seq<char>)) -> Seq<char> {
    trim_end_char(url, '/') + "/"@ + group_path(m.0) + "/"@ + m.1
}

/// The file name of an artifact's JAR.
pub open spec fn jar_file_name(name: Seq<char>, version: Seq<char>, classifier: Option<Seq<char>>) -> Seq<char> {
    match classifier {
        Some(c) => name + "-"@ + version + "-"@ + c + ".jar"@,
        None => name + "-"@ + version + ".jar"@,
    }
}

fn trim_end_slashes(s: &[char]) -> (r: Vec<char>)
    ensures
        r@ == trim_end_char(s@, '/'),
{
    let mut i: usize = s.len();
    assert(s@.take(s.len() as int) =~= s@);
    while i > 0 && s[i - 1] == '/'
        invariant
            i <= s.len(),
            trim_end_char(s@, '/') == trim_end_char(s@.take(i as int), '/'),
        decreases i,
    {
        assert(s@.take(i as int).drop_last() =~= s@.take(i - 1));
        i -= 1;
    }
    let r = slice_chars(s, 0, i);
    assert(r@ =~= s@.take(i as int));
    r
}

fn push_lit(v: &mut Vec<char>, lit: &str)
    ensures
        final(v)@ == old(v)@ + lit@,
{
    let l = chars_of(lit);
    append_chars(v, l.as_slice());
}

fn push_str(v: &mut Vec<char>, s: &str)
    ensures
        final(v)@ == old(v)@ + s@,
{
    let l = chars_of(s);
    append_chars(v, l.as_slice());
}

impl Repository {
    /// Maven Central.
    pub fn central() -> (r: Repository)
        ensures
            r.id@ == "central"@,
            r.url@ == "https://repo1.maven.org/maven2"@,
    {
        Repository { id: "central".to_owned(), url: "https://repo1.maven.org/maven2".to_owned() }
    }

    pub(crate) fn module_base_chars(&self, module: &Module) -> (r: Vec<char>)
        ensures
            r@ == module_base(self.url@, module@),
    {
        let url = chars_of(self.url.as_str());
        let mut out = trim_end_slashes(url.as_slice());
        push_lit(&mut out, "/");
        let org = chars_of(module.org.as_str());
        let dot = vec!['.'];
        assert(dot@ =~= seq!['.']);
        let slash = chars_of("/");
        let gp = replace_chars(org.as_slice(), dot.as_slice(), slash.as_slice());
        append_chars(&mut out, gp.as_slice());
        push_lit(&mut out, "/");
        push_str(&mut out, module.name.as_str());
        out
    }

    /// The URL of a module's `maven-metadata.xml`.
    pub fn metadata_url(&self, module: &Module) -> (r: String)
        ensures
            r@ == module_base(self.url@, module@) + "/maven-metadata.xml"@,
    {
        let mut out = self.module_base_chars(module);
        push_lit(&mut out, "/maven-metadata.xml");
        string_of(out.as_slice())
    }

    /// The URL of a module's POM at a version.
    pub fn pom_url(&self, module: &Module, version: &str) -> (r: String)
        ensures
            r@ == module_base(self.url@, module@) + "/"@ + version@ + "/"@ + module.name@ + "-"@
                + version@ + ".pom"@,
    {
        let mut out = self.module_base_chars(module);
        push_lit(&mut out, "/");
        push_str(&mut out, version);
        push_lit(&mut out, "/");
        push_str(&mut out, module.name.as_str());
        push_lit(&mut out, "-");
        push_str(&mut out, version);
        push_lit(&mut out, ".pom");
        string_of(out.as_slice())
    }

    /// The URL of a module's JAR at a version, with an optional classifier.
    pub fn jar_url(&self, module: &Module, version: &str, classifier: Option<&str>) -> (r: String)
        ensures
            r@ == module_base(self.url@, module@) + "/"@ + version@ + "/"@ + jar_file_name(
                module.name@,
                version@,
                match classifier {
                    Some(c) => Some(c@),
                    None => None,
                },
            ),
    {
        let mut out = self.module_base_chars(module);
        push_lit(&mut out, "/");
        push_str(&mut out, version);
        push_lit(&mut out, "/");
        push_str(&mut out, module.name.as_str());
        push_lit(&mut out, "-");
        push_str(&mut out, version);
        match classifier {
            Some(c) => {
                push_lit(&mut out, "-");
                push_str(&mut out, c);
            },
            None => {},
        }
        push_lit(&mut out, ".jar");
        string_of(out.as_slice())
    }
}


// ─── Metadata ────────────────────────────────────────────────────────────────

/// The versioning block of a module's `maven-metadata.xml`.
#[derive(Debug, Clone, Default)]
pub struct MavenMetadata {
    pub latest: Option<String>,
    pub release: Option<String>,
    pub versions: Vec<String>,
}

/// The version that "latest" means for a module: the release version named
/// by its metadata, else the latest version named there, else the highest of
/// the listed versions.
pub open spec fn latest_version_of(m: MavenMetadata) -> Option<Seq<char>> {
    match m.release {
        Some(r) => Some(r@),
        None => match m.latest {
            Some(l) => Some(l@),
            None => crate::version::highest_of(crate::version::string_views(m.versions@)),
        },
    }
}

/// The latest version of a module according to its metadata.
pub fn resolve_latest_version(module: &Module, metadata: &MavenMetadata) -> (r: Result<
    String,
    ResolveError,
>)
    ensures
        match latest_version_of(*metadata) {
            Some(v) => r matches Ok(x) && x@ == v,
            None => r matches Err(ResolveError::NoVersions(m)) && m@ == module@,
        },
{
    match &metadata.release {
        Some(r) => Ok(r.clone()),
        None => match &metadata.latest {
            Some(l) => Ok(l.clone()),
            None => match crate::version::highest_version(metadata.versions.as_slice()) {
                Some(h) => Ok(h),
                None => Err(ResolveError::NoVersions(module.duplicate())),
            },
        },
    }
}


// ─── Projects ────────────────────────────────────────────────────────────────

/// A parsed POM. Its properties hold each key once, in the order they were
/// first set.
#[derive(Debug, Clone)]
pub struct Project {
    pub module: Module,
    pub version: String,
    pub packaging: String,
    pub parent: Option<(Module, String)>,
    pub dependencies: Vec<Dependency>,
    pub dependency_management: Vec<Dependency>,
    pub properties: Vec<(String, String)>,
    pub relocation: Option<Dependency>,
}

/// The views of a list of dependencies.
pub open spec fn dep_views(v: Seq<Dependency>) -> Seq<DepView> {
    v.map_values(|d: Dependency| d@)
}

/// The views of a list of properties.
pub open spec fn prop_views(v: Seq<(String, String)>) -> Seq<(Seq<char>, Seq<char>)> {
    v.map_values(|p: (String, String)| (p.0@, p.1@))
}

/// The first managed entry for a module.
pub open spec fn managed_for(mgmt: Seq<DepView>, m: (Seq<char>, Seq<char>)) -> Option<DepView>
    decreases mgmt.len(),
{
    if mgmt.len() == 0 {
        None
    } else if mgmt[0].module == m {
        Some(mgmt[0])
    } else {
        managed_for(mgmt.drop_first(), m)
    }
}

/// The exclusions of `a` followed by those of `b` that are not already there.
pub open spec fn union_exclusions(
    a: Seq<(Seq<char>, Seq<char>)>,
    b: Seq<(Seq<char>, Seq<char>)>,
) -> Seq<(Seq<char>, Seq<char>)>
    decreases b.len(),
{
    if b.len() == 0 {
        a
    } else {
        let u = union_exclusions(a, b.drop_last());
        if u.contains(b.last()) {
            u
        } else {
            u.push(b.last())
        }
    }
}

/// Exclusions behave as a set: a union adds only what is not there, so an
/// exclusion list without repeats keeps none.
pub proof fn law_exclusions_stay_a_set(a: Seq<(Seq<char>, Seq<char>)>, b: Seq<(Seq<char>, Seq<char>)>)
    requires
        a.no_duplicates(),
    ensures
        union_exclusions(a, b).no_duplicates(),
        forall|x: (Seq<char>, Seq<char>)| #[trigger] union_exclusions(a, b).contains(x) <==> (a.contains(x) || b.contains(x)),
    decreases b.len(),
{
    if b.len() > 0 {
        law_exclusions_stay_a_set(a, b.drop_last());
        let u = union_exclusions(a, b.drop_last());
        assert forall|x: (Seq<char>, Seq<char>)| #[trigger] union_exclusions(a, b).contains(x) <==> (a.contains(x) || b.contains(x)) by {
            if b.contains(x) && !b.drop_last().contains(x) {
                let k = choose|k: int| 0 <= k < b.len() && b[k] == x;
                if k < b.len() - 1 {
                    assert(b.drop_last()[k] == x);
                }
            }
            if b.drop_last().contains(x) {
                let k = choose|k: int| 0 <= k < b.drop_last().len() && b.drop_last()[k] == x;
                assert(b[k] == x);
            }
            if !u.contains(b.last()) {
                assert(u.push(b.last())[u.len() as int] == b.last());
                if u.push(b.last()).contains(x) && x != b.last() {
                    let k = choose|k: int| 0 <= k < u.push(b.last()).len() && u.push(b.last())[k] == x;
                    assert(u[k] == x);
                }
                if u.contains(x) {
                    let k = choose|k: int| 0 <= k < u.len() && u[k] == x;
                    assert(u.push(b.last())[k] == x);
                }
            }
            assert(b[b.len() - 1] == b.last());
        }
    }
}

/// A dependency with its version (and, for a compile-scoped one, its scope)
/// filled in from dependency management when it declares no version.
pub open spec fn with_managed(d: DepView, mgmt: Seq<DepView>) -> DepView {
    if d.version.len() == 0 {
        match managed_for(mgmt, d.module) {
            Some(m) => DepView {
                version: m.version,
                scope: if d.scope == Scope::Compile && m.scope != Scope::Compile {
                    m.scope
                } else {
                    d.scope
                },
                ..d
            },
            None => d,
        }
    } else {
        d
    }
}

/// Some exclusion of `ex` matches module `m`.
pub open spec fn excluded_by(ex: Seq<(Seq<char>, Seq<char>)>, m: (Seq<char>, Seq<char>)) -> bool {
    exists|i: int| 0 <= i < ex.len() && excludes(#[trigger] ex[i], m)
}

/// What one declared dependency contributes to the transitive dependencies
/// reached through `from`: nothing when it is outside the runtime classpath,
/// optional, still without a version after dependency management, or
/// excluded by `from`; otherwise the dependency, carrying `from`'s exclusions
/// too.
pub open spec fn transitive_one(d: DepView, mgmt: Seq<DepView>, from: DepView) -> Option<DepView> {
    if !(d.scope == Scope::Compile || d.scope == Scope::Runtime) || d.optional {
        None
    } else {
        let e = with_managed(d, mgmt);
        if e.version.len() == 0 || excluded_by(from.exclusions, e.module) {
            None
        } else {
            Some(DepView { exclusions: union_exclusions(e.exclusions, from.exclusions), ..e })
        }
    }
}

/// The transitive dependencies that a project's declared dependencies yield
/// when reached through `from`, in declaration order.
pub open spec fn transitive_deps(deps: Seq<DepView>, mgmt: Seq<DepView>, from: DepView) -> Seq<
    DepView,
>
    decreases deps.len(),
{
    if deps.len() == 0 {
        Seq::empty()
    } else {
        let prev = transitive_deps(deps.drop_last(), mgmt, from);
        match transitive_one(deps.last(), mgmt, from) {
            Some(e) => prev.push(e),
            None => prev,
        }
    }
}

proof fn lemma_union_keeps(a: Seq<(Seq<char>, Seq<char>)>, b: Seq<(Seq<char>, Seq<char>)>)
    ensures
        forall|x: (Seq<char>, Seq<char>)|
            a.contains(x) || b.contains(x) ==> #[trigger] union_exclusions(a, b).contains(x),
    decreases b.len(),
{
    if b.len() > 0 {
        lemma_union_keeps(a, b.drop_last());
        let u = union_exclusions(a, b.drop_last());
        assert forall|x: (Seq<char>, Seq<char>)|
            a.contains(x) || b.contains(x) implies #[trigger] union_exclusions(a, b).contains(x) by {
            if b.contains(x) && x != b.last() {
                let k = choose|k: int| 0 <= k < b.len() && b[k] == x;
                assert(b.drop_last()[k] == x);
            }
            if u.contains(x) && !u.contains(b.last()) {
                let k = choose|k: int| 0 <= k < u.len() && u[k] == x;
                assert(u.push(b.last())[k] == x);
            }
            if x == b.last() && !u.contains(b.last()) {
                assert(u.push(b.last())[u.len() as int] == x);
            }
        }
    }
}

/// Exclusions pass down: every dependency reached through `from` carries
/// each of `from`'s exclusions, and none is a module that
/// `from`'s exclusions exclude.
pub proof fn law_exclusions_pass_down(deps: Seq<DepView>, mgmt: Seq<DepView>, from: DepView)
    ensures
        forall|i: int, j: int|
            0 <= i < transitive_deps(deps, mgmt, from).len() && 0 <= j < from.exclusions.len()
                ==> (#[trigger] transitive_deps(deps, mgmt, from)[i]).exclusions.contains(
                #[trigger] from.exclusions[j],
            ),
        forall|i: int|
            0 <= i < transitive_deps(deps, mgmt, from).len() ==> !excluded_by(
                from.exclusions,
                (#[trigger] transitive_deps(deps, mgmt, from)[i]).module,
            ),
    decreases deps.len(),
{
    if deps.len() > 0 {
        law_exclusions_pass_down(deps.drop_last(), mgmt, from);
        let prev = transitive_deps(deps.drop_last(), mgmt, from);
        match transitive_one(deps.last(), mgmt, from) {
            Some(e) => {
                let x = with_managed(deps.last(), mgmt);
                lemma_union_keeps(x.exclusions, from.exclusions);
                assert forall|j: int| 0 <= j < from.exclusions.len() implies e.exclusions.contains(
                    from.exclusions[j],
                ) by {
                    assert(from.exclusions.contains(from.exclusions[j]));
                }
                assert forall|i: int, j: int|
                    0 <= i < transitive_deps(deps, mgmt, from).len() && 0 <= j < from.exclusions.len()
                        implies (#[trigger] transitive_deps(deps, mgmt, from)[i]).exclusions.contains(
                    #[trigger] from.exclusions[j],
                ) by {
                    if i < prev.len() {
                        assert(transitive_deps(deps, mgmt, from)[i] == prev[i]);
                    }
                }
                assert forall|i: int| 0 <= i < transitive_deps(deps, mgmt, from).len() implies !excluded_by(
                    from.exclusions,
                    (#[trigger] transitive_deps(deps, mgmt, from)[i]).module,
                ) by {
                    if i < prev.len() {
                        assert(transitive_deps(deps, mgmt, from)[i] == prev[i]);
                    }
                }
            },
            None => {},
        }
    }
}

fn find_managed(mgmt: &Vec<Dependency>, m: &Module) -> (r: Option<usize>)
    ensures
        match managed_for(dep_views(mgmt@), m@) {
            None => r is None,
            Some(d) => r matches Some(i) && i < mgmt.len() && mgmt@[i as int]@ == d,
        },
{
    let ghost all = dep_views(mgmt@);
    let mut i: usize = 0;
    assert(all.skip(0) =~= all);
    while i < mgmt.len()
        invariant
            all == dep_views(mgmt@),
            i <= mgmt.len(),
            managed_for(all, m@) == managed_for(all.skip(i as int), m@),
        decreases mgmt.len() - i,
    {
        proof {
            assert(all.skip(i as int)[0] == mgmt@[i as int]@);
            assert(all.skip(i as int).drop_first() =~= all.skip(i + 1));
        }
        if mgmt[i].module.same(m) {
            return Some(i);
        }
        i += 1;
    }
    None
}

fn any_excludes(ex: &Vec<Exclusion>, m: &Module) -> (r: bool)
    ensures
        r == excluded_by(exclusion_views(ex@), m@),
{
    let mut i: usize = 0;
    while i < ex.len()
        invariant
            i <= ex.len(),
            forall|j: int| 0 <= j < i ==> !excludes(#[trigger] exclusion_views(ex@)[j], m@),
        decreases ex.len() - i,
    {
        if ex[i].matches(m) {
            assert(excludes(exclusion_views(ex@)[i as int], m@));
            return true;
        }
        i += 1;
    }
    false
}

pub(crate) fn has_exclusion(ex: &Vec<Exclusion>, e: &Exclusion) -> (r: bool)
    ensures
        r == exclusion_views(ex@).contains(e@),
{
    let mut i: usize = 0;
    while i < ex.len()
        invariant
            i <= ex.len(),
            forall|j: int| 0 <= j < i ==> exclusion_views(ex@)[j] != e@,
        decreases ex.len() - i,
    {
        if str_eq(ex[i].org.as_str(), e.org.as_str()) && str_eq(
            ex[i].name.as_str(),
            e.name.as_str(),
        ) {
            assert(exclusion_views(ex@)[i as int] == e@);
            return true;
        }
        i += 1;
    }
    false
}

/// Adds to `a` the exclusions of `b` that it does not hold yet.
pub fn merge_exclusions(a: &mut Vec<Exclusion>, b: &Vec<Exclusion>)
    ensures
        exclusion_views(final(a)@) == union_exclusions(exclusion_views(old(a)@), exclusion_views(b@)),
{
    let ghost a0 = exclusion_views(a@);
    let ghost bv = exclusion_views(b@);
    let mut i: usize = 0;
    assert(bv.take(0) =~= Seq::<(Seq<char>, Seq<char>)>::empty());
    while i < b.len()
        invariant
            bv == exclusion_views(b@),
            i <= b.len(),
            exclusion_views(a@) == union_exclusions(a0, bv.take(i as int)),
        decreases b.len() - i,
    {
        proof {
            assert(bv.take(i + 1).drop_last() =~= bv.take(i as int));
            assert(bv.take(i + 1).last() == b@[i as int]@);
        }
        if !has_exclusion(a, &b[i]) {
            let ghost before = exclusion_views(a@);
            a.push(b[i].duplicate());
            assert(exclusion_views(a@) =~= before.push(b@[i as int]@));
        }
        i += 1;
    }
    assert(bv.take(b.len() as int) =~= bv);
}

/// The transitive dependencies of a project reached through `from_dep`:
/// compile and runtime dependencies that are not optional, with versions
/// filled in from dependency management, without those that `from_dep`
/// excludes, each carrying `from_dep`'s exclusions as well.
pub fn extract_dependencies(project: &Project, from_dep: &Dependency) -> (r: Vec<Dependency>)
    ensures
        dep_views(r@) == transitive_deps(
            dep_views(project.dependencies@),
            dep_views(project.dependency_management@),
            from_dep@,
        ),
        forall|i: int, j: int|
            0 <= i < r.len() && 0 <= j < from_dep@.exclusions.len() ==> (#[trigger] dep_views(r@)[i]).exclusions.contains(
                #[trigger] from_dep@.exclusions[j],
            ),
        forall|i: int|
            0 <= i < r.len() ==> !excluded_by(from_dep@.exclusions, (#[trigger] dep_views(r@)[i]).module),
{
    proof {
        law_exclusions_pass_down(
            dep_views(project.dependencies@),
            dep_views(project.dependency_management@),
            from_dep@,
        );
    }
    let ghost deps = dep_views(project.dependencies@);
    let ghost mgmt = dep_views(project.dependency_management@);
    let mut out: Vec<Dependency> = Vec::new();
    let mut i: usize = 0;
    assert(deps.take(0) =~= Seq::<DepView>::empty());
    while i < project.dependencies.len()
        invariant
            deps == dep_views(project.dependencies@),
            mgmt == dep_views(project.dependency_management@),
            i <= project.dependencies.len(),
            dep_views(out@) == transitive_deps(deps.take(i as int), mgmt, from_dep@),
        decreases project.dependencies.len() - i,
    {
        proof {
            assert(deps.take(i + 1).drop_last() =~= deps.take(i as int));
            assert(deps.take(i + 1).last() == project.dependencies@[i as int]@);
        }
        let dep = &project.dependencies[i];
        if dep.scope.is_in_classpath() && !dep.optional {
            let mut effective = dep.duplicate();
            if effective.version.as_str().is_empty() {
                match find_managed(&project.dependency_management, &effective.module) {
                    Some(k) => {
                        let managed = &project.dependency_management[k];
                        effective.version = managed.version.clone();
                        if effective.scope == Scope::Compile && managed.scope != Scope::Compile {
                            effective.scope = managed.scope;
                        }
                    },
                    None => {},
                }
            }
            assert(effective@ == with_managed(dep@, mgmt));
            if !effective.version.as_str().is_empty() && !any_excludes(
                &from_dep.exclusions,
                &effective.module,
            ) {
                merge_exclusions(&mut effective.exclusions, &from_dep.exclusions);
                let ghost before = dep_views(out@);
                let ghost ev = effective@;
                out.push(effective);
                assert(dep_views(out@) =~= before.push(ev));
            }
        }
        i += 1;
    }
    assert(deps.take(project.dependencies.len() as int) =~= deps);
    out
}

// ─── Properties ──────────────────────────────────────────────────────────────

/// The position of a property key.
pub open spec fn prop_index(props: Seq<(Seq<char>, Seq<char>)>, key: Seq<char>) -> Option<int>
    decreases props.len(),
{
    if props.len() == 0 {
        None
    } else if props.last().0 == key {
        Some(props.len() - 1)
    } else {
        prop_index(props.drop_last(), key)
    }
}

/// Properties after setting `key` to `value` (`HashMap::insert`).
pub open spec fn prop_set(props: Seq<(Seq<char>, Seq<char>)>, key: Seq<char>, value: Seq<char>) -> Seq<
    (Seq<char>, Seq<char>),
> {
    match prop_index(props, key) {
        Some(i) => props.update(i, (key, value)),
        None => props.push((key, value)),
    }
}

/// Properties after setting `key` to `value` unless it is set
/// (`entry(key).or_insert(value)`).
pub open spec fn prop_default(
    props: Seq<(Seq<char>, Seq<char>)>,
    key: Seq<char>,
    value: Seq<char>,
) -> Seq<(Seq<char>, Seq<char>)> {
    match prop_index(props, key) {
        Some(_) => props,
        None => props.push((key, value)),
    }
}

proof fn lemma_prop_index(props: Seq<(Seq<char>, Seq<char>)>, key: Seq<char>)
    ensures
        match prop_index(props, key) {
            Some(i) => 0 <= i < props.len() && props[i].0 == key,
            None => forall|j: int| 0 <= j < props.len() ==> props[j].0 != key,
        },
    decreases props.len(),
{
    if props.len() > 0 {
        lemma_prop_index(props.drop_last(), key);
        assert forall|j: int| 0 <= j < props.len() - 1 implies props.drop_last()[j] == props[j] by {}
    }
}

/// No property key occurs twice.
pub open spec fn keys_distinct(props: Seq<(Seq<char>, Seq<char>)>) -> bool {
    forall|i: int, j: int| 0 <= i < j < props.len() ==> (#[trigger] props[i]).0 != (#[trigger] props[j]).0
}

/// Properties behave as a map: setting a key, giving it a default, and
/// merging in another map's entries each keep every key once.
pub proof fn law_properties_keep_keys_distinct(
    props: Seq<(Seq<char>, Seq<char>)>,
    other: Seq<(Seq<char>, Seq<char>)>,
    key: Seq<char>,
    value: Seq<char>,
)
    requires
        keys_distinct(props),
    ensures
        keys_distinct(prop_set(props, key, value)),
        keys_distinct(prop_default(props, key, value)),
        keys_distinct(merge_props(props, other)),
    decreases other.len(),
{
    lemma_prop_index(props, key);
    if other.len() > 0 {
        law_properties_keep_keys_distinct(props, other.drop_last(), key, value);
        let acc = merge_props(props, other.drop_last());
        law_properties_keep_keys_distinct(acc, Seq::empty(), other.last().0, other.last().1);
    }
}

fn find_prop(props: &Vec<(String, String)>, key: &str) -> (r: Option<usize>)
    ensures
        match prop_index(prop_views(props@), key@) {
            None => r is None,
            Some(i) => r == Some(i as usize),
        },
{
    let ghost pv = prop_views(props@);
    let mut i: usize = props.len();
    assert(pv.take(props.len() as int) =~= pv);
    while i > 0
        invariant
            pv == prop_views(props@),
            i <= props.len(),
            prop_index(pv, key@) == prop_index(pv.take(i as int), key@),
        decreases i,
    {
        proof {
            assert(pv.take(i as int).last() == pv[i - 1]);
            assert(pv.take(i as int).drop_last() =~= pv.take(i - 1));
        }
        if str_eq(props[i - 1].0.as_str(), key) {
            return Some(i - 1);
        }
        i -= 1;
    }
    None
}

/// Sets a property (`HashMap::insert`).
pub fn set_property(props: &mut Vec<(String, String)>, key: &str, value: &str)
    ensures
        prop_views(final(props)@) == prop_set(prop_views(old(props)@), key@, value@),
{
    let ghost before = prop_views(props@);
    proof {
        lemma_prop_index(before, key@);
    }
    match find_prop(props, key) {
        Some(i) => {
            props.set(i, (key.to_owned(), value.to_owned()));
            assert(prop_views(props@) =~= before.update(i as int, (key@, value@)));
        },
        None => {
            props.push((key.to_owned(), value.to_owned()));
            assert(prop_views(props@) =~= before.push((key@, value@)));
        },
    }
}

/// Sets a property unless it is already set.
pub fn default_property(props: &mut Vec<(String, String)>, key: &str, value: &str)
    ensures
        prop_views(final(props)@) == prop_default(prop_views(old(props)@), key@, value@),
{
    let ghost before = prop_views(props@);
    match find_prop(props, key) {
        Some(_) => {},
        None => {
            props.push((key.to_owned(), value.to_owned()));
            assert(prop_views(props@) =~= before.push((key@, value@)));
        },
    }
}

/// The placeholder of a property: `${key}`.
pub open spec fn placeholder(key: Seq<char>) -> Seq<char> {
    "${"@ + key + "}"@
}

/// One substitution pass: every property whose placeholder occurs (in the
/// text as replaced so far) is replaced by its value; the flag says whether
/// any was.
pub open spec fn subst_pass(s: Seq<char>, props: Seq<(Seq<char>, Seq<char>)>) -> (Seq<char>, bool)
    decreases props.len(),
{
    if props.len() == 0 {
        (s, false)
    } else {
        let (r, changed) = subst_pass(s, props.drop_last());
        let (k, v) = props.last();
        if crate::text::contains_seq(r, placeholder(k)) {
            (replace_all(r, placeholder(k), v), true)
        } else {
            (r, changed)
        }
    }
}

/// Property substitution: passes repeat while a pass changes something, at
/// most `rounds` times (chained properties resolve over several passes).
pub open spec fn substituted(s: Seq<char>, props: Seq<(Seq<char>, Seq<char>)>, rounds: nat) -> Seq<
    char,
>
    decreases rounds,
{
    if rounds == 0 {
        s
    } else {
        let (r, changed) = subst_pass(s, props);
        if !changed {
            r
        } else {
            substituted(r, props, (rounds - 1) as nat)
        }
    }
}

/// A pass that reports no change leaves the text as it is, and the text
/// holds the placeholder of no property key.
pub proof fn law_unchanged_pass_finds_no_placeholder(s: Seq<char>, props: Seq<(Seq<char>, Seq<char>)>)
    ensures
        !subst_pass(s, props).1 ==> subst_pass(s, props).0 == s && forall|i: int|
            0 <= i < props.len() ==> !crate::text::contains_seq(s, placeholder(#[trigger] props[i].0)),
    decreases props.len(),
{
    if props.len() > 0 {
        law_unchanged_pass_finds_no_placeholder(s, props.drop_last());
        if !subst_pass(s, props).1 {
            assert forall|i: int| 0 <= i < props.len() implies !crate::text::contains_seq(
                s,
                placeholder(#[trigger] props[i].0),
            ) by {
                if i < props.len() - 1 {
                    assert(props.drop_last()[i] == props[i]);
                }
            }
        }
    }
}

/// Substitution rounds compose: `m + n` rounds are `m` rounds followed by
/// `n` more on their result.
pub proof fn law_substitution_rounds_compose(
    s: Seq<char>,
    props: Seq<(Seq<char>, Seq<char>)>,
    m: nat,
    n: nat,
)
    ensures
        substituted(s, props, m + n) == substituted(substituted(s, props, m), props, n),
    decreases m,
{
    if m > 0 {
        let (r, changed) = subst_pass(s, props);
        if !changed {
            law_unchanged_pass_finds_no_placeholder(s, props);
        } else {
            law_substitution_rounds_compose(r, props, (m - 1) as nat, n);
            assert((m + n - 1) as nat == ((m - 1) as nat + n) as nat);
        }
    }
}

/// When substitution settles before its last round (a round finds nothing
/// to replace), the result is what it had reached then and holds the
/// placeholder of no property key.
pub proof fn law_substitution_settles(s: Seq<char>, props: Seq<(Seq<char>, Seq<char>)>, j: nat, n: nat)
    requires
        j < n,
        !subst_pass(substituted(s, props, j), props).1,
    ensures
        substituted(s, props, n) == substituted(s, props, j),
        forall|i: int|
            0 <= i < props.len() ==> !crate::text::contains_seq(
                substituted(s, props, n),
                placeholder(#[trigger] props[i].0),
            ),
{
    law_substitution_rounds_compose(s, props, j, (n - j) as nat);
    assert((j + (n - j) as nat) as nat == n);
    law_unchanged_pass_finds_no_placeholder(substituted(s, props, j), props);
}

fn placeholder_chars(key: &str) -> (r: Vec<char>)
    ensures
        r@ == placeholder(key@),
        r@.len() > 0,
{
    let mut out = chars_of("${");
    let k = chars_of(key);
    append_chars(&mut out, k.as_slice());
    let close = chars_of("}");
    append_chars(&mut out, close.as_slice());
    assert(close@.len() == 1) by {
        reveal_strlit("}");
    }
    out
}

fn substitute_pass(s: &Vec<char>, props: &Vec<(String, String)>) -> (r: (Vec<char>, bool))
    ensures
        (r.0@, r.1) == subst_pass(s@, prop_views(props@)),
{
    let ghost pv = prop_views(props@);
    let mut result: Vec<char> = slice_chars(s.as_slice(), 0, s.len());
    let mut changed = false;
    let mut i: usize = 0;
    assert(result@ =~= s@);
    assert(pv.take(0) =~= Seq::<(Seq<char>, Seq<char>)>::empty());
    while i < props.len()
        invariant
            pv == prop_views(props@),
            i <= props.len(),
            (result@, changed) == subst_pass(s@, pv.take(i as int)),
        decreases props.len() - i,
    {
        proof {
            assert(pv.take(i + 1).drop_last() =~= pv.take(i as int));
            assert(pv.take(i + 1).last() == (props@[i as int].0@, props@[i as int].1@));
        }
        let pattern = placeholder_chars(props[i].0.as_str());
        if crate::text::contains(result.as_slice(), pattern.as_slice()) {
            let value = chars_of(props[i].1.as_str());
            result = replace_seq(result.as_slice(), pattern.as_slice(), value.as_slice());
            changed = true;
        }
        i += 1;
    }
    assert(pv.take(props.len() as int) =~= pv);
    (result, changed)
}

/// Replaces `${key}` placeholders by property values, repeating up to ten
/// passes so that chained properties resolve.
pub fn substitute(s: &str, props: &Vec<(String, String)>) -> (r: String)
    ensures
        r@ == substituted(s@, prop_views(props@), 10),
{
    let mut cur = chars_of(s);
    let mut round: usize = 0;
    while round < 10
        invariant
            round <= 10,
            substituted(s@, prop_views(props@), 10) == substituted(
                cur@,
                prop_views(props@),
                (10 - round) as nat,
            ),
        decreases 10 - round,
    {
        let (next, changed) = substitute_pass(&cur, props);
        if !changed {
            return string_of(next.as_slice());
        }
        cur = next;
        round += 1;
    }
    string_of(cur.as_slice())
}


// ─── Parent inheritance ──────────────────────────────────────────────────────

/// Managed dependencies after adding those of `theirs` whose module `mine`
/// does not manage yet.
pub open spec fn merge_managed(mine: Seq<DepView>, theirs: Seq<DepView>) -> Seq<DepView>
    decreases theirs.len(),
{
    if theirs.len() == 0 {
        mine
    } else {
        let acc = merge_managed(mine, theirs.drop_last());
        if exists|i: int| 0 <= i < acc.len() && acc[i].module == theirs.last().module {
            acc
        } else {
            acc.push(theirs.last())
        }
    }
}

/// Properties after adding those of `theirs` that `mine` does not set.
pub open spec fn merge_props(
    mine: Seq<(Seq<char>, Seq<char>)>,
    theirs: Seq<(Seq<char>, Seq<char>)>,
) -> Seq<(Seq<char>, Seq<char>)>
    decreases theirs.len(),
{
    if theirs.len() == 0 {
        mine
    } else {
        let acc = merge_props(mine, theirs.drop_last());
        prop_default(acc, theirs.last().0, theirs.last().1)
    }
}

fn manages(mgmt: &Vec<Dependency>, m: &Module) -> (r: bool)
    ensures
        r == exists|i: int| 0 <= i < mgmt.len() && (#[trigger] dep_views(mgmt@)[i]).module == m@,
{
    let mut i: usize = 0;
    while i < mgmt.len()
        invariant
            i <= mgmt.len(),
            forall|j: int| 0 <= j < i ==> (#[trigger] dep_views(mgmt@)[j]).module != m@,
        decreases mgmt.len() - i,
    {
        if mgmt[i].module.same(m) {
            assert(dep_views(mgmt@)[i as int].module == m@);
            return true;
        }
        i += 1;
    }
    false
}

/// Adds to `mine` the managed dependencies of `theirs` for modules it does
/// not manage yet.
pub fn merge_managed_deps(mine: &mut Vec<Dependency>, theirs: &Vec<Dependency>)
    ensures
        dep_views(final(mine)@) == merge_managed(dep_views(old(mine)@), dep_views(theirs@)),
{
    let ghost m0 = dep_views(mine@);
    let ghost tv = dep_views(theirs@);
    let mut i: usize = 0;
    assert(tv.take(0) =~= Seq::<DepView>::empty());
    while i < theirs.len()
        invariant
            tv == dep_views(theirs@),
            i <= theirs.len(),
            dep_views(mine@) == merge_managed(m0, tv.take(i as int)),
        decreases theirs.len() - i,
    {
        proof {
            assert(tv.take(i + 1).drop_last() =~= tv.take(i as int));
            assert(tv.take(i + 1).last() == theirs@[i as int]@);
        }
        if !manages(mine, &theirs[i].module) {
            let ghost before = dep_views(mine@);
            mine.push(theirs[i].duplicate());
            assert(dep_views(mine@) =~= before.push(theirs@[i as int]@));
        }
        i += 1;
    }
    assert(tv.take(theirs.len() as int) =~= tv);
}

/// Adds to `mine` the properties of `theirs` that it does not set.
pub fn merge_properties(mine: &mut Vec<(String, String)>, theirs: &Vec<(String, String)>)
    ensures
        prop_views(final(mine)@) == merge_props(prop_views(old(mine)@), prop_views(theirs@)),
{
    let ghost m0 = prop_views(mine@);
    let ghost tv = prop_views(theirs@);
    let mut i: usize = 0;
    assert(tv.take(0) =~= Seq::<(Seq<char>, Seq<char>)>::empty());
    while i < theirs.len()
        invariant
            tv == prop_views(theirs@),
            i <= theirs.len(),
            prop_views(mine@) == merge_props(m0, tv.take(i as int)),
        decreases theirs.len() - i,
    {
        proof {
            assert(tv.take(i + 1).drop_last() =~= tv.take(i as int));
            assert(tv.take(i + 1).last() == (theirs@[i as int].0@, theirs@[i as int].1@));
        }
        default_property(mine, theirs[i].0.as_str(), theirs[i].1.as_str());
        i += 1;
    }
    assert(tv.take(theirs.len() as int) =~= tv);
}

/// A dependency with placeholders in its group, artifact and version
/// substituted.
pub open spec fn substituted_dep(d: DepView, props: Seq<(Seq<char>, Seq<char>)>) -> DepView {
    DepView {
        module: (substituted(d.module.0, props, 10), substituted(d.module.1, props, 10)),
        version: substituted(d.version, props, 10),
        ..d
    }
}

pub(crate) fn substitute_deps(deps: &mut Vec<Dependency>, props: &Vec<(String, String)>)
    ensures
        dep_views(final(deps)@) == dep_views(old(deps)@).map_values(
            |d: DepView| substituted_dep(d, prop_views(props@)),
        ),
{
    let ghost d0 = dep_views(deps@);
    let mut i: usize = 0;
    while i < deps.len()
        invariant
            i <= deps.len(),
            deps.len() == d0.len(),
            forall|j: int|
                0 <= j < i ==> (#[trigger] dep_views(deps@)[j]) == substituted_dep(
                    d0[j],
                    prop_views(props@),
                ),
            forall|j: int| i <= j < deps.len() ==> (#[trigger] dep_views(deps@)[j]) == d0[j],
        decreases deps.len() - i,
    {
        assert(dep_views(deps@)[i as int] == d0[i as int]);
        let mut d = deps[i].duplicate();
        d.module.org = substitute(deps[i].module.org.as_str(), props);
        d.module.name = substitute(deps[i].module.name.as_str(), props);
        d.version = substitute(deps[i].version.as_str(), props);
        let ghost before = deps@;
        let ghost dv = d@;
        assert(dv =~= substituted_dep(d0[i as int], prop_views(props@)));
        deps.set(i, d);
        proof {
            assert forall|j: int| 0 <= j < i + 1 implies (#[trigger] dep_views(deps@)[j])
                == substituted_dep(d0[j], prop_views(props@)) by {
                if j < i {
                    assert(deps@[j] == before[j]);
                    assert(dep_views(before)[j] == substituted_dep(d0[j], prop_views(props@)));
                }
            }
            assert forall|j: int| i + 1 <= j < deps.len() implies (#[trigger] dep_views(deps@)[j])
                == d0[j] by {
                assert(deps@[j] == before[j]);
                assert(dep_views(before)[j] == d0[j]);
            }
        }
        i += 1;
    }
    assert(dep_views(deps@) =~= d0.map_values(|d: DepView| substituted_dep(d, prop_views(props@))));
}

/// The properties that a project sets about itself, added after inheritance:
/// `project.groupId`/`groupId`, `project.version`/`version` and
/// `project.artifactId`/`artifactId`, each when the value is not empty.
pub open spec fn with_intrinsic_props(
    props: Seq<(Seq<char>, Seq<char>)>,
    org: Seq<char>,
    version: Seq<char>,
    name: Seq<char>,
) -> Seq<(Seq<char>, Seq<char>)> {
    let p1 = if org.len() > 0 {
        prop_set(prop_set(props, "project.groupId"@, org), "groupId"@, org)
    } else {
        props
    };
    let p2 = if version.len() > 0 {
        prop_set(prop_set(p1, "project.version"@, version), "version"@, version)
    } else {
        p1
    };
    if name.len() > 0 {
        prop_set(prop_set(p2, "project.artifactId"@, name), "artifactId"@, name)
    } else {
        p2
    }
}

/// Sets a project's intrinsic properties and substitutes properties in its
/// dependencies and managed dependencies.
pub fn finish_project(p: &mut Project)
    ensures
        final(p).module@ == old(p).module@,
        final(p).version@ == old(p).version@,
        final(p).packaging@ == old(p).packaging@,
        final(p).parent == old(p).parent,
        final(p).relocation == old(p).relocation,
        prop_views(final(p).properties@) == with_intrinsic_props(
            prop_views(old(p).properties@),
            old(p).module.org@,
            old(p).version@,
            old(p).module.name@,
        ),
        dep_views(final(p).dependencies@) == dep_views(old(p).dependencies@).map_values(
            |d: DepView| substituted_dep(d, prop_views(final(p).properties@)),
        ),
        dep_views(final(p).dependency_management@) == dep_views(
            old(p).dependency_management@,
        ).map_values(|d: DepView| substituted_dep(d, prop_views(final(p).properties@))),
{
    if !p.module.org.as_str().is_empty() {
        let org = p.module.org.clone();
        set_property(&mut p.properties, "project.groupId", org.as_str());
        set_property(&mut p.properties, "groupId", org.as_str());
    }
    if !p.version.as_str().is_empty() {
        let v = p.version.clone();
        set_property(&mut p.properties, "project.version", v.as_str());
        set_property(&mut p.properties, "version", v.as_str());
    }
    if !p.module.name.as_str().is_empty() {
        let n = p.module.name.clone();
        set_property(&mut p.properties, "project.artifactId", n.as_str());
        set_property(&mut p.properties, "artifactId", n.as_str());
    }
    substitute_deps(&mut p.dependencies, &p.properties);
    substitute_deps(&mut p.dependency_management, &p.properties);
}

/// Makes a project inherit from its resolved parent: an empty group id or
/// version is taken from the parent, the parent's properties fill unset ones,
/// and its managed dependencies fill modules the project does not manage.
pub fn inherit_from_parent(p: &mut Project, parent: &Project)
    ensures
        final(p).module.org@ == (if old(p).module.org@.len() == 0 {
            parent.module.org@
        } else {
            old(p).module.org@
        }),
        final(p).module.name@ == old(p).module.name@,
        final(p).version@ == (if old(p).version@.len() == 0 {
            parent.version@
        } else {
            old(p).version@
        }),
        final(p).packaging@ == old(p).packaging@,
        final(p).parent == old(p).parent,
        final(p).relocation == old(p).relocation,
        final(p).dependencies == old(p).dependencies,
        prop_views(final(p).properties@) == merge_props(
            prop_views(old(p).properties@),
            prop_views(parent.properties@),
        ),
        dep_views(final(p).dependency_management@) == merge_managed(
            dep_views(old(p).dependency_management@),
            dep_views(parent.dependency_management@),
        ),
{
    if p.module.org.as_str().is_empty() {
        p.module.org = parent.module.org.clone();
    }
    if p.version.as_str().is_empty() {
        p.version = parent.version.clone();
    }
    merge_properties(&mut p.properties, &parent.properties);
    merge_managed_deps(&mut p.dependency_management, &parent.dependency_management);
}

fn copy_deps(v: &Vec<Dependency>) -> (r: Vec<Dependency>)
    ensures
        dep_views(r@) == dep_views(v@),
{
    let mut r: Vec<Dependency> = Vec::new();
    let mut i: usize = 0;
    while i < v.len()
        invariant
            i <= v.len(),
            dep_views(r@) == dep_views(v@).take(i as int),
        decreases v.len() - i,
    {
        let ghost before = dep_views(r@);
        r.push(v[i].duplicate());
        assert(dep_views(r@) =~= before.push(v@[i as int]@));
        assert(dep_views(v@).take(i + 1) =~= dep_views(v@).take(i as int).push(v@[i as int]@));
        i += 1;
    }
    assert(dep_views(v@).take(v.len() as int) =~= dep_views(v@));
    r
}

fn copy_props(v: &Vec<(String, String)>) -> (r: Vec<(String, String)>)
    ensures
        prop_views(r@) == prop_views(v@),
{
    let mut r: Vec<(String, String)> = Vec::new();
    let mut i: usize = 0;
    while i < v.len()
        invariant
            i <= v.len(),
            prop_views(r@) == prop_views(v@).take(i as int),
        decreases v.len() - i,
    {
        let ghost before = prop_views(r@);
        r.push((v[i].0.clone(), v[i].1.clone()));
        assert(prop_views(r@) =~= before.push((v@[i as int].0@, v@[i as int].1@)));
        assert(prop_views(v@).take(i + 1) =~= prop_views(v@).take(i as int).push(
            (v@[i as int].0@, v@[i as int].1@),
        ));
        i += 1;
    }
    assert(prop_views(v@).take(v.len() as int) =~= prop_views(v@));
    r
}

/// What a project says.
pub struct ProjectView {
    pub module: (Seq<char>, Seq<char>),
    pub version: Seq<char>,
    pub packaging: Seq<char>,
    pub parent: Option<((Seq<char>, Seq<char>), Seq<char>)>,
    pub dependencies: Seq<DepView>,
    pub dependency_management: Seq<DepView>,
    pub properties: Seq<(Seq<char>, Seq<char>)>,
    pub relocation: Option<DepView>,
}

impl View for Project {
    type V = ProjectView;

    open spec fn view(&self) -> ProjectView {
        ProjectView {
            module: self.module@,
            version: self.version@,
            packaging: self.packaging@,
            parent: match self.parent {
                Some((m, v)) => Some((m@, v@)),
                None => None,
            },
            dependencies: dep_views(self.dependencies@),
            dependency_management: dep_views(self.dependency_management@),
            properties: prop_views(self.properties@),
            relocation: match self.relocation {
                Some(d) => Some(d@),
                None => None,
            },
        }
    }
}

impl Project {
    /// A copy of this project.
    pub fn duplicate(&self) -> (r: Project)
        ensures
            r@ == self@,
    {
        Project {
            module: self.module.duplicate(),
            version: self.version.clone(),
            packaging: self.packaging.clone(),
            parent: match &self.parent {
                Some((m, v)) => Some((m.duplicate(), v.clone())),
                None => None,
            },
            dependencies: copy_deps(&self.dependencies),
            dependency_management: copy_deps(&self.dependency_management),
            properties: copy_props(&self.properties),
            relocation: match &self.relocation {
                Some(d) => Some(d.duplicate()),
                None => None,
            },
        }
    }
}

} // verus!
