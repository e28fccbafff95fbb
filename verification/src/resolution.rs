//! The dependency-resolution fixpoint.
//!
//! Resolution needs POMs and metadata from remote repositories. The library
//! resolves against what is already known and, when it needs something more,
//! names that one query; the caller fetches it, adds it to what is known and
//! asks again. Each run repeats the same decisions up to the first missing
//! answer, so the queries come in the order in which the resolution needs them.
use vstd::prelude::*;
use crate::resolver::{
    coordinate_dep, copy_opt, dep_views, extract_dependencies, DepView, Dependency, finish_project, inherit_from_parent,
    merge_managed, merge_managed_deps, merge_props, parse_coordinate, substituted_dep, with_intrinsic_props, MavenMetadata,
    Module, Project, ProjectView, ResolveError, Scope,
};
use crate::text::{chars_lt, lemma_seq_lt_irreflexive, lemma_seq_lt_total, lemma_seq_lt_transitive, seq_lt, str_eq};
use crate::version::{is_version_range, pick_higher_version, select_version_from_range};

verus! {

/// A module resolved at a version, with an optional classifier.
#[derive(Debug, Clone)]
pub struct ResolvedArtifact {
    pub module: Module,
    pub version: String,
    pub classifier: Option<String>,
}

/// A fetched POM, or why it could not be fetched.
#[derive(Debug)]
pub struct PomEntry {
    pub module: Module,
    pub version: String,
    pub pom: Result<Project, String>,
}

/// Fetched metadata, or why it could not be fetched.
#[derive(Debug)]
pub struct MetadataEntry {
    pub module: Module,
    pub metadata: Result<MavenMetadata, String>,
}

/// What the caller has fetched so far.
#[derive(Debug)]
pub struct Knowledge {
    pub poms: Vec<PomEntry>,
    pub metadata: Vec<MetadataEntry>,
}

/// Something resolution needs to know next.
#[derive(Debug, Clone)]
pub enum Query {
    /// The POM of a module at a version.
    Pom(Module, String),
    /// The metadata of a module.
    Metadata(Module),
}

/// The outcome of a resolution run.
#[derive(Debug)]
pub enum ResolveStep {
    /// Resolution finished.
    Done(Result<Vec<ResolvedArtifact>, ResolveError>),
    /// Resolution needs this answer first.
    Need(Query),
}

/// The POM of `m` at `v` is known.
pub open spec fn pom_known(k: Knowledge, m: (Seq<char>, Seq<char>), v: Seq<char>) -> bool {
    exists|i: int|
        0 <= i < k.poms.len() && (#[trigger] k.poms@[i]).module@ == m && k.poms@[i].version@ == v
}

/// The metadata of `m` is known.
pub open spec fn metadata_known(k: Knowledge, m: (Seq<char>, Seq<char>)) -> bool {
    exists|i: int| 0 <= i < k.metadata.len() && (#[trigger] k.metadata@[i]).module@ == m
}

/// The answer to `q` is not known yet.
pub open spec fn unknown(k: Knowledge, q: Query) -> bool {
    match q {
        Query::Pom(m, v) => !pom_known(k, m@, v@),
        Query::Metadata(m) => !metadata_known(k, m@),
    }
}

/// Why a run stops early.
pub enum Stop {
    Need(Query),
    Fail(ResolveError),
}

/// A run stops for a missing answer only when that answer is unknown.
pub open spec fn stop_sound<T>(k: Knowledge, r: Result<T, Stop>) -> bool {
    match r {
        Err(Stop::Need(q)) => unknown(k, q),
        _ => true,
    }
}

/// The POM of `m` at `v`: the first entry for them decides; a POM that could
/// not be fetched fails the resolution, and without an entry the POM is asked
/// for.
fn lookup_pom(know: &Knowledge, m: &Module, v: &str) -> (r: Result<Project, Stop>)
    ensures
        stop_sound(*know, r),
        match r {
            Ok(p) => exists|i: int|
                #[trigger] first_pom_at(*know, m@, v@, i) && (know.poms@[i].pom matches Ok(q) && p@
                    == q@),
            Err(Stop::Fail(e)) => exists|i: int|
                #[trigger] first_pom_at(*know, m@, v@, i) && (know.poms@[i].pom matches Err(msg) && e
                    == ResolveError::Fetch(msg)),
            Err(Stop::Need(_)) => !pom_known(*know, m@, v@),
        },
        r matches Err(Stop::Need(q)) ==> (q matches Query::Pom(qm, qv) && qm@ == m@ && qv@ == v@),
        !pom_known(*know, m@, v@) ==> r matches Err(Stop::Need(_)),
{
    let mut i: usize = 0;
    while i < know.poms.len()
        invariant
            i <= know.poms.len(),
            forall|j: int|
                0 <= j < i ==> !((#[trigger] know.poms@[j]).module@ == m@ && know.poms@[j].version@
                    == v@),
        decreases know.poms.len() - i,
    {
        let e = &know.poms[i];
        if e.module.same(m) && str_eq(e.version.as_str(), v) {
            assert(first_pom_at(*know, m@, v@, i as int));
            return match &e.pom {
                Ok(p) => Ok(p.duplicate()),
                Err(msg) => Err(Stop::Fail(ResolveError::Fetch(msg.clone()))),
            };
        }
        i += 1;
    }
    Err(Stop::Need(Query::Pom(m.duplicate(), v.to_owned())))
}

/// Entry `i` is the first fetched POM of `m` at `v`.
pub open spec fn first_pom_at(k: Knowledge, m: (Seq<char>, Seq<char>), v: Seq<char>, i: int) -> bool {
    &&& 0 <= i < k.poms.len()
    &&& k.poms@[i].module@ == m && k.poms@[i].version@ == v
    &&& forall|j: int|
        0 <= j < i ==> !((#[trigger] k.poms@[j]).module@ == m && k.poms@[j].version@ == v)
}

/// Entry `i` is the first fetched metadata of `m`.
pub open spec fn first_metadata_at(k: Knowledge, m: (Seq<char>, Seq<char>), i: int) -> bool {
    &&& 0 <= i < k.metadata.len()
    &&& k.metadata@[i].module@ == m
    &&& forall|j: int| 0 <= j < i ==> (#[trigger] k.metadata@[j]).module@ != m
}

/// Like `lookup_pom`, but a POM that could not be fetched is `None`: the
/// first entry for `m` at `v` decides, and without one that POM is asked for.
fn lookup_pom_soft(know: &Knowledge, m: &Module, v: &str) -> (r: Result<Option<Project>, Stop>)
    ensures
        stop_sound(*know, r),
        match r {
            Ok(Some(p)) => exists|i: int|
                #[trigger] first_pom_at(*know, m@, v@, i) && (know.poms@[i].pom matches Ok(q) && p@
                    == q@),
            Ok(None) => exists|i: int|
                #[trigger] first_pom_at(*know, m@, v@, i) && know.poms@[i].pom is Err,
            Err(Stop::Need(q)) => !pom_known(*know, m@, v@) && (q matches Query::Pom(qm, qv) && qm@
                == m@ && qv@ == v@),
            Err(Stop::Fail(_)) => false,
        },
{
    let mut i: usize = 0;
    while i < know.poms.len()
        invariant
            i <= know.poms.len(),
            forall|j: int|
                0 <= j < i ==> !((#[trigger] know.poms@[j]).module@ == m@ && know.poms@[j].version@
                    == v@),
        decreases know.poms.len() - i,
    {
        let e = &know.poms[i];
        if e.module.same(m) && str_eq(e.version.as_str(), v) {
            assert(first_pom_at(*know, m@, v@, i as int));
            return match &e.pom {
                Ok(p) => Ok(Some(p.duplicate())),
                Err(_) => Ok(None),
            };
        }
        i += 1;
    }
    Err(Stop::Need(Query::Pom(m.duplicate(), v.to_owned())))
}

/// The versions that the first fetched metadata of `m` lists; metadata that
/// could not be fetched fails the resolution, and without any the metadata is
/// asked for.
fn lookup_metadata(know: &Knowledge, m: &Module) -> (r: Result<Vec<String>, Stop>)
    ensures
        stop_sound(*know, r),
        match r {
            Ok(vs) => exists|i: int|
                #[trigger] first_metadata_at(*know, m@, i) && (know.metadata@[i].metadata matches Ok(
                    md,
                ) && vs@ == md.versions@),
            Err(Stop::Fail(e)) => exists|i: int|
                #[trigger] first_metadata_at(*know, m@, i) && (know.metadata@[i].metadata matches Err(
                    msg,
                ) && e == ResolveError::Fetch(msg)),
            Err(Stop::Need(q)) => !metadata_known(*know, m@) && (q matches Query::Metadata(qm) && qm@
                == m@),
        },
{
    let mut i: usize = 0;
    while i < know.metadata.len()
        invariant
            i <= know.metadata.len(),
            forall|j: int| 0 <= j < i ==> (#[trigger] know.metadata@[j]).module@ != m@,
        decreases know.metadata.len() - i,
    {
        let e = &know.metadata[i];
        if e.module.same(m) {
            assert(first_metadata_at(*know, m@, i as int));
            return match &e.metadata {
                Ok(md) => {
                    let vs = md.versions.clone();
                    assert(vs@ =~= md.versions@);
                    Ok(vs)
                },
                Err(msg) => Err(Stop::Fail(ResolveError::Fetch(msg.clone()))),
            };
        }
        i += 1;
    }
    Err(Stop::Need(Query::Metadata(m.duplicate())))
}

/// Every POM and every metadata that is known could be fetched.
pub open spec fn fetches_ok(k: Knowledge) -> bool {
    &&& forall|i: int| 0 <= i < k.poms.len() ==> (#[trigger] k.poms@[i]).pom is Ok
    &&& forall|i: int| 0 <= i < k.metadata.len() ==> (#[trigger] k.metadata@[i]).metadata is Ok
}

/// Every known POM resolves within the limits of a run that starts a chain
/// from it: no parent met twice on a chain, no chain deeper than the limit,
/// no more nested resolutions than the import fuel.
pub open spec fn chains_within(k: Knowledge) -> bool {
    forall|i: int|
        0 <= i < k.poms.len() ==> ((#[trigger] k.poms@[i]).pom matches Ok(q) ==> exists|
            d: Derivation,
            p: ProjectView,
        |
            #![trigger derived(k, q@, p, d)]
            derived(k, q@, p, d) && within(k, q@, d, IMPORT_FUEL as int, 0, Seq::empty()))
}

/// The version a declared version denotes: a range picks the highest
/// published version within it; anything else is taken as it is.
fn version_spec(m: &Module, version: &str, know: &Knowledge) -> (r: Result<String, Stop>)
    ensures
        stop_sound(*know, r),
        !crate::version::is_range_spec(version@) ==> (r matches Ok(v) && v@ == version@),
        r matches Err(Stop::Fail(e)) ==> (e is NoMatchingVersion || !fetches_ok(*know)),
{
    if is_version_range(version) {
        let lm = lookup_metadata(know, m);
        proof {
            if lm matches Err(Stop::Fail(_)) {
                let i = choose|i: int| #[trigger] first_metadata_at(*know, m@, i) && (know.metadata@[i].metadata is Err);
                assert(know.metadata@[i].metadata is Err);
            }
        }
        let versions = lm?;
        match select_version_from_range(version, versions.as_slice()) {
            Some(v) => Ok(v),
            None => Err(Stop::Fail(ResolveError::NoMatchingVersion(m.duplicate(), version.to_owned()))),
        }
    } else {
        Ok(version.to_owned())
    }
}

// ─── Caches ─────────────────────────────────────────────────────────────────

type Cache = Vec<(Module, String, Project)>;

/// Entry `i` of a cache holds the project of `m` at `v`.
spec fn cache_key_at(c: Seq<(Module, String, Project)>, m: (Seq<char>, Seq<char>), v: Seq<char>, i: int) -> bool {
    0 <= i < c.len() && c[i].0@ == m && c[i].1@ == v
}

/// Entry `i` of a cache is the first for `m` at `v`.
spec fn cache_first_at(c: Seq<(Module, String, Project)>, m: (Seq<char>, Seq<char>), v: Seq<char>, i: int) -> bool {
    cache_key_at(c, m, v, i) && forall|j: int| 0 <= j < i ==> !#[trigger] cache_key_at(c, m, v, j)
}

/// What a cache holds, entry by entry.
spec fn cache_views(c: Seq<(Module, String, Project)>) -> Seq<((Seq<char>, Seq<char>), Seq<char>, crate::resolver::ProjectView)> {
    c.map_values(|e: (Module, String, Project)| (e.0@, e.1@, e.2@))
}

/// The cache has an entry for `m` at `v`.
spec fn cached(c: Seq<(Module, String, Project)>, m: (Seq<char>, Seq<char>), v: Seq<char>) -> bool {
    exists|i: int| #[trigger] cache_key_at(c, m, v, i)
}

/// Every module and version with an entry in `a` has one in `b`.
spec fn keys_kept(a: Seq<(Module, String, Project)>, b: Seq<(Module, String, Project)>) -> bool {
    forall|m: (Seq<char>, Seq<char>), v: Seq<char>| #[trigger] cached(a, m, v) ==> cached(b, m, v)
}

/// The first entry for `m` at `v`, if there is one.
fn cache_find(cache: &Cache, m: &Module, v: &str) -> (r: Option<usize>)
    ensures
        match r {
            Some(i) => cache_first_at(cache@, m@, v@, i as int),
            None => forall|j: int| !#[trigger] cache_key_at(cache@, m@, v@, j),
        },
{
    let mut i: usize = 0;
    while i < cache.len()
        invariant
            i <= cache.len(),
            forall|j: int| 0 <= j < i ==> !#[trigger] cache_key_at(cache@, m@, v@, j),
        decreases cache.len() - i,
    {
        if cache[i].0.same(m) && str_eq(cache[i].1.as_str(), v) {
            return Some(i);
        }
        i += 1;
    }
    None
}

/// Records `p` as the project of `m` at `v`: in place of the first entry for
/// them, else at the end.
fn cache_put(cache: &mut Cache, m: &Module, v: &str, p: Project)
    ensures
        (exists|i: int|
            #[trigger] cache_first_at(old(cache)@, m@, v@, i) && cache_views(final(cache)@)
                == cache_views(old(cache)@).update(i, (m@, v@, p@))) || ((forall|j: int|
            !#[trigger] cache_key_at(old(cache)@, m@, v@, j)) && cache_views(final(cache)@)
            == cache_views(old(cache)@).push((m@, v@, p@))),
        keys_kept(old(cache)@, final(cache)@),
        cached(final(cache)@, m@, v@),
{
    let ghost before = cache@;
    match cache_find(cache, m, v) {
        Some(i) => {
            cache.set(i, (m.duplicate(), v.to_owned(), p));
            assert(cache_views(cache@) =~= cache_views(before).update(i as int, (m@, v@, p@)));
            assert(cache_key_at(cache@, m@, v@, i as int));
            assert forall|m2: (Seq<char>, Seq<char>), v2: Seq<char>| #[trigger] cached(before, m2, v2) implies cached(cache@, m2, v2) by {
                let j = choose|j: int| #[trigger] cache_key_at(before, m2, v2, j);
                assert(cache_key_at(cache@, m2, v2, j));
            }
        },
        None => {
            cache.push((m.duplicate(), v.to_owned(), p));
            assert(cache_views(cache@) =~= cache_views(before).push((m@, v@, p@)));
            assert(cache_key_at(cache@, m@, v@, before.len() as int));
            assert forall|m2: (Seq<char>, Seq<char>), v2: Seq<char>| #[trigger] cached(before, m2, v2) implies cached(cache@, m2, v2) by {
                let j = choose|j: int| #[trigger] cache_key_at(before, m2, v2, j);
                assert(cache_key_at(cache@, m2, v2, j));
            }
        },
    }
}

/// Whether `m` at `v` is listed.
fn seen_contains(seen: &Vec<(Module, String)>, m: &Module, v: &str) -> (r: bool)
    ensures
        r == exists|j: int| 0 <= j < seen.len() && (#[trigger] seen@[j]).0@ == m@ && seen@[j].1@ == v@,
{
    let mut i: usize = 0;
    while i < seen.len()
        invariant
            i <= seen.len(),
            forall|j: int| 0 <= j < i ==> !((#[trigger] seen@[j]).0@ == m@ && seen@[j].1@ == v@),
        decreases seen.len() - i,
    {
        if seen[i].0.same(m) && str_eq(seen[i].1.as_str(), v) {
            return true;
        }
        i += 1;
    }
    false
}

/// The longest parent chain that is followed.
pub const MAX_PARENT_DEPTH: u64 = 50;

/// A project after inheriting from its resolved parent, where it has one: an
/// empty group id or version is the parent's, and the parent's properties and
/// managed dependencies fill those the project does not set.
pub open spec fn inherited(p: ProjectView, parent: Option<ProjectView>) -> ProjectView {
    match parent {
        None => p,
        Some(q) => ProjectView {
            module: (if p.module.0.len() == 0 { q.module.0 } else { p.module.0 }, p.module.1),
            version: if p.version.len() == 0 { q.version } else { p.version },
            packaging: p.packaging,
            parent: p.parent,
            dependencies: p.dependencies,
            dependency_management: merge_managed(p.dependency_management, q.dependency_management),
            properties: merge_props(p.properties, q.properties),
            relocation: p.relocation,
        },
    }
}

/// Managed dependencies after merging those of each imported BOM in turn.
pub open spec fn merge_boms(mine: Seq<DepView>, boms: Seq<Seq<DepView>>) -> Seq<DepView>
    decreases boms.len(),
{
    if boms.len() == 0 {
        mine
    } else {
        merge_managed(merge_boms(mine, boms.drop_last()), boms.last())
    }
}

/// A project with other managed dependencies.
pub open spec fn with_managed_deps(p: ProjectView, mgmt: Seq<DepView>) -> ProjectView {
    ProjectView {
        module: p.module,
        version: p.version,
        packaging: p.packaging,
        parent: p.parent,
        dependencies: p.dependencies,
        dependency_management: mgmt,
        properties: p.properties,
        relocation: p.relocation,
    }
}

/// A project once its intrinsic properties are set and substituted in its
/// dependencies and managed dependencies.
pub open spec fn finished(p: ProjectView) -> ProjectView {
    let props = with_intrinsic_props(p.properties, p.module.0, p.version, p.module.1);
    ProjectView {
        module: p.module,
        version: p.version,
        packaging: p.packaging,
        parent: p.parent,
        dependencies: p.dependencies.map_values(|d: DepView| substituted_dep(d, props)),
        dependency_management: p.dependency_management.map_values(
            |d: DepView| substituted_dep(d, props),
        ),
        properties: props,
        relocation: p.relocation,
    }
}

/// What a project resolves to, given its resolved parent (where it has one)
/// and the managed dependencies of the BOMs it imports that could be fetched.
pub open spec fn chain_resolved(p: ProjectView, parent: Option<ProjectView>, boms: Seq<Seq<DepView>>) -> ProjectView {
    let q = inherited(p, parent);
    finished(with_managed_deps(q, merge_boms(q.dependency_management, boms)))
}

/// No managed dependency is `import`-scoped.
pub open spec fn imports_nothing(mgmt: Seq<DepView>) -> bool {
    forall|i: int| 0 <= i < mgmt.len() ==> (#[trigger] mgmt[i]).scope != Scope::Import
}

/// `m` at `v` is listed.
pub open spec fn listed(seen: Seq<(Module, String)>, m: (Seq<char>, Seq<char>), v: Seq<char>) -> bool {
    exists|j: int| 0 <= j < seen.len() && (#[trigger] seen[j]).0@ == m && seen[j].1@ == v
}

/// The first fetched POM of `m` at `v`, where it could be fetched.
pub open spec fn first_pom(k: Knowledge, m: (Seq<char>, Seq<char>), v: Seq<char>) -> Option<ProjectView> {
    if exists|i: int| #[trigger] first_pom_at(k, m, v, i) && k.poms@[i].pom is Ok {
        let i = choose|i: int| #[trigger] first_pom_at(k, m, v, i) && k.poms@[i].pom is Ok;
        Some(k.poms@[i].pom->Ok_0@)
    } else {
        None
    }
}

/// The first fetched POM of `m` at `v` could not be fetched.
pub open spec fn pom_failed(k: Knowledge, m: (Seq<char>, Seq<char>), v: Seq<char>) -> bool {
    exists|i: int| #[trigger] first_pom_at(k, m, v, i) && k.poms@[i].pom is Err
}

/// How a project was resolved: its parent's resolved project and how that
/// was resolved, where it has a parent; and for each imported BOM, none where
/// its POM could not be fetched, else the BOM's resolved project and how that
/// was resolved.
pub enum Derivation {
    Node(Option<(ProjectView, Box<Derivation>)>, Seq<Option<(ProjectView, Derivation)>>),
}

/// The managed dependencies of the fetched BOMs, in order.
pub open spec fn boms_of(bds: Seq<Option<(ProjectView, Derivation)>>) -> Seq<Seq<DepView>>
    decreases bds.len(),
{
    if bds.len() == 0 {
        Seq::empty()
    } else {
        let rest = boms_of(bds.drop_last());
        match bds.last() {
            Some((bp, _)) => rest.push(bp.dependency_management),
            None => rest,
        }
    }
}

/// The project `q` of a POM resolves to `p` as `d` shows: its parent is the
/// parent's first fetched POM resolved in turn, each imported BOM is skipped
/// exactly where its POM could not be fetched and is otherwise its first
/// fetched POM resolved in turn, and `p` is `q` inheriting from the parent
/// and merging the BOMs' managed dependencies.
pub open spec fn derived(k: Knowledge, q: ProjectView, p: ProjectView, d: Derivation) -> bool
    decreases d,
{
    match d {
        Derivation::Node(pd, bds) => {
            let parent = match pd {
                Some((pp, _)) => Some(pp),
                None => None,
            };
            &&& match q.parent {
                Some((pm, pv)) => match pd {
                    Some((pp, sub)) => first_pom(k, pm, pv) is Some && derived(
                        k,
                        first_pom(k, pm, pv)->Some_0,
                        pp,
                        *sub,
                    ),
                    None => false,
                },
                None => pd is None,
            }
            &&& boms_derived(k, imports_of(inherited(q, parent).dependency_management), bds)
            &&& p == chain_resolved(q, parent, boms_of(bds))
        },
    }
}

/// Each imported BOM, in order, is skipped exactly where its POM could not
/// be fetched, and is otherwise its first fetched POM resolved as shown.
pub open spec fn boms_derived(k: Knowledge, imports: Seq<DepView>, bds: Seq<Option<(ProjectView, Derivation)>>) -> bool
    decreases bds,
{
    if imports.len() == 0 || bds.len() == 0 {
        imports.len() == 0 && bds.len() == 0
    } else {
        let dep = imports[imports.len() - 1];
        &&& boms_derived(k, imports.subrange(0, imports.len() - 1), bds.subrange(0, bds.len() - 1))
        &&& match bds[bds.len() - 1] {
            Some((bp, sub)) => first_pom(k, dep.module, dep.version) is Some && derived(
                k,
                first_pom(k, dep.module, dep.version)->Some_0,
                bp,
                sub,
            ),
            None => pom_failed(k, dep.module, dep.version),
        }
    }
}

/// The parents followed so far, as module and version texts.
pub open spec fn seen_views(seen: Seq<(Module, String)>) -> Seq<((Seq<char>, Seq<char>), Seq<char>)> {
    seen.map_values(|e: (Module, String)| (e.0@, e.1@))
}

/// The resolution that `d` shows stays within what a run can reach with
/// `fuel` levels of recursion left, at parent depth `depth`, having followed
/// the parents `seen`: each step has fuel, no chain of parents goes past the
/// depth limit, and no parent is met again on its own chain (an imported BOM
/// starts a chain of its own).
pub open spec fn within(
    k: Knowledge,
    q: ProjectView,
    d: Derivation,
    fuel: int,
    depth: int,
    seen: Seq<((Seq<char>, Seq<char>), Seq<char>)>,
) -> bool
    decreases d,
{
    match d {
        Derivation::Node(pd, bds) => {
            let parent = match pd {
                Some((pp, _)) => Some(pp),
                None => None,
            };
            &&& fuel > 0
            &&& depth <= MAX_PARENT_DEPTH
            &&& match q.parent {
                Some((pm, pv)) => !seen.contains((pm, pv)) && match pd {
                    Some((_, sub)) => within(
                        k,
                        first_pom(k, pm, pv)->Some_0,
                        *sub,
                        fuel - 1,
                        depth + 1,
                        seen.push((pm, pv)),
                    ),
                    None => true,
                },
                None => true,
            }
            &&& boms_within(k, imports_of(inherited(q, parent).dependency_management), bds, fuel - 1)
        },
    }
}

/// Each imported BOM that could be fetched is resolved within `fuel`, on a
/// chain of its own.
pub open spec fn boms_within(k: Knowledge, imports: Seq<DepView>, bds: Seq<Option<(ProjectView, Derivation)>>, fuel: int) -> bool
    decreases bds,
{
    if imports.len() == 0 || bds.len() == 0 {
        true
    } else {
        let dep = imports[imports.len() - 1];
        &&& boms_within(k, imports.subrange(0, imports.len() - 1), bds.subrange(0, bds.len() - 1), fuel)
        &&& match bds[bds.len() - 1] {
            Some((_, sub)) => within(k, first_pom(k, dep.module, dep.version)->Some_0, sub, fuel, 0, Seq::empty()),
            None => true,
        }
    }
}

proof fn lemma_boms_len(k: Knowledge, imports: Seq<DepView>, bds: Seq<Option<(ProjectView, Derivation)>>)
    requires
        boms_derived(k, imports, bds),
    ensures
        bds.len() == imports.len(),
    decreases bds.len(),
{
    if imports.len() > 0 && bds.len() > 0 {
        lemma_boms_len(k, imports.subrange(0, imports.len() - 1), bds.subrange(0, bds.len() - 1));
    }
}

/// What the resolution of the `i`-th imported BOM is, as `bds` shows it.
proof fn lemma_bom_at(
    k: Knowledge,
    imports: Seq<DepView>,
    bds: Seq<Option<(ProjectView, Derivation)>>,
    fuel: int,
    i: int,
)
    requires
        boms_derived(k, imports, bds),
        boms_within(k, imports, bds, fuel),
        0 <= i < bds.len(),
    ensures
        i < imports.len(),
        match bds[i] {
            Some((bp, sub)) => first_pom(k, imports[i].module, imports[i].version) is Some && derived(
                k,
                first_pom(k, imports[i].module, imports[i].version)->Some_0,
                bp,
                sub,
            ) && within(k, first_pom(k, imports[i].module, imports[i].version)->Some_0, sub, fuel, 0, Seq::empty()),
            None => pom_failed(k, imports[i].module, imports[i].version),
        },
    decreases bds.len(),
{
    lemma_boms_len(k, imports, bds);
    if i < bds.len() - 1 {
        let im = imports.subrange(0, imports.len() - 1);
        let bm = bds.subrange(0, bds.len() - 1);
        lemma_bom_at(k, im, bm, fuel, i);
        assert(im[i] == imports[i]);
        assert(bm[i] == bds[i]);
    }
}

/// The first fetched POM of `a` names `b` as its parent.
pub open spec fn parent_link(
    k: Knowledge,
    a: ((Seq<char>, Seq<char>), Seq<char>),
    b: ((Seq<char>, Seq<char>), Seq<char>),
) -> bool {
    first_pom(k, a.0, a.1) matches Some(q) && q.parent == Some(b)
}

/// The parent links of `c` close into a cycle.
pub open spec fn parent_cycle(k: Knowledge, c: Seq<((Seq<char>, Seq<char>), Seq<char>)>) -> bool {
    c.len() > 0 && forall|i: int| 0 <= i < c.len() ==> #[trigger] parent_link(k, c[i], c[(i + 1) % (c.len() as int)])
}

/// A project whose parents run into a cycle resolves to nothing, so that
/// resolving its parent chain never succeeds.
pub proof fn law_parent_cycle_unresolvable(
    k: Knowledge,
    c: Seq<((Seq<char>, Seq<char>), Seq<char>)>,
    i: int,
    q: ProjectView,
    p: ProjectView,
    d: Derivation,
)
    requires
        parent_cycle(k, c),
        0 <= i < c.len(),
        q.parent == Some(c[i]),
    ensures
        !derived(k, q, p, d),
    decreases d,
{
    match d {
        Derivation::Node(pd, bds) => {
            match pd {
                Some((pp, sub)) => {
                    let j = (i + 1) % (c.len() as int);
                    assert(parent_link(k, c[i], c[j]));
                    let q2 = first_pom(k, c[i].0, c[i].1)->Some_0;
                    law_parent_cycle_unresolvable(k, c, j, q2, pp, *sub);
                },
                None => {},
            }
        },
    }
}

/// `p` is what the first fetched POM of `m` at `v` resolves to.
pub open spec fn resolves_to(k: Knowledge, m: (Seq<char>, Seq<char>), v: Seq<char>, p: ProjectView) -> bool {
    first_pom(k, m, v) is Some && exists|d: Derivation| #[trigger] derived(k, first_pom(k, m, v)->Some_0, p, d)
}

/// Every entry of a cache holds what its POM resolves to, and no module and
/// version has two entries.
spec fn cache_consistent(c: Seq<(Module, String, Project)>, k: Knowledge) -> bool {
    &&& forall|i: int|
        0 <= i < c.len() ==> resolves_to(
            k,
            (#[trigger] cache_views(c)[i]).0,
            cache_views(c)[i].1,
            cache_views(c)[i].2,
        )
    &&& forall|i: int, j: int|
        0 <= i < j < c.len() ==> !((#[trigger] cache_views(c)[i]).0 == (#[trigger] cache_views(c)[j]).0
            && cache_views(c)[i].1 == cache_views(c)[j].1)
}

/// The `import`-scoped managed dependencies, in order.
pub open spec fn imports_of(mgmt: Seq<DepView>) -> Seq<DepView>
    decreases mgmt.len(),
{
    if mgmt.len() == 0 {
        Seq::empty()
    } else if mgmt.last().scope == Scope::Import {
        imports_of(mgmt.drop_last()).push(mgmt.last())
    } else {
        imports_of(mgmt.drop_last())
    }
}

/// The first fetched POM of `m` at `v` is the one a lookup found there.
proof fn lemma_first_pom(k: Knowledge, m: (Seq<char>, Seq<char>), v: Seq<char>, i: int)
    requires
        first_pom_at(k, m, v, i),
    ensures
        k.poms@[i].pom is Ok ==> first_pom(k, m, v) == Some(k.poms@[i].pom->Ok_0@),
        k.poms@[i].pom is Err ==> first_pom(k, m, v) is None && pom_failed(k, m, v),
{
    if exists|j: int| #[trigger] first_pom_at(k, m, v, j) && k.poms@[j].pom is Ok {
        let j = choose|j: int| #[trigger] first_pom_at(k, m, v, j) && k.poms@[j].pom is Ok;
        if j < i {
            assert(k.poms@[j].module@ == m && k.poms@[j].version@ == v);
        } else if i < j {
            assert(k.poms@[i].module@ == m && k.poms@[i].version@ == v);
        }
        assert(i == j);
    }
}

/// A POM that could be fetched and one that could not are told apart.
proof fn lemma_fetched_or_failed(k: Knowledge, m: (Seq<char>, Seq<char>), v: Seq<char>)
    ensures
        !(first_pom(k, m, v) is Some && pom_failed(k, m, v)),
{
    if pom_failed(k, m, v) {
        let i = choose|i: int| #[trigger] first_pom_at(k, m, v, i) && k.poms@[i].pom is Err;
        lemma_first_pom(k, m, v, i);
    }
}

/// Resolution is determined by what is known: a POM resolves to one
/// project, however the resolution is shown.
pub proof fn law_resolution_determined(k: Knowledge, q: ProjectView, p1: ProjectView, d1: Derivation, p2: ProjectView, d2: Derivation)
    requires
        derived(k, q, p1, d1),
        derived(k, q, p2, d2),
    ensures
        p1 == p2,
    decreases d1,
{
    match (d1, d2) {
        (Derivation::Node(pd1, bds1), Derivation::Node(pd2, bds2)) => {
            match q.parent {
                Some((pm, pv)) => {
                    match (pd1, pd2) {
                        (Some((pp1, sub1)), Some((pp2, sub2))) => {
                            law_resolution_determined(k, first_pom(k, pm, pv)->Some_0, pp1, *sub1, pp2, *sub2);
                        },
                        _ => {},
                    }
                },
                None => {},
            }
            let parent1 = match pd1 {
                Some((pp, _)) => Some(pp),
                None => None,
            };
            let parent2 = match pd2 {
                Some((pp, _)) => Some(pp),
                None => None,
            };
            assert(parent1 == parent2);
            lemma_boms_determined(k, imports_of(inherited(q, parent1).dependency_management), bds1, bds2);
        },
    }
}

proof fn lemma_boms_determined(
    k: Knowledge,
    imports: Seq<DepView>,
    bds1: Seq<Option<(ProjectView, Derivation)>>,
    bds2: Seq<Option<(ProjectView, Derivation)>>,
)
    requires
        boms_derived(k, imports, bds1),
        boms_derived(k, imports, bds2),
    ensures
        boms_of(bds1) == boms_of(bds2),
    decreases bds1,
{
    if imports.len() > 0 && bds1.len() > 0 {
        let dep = imports[imports.len() - 1];
        lemma_boms_determined(k, imports.subrange(0, imports.len() - 1), bds1.subrange(0, bds1.len() - 1), bds2.subrange(0, bds2.len() - 1));
        assert(bds1.subrange(0, bds1.len() - 1) =~= bds1.drop_last());
        assert(bds2.subrange(0, bds2.len() - 1) =~= bds2.drop_last());
        lemma_fetched_or_failed(k, dep.module, dep.version);
        match (bds1[bds1.len() - 1], bds2[bds2.len() - 1]) {
            (Some((bp1, sub1)), Some((bp2, sub2))) => {
                law_resolution_determined(k, first_pom(k, dep.module, dep.version)->Some_0, bp1, sub1, bp2, sub2);
            },
            _ => {},
        }
    }
}

/// Putting what a POM resolves to into a consistent cache keeps it so.
proof fn lemma_cache_put_consistent(
    before: Seq<(Module, String, Project)>,
    after: Seq<(Module, String, Project)>,
    k: Knowledge,
    e: ((Seq<char>, Seq<char>), Seq<char>, ProjectView),
)
    requires
        cache_consistent(before, k),
        resolves_to(k, e.0, e.1, e.2),
        (exists|i: int|
            #[trigger] cache_first_at(before, e.0, e.1, i) && cache_views(after) == cache_views(before).update(i, e))
            || ((forall|j: int| !#[trigger] cache_key_at(before, e.0, e.1, j)) && cache_views(after)
            == cache_views(before).push(e)),
    ensures
        cache_consistent(after, k),
{
    assert(cache_views(after).len() == after.len());
    assert(cache_views(before).len() == before.len());
    assert forall|i: int, j: int| 0 <= i < j < after.len() implies !((#[trigger] cache_views(after)[i]).0
        == (#[trigger] cache_views(after)[j]).0 && cache_views(after)[i].1 == cache_views(after)[j].1) by {
        if exists|x: int|
            #[trigger] cache_first_at(before, e.0, e.1, x) && cache_views(after) == cache_views(before).update(x, e) {
            let x = choose|x: int|
                #[trigger] cache_first_at(before, e.0, e.1, x) && cache_views(after) == cache_views(before).update(x, e);
            if i == x {
                assert(cache_views(before)[x].0 == e.0 && cache_views(before)[x].1 == e.1);
            } else if j == x {
                assert(cache_views(before)[x].0 == e.0 && cache_views(before)[x].1 == e.1);
            }
        } else {
            if j == before.len() {
                assert(cache_views(before)[i] == (before[i].0@, before[i].1@, before[i].2@));
                assert(!cache_key_at(before, e.0, e.1, i));
            }
        }
    }
    assert forall|i: int| 0 <= i < after.len() implies resolves_to(
        k,
        (#[trigger] cache_views(after)[i]).0,
        cache_views(after)[i].1,
        cache_views(after)[i].2,
    ) by {
        assert(cache_views(after).len() == after.len());
        if cache_views(after)[i] != e {
            assert(i < before.len());
            assert(cache_views(after)[i] == cache_views(before)[i]);
        }
    }
}

/// Resolves a project's parent chain and BOM imports: the parent (resolved
/// first, recursively) supplies an empty group id or version, unset
/// properties and unmanaged dependencies; `import`-scoped managed
/// dependencies add their own managed dependencies (a BOM that cannot be
/// fetched is skipped); then intrinsic properties are set and substituted.
/// The parents followed are recorded in `seen`, and a parent met again fails.
/// What comes out is what the known POMs resolve to (`derived`), cached
/// projects included: the cache only ever holds such results.
fn parent_chain(
    project: &Project,
    know: &Knowledge,
    cache: &mut Cache,
    seen: &mut Vec<(Module, String)>,
    depth: u64,
    fuel: u64,
) -> (r: Result<Project, Stop>)
    requires
        cache_consistent(old(cache)@, *know),
    ensures
        stop_sound(*know, r),
        cache_consistent(final(cache)@, *know),
        keys_kept(old(cache)@, final(cache)@),
        fuel == 0 ==> r matches Err(Stop::Fail(ResolveError::RecursionLimit)),
        fuel > 0 && depth > MAX_PARENT_DEPTH ==> r matches Err(
            Stop::Fail(ResolveError::ParentChainTooDeep),
        ),
        project.parent matches Some((pm, pv)) ==> (fuel > 0 && depth <= MAX_PARENT_DEPTH && listed(
            old(seen)@,
            pm@,
            pv@,
        ) ==> (r matches Err(Stop::Fail(ResolveError::CircularParent(em, ev))) && em@ == pm@ && ev@
            == pv@)),
        fuel > 0 && depth <= MAX_PARENT_DEPTH && project.parent is None && imports_nothing(
            project@.dependency_management,
        ) ==> (r matches Ok(e) && e@ == finished(project@)),
        r matches Ok(e) ==> exists|parent: Option<ProjectView>, boms: Seq<Seq<DepView>>|
            (parent is Some <==> project.parent is Some) && e@ == #[trigger] chain_resolved(
                project@,
                parent,
                boms,
            ),
        r matches Ok(e) ==> e@.relocation == project@.relocation,
        r matches Ok(e) ==> exists|d: Derivation| #[trigger] derived(*know, project@, e@, d),
        project.parent matches Some((pm, pv)) ==> (fuel > 0 && depth <= MAX_PARENT_DEPTH && !listed(
            old(seen)@,
            pm@,
            pv@,
        ) ==> forall|i: int|
            #[trigger] first_pom_at(*know, pm@, pv@, i) ==> (know.poms@[i].pom matches Err(msg) ==> (
            r matches Err(Stop::Fail(e)) && e == ResolveError::Fetch(msg)))),
        final(seen).len() >= old(seen).len(),
        forall|j: int| 0 <= j < old(seen).len() ==> #[trigger] final(seen)@[j] == old(seen)@[j],
        project.parent matches Some((pm, pv)) ==> (r is Ok ==> final(seen).len() > old(seen).len()
            && final(seen)@[old(seen).len() as int].0@ == pm@ && final(seen)@[old(seen).len() as int].1@
            == pv@),
        forall|d: Derivation, p: ProjectView|
            #![trigger within(*know, project@, d, fuel as int, depth as int, seen_views(old(seen)@)), derived(*know, project@, p, d)]
            within(*know, project@, d, fuel as int, depth as int, seen_views(old(seen)@)) && derived(
                *know,
                project@,
                p,
                d,
            ) ==> (r matches Ok(e) && e@ == p),
    decreases fuel,
{
    if fuel == 0 {
        return Err(Stop::Fail(ResolveError::RecursionLimit));
    }
    if depth > MAX_PARENT_DEPTH {
        return Err(Stop::Fail(ResolveError::ParentChainTooDeep));
    }
    let mut effective = project.duplicate();
    let ghost seen0 = seen@;
    let ghost cache0 = cache@;
    let ghost owed = exists|d: Derivation, p: ProjectView|
        #![trigger within(*know, project@, d, fuel as int, depth as int, seen_views(seen0)), derived(*know, project@, p, d)]
        within(*know, project@, d, fuel as int, depth as int, seen_views(seen0)) && derived(*know, project@, p, d);
    let ghost mut dt: Derivation = Derivation::Node(None, Seq::empty());
    proof {
        if owed {
            let (d, p) = choose|d: Derivation, p: ProjectView|
                within(*know, project@, d, fuel as int, depth as int, seen_views(seen0)) && derived(
                    *know,
                    project@,
                    p,
                    d,
                );
            dt = d;
        }
    }
    let ghost pdt = dt->Node_0;
    let ghost bdst = dt->Node_1;
    let ghost parent_t: Option<ProjectView> = match pdt {
        Some((pp, _)) => Some(pp),
        None => None,
    };
    let ghost mut parent_view: Option<ProjectView> = None;
    let ghost mut pd: Option<(ProjectView, Box<Derivation>)> = None;
    match &project.parent {
        Some((pm, pv)) => {
            if seen_contains(seen, pm, pv.as_str()) {
                proof {
                    let j = choose|j: int| 0 <= j < seen0.len() && (#[trigger] seen0[j]).0@ == pm@ && seen0[j].1@ == pv@;
                    assert(seen_views(seen0)[j] == (pm@, pv@));
                    assert(seen_views(seen0).contains((pm@, pv@)));
                }
                return Err(Stop::Fail(ResolveError::CircularParent(pm.duplicate(), pv.clone())));
            }
            proof {
                assert(!listed(seen0, pm@, pv@));
            }
            seen.push((pm.duplicate(), pv.clone()));
            let parent = match cache_find(cache, pm, pv.as_str()) {
                Some(i) => {
                    let q = cache[i].2.duplicate();
                    proof {
                        assert(cache_views(cache0)[i as int] == (cache0[i as int].0@, cache0[i as int].1@, cache0[i as int].2@));
                        assert(resolves_to(*know, pm@, pv@, q@));
                        let dq = choose|d: Derivation| #[trigger] derived(*know, first_pom(*know, pm@, pv@)->Some_0, q@, d);
                        pd = Some((q@, Box::new(dq)));
                        if owed {
                            let (ppt, subt) = pdt->Some_0;
                            law_resolution_determined(*know, first_pom(*know, pm@, pv@)->Some_0, q@, dq, ppt, *subt);
                        }
                        if exists|j: int| #[trigger] first_pom_at(*know, pm@, pv@, j) && know.poms@[j].pom is Err {
                            let j = choose|j: int| #[trigger] first_pom_at(*know, pm@, pv@, j) && know.poms@[j].pom is Err;
                            lemma_first_pom(*know, pm@, pv@, j);
                        }
                    }
                    q
                },
                None => {
                    let lp = lookup_pom(know, pm, pv.as_str());
                    proof {
                        if owed {
                            let fp = first_pom(*know, pm@, pv@);
                            assert(fp is Some);
                            let i = choose|i: int| #[trigger] first_pom_at(*know, pm@, pv@, i) && know.poms@[i].pom is Ok;
                            assert(know.poms@[i].module@ == pm@ && know.poms@[i].version@ == pv@);
                            assert(pom_known(*know, pm@, pv@));
                            if lp matches Err(Stop::Fail(_)) {
                                let j = choose|j: int| #[trigger] first_pom_at(*know, pm@, pv@, j) && know.poms@[j].pom is Err;
                                lemma_first_pom(*know, pm@, pv@, j);
                            }
                        }
                    }
                    let p = lp?;
                    let ghost seen_mid = seen@;
                    proof {
                        let i = choose|i: int|
                            #[trigger] first_pom_at(*know, pm@, pv@, i) && (know.poms@[i].pom matches Ok(
                                q,
                            ) && p@ == q@);
                        lemma_first_pom(*know, pm@, pv@, i);
                        if owed {
                            let (ppt, subt) = pdt->Some_0;
                            assert(seen_views(seen_mid) =~= seen_views(seen0).push((pm@, pv@)));
                            assert(within(*know, p@, *subt, (fuel - 1) as int, (depth + 1) as int, seen_views(seen_mid)));
                            assert(derived(*know, p@, ppt, *subt));
                        }
                    }
                    let rr = parent_chain(&p, know, cache, seen, depth + 1, fuel - 1);
                    let resolved = rr?;
                    proof {
                        let i = choose|i: int|
                            #[trigger] first_pom_at(*know, pm@, pv@, i) && (know.poms@[i].pom matches Ok(
                                q,
                            ) && p@ == q@);
                        lemma_first_pom(*know, pm@, pv@, i);
                        assert(first_pom(*know, pm@, pv@) == Some(p@));
                        let dr = choose|d: Derivation| #[trigger] derived(*know, p@, resolved@, d);
                        assert(derived(*know, first_pom(*know, pm@, pv@)->Some_0, resolved@, dr));
                        assert(resolves_to(*know, pm@, pv@, resolved@));
                        pd = Some((resolved@, Box::new(dr)));
                    }
                    let ghost c1 = cache@;
                    let dup = resolved.duplicate();
                    cache_put(cache, pm, pv.as_str(), dup);
                    proof {
                        lemma_cache_put_consistent(c1, cache@, *know, (pm@, pv@, resolved@));
                    }
                    resolved
                },
            };
            let ghost before = effective@;
            inherit_from_parent(&mut effective, &parent);
            proof {
                parent_view = Some(parent@);
                assert(owed ==> parent_view == parent_t);
                assert(effective@ == inherited(project@, parent_view));
                assert(pd matches Some((pp, sub)) && pp == parent@ && first_pom(*know, pm@, pv@) is Some
                    && derived(*know, first_pom(*know, pm@, pv@)->Some_0, pp, *sub));
            }
        },
        None => {},
    }
    let ghost base = effective@;
    assert(base == inherited(project@, parent_view));
    proof {
        if owed {
            assert(parent_view == parent_t);
            assert(boms_derived(*know, imports_of(base.dependency_management), bdst));
            assert(boms_within(*know, imports_of(base.dependency_management), bdst, fuel - 1));
        }
    }
    let mut boms: Vec<crate::resolver::Dependency> = Vec::new();
    let mut i: usize = 0;
    while i < effective.dependency_management.len()
        invariant
            i <= effective.dependency_management.len(),
            effective@ == base,
            boms.len() > 0 ==> exists|j: int|
                0 <= j < i && (#[trigger] base.dependency_management[j]).scope == Scope::Import,
            dep_views(boms@) == imports_of(base.dependency_management.take(i as int)),
            owed ==> boms_derived(*know, imports_of(base.dependency_management), bdst) && boms_within(
                *know,
                imports_of(base.dependency_management),
                bdst,
                fuel - 1,
            ),
            owed == exists|d: Derivation, p: ProjectView|
                #![trigger within(*know, project@, d, fuel as int, depth as int, seen_views(seen0)), derived(*know, project@, p, d)]
                within(*know, project@, d, fuel as int, depth as int, seen_views(seen0)) && derived(*know, project@, p, d),
        decreases effective.dependency_management.len() - i,
    {
        let ghost dm = base.dependency_management;
        assert(dm.take(i + 1).drop_last() =~= dm.take(i as int));
        assert(dm[i as int] == effective.dependency_management@[i as int]@);
        if effective.dependency_management[i].scope == Scope::Import {
            assert(base.dependency_management[i as int].scope == Scope::Import);
            let ghost before = dep_views(boms@);
            boms.push(effective.dependency_management[i].duplicate());
            assert(dep_views(boms@) =~= before.push(dm[i as int]));
        }
        i += 1;
    }
    assert(base.dependency_management.take(i as int) =~= base.dependency_management);
    let ghost mut merged: Seq<Seq<DepView>> = Seq::empty();
    let ghost mut bds: Seq<Option<(ProjectView, Derivation)>> = Seq::empty();
    assert(effective@ == with_managed_deps(base, merge_boms(base.dependency_management, merged)));
    assert(boms.len() > 0 ==> !(project.parent is None && imports_nothing(
        project@.dependency_management,
    ))) by {
        if boms.len() > 0 && project.parent is None {
            let j = choose|j: int|
                0 <= j < i && (#[trigger] base.dependency_management[j]).scope == Scope::Import;
            assert(project@.dependency_management[j].scope == Scope::Import);
        }
    }
    let mut b: usize = 0;
    while b < boms.len()
        invariant
            b <= boms.len(),
            fuel > 0,
            depth <= MAX_PARENT_DEPTH,
            seen0 == old(seen)@,
            cache0 == old(cache)@,
            project.parent matches Some((pm, pv)) ==> (pd matches Some((pp, sub)) && parent_view == Some(pp)
                && first_pom(*know, pm@, pv@) is Some && derived(
                *know,
                first_pom(*know, pm@, pv@)->Some_0,
                pp,
                *sub,
            )),
            project.parent is None ==> pd is None && parent_view is None,
            cache_consistent(cache@, *know),
            keys_kept(cache0, cache@),
            dep_views(boms@) == imports_of(base.dependency_management),
            boms_derived(*know, dep_views(boms@).take(b as int), bds),
            boms_of(bds) == merged,
            base == inherited(project@, parent_view),
            seen@.len() >= seen0.len(),
            forall|j: int| 0 <= j < seen0.len() ==> #[trigger] seen@[j] == seen0[j],
            project.parent matches Some((pm, pv)) ==> (!listed(seen0, pm@, pv@) && seen@.len()
                > seen0.len() && seen@[seen0.len() as int].0@ == pm@ && seen@[seen0.len() as int].1@
                == pv@),
            boms.len() > 0 ==> !(project.parent is None && imports_nothing(
                project@.dependency_management,
            )),
            effective@ == with_managed_deps(base, merge_boms(base.dependency_management, merged)),
            boms.len() == 0 ==> merged.len() == 0,
            owed ==> boms_derived(*know, imports_of(base.dependency_management), bdst) && boms_within(
                *know,
                imports_of(base.dependency_management),
                bdst,
                fuel - 1,
            ),
            owed == exists|d: Derivation, p: ProjectView|
                #![trigger within(*know, project@, d, fuel as int, depth as int, seen_views(seen0)), derived(*know, project@, p, d)]
                within(*know, project@, d, fuel as int, depth as int, seen_views(seen0)) && derived(*know, project@, p, d),
        decreases boms.len() - b,
    {
        let bom = &boms[b];
        let ghost imps = dep_views(boms@);
        let ghost d = imps[b as int];
        assert(d == bom@);
        assert(imps.take(b + 1).drop_last() =~= imps.take(b as int));
        assert(imps.take(b + 1).last() == d);
        let ghost mut entry: Option<(ProjectView, Derivation)> = None;
        let bom_project = match cache_find(cache, &bom.module, bom.version.as_str()) {
            Some(k) => {
                let q = cache[k].2.duplicate();
                proof {
                    assert(cache_views(cache@)[k as int] == (cache@[k as int].0@, cache@[k as int].1@, cache@[k as int].2@));
                    assert(resolves_to(*know, d.module, d.version, q@));
                    let dq = choose|dd: Derivation| #[trigger] derived(*know, first_pom(*know, d.module, d.version)->Some_0, q@, dd);
                    entry = Some((q@, dq));
                }
                Some(q)
            },
            None => {
            let ls = lookup_pom_soft(know, &bom.module, bom.version.as_str());
            proof {
                if owed {
                    lemma_boms_len(*know, imps, bdst);
                    lemma_bom_at(*know, imps, bdst, fuel - 1, b as int);
                    if bdst[b as int] is Some {
                        let i = choose|i: int| #[trigger] first_pom_at(*know, d.module, d.version, i) && know.poms@[i].pom is Ok;
                        assert(know.poms@[i].module@ == d.module && know.poms@[i].version@ == d.version);
                    } else {
                        let i = choose|i: int| #[trigger] first_pom_at(*know, d.module, d.version, i) && know.poms@[i].pom is Err;
                        assert(know.poms@[i].module@ == d.module && know.poms@[i].version@ == d.version);
                    }
                    assert(pom_known(*know, d.module, d.version));
                }
            }
            match ls? {
                Some(p) => {
                    let mut fresh: Vec<(Module, String)> = Vec::new();
                    let ghost fresh0 = fresh@;
                    proof {
                        let i = choose|i: int|
                            #[trigger] first_pom_at(*know, bom.module@, bom.version@, i) && (
                            know.poms@[i].pom matches Ok(q) && p@ == q@);
                        lemma_first_pom(*know, d.module, d.version, i);
                        if owed {
                            lemma_boms_len(*know, imps, bdst);
                            lemma_bom_at(*know, imps, bdst, fuel - 1, b as int);
                            lemma_fetched_or_failed(*know, d.module, d.version);
                            let (bp, sub) = bdst[b as int]->Some_0;
                            assert(seen_views(fresh0) =~= Seq::empty());
                            assert(within(*know, p@, sub, (fuel - 1) as int, 0, seen_views(fresh0)));
                            assert(derived(*know, p@, bp, sub));
                        }
                    }
                    let rb = parent_chain(&p, know, cache, &mut fresh, 0, fuel - 1);
                    let resolved = rb?;
                    proof {
                        let i = choose|i: int|
                            #[trigger] first_pom_at(*know, bom.module@, bom.version@, i) && (
                            know.poms@[i].pom matches Ok(q) && p@ == q@);
                        lemma_first_pom(*know, d.module, d.version, i);
                        assert(first_pom(*know, d.module, d.version) == Some(p@));
                        let dr = choose|dd: Derivation| #[trigger] derived(*know, p@, resolved@, dd);
                        assert(derived(*know, first_pom(*know, d.module, d.version)->Some_0, resolved@, dr));
                        assert(resolves_to(*know, d.module, d.version, resolved@));
                        entry = Some((resolved@, dr));
                    }
                    let ghost c1 = cache@;
                    let dup = resolved.duplicate();
                    cache_put(cache, &bom.module, bom.version.as_str(), dup);
                    proof {
                        lemma_cache_put_consistent(c1, cache@, *know, (d.module, d.version, resolved@));
                    }
                    Some(resolved)
                },
                None => {
                    proof {
                        assert(pom_failed(*know, d.module, d.version));
                    }
                    None
                },
            }
            },
        };
        proof {
            let nb = bds.push(entry);
            assert(nb.subrange(0, nb.len() - 1) =~= bds);
            assert(imps.take(b + 1).subrange(0, b as int) =~= imps.take(b as int));
            assert(nb[nb.len() - 1] == entry);
            assert(imps.take(b + 1)[b as int] == d);
            assert(nb.drop_last() =~= bds);
        }
        match bom_project {
            Some(bp) => {
                merge_managed_deps(&mut effective.dependency_management, &bp.dependency_management);
                proof {
                    let next = merged.push(dep_views(bp.dependency_management@));
                    assert(next.drop_last() =~= merged);
                    assert(entry matches Some((x, _)) && x == bp@);
                    let nb = bds.push(entry);
                    assert(boms_of(nb) == next);
                    assert(boms_derived(*know, imps.take(b + 1), nb));
                    merged = next;
                    bds = nb;
                }
            },
            None => {
                proof {
                    assert(entry is None);
                    let nb = bds.push(entry);
                    assert(boms_of(nb) == merged);
                    assert(boms_derived(*know, imps.take(b + 1), nb));
                    bds = nb;
                }
            },
        }
        b += 1;
    }
    let ghost pre = effective@;
    finish_project(&mut effective);
    proof {
        let props = with_intrinsic_props(pre.properties, pre.module.0, pre.version, pre.module.1);
        assert(effective@.dependencies =~= pre.dependencies.map_values(|d: DepView| substituted_dep(d, props)));
        assert(effective@.dependency_management =~= pre.dependency_management.map_values(
            |d: DepView| substituted_dep(d, props),
        ));
        assert(effective@ == finished(pre));
        assert(effective@ == chain_resolved(project@, parent_view, merged));
        let dfinal = Derivation::Node(pd, bds);
        assert(dep_views(boms@).take(boms.len() as int) =~= dep_views(boms@));
        assert(derived(*know, project@, effective@, dfinal));
        assert(dep_views(boms@).take(boms.len() as int) =~= dep_views(boms@));
        assert forall|d: Derivation, p: ProjectView|
            within(*know, project@, d, fuel as int, depth as int, seen_views(seen0)) && derived(
                *know,
                project@,
                p,
                d,
            ) implies effective@ == p by {
            law_resolution_determined(*know, project@, effective@, dfinal, p, d);
        }
    }
    Ok(effective)
}

// ─── The resolved map ───────────────────────────────────────────────────────

/// The modules of a list of artifacts.
pub open spec fn art_modules(v: Seq<ResolvedArtifact>) -> Seq<(Seq<char>, Seq<char>)> {
    v.map_values(|a: ResolvedArtifact| a.module@)
}

/// No module occurs twice.
pub open spec fn unique_modules(v: Seq<ResolvedArtifact>) -> bool {
    forall|i: int, j: int|
        0 <= i < j < v.len() ==> (#[trigger] v[i]).module@ != (#[trigger] v[j]).module@
}

fn resolved_find(resolved: &Vec<ResolvedArtifact>, m: &Module) -> (r: Option<usize>)
    ensures
        match r {
            Some(i) => i < resolved.len() && resolved@[i as int].module@ == m@,
            None => forall|j: int| 0 <= j < resolved.len() ==> (#[trigger] resolved@[j]).module@ != m@,
        },
{
    let mut i: usize = 0;
    while i < resolved.len()
        invariant
            i <= resolved.len(),
            forall|j: int| 0 <= j < i ==> (#[trigger] resolved@[j]).module@ != m@,
        decreases resolved.len() - i,
    {
        if resolved[i].module.same(m) {
            return Some(i);
        }
        i += 1;
    }
    None
}

/// An artifact of `m` at `version` with `classifier`.
pub open spec fn artifact_is(
    a: ResolvedArtifact,
    m: (Seq<char>, Seq<char>),
    version: Seq<char>,
    classifier: Option<Seq<char>>,
) -> bool {
    a.module@ == m && a.version@ == version && crate::resolver::opt_view(a.classifier) == classifier
}

/// The version of the artifact of `m`, where one is listed.
pub open spec fn recorded_version(v: Seq<ResolvedArtifact>, m: (Seq<char>, Seq<char>)) -> Option<Seq<char>> {
    if exists|i: int| 0 <= i < v.len() && (#[trigger] v[i]).module@ == m {
        Some(v[choose|i: int| 0 <= i < v.len() && (#[trigger] v[i]).module@ == m].version@)
    } else {
        None
    }
}

proof fn lemma_recorded_at(v: Seq<ResolvedArtifact>, m: (Seq<char>, Seq<char>), i: int)
    requires
        unique_modules(v),
        0 <= i < v.len(),
        v[i].module@ == m,
    ensures
        recorded_version(v, m) == Some(v[i].version@),
{
    let j = choose|j: int| 0 <= j < v.len() && (#[trigger] v[j]).module@ == m;
    if j < i {
        assert(v[j].module@ != v[i].module@);
    } else if i < j {
        assert(v[i].module@ != v[j].module@);
    }
}

/// Sets the artifact of `m`: in place of its entry where it is listed, else
/// at the end.
fn resolved_insert(
    resolved: &mut Vec<ResolvedArtifact>,
    m: &Module,
    version: String,
    classifier: Option<String>,
)
    requires
        unique_modules(old(resolved)@),
    ensures
        unique_modules(final(resolved)@),
        if art_modules(old(resolved)@).contains(m@) {
            exists|i: int|
                0 <= i < old(resolved).len() && (#[trigger] old(resolved)@[i]).module@ == m@
                    && final(resolved)@ == old(resolved)@.update(i, final(resolved)@[i])
                    && artifact_is(final(resolved)@[i], m@, version@, crate::resolver::opt_view(classifier))
        } else {
            final(resolved)@ == old(resolved)@.push(final(resolved)@[old(resolved).len() as int])
                && artifact_is(
                final(resolved)@[old(resolved).len() as int],
                m@,
                version@,
                crate::resolver::opt_view(classifier),
            )
        },
        art_modules(final(resolved)@).contains(m@),
        forall|x: (Seq<char>, Seq<char>)|
            art_modules(old(resolved)@).contains(x) ==> #[trigger] art_modules(final(resolved)@).contains(x),
{
    let ghost before0 = resolved@;
    let a = ResolvedArtifact { module: m.duplicate(), version, classifier };
    match resolved_find(resolved, m) {
        Some(i) => {
            let ghost before = resolved@;
            resolved.set(i, a);
            assert forall|x: int, y: int| 0 <= x < y < resolved.len() implies (
            #[trigger] resolved@[x]).module@ != (#[trigger] resolved@[y]).module@ by {
                assert(before[x].module@ != before[y].module@);
            }
            assert(art_modules(before)[i as int] == m@);
            assert(resolved@ =~= before.update(i as int, resolved@[i as int]));
        },
        None => {
            let ghost before = resolved@;
            resolved.push(a);
            assert forall|x: int, y: int| 0 <= x < y < resolved.len() implies (
            #[trigger] resolved@[x]).module@ != (#[trigger] resolved@[y]).module@ by {
                if y < before.len() {
                    assert(before[x].module@ != before[y].module@);
                } else {
                    assert(before[x].module@ != m@);
                }
            }
            assert(!art_modules(before).contains(m@)) by {
                if art_modules(before).contains(m@) {
                    let k = choose|k: int| 0 <= k < art_modules(before).len() && art_modules(before)[k] == m@;
                    assert(before[k].module@ == m@);
                }
            }
            assert(resolved@ =~= before.push(resolved@[before.len() as int]));
        },
    }
    proof {
        let n = resolved@;
        assert(art_modules(n).contains(m@)) by {
            let k = choose|k: int| 0 <= k < n.len() && n[k].module@ == m@;
            assert(art_modules(n)[k] == m@);
        }
        assert forall|x: (Seq<char>, Seq<char>)|
            art_modules(before0).contains(x) implies #[trigger] art_modules(n).contains(x) by {
            let k = choose|k: int| 0 <= k < art_modules(before0).len() && art_modules(before0)[k] == x;
            if n[k].module@ == x {
                assert(art_modules(n)[k] == x);
            } else {
                assert(x == m@);
            }
        }
    }
}

/// Drops the artifact of `m`, where it is listed.
fn resolved_remove(resolved: &mut Vec<ResolvedArtifact>, m: &Module)
    requires
        unique_modules(old(resolved)@),
    ensures
        unique_modules(final(resolved)@),
        if art_modules(old(resolved)@).contains(m@) {
            exists|i: int|
                0 <= i < old(resolved).len() && (#[trigger] old(resolved)@[i]).module@ == m@
                    && final(resolved)@ == old(resolved)@.remove(i)
        } else {
            final(resolved)@ == old(resolved)@
        },
{
    match resolved_find(resolved, m) {
        Some(i) => {
            let ghost before = resolved@;
            resolved.remove(i);
            assert forall|x: int, y: int| 0 <= x < y < resolved.len() implies (
            #[trigger] resolved@[x]).module@ != (#[trigger] resolved@[y]).module@ by {
                let bx = if x < i { x } else { x + 1 };
                let by = if y < i { y } else { y + 1 };
                assert(resolved@[x] == before[bx]);
                assert(resolved@[y] == before[by]);
                assert(before[bx].module@ != before[by].module@);
            }
            assert(art_modules(before)[i as int] == m@);
        },
        None => {
            assert(!art_modules(resolved@).contains(m@)) by {
                if art_modules(resolved@).contains(m@) {
                    let k = choose|k: int|
                        0 <= k < art_modules(resolved@).len() && art_modules(resolved@)[k] == m@;
                    assert(resolved@[k].module@ == m@);
                }
            }
        },
    }
}

// ─── Ordering the result ─────────────────────────────────────────────────────


/// A request never lowers a module's version: what `record_request` keeps
/// is at least the version held before and, unless the two tie, at least the
/// version requested (each compares as the higher against it).
pub proof fn law_request_never_lowers(held: Seq<char>, requested: Seq<char>)
    ensures
        crate::version::higher_version(held, crate::version::higher_version(held, requested))
            == crate::version::higher_version(held, requested),
        !crate::version::versions_tie(held, requested) ==> crate::version::higher_version(
            requested,
            crate::version::higher_version(held, requested),
        ) == crate::version::higher_version(held, requested),
{
    crate::version::lemma_higher_version_is_an_argument(held, requested);
    crate::version::lemma_higher_version_reflexive(held);
    crate::version::lemma_higher_version_reflexive(requested);
    if !crate::version::versions_tie(held, requested) {
        crate::version::law_higher_version_commutes(held, requested);
    }
}

/// Records that module `m` is reached with version `requested`: a module
/// reached for the first time takes it; one reached again keeps the higher
/// of its version and the requested one. Gives the version it now has; no
/// other module's version changes.
pub fn record_request(
    resolved: &mut Vec<ResolvedArtifact>,
    m: &Module,
    requested: String,
    classifier: Option<String>,
) -> (r: String)
    requires
        unique_modules(old(resolved)@),
    ensures
        unique_modules(final(resolved)@),
        r@ == match recorded_version(old(resolved)@, m@) {
            Some(v) => crate::version::higher_version(v, requested@),
            None => requested@,
        },
        recorded_version(final(resolved)@, m@) == Some(r@),
        forall|x: (Seq<char>, Seq<char>)|
            x != m@ ==> #[trigger] recorded_version(final(resolved)@, x) == recorded_version(
                old(resolved)@,
                x,
            ),
        art_modules(final(resolved)@).contains(m@),
        forall|x: (Seq<char>, Seq<char>)|
            art_modules(old(resolved)@).contains(x) ==> #[trigger] art_modules(final(resolved)@).contains(x),
{
    let ghost old_v = resolved@;
    let chosen = match resolved_find(resolved, m) {
        Some(i) => {
            proof {
                lemma_recorded_at(old_v, m@, i as int);
            }
            pick_higher_version(resolved[i].version.as_str(), requested.as_str())
        },
        None => requested,
    };
    resolved_insert(resolved, m, chosen.clone(), classifier);
    let ghost new_v = resolved@;
    proof {
        if art_modules(old_v).contains(m@) {
            let i = choose|i: int|
                0 <= i < old_v.len() && (#[trigger] old_v[i]).module@ == m@ && new_v == old_v.update(
                    i,
                    new_v[i],
                ) && artifact_is(new_v[i], m@, chosen@, crate::resolver::opt_view(classifier));
            lemma_recorded_at(new_v, m@, i);
            assert forall|x: (Seq<char>, Seq<char>)|
                x != m@ implies #[trigger] recorded_version(new_v, x) == recorded_version(old_v, x) by {
                if exists|j: int| 0 <= j < old_v.len() && (#[trigger] old_v[j]).module@ == x {
                    let j = choose|j: int| 0 <= j < old_v.len() && (#[trigger] old_v[j]).module@ == x;
                    lemma_recorded_at(old_v, x, j);
                    assert(new_v[j] == old_v[j]);
                    lemma_recorded_at(new_v, x, j);
                } else {
                    if exists|j: int| 0 <= j < new_v.len() && (#[trigger] new_v[j]).module@ == x {
                        let j = choose|j: int| 0 <= j < new_v.len() && (#[trigger] new_v[j]).module@ == x;
                        assert(j != i);
                        assert(old_v[j] == new_v[j]);
                    }
                }
            }
        } else {
            let n = old_v.len() as int;
            assert(forall|j: int| 0 <= j < old_v.len() ==> (#[trigger] old_v[j]).module@ != m@) by {
                assert forall|j: int| 0 <= j < old_v.len() implies (#[trigger] old_v[j]).module@ != m@ by {
                    assert(art_modules(old_v)[j] == old_v[j].module@);
                }
            }
            lemma_recorded_at(new_v, m@, n);
            assert forall|x: (Seq<char>, Seq<char>)|
                x != m@ implies #[trigger] recorded_version(new_v, x) == recorded_version(old_v, x) by {
                if exists|j: int| 0 <= j < old_v.len() && (#[trigger] old_v[j]).module@ == x {
                    let j = choose|j: int| 0 <= j < old_v.len() && (#[trigger] old_v[j]).module@ == x;
                    lemma_recorded_at(old_v, x, j);
                    assert(new_v[j] == old_v[j]);
                    lemma_recorded_at(new_v, x, j);
                } else {
                    if exists|j: int| 0 <= j < new_v.len() && (#[trigger] new_v[j]).module@ == x {
                        let j = choose|j: int| 0 <= j < new_v.len() && (#[trigger] new_v[j]).module@ == x;
                        assert(j != n);
                        assert(old_v[j] == new_v[j]);
                    }
                }
            }
        }
    }
    chosen
}

/// Artifacts are ordered by group id, then artifact id.
pub open spec fn art_lt(a: ResolvedArtifact, b: ResolvedArtifact) -> bool {
    seq_lt(a.module.org@, b.module.org@) || (a.module.org@ == b.module.org@ && seq_lt(
        a.module.name@,
        b.module.name@,
    ))
}

/// Strictly increasing by group id, then artifact id.
pub open spec fn strictly_sorted(v: Seq<ResolvedArtifact>) -> bool {
    forall|i: int, j: int| 0 <= i < j < v.len() ==> art_lt(#[trigger] v[i], #[trigger] v[j])
}

proof fn lemma_art_lt_trans(a: ResolvedArtifact, b: ResolvedArtifact, c: ResolvedArtifact)
    requires
        art_lt(a, b),
        art_lt(b, c),
    ensures
        art_lt(a, c),
{
    if seq_lt(a.module.org@, b.module.org@) && seq_lt(b.module.org@, c.module.org@) {
        lemma_seq_lt_transitive(a.module.org@, b.module.org@, c.module.org@);
    } else if a.module.org@ == b.module.org@ && b.module.org@ == c.module.org@ {
        lemma_seq_lt_transitive(a.module.name@, b.module.name@, c.module.name@);
    }
}

proof fn lemma_art_lt_total(a: ResolvedArtifact, b: ResolvedArtifact)
    requires
        a.module@ != b.module@,
    ensures
        art_lt(a, b) || art_lt(b, a),
{
    lemma_seq_lt_total(a.module.org@, b.module.org@);
    lemma_seq_lt_total(a.module.name@, b.module.name@);
}

proof fn lemma_art_lt_irreflexive(a: ResolvedArtifact)
    ensures
        !art_lt(a, a),
{
    lemma_seq_lt_irreflexive(a.module.org@);
    lemma_seq_lt_irreflexive(a.module.name@);
}

fn artifact_lt(a: &ResolvedArtifact, b: &ResolvedArtifact) -> (r: bool)
    ensures
        r == art_lt(*a, *b),
{
    let ao = crate::text::chars_of(a.module.org.as_str());
    let bo = crate::text::chars_of(b.module.org.as_str());
    if chars_lt(ao.as_slice(), bo.as_slice()) {
        return true;
    }
    if !str_eq(a.module.org.as_str(), b.module.org.as_str()) {
        return false;
    }
    let an = crate::text::chars_of(a.module.name.as_str());
    let bn = crate::text::chars_of(b.module.name.as_str());
    chars_lt(an.as_slice(), bn.as_slice())
}

/// Inserting the artifact of `src[i]` keeps the module of every earlier one.
proof fn lemma_insert_keeps_modules(
    before: Seq<ResolvedArtifact>,
    after: Seq<ResolvedArtifact>,
    p: int,
    src: Seq<ResolvedArtifact>,
    i: int,
)
    requires
        0 <= p <= before.len(),
        0 <= i < src.len(),
        after == before.insert(p, after[p]),
        after[p].module@ == src[i].module@,
        forall|j: int| 0 <= j < i ==> art_modules(before).contains((#[trigger] src[j]).module@),
    ensures
        forall|j: int| 0 <= j < i + 1 ==> art_modules(after).contains((#[trigger] src[j]).module@),
{
    assert forall|j: int| 0 <= j < i + 1 implies art_modules(after).contains(
        (#[trigger] src[j]).module@,
    ) by {
        if j == i {
            assert(art_modules(after)[p] == src[j].module@);
        } else {
            assert(art_modules(before).contains(src[j].module@));
            let k0 = choose|k: int|
                0 <= k < art_modules(before).len() && art_modules(before)[k] == src[j].module@;
            if k0 < p {
                assert(after[k0] == before[k0]);
                assert(art_modules(after)[k0] == src[j].module@);
            } else {
                assert(after[k0 + 1] == before[k0]);
                assert(art_modules(after)[k0 + 1] == src[j].module@);
            }
        }
    }
}

/// Sorts artifacts with distinct modules by group id, then artifact id.
pub fn sort_artifacts(arts: Vec<ResolvedArtifact>) -> (r: Vec<ResolvedArtifact>)
    requires
        unique_modules(arts@),
    ensures
        strictly_sorted(r@),
        r.len() == arts.len(),
        forall|k: int| 0 <= k < r.len() ==> art_modules(arts@).contains((#[trigger] r@[k]).module@),
        forall|k: int| 0 <= k < arts.len() ==> art_modules(r@).contains((#[trigger] arts@[k]).module@),
        forall|k: int|
            0 <= k < r.len() ==> exists|j: int|
                0 <= j < arts.len() && (#[trigger] r@[k]).module@ == arts@[j].module@ && r@[k].version@
                    == arts@[j].version@,
{
    let mut out: Vec<ResolvedArtifact> = Vec::new();
    let mut i: usize = 0;
    let ghost src = arts@;
    let mut arts = arts;
    while i < arts.len()
        invariant
            arts@ == src,
            unique_modules(src),
            i <= arts.len(),
            out.len() == i,
            strictly_sorted(out@),
            forall|k: int|
                0 <= k < out.len() ==> exists|j: int|
                    0 <= j < i && (#[trigger] out@[k]).module@ == src[j].module@ && out@[k].version@
                        == src[j].version@,
            forall|j: int| 0 <= j < i ==> art_modules(out@).contains((#[trigger] src[j]).module@),
        decreases arts.len() - i,
    {
        let x = arts[i].clone_artifact();
        let mut p: usize = 0;
        while p < out.len() && !artifact_lt(&x, &out[p])
            invariant
                p <= out.len(),
                forall|k: int| 0 <= k < p ==> !art_lt(x, #[trigger] out@[k]),
            decreases out.len() - p,
        {
            p += 1;
        }
        proof {
            assert forall|k: int| 0 <= k < out.len() implies (#[trigger] out@[k]).module@
                != x.module@ by {
                let j = choose|j: int| 0 <= j < i && out@[k].module@ == src[j].module@;
                assert(src[j].module@ != src[i as int].module@);
            }
            assert forall|k: int| 0 <= k < p implies art_lt(#[trigger] out@[k], x) by {
                lemma_art_lt_total(out@[k], x);
            }
        }
        let ghost before = out@;
        out.insert(p, x);
        proof {
            assert forall|a: int, b: int| 0 <= a < b < out.len() implies art_lt(
                #[trigger] out@[a],
                #[trigger] out@[b],
            ) by {
                if b < p {
                    assert(out@[a] == before[a] && out@[b] == before[b]);
                } else if b == p {
                    assert(out@[a] == before[a]);
                } else if a < p {
                    assert(out@[a] == before[a] && out@[b] == before[b - 1]);
                    assert(art_lt(before[a], x));
                    if b - 1 == p {
                    } else {
                        assert(art_lt(before[p as int], before[b - 1]));
                        lemma_art_lt_trans(x, before[p as int], before[b - 1]);
                    }
                    lemma_art_lt_trans(before[a], x, before[b - 1]);
                } else if a == p {
                    assert(out@[b] == before[b - 1]);
                    if b - 1 > p {
                        assert(art_lt(before[p as int], before[b - 1]));
                        lemma_art_lt_trans(x, before[p as int], before[b - 1]);
                    }
                } else {
                    assert(out@[a] == before[a - 1] && out@[b] == before[b - 1]);
                }
            }
            lemma_insert_keeps_modules(before, out@, p as int, src, i as int);
            assert forall|k: int| 0 <= k < out.len() implies exists|j: int|
                0 <= j < i + 1 && (#[trigger] out@[k]).module@ == src[j].module@ by {
                if k < p {
                    assert(out@[k] == before[k]);
                } else if k == p {
                    assert(out@[k].module@ == src[i as int].module@);
                } else {
                    assert(out@[k] == before[k - 1]);
                }
            }
        }
        i += 1;
    }
    proof {
        assert forall|k: int| 0 <= k < out.len() implies art_modules(arts@).contains(
            (#[trigger] out@[k]).module@,
        ) by {
            let j = choose|j: int| 0 <= j < i && out@[k].module@ == src[j].module@;
            assert(art_modules(arts@)[j] == out@[k].module@);
        }
        assert forall|j: int| 0 <= j < arts.len() implies art_modules(out@).contains(
            (#[trigger] arts@[j]).module@,
        ) by {
            assert(src[j] == arts@[j]);
        }
    }
    out
}

impl ResolvedArtifact {
    /// A copy of this artifact.
    pub fn clone_artifact(&self) -> (r: ResolvedArtifact)
        ensures
            r.module@ == self.module@,
            r.version@ == self.version@,
            crate::resolver::opt_view(r.classifier) == crate::resolver::opt_view(self.classifier),
    {
        ResolvedArtifact {
            module: self.module.duplicate(),
            version: self.version.clone(),
            classifier: crate::resolver::copy_opt(&self.classifier),
        }
    }
}


// ─── The fixpoint ────────────────────────────────────────────────────────────

/// The most rounds that resolution runs before it gives up.
pub const MAX_ITERATIONS: u64 = 2000;

/// The recursion budget for nested POM imports.
pub const IMPORT_FUEL: u64 = 200;

/// The first coordinate that does not parse, if any.
pub open spec fn first_invalid(coords: Seq<String>) -> Option<Seq<char>>
    decreases coords.len(),
{
    if coords.len() == 0 {
        None
    } else if coordinate_dep(coords[0]@) is None {
        Some(coords[0]@)
    } else {
        first_invalid(coords.drop_first())
    }
}

/// Parses the root coordinates; the first that does not parse is the error.
fn parse_roots(coordinates: &[String]) -> (r: Result<Vec<Dependency>, ResolveError>)
    ensures
        match first_invalid(coordinates@) {
            Some(c) => (r matches Err(ResolveError::InvalidCoordinate(e)) && e@ == c),
            None => (r matches Ok(v) && v.len() == coordinates.len() && forall|i: int|
                0 <= i < v.len() ==> coordinate_dep(coordinates@[i]@) == Some(
                    (#[trigger] v@[i])@,
                )),
        },
{
    let mut roots: Vec<Dependency> = Vec::new();
    let mut i: usize = 0;
    assert(coordinates@.subrange(0, coordinates.len() as int) =~= coordinates@);
    while i < coordinates.len()
        invariant
            i <= coordinates.len(),
            roots.len() == i,
            first_invalid(coordinates@) == first_invalid(coordinates@.subrange(i as int, coordinates.len() as int)),
            forall|k: int|
                0 <= k < i ==> coordinate_dep(coordinates@[k]@) == Some((#[trigger] roots@[k])@),
        decreases coordinates.len() - i,
    {
        let ghost rest = coordinates@.subrange(i as int, coordinates.len() as int);
        assert(rest.drop_first() =~= coordinates@.subrange(i + 1, coordinates.len() as int));
        assert(rest[0] == coordinates@[i as int]);
        match crate::resolver::parse_coordinate(coordinates[i].as_str()) {
            Ok(d) => {
                roots.push(d);
            },
            Err(e) => {
                return Err(e);
            },
        }
        i += 1;
    }
    assert(coordinates@.subrange(i as int, coordinates.len() as int).len() == 0);
    Ok(roots)
}

/// The dependency that the first root coordinate denotes.
pub open spec fn first_root(coords: Seq<String>) -> DepView {
    coordinate_dep(coords[0]@)->Some_0
}

/// Nothing has been fetched and the first root names a fixed version: then
/// the first thing resolution asks for is that root's POM.
pub open spec fn asks_first_root(coords: Seq<String>, k: Knowledge) -> bool {
    &&& k.poms.len() == 0
    &&& coords.len() > 0
    &&& first_invalid(coords) is None
    &&& !crate::version::is_range_spec(first_root(coords).version)
}

/// No fetched POM declares a relocation.
pub open spec fn no_relocations(k: Knowledge) -> bool {
    forall|i: int|
        0 <= i < k.poms.len() ==> ((#[trigger] k.poms@[i]).pom matches Ok(p) ==> p.relocation is None)
}

/// The module that a root coordinate names.
pub open spec fn root_module(c: String) -> (Seq<char>, Seq<char>) {
    coordinate_dep(c@)->Some_0.module
}

/// The module of every root coordinate is among the artifacts.
pub open spec fn roots_present(v: Seq<ResolvedArtifact>, coords: Seq<String>) -> bool {
    forall|i: int| 0 <= i < coords.len() ==> art_modules(v).contains(#[trigger] root_module(coords[i]))
}

/// The first fetched POM of `m` at `v` resolves, to some project.
pub open spec fn pom_resolves(k: Knowledge, m: (Seq<char>, Seq<char>), v: Seq<char>) -> bool {
    exists|p: ProjectView| #[trigger] resolves_to(k, m, v, p)
}

/// Every module listed in `v` has the POM of its version in the cache, or is
/// queued at or after position `from` of `q`.
spec fn settled_from(
    v: Seq<ResolvedArtifact>,
    c: Seq<(Module, String, Project)>,
    q: Seq<Dependency>,
    from: int,
) -> bool {
    forall|x: (Seq<char>, Seq<char>)|
        #[trigger] recorded_version(v, x) is Some ==> (cached(c, x, recorded_version(v, x)->Some_0)
            || exists|k: int| from <= k < q.len() && (#[trigger] q[k])@.module == x)
}

/// Runs resolution rounds until nothing is left to visit: each round fetches
/// and records the queued modules (a relocated module gives way to its
/// target), then visits their transitive dependencies, keeping the higher
/// version where a module is reached twice.
fn resolve_run(coordinates: &[String], know: &Knowledge) -> (r: Result<Vec<ResolvedArtifact>, Stop>)
    ensures
        stop_sound(*know, r),
        r matches Ok(v) ==> unique_modules(v@),
        match first_invalid(coordinates@) {
            Some(c) => (r matches Err(Stop::Fail(ResolveError::InvalidCoordinate(e))) && e@ == c),
            None => true,
        },
        coordinates.len() == 0 ==> (r matches Ok(v) && v.len() == 0),
        asks_first_root(coordinates@, *know) ==> (r matches Err(Stop::Need(Query::Pom(m, v)))
            && m@ == first_root(coordinates@).module && v@ == first_root(coordinates@).version),
        no_relocations(*know) ==> (r matches Ok(v) ==> roots_present(v@, coordinates@)),
        no_relocations(*know) ==> (r matches Ok(v) ==> forall|i: int|
            0 <= i < v.len() ==> pom_resolves(*know, (#[trigger] v@[i]).module@, v@[i].version@)),
        first_invalid(coordinates@) is None && fetches_ok(*know) && chains_within(*know) ==> (
        r matches Err(Stop::Fail(e)) ==> (e is NoMatchingVersion || e is NotConverged)),
{
    let roots = match parse_roots(coordinates) {
        Ok(v) => v,
        Err(e) => {
            return Err(Stop::Fail(e));
        },
    };
    if roots.len() == 0 {
        return Ok(Vec::new());
    }
    let mut cache: Cache = Vec::new();
    let mut resolved: Vec<ResolvedArtifact> = Vec::new();
    let mut queue: Vec<Dependency> = roots;
    let mut iterations: u64 = 0;
    while queue.len() > 0 && iterations < MAX_ITERATIONS
        invariant
            unique_modules(resolved@),
            iterations <= MAX_ITERATIONS,
            iterations == 0 ==> (resolved.len() == 0 && cache.len() == 0 && queue.len() > 0 && Some(
                queue@[0]@,
            ) == coordinate_dep(coordinates@[0]@)),
            iterations == 0 ==> (queue.len() == coordinates.len() && forall|k: int|
                0 <= k < queue.len() ==> coordinate_dep(coordinates@[k]@) == Some(
                    (#[trigger] queue@[k])@,
                )),
            iterations >= 1 && no_relocations(*know) ==> roots_present(resolved@, coordinates@),
            iterations >= 1 ==> !asks_first_root(coordinates@, *know),
            cache_consistent(cache@, *know),
            first_invalid(coordinates@) is None && coordinates.len() > 0,
            no_relocations(*know) ==> settled_from(resolved@, cache@, queue@, 0),
        decreases MAX_ITERATIONS - iterations,
    {
        iterations += 1;
        let mut next_queue: Vec<Dependency> = Vec::new();
        let mut j: usize = 0;
        while j < queue.len()
            invariant
                unique_modules(resolved@),
                j <= queue.len(),
                first_invalid(coordinates@) is None && coordinates.len() > 0,
                iterations == 1 && j == 0 ==> (resolved.len() == 0 && cache.len() == 0 && queue.len()
                    > 0 && Some(queue@[0]@) == coordinate_dep(coordinates@[0]@)),
                iterations >= 1,
                iterations > 1 || j > 0 ==> !asks_first_root(coordinates@, *know),
                iterations == 1 ==> (queue.len() == coordinates.len() && forall|k: int|
                    0 <= k < queue.len() ==> coordinate_dep(coordinates@[k]@) == Some(
                        (#[trigger] queue@[k])@,
                    )),
                no_relocations(*know) && iterations == 1 ==> forall|k: int|
                    0 <= k < j ==> art_modules(resolved@).contains((#[trigger] queue@[k])@.module),
                no_relocations(*know) && iterations > 1 ==> roots_present(resolved@, coordinates@),
                cache_consistent(cache@, *know),
                no_relocations(*know) ==> settled_from(resolved@, cache@, queue@, j as int),
            decreases queue.len() - j,
        {
            let ghost r0 = resolved@;
            let ghost c0 = cache@;
            let dep = &queue[j];
            let version: String = match resolved_find(&resolved, &dep.module) {
                Some(i) => {
                    proof {
                        lemma_recorded_at(resolved@, dep.module@, i as int);
                    }
                    resolved[i].version.clone()
                },
                None => version_spec(&dep.module, dep.version.as_str(), know)?,
            };
            proof {
                if recorded_version(r0, dep.module@) is Some {
                    crate::version::lemma_higher_version_reflexive(version@);
                }
            }
            let mut relocated = false;
            let cf = cache_find(&cache, &dep.module, version.as_str());
            if cf.is_none() {
                let lp = lookup_pom(know, &dep.module, version.as_str());
                proof {
                    if lp matches Err(Stop::Fail(_)) {
                        let i = choose|i: int| #[trigger] first_pom_at(*know, dep.module@, version@, i) && (know.poms@[i].pom is Err);
                        assert(know.poms@[i].pom is Err);
                    }
                }
                let project = lp?;
                let mut seen: Vec<(Module, String)> = Vec::new();
                let ghost seen_e = seen@;
                proof {
                    if chains_within(*know) {
                        let i = choose|i: int|
                            #[trigger] first_pom_at(*know, dep.module@, version@, i) && (
                            know.poms@[i].pom matches Ok(q) && project@ == q@);
                        assert(know.poms@[i].pom matches Ok(q) && project@ == q@);
                        let (d, p) = choose|d: Derivation, p: ProjectView|
                            derived(*know, project@, p, d) && within(*know, project@, d, IMPORT_FUEL as int, 0, Seq::empty());
                        assert(seen_views(seen_e) =~= Seq::empty());
                        assert(within(*know, project@, d, IMPORT_FUEL as int, 0, seen_views(seen_e)));
                        assert(derived(*know, project@, p, d));
                    }
                }
                let pc = parent_chain(&project, know, &mut cache, &mut seen, 0, IMPORT_FUEL);
                let effective = pc?;
                proof {
                    if no_relocations(*know) {
                        let i = choose|i: int|
                            #[trigger] first_pom_at(*know, dep.module@, version@, i) && (
                            know.poms@[i].pom matches Ok(q) && project@ == q@);
                        assert(know.poms@[i].pom->Ok_0.relocation is None);
                        assert(effective@.relocation is None);
                    }
                }
                match effective.relocation {
                    Some(reloc) => {
                        resolved_remove(&mut resolved, &dep.module);
                        resolved_insert(&mut resolved, &reloc.module, reloc.version.clone(), None);
                        if cache_find(&cache, &reloc.module, reloc.version.as_str()).is_none() {
                            next_queue.push(reloc);
                        }
                        relocated = true;
                    },
                    None => {
                        proof {
                            let i = choose|i: int|
                                #[trigger] first_pom_at(*know, dep.module@, version@, i) && (
                                know.poms@[i].pom matches Ok(q) && project@ == q@);
                            lemma_first_pom(*know, dep.module@, version@, i);
                            assert(first_pom(*know, dep.module@, version@) == Some(project@));
                            let de = choose|dd: Derivation| #[trigger] derived(*know, project@, effective@, dd);
                            assert(derived(*know, first_pom(*know, dep.module@, version@)->Some_0, effective@, de));
                            assert(resolves_to(*know, dep.module@, version@, effective@));
                        }
                        let ghost c1 = cache@;
                        let ghost ev = effective@;
                        cache_put(&mut cache, &dep.module, version.as_str(), effective);
                        proof {
                            lemma_cache_put_consistent(c1, cache@, *know, (dep.module@, version@, ev));
                        }
                    },
                }
            }
            let ghost vv = version@;
            let ghost c1 = cache@;
            proof {
                if no_relocations(*know) {
                    assert(!relocated);
                    if cf is Some {
                        assert(cache_key_at(c0, dep.module@, vv, cf->Some_0 as int));
                    }
                    assert(keys_kept(c0, c1));
                    assert(cached(c1, dep.module@, vv));
                }
            }
            if !relocated {
                let _ = record_request(&mut resolved, &dep.module, version, copy_opt(&dep.classifier));
            }
            proof {
                if no_relocations(*know) {
                    assert forall|x: (Seq<char>, Seq<char>)|
                        #[trigger] recorded_version(resolved@, x) is Some implies (cached(
                            cache@,
                            x,
                            recorded_version(resolved@, x)->Some_0,
                        ) || exists|k: int| j + 1 <= k < queue.len() && (#[trigger] queue@[k])@.module == x) by {
                        if x != dep.module@ {
                            assert(recorded_version(resolved@, x) == recorded_version(r0, x));
                            if cached(c0, x, recorded_version(r0, x)->Some_0) {
                            } else {
                                let k = choose|k: int| j <= k < queue.len() && (#[trigger] queue@[k])@.module == x;
                                assert(k != j);
                            }
                        }
                    }
                }
            }
            proof {
                if no_relocations(*know) {
                    assert(!relocated);
                    assert(art_modules(resolved@).contains(queue@[j as int]@.module));
                    if iterations == 1 {
                        assert forall|k: int| 0 <= k < j + 1 implies art_modules(resolved@).contains(
                            (#[trigger] queue@[k])@.module,
                        ) by {
                            if k < j {
                                assert(art_modules(r0).contains(queue@[k]@.module));
                            }
                        }
                    } else {
                        assert forall|i: int| 0 <= i < coordinates.len() implies art_modules(
                            resolved@,
                        ).contains(#[trigger] root_module(coordinates@[i])) by {
                            assert(art_modules(r0).contains(root_module(coordinates@[i])));
                        }
                    }
                }
            }
            j += 1;
        }
        proof {
            if no_relocations(*know) && iterations == 1 {
                assert forall|i: int| 0 <= i < coordinates.len() implies art_modules(resolved@).contains(
                    #[trigger] root_module(coordinates@[i]),
                ) by {
                    assert(art_modules(resolved@).contains(queue@[i]@.module));
                }
            }
            if no_relocations(*know) {
                assert forall|x: (Seq<char>, Seq<char>)|
                    #[trigger] recorded_version(resolved@, x) is Some implies (cached(
                        cache@,
                        x,
                        recorded_version(resolved@, x)->Some_0,
                    ) || exists|k: int| 0 <= k < next_queue@.len() && (#[trigger] next_queue@[k])@.module == x) by {
                }
            }
        }
        let mut j: usize = 0;
        while j < queue.len()
            invariant
                unique_modules(resolved@),
                j <= queue.len(),
                first_invalid(coordinates@) is None && coordinates.len() > 0,
                !asks_first_root(coordinates@, *know),
                no_relocations(*know) ==> roots_present(resolved@, coordinates@),
                cache_consistent(cache@, *know),
                no_relocations(*know) ==> settled_from(resolved@, cache@, next_queue@, 0),
            decreases queue.len() - j,
        {
            let dep = &queue[j];
            let version: String = match resolved_find(&resolved, &dep.module) {
                Some(i) => resolved[i].version.clone(),
                None => dep.version.clone(),
            };
            match cache_find(&cache, &dep.module, version.as_str()) {
                Some(ci) => {
                    let transitive = extract_dependencies(&cache[ci].2, dep);
                    let mut t_i: usize = 0;
                    while t_i < transitive.len()
                        invariant
                            unique_modules(resolved@),
                            t_i <= transitive.len(),
                            first_invalid(coordinates@) is None && coordinates.len() > 0,
                            !asks_first_root(coordinates@, *know),
                            no_relocations(*know) ==> roots_present(resolved@, coordinates@),
                            cache_consistent(cache@, *know),
                            no_relocations(*know) ==> settled_from(resolved@, cache@, next_queue@, 0),
                        decreases transitive.len() - t_i,
                    {
                        let ghost r0 = resolved@;
                        let t = &transitive[t_i];
                        let requested = version_spec(&t.module, t.version.as_str(), know)?;
                        let effective_version = record_request(
                            &mut resolved,
                            &t.module,
                            requested,
                            copy_opt(&t.classifier),
                        );
                        proof {
                            if no_relocations(*know) {
                                assert forall|i: int| 0 <= i < coordinates.len() implies art_modules(
                                    resolved@,
                                ).contains(#[trigger] root_module(coordinates@[i])) by {
                                    assert(art_modules(r0).contains(root_module(coordinates@[i])));
                                }
                            }
                        }
                        let ghost ev = effective_version@;
                        let ghost nq0 = next_queue@;
                        let cf2 = cache_find(&cache, &t.module, effective_version.as_str());
                        if cf2.is_none() {
                            let mut next = t.duplicate();
                            next.version = effective_version;
                            next_queue.push(next);
                        }
                        proof {
                            if no_relocations(*know) {
                                assert forall|x: (Seq<char>, Seq<char>)|
                                    #[trigger] recorded_version(resolved@, x) is Some implies (cached(
                                        cache@,
                                        x,
                                        recorded_version(resolved@, x)->Some_0,
                                    ) || exists|k: int|
                                        0 <= k < next_queue@.len() && (#[trigger] next_queue@[k])@.module == x) by {
                                    if x == t.module@ {
                                        if cf2 is Some {
                                            assert(cache_key_at(cache@, x, ev, cf2->Some_0 as int));
                                        } else {
                                            assert(next_queue@[nq0.len() as int]@.module == x);
                                        }
                                    } else {
                                        assert(recorded_version(resolved@, x) == recorded_version(r0, x));
                                        if !cached(cache@, x, recorded_version(r0, x)->Some_0) {
                                            let k = choose|k: int| 0 <= k < nq0.len() && (#[trigger] nq0[k])@.module == x;
                                            assert(next_queue@[k] == nq0[k]);
                                        }
                                    }
                                }
                            }
                        }
                        t_i += 1;
                    }
                },
                None => {},
            }
            j += 1;
        }
        queue = next_queue;
    }
    if iterations >= MAX_ITERATIONS {
        return Err(Stop::Fail(ResolveError::NotConverged));
    }
    proof {
        if no_relocations(*know) {
            assert forall|i: int| 0 <= i < resolved.len() implies pom_resolves(
                *know,
                (#[trigger] resolved@[i]).module@,
                resolved@[i].version@,
            ) by {
                let m = resolved@[i].module@;
                let v = resolved@[i].version@;
                lemma_recorded_at(resolved@, m, i);
                assert(recorded_version(resolved@, m) is Some);
                let ci = choose|ci: int| #[trigger] cache_key_at(cache@, m, v, ci);
                assert(cache_views(cache@)[ci] == (cache@[ci].0@, cache@[ci].1@, cache@[ci].2@));
                assert(resolves_to(*know, m, v, cache@[ci].2@));
            }
        }
    }
    Ok(resolved)
}

/// Resolves Maven coordinates to their transitive artifacts against what is
/// known so far: either the finished result, sorted by group id and artifact
/// id, or the next answer that resolution needs. An answer is only asked for
/// when it is not known yet, so a caller that adds each answer and asks again
/// makes progress until the result is done.
pub fn resolve(coordinates: &[String], know: &Knowledge) -> (r: ResolveStep)
    ensures
        r matches ResolveStep::Need(q) ==> unknown(*know, q),
        r matches ResolveStep::Done(Ok(arts)) ==> strictly_sorted(arts@),
        match first_invalid(coordinates@) {
            Some(c) => (r matches ResolveStep::Done(Err(ResolveError::InvalidCoordinate(e))) && e@
                == c),
            None => true,
        },
        coordinates.len() == 0 ==> (r matches ResolveStep::Done(Ok(arts)) && arts.len() == 0),
        asks_first_root(coordinates@, *know) ==> (r matches ResolveStep::Need(Query::Pom(m, v))
            && m@ == first_root(coordinates@).module && v@ == first_root(coordinates@).version),
        r matches ResolveStep::Done(Ok(arts)) ==> unique_modules(arts@),
        no_relocations(*know) ==> (r matches ResolveStep::Done(Ok(arts)) ==> roots_present(
            arts@,
            coordinates@,
        )),
        first_invalid(coordinates@) is None && fetches_ok(*know) && chains_within(*know) ==> (
        r matches ResolveStep::Done(Err(e)) ==> (e is NoMatchingVersion || e is NotConverged)),
        no_relocations(*know) ==> (r matches ResolveStep::Done(Ok(arts)) ==> forall|i: int|
            0 <= i < arts.len() ==> pom_resolves(*know, (#[trigger] arts@[i]).module@, arts@[i].version@)),
{
    match resolve_run(coordinates, know) {
        Ok(arts) => {
            let sorted = sort_artifacts(arts);
            proof {
                assert forall|i: int, j: int| 0 <= i < j < sorted.len() implies (
                #[trigger] sorted@[i]).module@ != (#[trigger] sorted@[j]).module@ by {
                    lemma_art_lt_irreflexive(sorted@[i]);
                    if sorted@[i].module@ == sorted@[j].module@ {
                        assert(art_lt(sorted@[i], sorted@[j]));
                    }
                }
                if no_relocations(*know) {
                    assert forall|i: int| 0 <= i < sorted.len() implies pom_resolves(
                        *know,
                        (#[trigger] sorted@[i]).module@,
                        sorted@[i].version@,
                    ) by {
                        let j = choose|j: int|
                            0 <= j < arts.len() && sorted@[i].module@ == arts@[j].module@ && sorted@[i].version@
                                == arts@[j].version@;
                        assert(pom_resolves(*know, arts@[j].module@, arts@[j].version@));
                    }
                    assert forall|i: int| 0 <= i < coordinates.len() implies art_modules(
                        sorted@,
                    ).contains(#[trigger] root_module(coordinates@[i])) by {
                        let x = root_module(coordinates@[i]);
                        assert(art_modules(arts@).contains(x));
                        let k = choose|k: int| 0 <= k < art_modules(arts@).len() && art_modules(arts@)[k] == x;
                        assert(arts@[k].module@ == x);
                    }
                }
            }
            ResolveStep::Done(Ok(sorted))
        },
        Err(Stop::Need(q)) => ResolveStep::Need(q),
        Err(Stop::Fail(e)) => ResolveStep::Done(Err(e)),
    }
}

/// The name under which an artifact's JAR is cached: its sanitized
/// artifact id and version, and classifier when it has one.
pub open spec fn cache_jar_name(a: ResolvedArtifact) -> Seq<char> {
    let n = crate::resolver::sanitized(a.module.name@);
    let v = crate::resolver::sanitized(a.version@);
    match a.classifier {
        Some(c) => n + "-"@ + v + "-"@ + crate::resolver::sanitized(c@) + ".jar"@,
        None => n + "-"@ + v + ".jar"@,
    }
}

/// Where an artifact's JAR is cached, relative to the cache directory: the
/// sanitized group id with `.` read as `/`, the sanitized artifact id, and
/// the file name.
pub fn jar_cache_location(a: &ResolvedArtifact) -> (r: (String, String, String))
    ensures
        r.0@ == crate::text::replace_set(crate::resolver::sanitized(a.module.org@), seq!['.'], seq!['/']),
        r.1@ == crate::resolver::sanitized(a.module.name@),
        r.2@ == cache_jar_name(*a),
{
    let org = crate::resolver::sanitize_path_segment(a.module.org.as_str());
    let oc = crate::text::chars_of(org.as_str());
    let dot = vec!['.'];
    let slash = vec!['/'];
    assert(dot@ =~= seq!['.'] && slash@ =~= seq!['/']);
    let group = crate::text::replace_chars(oc.as_slice(), dot.as_slice(), slash.as_slice());
    let name = crate::resolver::sanitize_path_segment(a.module.name.as_str());
    let version = crate::resolver::sanitize_path_segment(a.version.as_str());
    let mut jar = name.clone();
    jar.append("-");
    jar.append(version.as_str());
    match &a.classifier {
        Some(c) => {
            let sc = crate::resolver::sanitize_path_segment(c.as_str());
            jar.append("-");
            jar.append(sc.as_str());
        },
        None => {},
    }
    jar.append(".jar");
    (crate::text::string_of(group.as_slice()), name, jar)
}

} // verus!
