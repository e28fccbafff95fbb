//! Reading POMs and `maven-metadata.xml` documents.
//!
//! quick-xml turns a document into a stream of events; this module reads the
//! stream and interprets it. Each interpretation is a state machine whose
//! step is a spec function, so what a document yields is the left fold of
//! the steps over its events, followed by a final step.
use vstd::prelude::*;
use crate::resolver::{
    dep_views, exclusion_views, has_exclusion, prop_set, prop_views, scope_of, set_property,
    substitute_deps, substituted_dep, union_exclusions, DepView, Dependency, Exclusion,
    MavenMetadata, Module, Project, ProjectView, Scope,
};
use crate::text::{chars_of, ends_with, has_prefix, has_suffix, starts_with, str_eq, string_of, substring, trim, trim_str};

verus! {

#[verifier::external_type_specification]
#[verifier::external_body]
#[verifier::reject_recursive_types(R)]
pub struct ExXmlReader<R>(quick_xml::Reader<R>);

/// One event of an XML document, as the interpretations see it.
#[derive(Debug)]
pub enum XmlEvent {
    /// An opening tag, by name.
    Start(String),
    /// A closing tag, by name.
    End(String),
    /// Text, with entities resolved (empty where they could not be).
    Text(String),
    /// Anything else: comments, declarations, empty elements.
    Other,
    /// The end of the document.
    Eof,
    /// The document is not well-formed; the text says where and why.
    Error(String),
}

/// What an XML event says.
pub enum XmlEventView {
    Start(Seq<char>),
    End(Seq<char>),
    Text(Seq<char>),
    Other,
    Eof,
    Error(Seq<char>),
}

impl View for XmlEvent {
    type V = XmlEventView;

    open spec fn view(&self) -> XmlEventView {
        match self {
            XmlEvent::Start(t) => XmlEventView::Start(t@),
            XmlEvent::End(t) => XmlEventView::End(t@),
            XmlEvent::Text(t) => XmlEventView::Text(t@),
            XmlEvent::Other => XmlEventView::Other,
            XmlEvent::Eof => XmlEventView::Eof,
            XmlEvent::Error(m) => XmlEventView::Error(m@),
        }
    }
}

/// The views of a list of events.
pub open spec fn event_views(v: Seq<XmlEvent>) -> Seq<XmlEventView> {
    v.map_values(|e: XmlEvent| e@)
}

/// An event after which a reading stops: the end, or an error.
pub open spec fn ends_reading(e: XmlEventView) -> bool {
    e is Eof || e is Error
}

/// The events that quick-xml's `Reader::read_event` yields for the document
/// `xml`, read from the start with whitespace trimmed from text, up to and
/// including the first end or error.
pub uninterp spec fn xml_events_of(xml: Seq<char>) -> Seq<XmlEventView>;

/// The events that a quick-xml reader has still to yield, up to and
/// including the first end or error.
pub uninterp spec fn pending_events(reader: quick_xml::Reader<&[u8]>) -> Seq<XmlEventView>;

/// `quick_xml::Reader::from_str` with `Config::trim_text(true)`: a reader over
/// `xml` that drops whitespace at the edges of text. What it will yield is
/// named `xml_events_of(xml)`. Reading ends: every event but the end consumes
/// input, and the end or the first error is the last event read; so the
/// events hold one end or error, as their last.
#[verifier::external_body]
fn xml_reader<'a>(xml: &'a str) -> (r: quick_xml::Reader<&'a [u8]>)
    ensures
        pending_events(r) == xml_events_of(xml@),
        pending_events(r).len() > 0 && ends_reading(pending_events(r).last()),
        forall|i: int|
            0 <= i < pending_events(r).len() - 1 ==> !ends_reading(#[trigger] pending_events(r)[i]),
{
    let mut reader = quick_xml::Reader::from_str(xml);
    reader.config_mut().trim_text(true);
    reader
}

/// `Reader::read_event`: the next event, its name or unescaped text taken
/// as a `String` (text whose entities cannot be resolved is empty). It is
/// the first of the reader's pending events, which it consumes.
#[verifier::external_body]
fn next_xml_event(reader: &mut quick_xml::Reader<&[u8]>) -> (r: XmlEvent)
    requires
        pending_events(*old(reader)).len() > 0,
    ensures
        r@ == pending_events(*old(reader))[0],
        pending_events(*final(reader)) == pending_events(*old(reader)).drop_first(),
{
    match reader.read_event() {
        Ok(quick_xml::events::Event::Start(e)) => XmlEvent::Start(
            String::from_utf8_lossy(e.name().as_ref()).into_owned(),
        ),
        Ok(quick_xml::events::Event::End(e)) => XmlEvent::End(
            String::from_utf8_lossy(e.name().as_ref()).into_owned(),
        ),
        Ok(quick_xml::events::Event::Text(e)) => XmlEvent::Text(e.unescape().unwrap_or_default().into_owned()),
        Ok(quick_xml::events::Event::Eof) => XmlEvent::Eof,
        Ok(_) => XmlEvent::Other,
        Err(e) => XmlEvent::Error(format!("XML parse error at {}: {e}", reader.error_position())),
    }
}

/// What reading a document gives: its events before the end, or the
/// message of the error that stopped it.
pub open spec fn reading_of(evs: Seq<XmlEventView>) -> Result<Seq<XmlEventView>, Seq<char>> {
    if evs.len() > 0 && evs.last() is Error {
        Err(evs.last()->Error_0)
    } else {
        Ok(evs.drop_last())
    }
}

/// The events of a document up to its end, with whitespace trimmed from
/// text; the first error ends the reading.
pub fn read_xml_events(xml: &str) -> (r: Result<Vec<XmlEvent>, String>)
    ensures
        match reading_of(xml_events_of(xml@)) {
            Ok(evs) => r matches Ok(v) && event_views(v@) == evs,
            Err(m) => r matches Err(e) && e@ == m,
        },
{
    let mut reader = xml_reader(xml);
    let ghost all = xml_events_of(xml@);
    let mut events: Vec<XmlEvent> = Vec::new();
    loop
        invariant
            all == xml_events_of(xml@),
            all.len() > 0 && ends_reading(all.last()),
            forall|i: int| 0 <= i < all.len() - 1 ==> !ends_reading(#[trigger] all[i]),
            event_views(events@) + pending_events(reader) == all,
            forall|i: int| 0 <= i < events.len() ==> !ends_reading(#[trigger] events@[i]@),
        decreases pending_events(reader).len(),
    {
        let ghost done = event_views(events@);
        let ghost rest = pending_events(reader);
        assert(rest.len() > 0) by {
            if rest.len() == 0 {
                assert(all =~= done);
                assert(done[done.len() - 1] == events@[done.len() - 1]@);
            }
        }
        let ev = next_xml_event(&mut reader);
        assert(all[done.len() as int] == rest[0]);
        match ev {
            XmlEvent::Eof => {
                assert(done.len() == all.len() - 1);
                assert(done =~= all.drop_last());
                return Ok(events);
            },
            XmlEvent::Error(msg) => {
                assert(done.len() == all.len() - 1);
                return Err(msg);
            },
            ev => {
                let ghost evv = ev@;
                events.push(ev);
                assert(event_views(events@) =~= done.push(evv));
                assert(done.push(evv) + rest.drop_first() =~= done + rest);
            },
        }
    }
}

// ─── Paths ───────────────────────────────────────────────────────────────────

/// The views of a list of strings.
pub open spec fn str_views(v: Seq<String>) -> Seq<Seq<char>> {
    v.map_values(|s: String| s@)
}

/// Element names joined by `/`.
pub open spec fn joined(p: Seq<Seq<char>>) -> Seq<char>
    decreases p.len(),
{
    if p.len() == 0 {
        Seq::empty()
    } else if p.len() == 1 {
        p[0]
    } else {
        joined(p.drop_last()).push('/') + p.last()
    }
}

fn join_path(path: &Vec<String>) -> (r: String)
    ensures
        r@ == joined(str_views(path@)),
{
    let ghost pv = str_views(path@);
    let mut out: Vec<char> = Vec::new();
    let mut i: usize = 0;
    while i < path.len()
        invariant
            pv == str_views(path@),
            i <= path.len(),
            out@ == joined(pv.take(i as int)),
        decreases path.len() - i,
    {
        proof {
            assert(pv.take(i + 1).drop_last() =~= pv.take(i as int));
            assert(pv.take(i + 1).last() == path@[i as int]@);
        }
        let ghost before = out@;
        if i > 0 {
            out.push('/');
        }
        let c = chars_of(path[i].as_str());
        crate::text::append_chars(&mut out, c.as_slice());
        proof {
            if i == 0 {
                assert(out@ =~= pv.take(1)[0]);
            } else {
                assert(out@ =~= before.push('/') + pv.take(i + 1).last());
            }
        }
        i += 1;
    }
    assert(pv.take(path.len() as int) =~= pv);
    string_of(out.as_slice())
}

fn path_has(path: &Vec<String>, name: &str) -> (r: bool)
    ensures
        r == str_views(path@).contains(name@),
{
    let mut i: usize = 0;
    while i < path.len()
        invariant
            i <= path.len(),
            forall|j: int| 0 <= j < i ==> str_views(path@)[j] != name@,
        decreases path.len() - i,
    {
        if str_eq(path[i].as_str(), name) {
            assert(str_views(path@)[i as int] == name@);
            return true;
        }
        i += 1;
    }
    false
}

fn ends_with_str(s: &str, suffix: &str) -> (r: bool)
    ensures
        r == has_suffix(s@, suffix@),
{
    let a = chars_of(s);
    let b = chars_of(suffix);
    ends_with(a.as_slice(), b.as_slice())
}

// ─── POM interpretation ──────────────────────────────────────────────────────

/// What has been read of a POM so far.
#[verifier::ext_equal]
pub struct PomView {
    pub path: Seq<Seq<char>>,
    pub group_id: Seq<char>,
    pub artifact_id: Seq<char>,
    pub version: Seq<char>,
    pub packaging: Seq<char>,
    pub parent_group_id: Seq<char>,
    pub parent_artifact_id: Seq<char>,
    pub parent_version: Seq<char>,
    pub deps: Seq<DepView>,
    pub dep_mgmt: Seq<DepView>,
    pub properties: Seq<(Seq<char>, Seq<char>)>,
    pub relocation_group_id: Seq<char>,
    pub relocation_artifact_id: Seq<char>,
    pub relocation_version: Seq<char>,
    pub in_dep: bool,
    pub in_dep_mgmt: bool,
    pub in_relocation: bool,
    pub dep_group_id: Seq<char>,
    pub dep_artifact_id: Seq<char>,
    pub dep_version: Seq<char>,
    pub dep_scope: Seq<char>,
    pub dep_optional: bool,
    pub dep_exclusions: Seq<(Seq<char>, Seq<char>)>,
    pub in_exclusion: bool,
    pub excl_group_id: Seq<char>,
    pub excl_artifact_id: Seq<char>,
}

/// Nothing read yet.
pub open spec fn pom_initial() -> PomView {
    PomView {
        path: Seq::empty(),
        group_id: Seq::empty(),
        artifact_id: Seq::empty(),
        version: Seq::empty(),
        packaging: Seq::empty(),
        parent_group_id: Seq::empty(),
        parent_artifact_id: Seq::empty(),
        parent_version: Seq::empty(),
        deps: Seq::empty(),
        dep_mgmt: Seq::empty(),
        properties: Seq::empty(),
        relocation_group_id: Seq::empty(),
        relocation_artifact_id: Seq::empty(),
        relocation_version: Seq::empty(),
        in_dep: false,
        in_dep_mgmt: false,
        in_relocation: false,
        dep_group_id: Seq::empty(),
        dep_artifact_id: Seq::empty(),
        dep_version: Seq::empty(),
        dep_scope: Seq::empty(),
        dep_optional: false,
        dep_exclusions: Seq::empty(),
        in_exclusion: false,
        excl_group_id: Seq::empty(),
        excl_artifact_id: Seq::empty(),
    }
}

/// A `<dependency>` at this path is one of the project's own (under
/// `dependencies` or `dependencyManagement`, not under a build plugin).
pub open spec fn in_project_deps(path: Seq<Seq<char>>) -> bool {
    (path.contains("dependencies"@) || path.contains("dependencyManagement"@)) && !(path.contains(
        "plugins"@,
    ) || path.contains("plugin"@) || path.contains("build"@))
}

/// An opening tag: it is pushed on the path, and a dependency, dependency
/// management, exclusion or relocation section begins.
pub open spec fn pom_start(st: PomView, tag: Seq<char>) -> PomView {
    let s = PomView { path: st.path.push(tag), ..st };
    if tag == "dependency"@ {
        if in_project_deps(s.path) {
            PomView {
                in_dep: true,
                dep_group_id: Seq::empty(),
                dep_artifact_id: Seq::empty(),
                dep_version: Seq::empty(),
                dep_scope: Seq::empty(),
                dep_optional: false,
                dep_exclusions: Seq::empty(),
                ..s
            }
        } else {
            s
        }
    } else if tag == "dependencyManagement"@ {
        PomView { in_dep_mgmt: true, ..s }
    } else if tag == "exclusion"@ {
        PomView { in_exclusion: true, excl_group_id: Seq::empty(), excl_artifact_id: Seq::empty(), ..s }
    } else if tag == "relocation"@ {
        PomView { in_relocation: true, ..s }
    } else {
        s
    }
}

/// The dependency collected so far.
pub open spec fn collected_dep(st: PomView) -> DepView {
    DepView {
        module: (st.dep_group_id, st.dep_artifact_id),
        version: st.dep_version,
        scope: scope_of(st.dep_scope),
        optional: st.dep_optional,
        exclusions: st.dep_exclusions,
        classifier: None,
    }
}

/// A closing tag: a dependency with a group and artifact id is recorded
/// (as managed inside dependency management), an exclusion is added, a
/// section ends; then the path loses its last element.
pub open spec fn pom_end(st: PomView, tag: Seq<char>) -> PomView {
    let s = if tag == "dependency"@ {
        let recorded = if st.in_dep && st.dep_group_id.len() > 0 && st.dep_artifact_id.len() > 0 {
            if st.in_dep_mgmt {
                PomView { dep_mgmt: st.dep_mgmt.push(collected_dep(st)), ..st }
            } else {
                PomView { deps: st.deps.push(collected_dep(st)), ..st }
            }
        } else {
            st
        };
        PomView { in_dep: false, ..recorded }
    } else if tag == "dependencyManagement"@ {
        PomView { in_dep_mgmt: false, ..st }
    } else if tag == "exclusion"@ {
        let added = if st.in_exclusion {
            PomView {
                dep_exclusions: union_exclusions(
                    st.dep_exclusions,
                    seq![(st.excl_group_id, st.excl_artifact_id)],
                ),
                ..st
            }
        } else {
            st
        };
        PomView { in_exclusion: false, ..added }
    } else if tag == "relocation"@ {
        PomView { in_relocation: false, ..st }
    } else {
        st
    };
    PomView {
        path: if s.path.len() > 0 {
            s.path.drop_last()
        } else {
            s.path
        },
        ..s
    }
}

/// Text at the current path (already trimmed and not empty) fills the field
/// that the path and the open sections name.
pub open spec fn pom_text_at(st: PomView, p: Seq<char>, text: Seq<char>) -> PomView {
    if p == "project/groupId"@ {
        PomView { group_id: text, ..st }
    } else if p == "project/artifactId"@ {
        PomView { artifact_id: text, ..st }
    } else if p == "project/version"@ {
        PomView { version: text, ..st }
    } else if p == "project/packaging"@ {
        PomView { packaging: text, ..st }
    } else if p == "project/parent/groupId"@ {
        PomView { parent_group_id: text, ..st }
    } else if p == "project/parent/artifactId"@ {
        PomView { parent_artifact_id: text, ..st }
    } else if p == "project/parent/version"@ {
        PomView { parent_version: text, ..st }
    } else if st.in_dep && has_suffix(p, "/groupId"@) && !st.in_exclusion {
        PomView { dep_group_id: text, ..st }
    } else if st.in_dep && has_suffix(p, "/artifactId"@) && !st.in_exclusion {
        PomView { dep_artifact_id: text, ..st }
    } else if st.in_dep && has_suffix(p, "/version"@) && !st.in_exclusion {
        PomView { dep_version: text, ..st }
    } else if st.in_dep && has_suffix(p, "/scope"@) {
        PomView { dep_scope: text, ..st }
    } else if st.in_dep && has_suffix(p, "/optional"@) {
        PomView { dep_optional: text == "true"@, ..st }
    } else if st.in_exclusion && has_suffix(p, "/groupId"@) {
        PomView { excl_group_id: text, ..st }
    } else if st.in_exclusion && has_suffix(p, "/artifactId"@) {
        PomView { excl_artifact_id: text, ..st }
    } else if st.in_relocation && has_suffix(p, "/groupId"@) {
        PomView { relocation_group_id: text, ..st }
    } else if st.in_relocation && has_suffix(p, "/artifactId"@) {
        PomView { relocation_artifact_id: text, ..st }
    } else if st.in_relocation && has_suffix(p, "/version"@) {
        PomView { relocation_version: text, ..st }
    } else if has_prefix(p, "project/properties/"@) {
        PomView {
            properties: prop_set(
                st.properties,
                p.subrange("project/properties/"@.len() as int, p.len() as int),
                text,
            ),
            ..st
        }
    } else {
        st
    }
}

/// One event of a POM.
pub open spec fn pom_step(st: PomView, ev: XmlEventView) -> PomView {
    match ev {
        XmlEventView::Start(tag) => pom_start(st, tag),
        XmlEventView::End(tag) => pom_end(st, tag),
        XmlEventView::Text(t) => if trim(t).len() == 0 {
            st
        } else {
            pom_text_at(st, joined(st.path), trim(t))
        },
        _ => st,
    }
}

/// The state after a sequence of events.
pub open spec fn pom_fold(evs: Seq<XmlEventView>) -> PomView
    decreases evs.len(),
{
    if evs.len() == 0 {
        pom_initial()
    } else {
        pom_step(pom_fold(evs.drop_last()), evs.last())
    }
}

/// Properties after the project's intrinsic ones are set: its group id and
/// version (when it has a group id), artifact id, and parent coordinates,
/// each under its Maven name.
pub open spec fn pom_props(st: PomView) -> Seq<(Seq<char>, Seq<char>)> {
    let p1 = if st.group_id.len() > 0 {
        prop_set(
            prop_set(
                prop_set(prop_set(st.properties, "project.groupId"@, st.group_id), "project.version"@, st.version),
                "groupId"@,
                st.group_id,
            ),
            "version"@,
            st.version,
        )
    } else {
        st.properties
    };
    let p2 = if st.artifact_id.len() > 0 {
        prop_set(prop_set(p1, "project.artifactId"@, st.artifact_id), "artifactId"@, st.artifact_id)
    } else {
        p1
    };
    let p3 = if st.parent_group_id.len() > 0 {
        prop_set(p2, "project.parent.groupId"@, st.parent_group_id)
    } else {
        p2
    };
    let p4 = if st.parent_artifact_id.len() > 0 {
        prop_set(p3, "project.parent.artifactId"@, st.parent_artifact_id)
    } else {
        p3
    };
    if st.parent_version.len() > 0 {
        prop_set(p4, "project.parent.version"@, st.parent_version)
    } else {
        p4
    }
}

/// The project a finished reading describes: properties substituted in its
/// dependencies, a parent when it has a group id and version, a relocation
/// when it names a group, and packaging `jar` unless stated.
pub open spec fn pom_finish(st: PomView) -> ProjectView {
    let props = pom_props(st);
    ProjectView {
        module: (st.group_id, st.artifact_id),
        version: st.version,
        packaging: if st.packaging.len() == 0 {
            "jar"@
        } else {
            st.packaging
        },
        parent: if st.parent_group_id.len() > 0 && st.parent_version.len() > 0 {
            Some(((st.parent_group_id, st.parent_artifact_id), st.parent_version))
        } else {
            None
        },
        dependencies: st.deps.map_values(|d: DepView| substituted_dep(d, props)),
        dependency_management: st.dep_mgmt.map_values(|d: DepView| substituted_dep(d, props)),
        properties: props,
        relocation: if st.relocation_group_id.len() > 0 {
            Some(
                DepView {
                    module: (st.relocation_group_id, st.relocation_artifact_id),
                    version: st.relocation_version,
                    scope: Scope::Compile,
                    optional: false,
                    exclusions: Seq::empty(),
                    classifier: None,
                },
            )
        } else {
            None
        },
    }
}

/// The project that a POM's events describe.
pub open spec fn pom_of(evs: Seq<XmlEventView>) -> ProjectView {
    pom_finish(pom_fold(evs))
}

proof fn lemma_fold_keys_distinct(evs: Seq<XmlEventView>)
    ensures
        crate::resolver::keys_distinct(pom_fold(evs).properties),
    decreases evs.len(),
{
    if evs.len() > 0 {
        lemma_fold_keys_distinct(evs.drop_last());
        let st = pom_fold(evs.drop_last());
        match evs.last() {
            XmlEventView::Text(t) => {
                let p = joined(st.path);
                crate::resolver::law_properties_keep_keys_distinct(
                    st.properties,
                    Seq::empty(),
                    p.subrange("project/properties/"@.len() as int, p.len() as int),
                    trim(t),
                );
            },
            _ => {},
        }
    }
}

/// A POM's properties name each key once, as the map they stand for does:
/// a property set twice keeps its last value.
pub proof fn law_pom_properties_distinct(evs: Seq<XmlEventView>)
    ensures
        crate::resolver::keys_distinct(pom_of(evs).properties),
{
    lemma_fold_keys_distinct(evs);
    let st = pom_fold(evs);
    let e = Seq::<(Seq<char>, Seq<char>)>::empty();
    let p0 = st.properties;
    crate::resolver::law_properties_keep_keys_distinct(p0, e, "project.groupId"@, st.group_id);
    let a = prop_set(p0, "project.groupId"@, st.group_id);
    crate::resolver::law_properties_keep_keys_distinct(a, e, "project.version"@, st.version);
    let b = prop_set(a, "project.version"@, st.version);
    crate::resolver::law_properties_keep_keys_distinct(b, e, "groupId"@, st.group_id);
    let c = prop_set(b, "groupId"@, st.group_id);
    crate::resolver::law_properties_keep_keys_distinct(c, e, "version"@, st.version);
    let p1 = if st.group_id.len() > 0 { prop_set(c, "version"@, st.version) } else { p0 };
    crate::resolver::law_properties_keep_keys_distinct(p1, e, "project.artifactId"@, st.artifact_id);
    let d = prop_set(p1, "project.artifactId"@, st.artifact_id);
    crate::resolver::law_properties_keep_keys_distinct(d, e, "artifactId"@, st.artifact_id);
    let p2 = if st.artifact_id.len() > 0 { prop_set(d, "artifactId"@, st.artifact_id) } else { p1 };
    crate::resolver::law_properties_keep_keys_distinct(p2, e, "project.parent.groupId"@, st.parent_group_id);
    let p3 = if st.parent_group_id.len() > 0 { prop_set(p2, "project.parent.groupId"@, st.parent_group_id) } else { p2 };
    crate::resolver::law_properties_keep_keys_distinct(p3, e, "project.parent.artifactId"@, st.parent_artifact_id);
    let p4 = if st.parent_artifact_id.len() > 0 {
        prop_set(p3, "project.parent.artifactId"@, st.parent_artifact_id)
    } else {
        p3
    };
    crate::resolver::law_properties_keep_keys_distinct(p4, e, "project.parent.version"@, st.parent_version);
    assert(pom_props(st) == if st.parent_version.len() > 0 {
        prop_set(p4, "project.parent.version"@, st.parent_version)
    } else {
        p4
    });
}

/// The state of a POM reading.
pub struct PomState {
    pub path: Vec<String>,
    pub group_id: String,
    pub artifact_id: String,
    pub version: String,
    pub packaging: String,
    pub parent_group_id: String,
    pub parent_artifact_id: String,
    pub parent_version: String,
    pub deps: Vec<Dependency>,
    pub dep_mgmt: Vec<Dependency>,
    pub properties: Vec<(String, String)>,
    pub relocation_group_id: String,
    pub relocation_artifact_id: String,
    pub relocation_version: String,
    pub in_dep: bool,
    pub in_dep_mgmt: bool,
    pub in_relocation: bool,
    pub dep_group_id: String,
    pub dep_artifact_id: String,
    pub dep_version: String,
    pub dep_scope: String,
    pub dep_optional: bool,
    pub dep_exclusions: Vec<Exclusion>,
    pub in_exclusion: bool,
    pub excl_group_id: String,
    pub excl_artifact_id: String,
}

impl View for PomState {
    type V = PomView;

    open spec fn view(&self) -> PomView {
        PomView {
            path: str_views(self.path@),
            group_id: self.group_id@,
            artifact_id: self.artifact_id@,
            version: self.version@,
            packaging: self.packaging@,
            parent_group_id: self.parent_group_id@,
            parent_artifact_id: self.parent_artifact_id@,
            parent_version: self.parent_version@,
            deps: dep_views(self.deps@),
            dep_mgmt: dep_views(self.dep_mgmt@),
            properties: prop_views(self.properties@),
            relocation_group_id: self.relocation_group_id@,
            relocation_artifact_id: self.relocation_artifact_id@,
            relocation_version: self.relocation_version@,
            in_dep: self.in_dep,
            in_dep_mgmt: self.in_dep_mgmt,
            in_relocation: self.in_relocation,
            dep_group_id: self.dep_group_id@,
            dep_artifact_id: self.dep_artifact_id@,
            dep_version: self.dep_version@,
            dep_scope: self.dep_scope@,
            dep_optional: self.dep_optional,
            dep_exclusions: exclusion_views(self.dep_exclusions@),
            in_exclusion: self.in_exclusion,
            excl_group_id: self.excl_group_id@,
            excl_artifact_id: self.excl_artifact_id@,
        }
    }
}

impl PomState {
    /// Nothing read yet.
    pub fn new() -> (r: PomState)
        ensures
            r@ == pom_initial(),
    {
        let r = PomState {
            path: Vec::new(),
            group_id: String::new(),
            artifact_id: String::new(),
            version: String::new(),
            packaging: String::new(),
            parent_group_id: String::new(),
            parent_artifact_id: String::new(),
            parent_version: String::new(),
            deps: Vec::new(),
            dep_mgmt: Vec::new(),
            properties: Vec::new(),
            relocation_group_id: String::new(),
            relocation_artifact_id: String::new(),
            relocation_version: String::new(),
            in_dep: false,
            in_dep_mgmt: false,
            in_relocation: false,
            dep_group_id: String::new(),
            dep_artifact_id: String::new(),
            dep_version: String::new(),
            dep_scope: String::new(),
            dep_optional: false,
            dep_exclusions: Vec::new(),
            in_exclusion: false,
            excl_group_id: String::new(),
            excl_artifact_id: String::new(),
        };
        assert(r@ =~= pom_initial());
        r
    }

    /// An opening tag.
    pub fn start(&mut self, tag: String)
        ensures
            final(self)@ == pom_start(old(self)@, tag@),
    {
        let is_dep = str_eq(tag.as_str(), "dependency");
        let is_mgmt = str_eq(tag.as_str(), "dependencyManagement");
        let is_excl = str_eq(tag.as_str(), "exclusion");
        let is_reloc = str_eq(tag.as_str(), "relocation");
        let ghost t = tag@;
        self.path.push(tag);
        assert(str_views(self.path@) =~= str_views(old(self).path@).push(t));
        if is_dep {
            let inside = (path_has(&self.path, "dependencies") || path_has(
                &self.path,
                "dependencyManagement",
            )) && !(path_has(&self.path, "plugins") || path_has(&self.path, "plugin") || path_has(
                &self.path,
                "build",
            ));
            if inside {
                self.in_dep = true;
                self.dep_group_id = String::new();
                self.dep_artifact_id = String::new();
                self.dep_version = String::new();
                self.dep_scope = String::new();
                self.dep_optional = false;
                self.dep_exclusions = Vec::new();
                assert(exclusion_views(self.dep_exclusions@) =~= Seq::empty());
            }
        } else if is_mgmt {
            self.in_dep_mgmt = true;
        } else if is_excl {
            self.in_exclusion = true;
            self.excl_group_id = String::new();
            self.excl_artifact_id = String::new();
        } else if is_reloc {
            self.in_relocation = true;
        }
        assert(self@ =~= pom_start(old(self)@, t));
    }

    /// A closing tag.
    pub fn end(&mut self, tag: &str)
        ensures
            final(self)@ == pom_end(old(self)@, tag@),
    {
        let ghost st = self@;
        if str_eq(tag, "dependency") {
            if self.in_dep && !self.dep_group_id.as_str().is_empty()
                && !self.dep_artifact_id.as_str().is_empty() {
                let dep = Dependency {
                    module: Module { org: self.dep_group_id.clone(), name: self.dep_artifact_id.clone() },
                    version: self.dep_version.clone(),
                    scope: Scope::parse_scope(self.dep_scope.as_str()),
                    optional: self.dep_optional,
                    exclusions: crate::resolver::copy_exclusions(&self.dep_exclusions),
                    classifier: None,
                };
                assert(dep@ =~= collected_dep(st));
                if self.in_dep_mgmt {
                    self.dep_mgmt.push(dep);
                    assert(dep_views(self.dep_mgmt@) =~= st.dep_mgmt.push(collected_dep(st)));
                } else {
                    self.deps.push(dep);
                    assert(dep_views(self.deps@) =~= st.deps.push(collected_dep(st)));
                }
            }
            self.in_dep = false;
        } else if str_eq(tag, "dependencyManagement") {
            self.in_dep_mgmt = false;
        } else if str_eq(tag, "exclusion") {
            if self.in_exclusion {
                let e = Exclusion { org: self.excl_group_id.clone(), name: self.excl_artifact_id.clone() };
                let ghost ev = seq![(st.excl_group_id, st.excl_artifact_id)];
                assert(ev.drop_last() =~= Seq::<(Seq<char>, Seq<char>)>::empty());
                assert(union_exclusions(st.dep_exclusions, ev.drop_last()) == st.dep_exclusions);
                if !has_exclusion(&self.dep_exclusions, &e) {
                    self.dep_exclusions.push(e);
                    assert(exclusion_views(self.dep_exclusions@) =~= st.dep_exclusions.push(
                        ev.last(),
                    ));
                }
            }
            self.in_exclusion = false;
        } else if str_eq(tag, "relocation") {
            self.in_relocation = false;
        }
        let ghost mid = self@;
        if self.path.len() > 0 {
            self.path.pop();
            assert(str_views(self.path@) =~= mid.path.drop_last());
        }
        assert(self@ =~= pom_end(st, tag@));
    }

    /// Text (not yet trimmed) at the current path.
    pub fn text(&mut self, raw: &str)
        ensures
            trim(raw@).len() == 0 ==> final(self)@ == old(self)@,
            trim(raw@).len() > 0 ==> final(self)@ == pom_text_at(
                old(self)@,
                joined(old(self)@.path),
                trim(raw@),
            ),
    {
        let text = trim_str(raw);
        if text.as_str().is_empty() {
            return;
        }
        let ghost st = self@;
        let p = join_path(&self.path);
        let ps = p.as_str();
        if str_eq(ps, "project/groupId") {
            self.group_id = text;
        } else if str_eq(ps, "project/artifactId") {
            self.artifact_id = text;
        } else if str_eq(ps, "project/version") {
            self.version = text;
        } else if str_eq(ps, "project/packaging") {
            self.packaging = text;
        } else if str_eq(ps, "project/parent/groupId") {
            self.parent_group_id = text;
        } else if str_eq(ps, "project/parent/artifactId") {
            self.parent_artifact_id = text;
        } else if str_eq(ps, "project/parent/version") {
            self.parent_version = text;
        } else if self.in_dep && ends_with_str(ps, "/groupId") && !self.in_exclusion {
            self.dep_group_id = text;
        } else if self.in_dep && ends_with_str(ps, "/artifactId") && !self.in_exclusion {
            self.dep_artifact_id = text;
        } else if self.in_dep && ends_with_str(ps, "/version") && !self.in_exclusion {
            self.dep_version = text;
        } else if self.in_dep && ends_with_str(ps, "/scope") {
            self.dep_scope = text;
        } else if self.in_dep && ends_with_str(ps, "/optional") {
            self.dep_optional = str_eq(text.as_str(), "true");
        } else if self.in_exclusion && ends_with_str(ps, "/groupId") {
            self.excl_group_id = text;
        } else if self.in_exclusion && ends_with_str(ps, "/artifactId") {
            self.excl_artifact_id = text;
        } else if self.in_relocation && ends_with_str(ps, "/groupId") {
            self.relocation_group_id = text;
        } else if self.in_relocation && ends_with_str(ps, "/artifactId") {
            self.relocation_artifact_id = text;
        } else if self.in_relocation && ends_with_str(ps, "/version") {
            self.relocation_version = text;
        } else {
            let pc = chars_of(ps);
            let prefix = chars_of("project/properties/");
            if starts_with(pc.as_slice(), prefix.as_slice()) {
                let key = substring(pc.as_slice(), prefix.len(), pc.len());
                set_property(&mut self.properties, key.as_str(), text.as_str());
            }
        }
        assert(self@ =~= pom_text_at(st, joined(st.path), trim(raw@)));
    }

    /// One event.
    pub fn step(&mut self, ev: &XmlEvent)
        ensures
            final(self)@ == pom_step(old(self)@, ev@),
    {
        match ev {
            XmlEvent::Start(tag) => self.start(tag.clone()),
            XmlEvent::End(tag) => self.end(tag.as_str()),
            XmlEvent::Text(t) => self.text(t.as_str()),
            _ => {},
        }
    }

    /// The project that has been read.
    pub fn finish(self) -> (r: Project)
        ensures
            r@ == pom_finish(self@),
    {
        let st = self;
        let ghost sv = st@;
        let mut props = st.properties;
        if !st.group_id.as_str().is_empty() {
            set_property(&mut props, "project.groupId", st.group_id.as_str());
            set_property(&mut props, "project.version", st.version.as_str());
            set_property(&mut props, "groupId", st.group_id.as_str());
            set_property(&mut props, "version", st.version.as_str());
        }
        if !st.artifact_id.as_str().is_empty() {
            set_property(&mut props, "project.artifactId", st.artifact_id.as_str());
            set_property(&mut props, "artifactId", st.artifact_id.as_str());
        }
        if !st.parent_group_id.as_str().is_empty() {
            set_property(&mut props, "project.parent.groupId", st.parent_group_id.as_str());
        }
        if !st.parent_artifact_id.as_str().is_empty() {
            set_property(&mut props, "project.parent.artifactId", st.parent_artifact_id.as_str());
        }
        if !st.parent_version.as_str().is_empty() {
            set_property(&mut props, "project.parent.version", st.parent_version.as_str());
        }
        assert(prop_views(props@) == pom_props(sv));
        let mut deps = st.deps;
        let mut dep_mgmt = st.dep_mgmt;
        substitute_deps(&mut deps, &props);
        substitute_deps(&mut dep_mgmt, &props);
        let parent = if !st.parent_group_id.as_str().is_empty() && !st.parent_version.as_str().is_empty() {
            Some((Module { org: st.parent_group_id, name: st.parent_artifact_id }, st.parent_version))
        } else {
            None
        };
        let relocation = if !st.relocation_group_id.as_str().is_empty() {
            let d = Dependency {
                module: Module { org: st.relocation_group_id, name: st.relocation_artifact_id },
                version: st.relocation_version,
                scope: Scope::Compile,
                optional: false,
                exclusions: Vec::new(),
                classifier: None,
            };
            assert(exclusion_views(d.exclusions@) =~= Seq::empty());
            Some(d)
        } else {
            None
        };
        let packaging = if st.packaging.as_str().is_empty() {
            "jar".to_owned()
        } else {
            st.packaging
        };
        let r = Project {
            module: Module { org: st.group_id, name: st.artifact_id },
            version: st.version,
            packaging,
            parent,
            dependencies: deps,
            dependency_management: dep_mgmt,
            properties: props,
            relocation,
        };
        assert(r@ =~= pom_finish(sv));
        r
    }
}

/// The project that a POM's events describe.
pub fn pom_from_events(events: &[XmlEvent]) -> (r: Project)
    ensures
        r@ == pom_of(event_views(events@)),
{
    let ghost evs = event_views(events@);
    let mut st = PomState::new();
    let mut i: usize = 0;
    while i < events.len()
        invariant
            evs == event_views(events@),
            i <= events.len(),
            st@ == pom_fold(evs.take(i as int)),
        decreases events.len() - i,
    {
        assert(evs.take(i + 1).drop_last() =~= evs.take(i as int));
        assert(evs.take(i + 1).last() == events@[i as int]@);
        st.step(&events[i]);
        i += 1;
    }
    assert(evs.take(events.len() as int) =~= evs);
    st.finish()
}

/// Parses a POM: its coordinates, packaging, parent, dependencies, managed
/// dependencies, properties and relocation, with properties substituted in
/// the dependencies. The result is what the document's events describe; a
/// document that is not well-formed is an error.
pub fn parse_pom(xml: &str) -> (r: Result<Project, String>)
    ensures
        match reading_of(xml_events_of(xml@)) {
            Ok(evs) => r matches Ok(p) && p@ == pom_of(evs),
            Err(m) => r matches Err(e) && e@ == m,
        },
{
    match read_xml_events(xml) {
        Ok(events) => {
            let p = pom_from_events(events.as_slice());
            Ok(p)
        },
        Err(msg) => Err(msg),
    }
}

// ─── Metadata interpretation ─────────────────────────────────────────────────

/// What has been read of a `maven-metadata.xml` so far.
#[verifier::ext_equal]
pub struct MetadataView {
    pub path: Seq<Seq<char>>,
    pub latest: Option<Seq<char>>,
    pub release: Option<Seq<char>>,
    pub versions: Seq<Seq<char>>,
}

/// One event of a metadata document: the latest and release versions and
/// the listed versions are taken from their elements under `versioning`.
pub open spec fn metadata_step(st: MetadataView, ev: XmlEventView) -> MetadataView {
    match ev {
        XmlEventView::Start(tag) => MetadataView { path: st.path.push(tag), ..st },
        XmlEventView::End(_) => MetadataView {
            path: if st.path.len() > 0 {
                st.path.drop_last()
            } else {
                st.path
            },
            ..st
        },
        XmlEventView::Text(t) => {
            let text = trim(t);
            let p = joined(st.path);
            if text.len() == 0 {
                st
            } else if p == "metadata/versioning/latest"@ {
                MetadataView { latest: Some(text), ..st }
            } else if p == "metadata/versioning/release"@ {
                MetadataView { release: Some(text), ..st }
            } else if p == "metadata/versioning/versions/version"@ {
                MetadataView { versions: st.versions.push(text), ..st }
            } else {
                st
            }
        },
        _ => st,
    }
}

/// The state after a sequence of events.
pub open spec fn metadata_fold(evs: Seq<XmlEventView>) -> MetadataView
    decreases evs.len(),
{
    if evs.len() == 0 {
        MetadataView { path: Seq::empty(), latest: None, release: None, versions: Seq::empty() }
    } else {
        metadata_step(metadata_fold(evs.drop_last()), evs.last())
    }
}

/// `m` holds what a reading found.
pub open spec fn metadata_matches(m: MavenMetadata, v: MetadataView) -> bool {
    &&& crate::resolver::opt_view(m.latest) == v.latest
    &&& crate::resolver::opt_view(m.release) == v.release
    &&& str_views(m.versions@) == v.versions
}

/// The metadata that a document's events describe.
pub fn metadata_from_events(events: &[XmlEvent]) -> (r: MavenMetadata)
    ensures
        metadata_matches(r, metadata_fold(event_views(events@))),
{
    let ghost evs = event_views(events@);
    let mut path: Vec<String> = Vec::new();
    let mut latest: Option<String> = None;
    let mut release: Option<String> = None;
    let mut versions: Vec<String> = Vec::new();
    let mut i: usize = 0;
    while i < events.len()
        invariant
            evs == event_views(events@),
            i <= events.len(),
            metadata_fold(evs.take(i as int)) == (MetadataView {
                path: str_views(path@),
                latest: crate::resolver::opt_view(latest),
                release: crate::resolver::opt_view(release),
                versions: str_views(versions@),
            }),
        decreases events.len() - i,
    {
        assert(evs.take(i + 1).drop_last() =~= evs.take(i as int));
        assert(evs.take(i + 1).last() == events@[i as int]@);
        let ghost st = metadata_fold(evs.take(i as int));
        match &events[i] {
            XmlEvent::Start(tag) => {
                path.push(tag.clone());
                assert(str_views(path@) =~= st.path.push(tag@));
            },
            XmlEvent::End(_) => {
                if path.len() > 0 {
                    path.pop();
                    assert(str_views(path@) =~= st.path.drop_last());
                }
            },
            XmlEvent::Text(t) => {
                let text = trim_str(t.as_str());
                if !text.as_str().is_empty() {
                    let p = join_path(&path);
                    if str_eq(p.as_str(), "metadata/versioning/latest") {
                        latest = Some(text);
                    } else if str_eq(p.as_str(), "metadata/versioning/release") {
                        release = Some(text);
                    } else if str_eq(p.as_str(), "metadata/versioning/versions/version") {
                        let ghost tv = text@;
                        versions.push(text);
                        assert(str_views(versions@) =~= st.versions.push(tv));
                    }
                }
            },
            _ => {},
        }
        i += 1;
    }
    assert(evs.take(events.len() as int) =~= evs);
    MavenMetadata { latest, release, versions }
}

/// Parses a `maven-metadata.xml` document: the result is what its events
/// describe; a document that is not well-formed is an error.
pub fn parse_maven_metadata(xml: &str) -> (r: Result<MavenMetadata, String>)
    ensures
        match reading_of(xml_events_of(xml@)) {
            Ok(evs) => r matches Ok(m) && metadata_matches(m, metadata_fold(evs)),
            Err(msg) => r matches Err(e) && e@ == msg,
        },
{
    match read_xml_events(xml) {
        Ok(events) => {
            let m = metadata_from_events(events.as_slice());
            Ok(m)
        },
        Err(msg) => Err(msg),
    }
}

} // verus!
