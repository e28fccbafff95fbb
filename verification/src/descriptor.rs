//! The `jbx.json` publish descriptor: what it says, checked member by member,
//! and how it is settled with the script's directives and what the GitHub
//! remote of the project tells.
use vstd::prelude::*;
use crate::catalog::{json_get, json_str, strings_of, Json};
use crate::directives::strs;
use crate::directives::{Directives, DirectivesView};
use crate::publish::{
    coordinate_part, group_segments_ok, package_parts_ok, parse_gav_directive, validate_group,
    validate_package_name, validate_path_safe_coordinate_part, PublishCoordinates,
    PublishDescriptor, PublishDeveloper, PublishError, PublishErrorView, PublishLicense, PublishScm,
};
use crate::resolver::opt_view;
use crate::text::{chars_of, ends_with, has_suffix, split_on, trim, trim_str};

verus! {

// ─── Members ─────────────────────────────────────────────────────────────────

/// The text of the string member `name`, if there is one.
pub open spec fn str_member(j: Json, name: Seq<char>) -> Option<Seq<char>> {
    json_str(json_get(j, name))
}

/// A required text member: a string that is not blank, kept as written.
pub open spec fn required_text(j: Json, name: Seq<char>) -> Option<Seq<char>> {
    match str_member(j, name) {
        Some(s) => if trim(s).len() > 0 {
            Some(s)
        } else {
            None
        },
        None => None,
    }
}

/// An optional text member: a string that is not blank, trimmed.
pub open spec fn optional_text(j: Json, name: Seq<char>) -> Option<Seq<char>> {
    match str_member(j, name) {
        Some(s) => if trim(s).len() > 0 {
            Some(trim(s))
        } else {
            None
        },
        None => None,
    }
}

fn member_text(j: &Json, name: &str) -> (r: Option<String>)
    ensures
        opt_view(r) == str_member(*j, name@),
{
    match j.get(name) {
        Some(v) => match v.as_str() {
            Some(s) => Some(s.to_owned()),
            None => None,
        },
        None => None,
    }
}

/// Reads a required text member of an object.
pub fn required_object_string(object: &Json, name: &str) -> (r: Result<String, PublishError>)
    ensures
        match required_text(*object, name@) {
            Some(s) => r matches Ok(t) && t@ == s,
            None => r matches Err(e) && e@ == PublishErrorView::Required(name@),
        },
{
    match member_text(object, name) {
        Some(s) => {
            let t = trim_str(s.as_str());
            if t.as_str().is_empty() {
                Err(PublishError::Required(name.to_owned()))
            } else {
                Ok(s)
            }
        },
        None => Err(PublishError::Required(name.to_owned())),
    }
}

/// Reads an optional text member of an object, trimmed.
pub fn optional_object_string(object: &Json, name: &str) -> (r: Option<String>)
    ensures
        opt_view(r) == optional_text(*object, name@),
{
    match member_text(object, name) {
        Some(s) => {
            let t = trim_str(s.as_str());
            if t.as_str().is_empty() {
                None
            } else {
                Some(t)
            }
        },
        None => None,
    }
}

/// Every value is a string.
pub open spec fn all_strings(items: Seq<Json>) -> bool {
    forall|i: int| 0 <= i < items.len() ==> (#[trigger] items[i]) is Str
}

/// A list member: no member is an empty list; otherwise it must be an
/// array of strings.
pub open spec fn string_list_member(j: Json, name: Seq<char>) -> Result<
    Seq<Seq<char>>,
    PublishErrorView,
> {
    match json_get(j, name) {
        None => Ok(Seq::empty()),
        Some(Json::Array(items)) => if all_strings(items@) {
            Ok(strings_of(items@))
        } else {
            Err(PublishErrorView::NotStrings(name))
        },
        Some(_) => Err(PublishErrorView::NotStrings(name)),
    }
}

/// Reads a list member of the descriptor.
pub fn string_array(json: &Json, name: &str) -> (r: Result<Vec<String>, PublishError>)
    ensures
        match string_list_member(*json, name@) {
            Ok(v) => r matches Ok(l) && strs(l@) == v,
            Err(e) => r matches Err(x) && x@ == e,
        },
{
    match json.get(name) {
        None => {
            let out: Vec<String> = Vec::new();
            assert(strs(out@) =~= Seq::<Seq<char>>::empty());
            Ok(out)
        },
        Some(Json::Array(items)) => {
            let mut out: Vec<String> = Vec::new();
            let mut i: usize = 0;
            while i < items.len()
                invariant
                    json_get(*json, name@) == Some(Json::Array(*items)),
                    i <= items.len(),
                    all_strings(items@.take(i as int)),
                    strs(out@) == strings_of(items@.take(i as int)),
                decreases items.len() - i,
            {
                assert(items@.take(i + 1).drop_last() =~= items@.take(i as int));
                match &items[i] {
                    Json::Str(s) => {
                        let ghost before = strs(out@);
                        out.push(s.clone());
                        assert(strs(out@) =~= before.push(s@));
                        assert forall|k: int| 0 <= k < i + 1 implies (#[trigger] items@.take(
                            i + 1,
                        )[k]) is Str by {
                            if k < i {
                                assert(items@.take(i + 1)[k] == items@.take(i as int)[k]);
                            }
                        }
                    },
                    _ => {
                        assert(!all_strings(items@)) by {
                            assert(!(items@[i as int] is Str));
                        }
                        return Err(PublishError::NotStrings(name.to_owned()));
                    },
                }
                i += 1;
            }
            assert(items@.take(items.len() as int) =~= items@);
            Ok(out)
        },
        Some(_) => Err(PublishError::NotStrings(name.to_owned())),
    }
}

// ─── Coordinates ─────────────────────────────────────────────────────────────

/// Coordinates as group, artifact id and version.
pub open spec fn coordinates_view(c: PublishCoordinates) -> (Seq<char>, Seq<char>, Seq<char>) {
    (c.group@, c.id@, c.version@)
}

/// The coordinates of a descriptor: `group`, `id` and `version`, each a
/// string, each required in that order.
pub open spec fn descriptor_coordinates(j: Json) -> Result<
    (Seq<char>, Seq<char>, Seq<char>),
    PublishErrorView,
> {
    match str_member(j, "group"@) {
        None => Err(PublishErrorView::Required("group"@)),
        Some(g) => match str_member(j, "id"@) {
            None => Err(PublishErrorView::Required("id"@)),
            Some(a) => match str_member(j, "version"@) {
                None => Err(PublishErrorView::Required("version"@)),
                Some(v) => Ok((g, a, v)),
            },
        },
    }
}

/// Reads the coordinates of a descriptor.
pub fn parse_descriptor_coordinates(json: &Json) -> (r: Result<PublishCoordinates, PublishError>)
    ensures
        match descriptor_coordinates(*json) {
            Ok(c) => r matches Ok(x) && coordinates_view(x) == c,
            Err(e) => r matches Err(x) && x@ == e,
        },
{
    let group = match member_text(json, "group") {
        Some(g) => g,
        None => return Err(PublishError::Required("group".to_owned())),
    };
    let id = match member_text(json, "id") {
        Some(a) => a,
        None => return Err(PublishError::Required("id".to_owned())),
    };
    let version = match member_text(json, "version") {
        Some(v) => v,
        None => return Err(PublishError::Required("version".to_owned())),
    };
    Ok(PublishCoordinates { group, id, version })
}

// ─── Licenses, developers, SCM ───────────────────────────────────────────────

/// A license as name and URL.
pub open spec fn license_view(l: PublishLicense) -> (Seq<char>, Seq<char>) {
    (l.name@, l.url@)
}

/// Licenses as names and URLs.
pub open spec fn license_views(ls: Seq<PublishLicense>) -> Seq<(Seq<char>, Seq<char>)> {
    ls.map_values(|l: PublishLicense| license_view(l))
}

/// A developer as name, e-mail, organization and organization URL.
pub open spec fn developer_view(d: PublishDeveloper) -> (
    Seq<char>,
    Option<Seq<char>>,
    Option<Seq<char>>,
    Option<Seq<char>>,
) {
    (d.name@, opt_view(d.email), opt_view(d.organization), opt_view(d.organization_url))
}

/// Developers as names, e-mails, organizations and organization URLs.
pub open spec fn developer_views(ds: Seq<PublishDeveloper>) -> Seq<
    (Seq<char>, Option<Seq<char>>, Option<Seq<char>>, Option<Seq<char>>),
> {
    ds.map_values(|d: PublishDeveloper| developer_view(d))
}

/// SCM metadata as connection, developer connection and URL.
pub open spec fn scm_view(s: PublishScm) -> (Seq<char>, Option<Seq<char>>, Seq<char>) {
    (s.connection@, opt_view(s.developer_connection), s.url@)
}

/// Optional SCM metadata, viewed.
pub open spec fn opt_scm_view(s: Option<PublishScm>) -> Option<
    (Seq<char>, Option<Seq<char>>, Seq<char>),
> {
    match s {
        Some(x) => Some(scm_view(x)),
        None => None,
    }
}

/// One license entry: `name` then `url`, both required.
pub open spec fn license_entry(j: Json) -> Result<(Seq<char>, Seq<char>), PublishErrorView> {
    match required_text(j, "name"@) {
        None => Err(PublishErrorView::Required("name"@)),
        Some(n) => match required_text(j, "url"@) {
            None => Err(PublishErrorView::Required("url"@)),
            Some(u) => Ok((n, u)),
        },
    }
}

/// Entries of an array, each read by `f`, in order; the first refused entry
/// decides.
pub open spec fn entries_of<T>(
    items: Seq<Json>,
    f: spec_fn(Json) -> Result<T, PublishErrorView>,
) -> Result<Seq<T>, PublishErrorView>
    decreases items.len(),
{
    if items.len() == 0 {
        Ok(Seq::empty())
    } else {
        match entries_of(items.drop_last(), f) {
            Err(e) => Err(e),
            Ok(ls) => match f(items.last()) {
                Err(e) => Err(e),
                Ok(l) => Ok(ls.push(l)),
            },
        }
    }
}

/// License entries, in order.
pub open spec fn license_entries(items: Seq<Json>) -> Result<
    Seq<(Seq<char>, Seq<char>)>,
    PublishErrorView,
> {
    entries_of(items, |j: Json| license_entry(j))
}

/// The `licenses` member: none when missing, else an array of entries.
pub open spec fn descriptor_licenses(j: Json) -> Result<
    Seq<(Seq<char>, Seq<char>)>,
    PublishErrorView,
> {
    match json_get(j, "licenses"@) {
        None => Ok(Seq::empty()),
        Some(Json::Array(items)) => license_entries(items@),
        Some(_) => Err(PublishErrorView::NotObjects("licenses"@)),
    }
}

/// Reads the licenses of a descriptor.
pub fn parse_descriptor_licenses(json: &Json) -> (r: Result<Vec<PublishLicense>, PublishError>)
    ensures
        match descriptor_licenses(*json) {
            Ok(v) => r matches Ok(l) && license_views(l@) == v,
            Err(e) => r matches Err(x) && x@ == e,
        },
{
    match json.get("licenses") {
        None => {
            let out: Vec<PublishLicense> = Vec::new();
            assert(license_views(out@) =~= Seq::<(Seq<char>, Seq<char>)>::empty());
            Ok(out)
        },
        Some(Json::Array(items)) => {
            let mut out: Vec<PublishLicense> = Vec::new();
            let mut i: usize = 0;
            assert(license_views(out@) =~= Seq::<(Seq<char>, Seq<char>)>::empty());
            while i < items.len()
                invariant
                    json_get(*json, "licenses"@) == Some(Json::Array(*items)),
                    i <= items.len(),
                    license_entries(items@.take(i as int)) == Ok::<
                        Seq<(Seq<char>, Seq<char>)>,
                        PublishErrorView,
                    >(license_views(out@)),
                decreases items.len() - i,
            {
                assert(items@.take(i + 1).drop_last() =~= items@.take(i as int));
                assert(items@.take(i + 1).last() == items@[i as int]);
                let name = match required_object_string(&items[i], "name") {
                    Ok(n) => n,
                    Err(e) => {
                        proof { lemma_entries_refused(items@, |j: Json| license_entry(j), i as int); }
                        return Err(e);
                    },
                };
                let url = match required_object_string(&items[i], "url") {
                    Ok(u) => u,
                    Err(e) => {
                        proof { lemma_entries_refused(items@, |j: Json| license_entry(j), i as int); }
                        return Err(e);
                    },
                };
                let ghost before = license_views(out@);
                out.push(PublishLicense { name, url });
                assert(license_views(out@) =~= before.push((name@, url@)));
                i += 1;
            }
            assert(items@.take(items.len() as int) =~= items@);
            Ok(out)
        },
        Some(_) => Err(PublishError::NotObjects("licenses".to_owned())),
    }
}

/// A refused entry decides the reading of every longer prefix.
pub proof fn lemma_entries_refused<T>(
    items: Seq<Json>,
    f: spec_fn(Json) -> Result<T, PublishErrorView>,
    i: int,
)
    requires
        0 <= i < items.len(),
        entries_of(items.take(i), f) is Ok,
        f(items[i]) is Err,
    ensures
        entries_of(items, f) == Err::<Seq<T>, PublishErrorView>(f(items[i])->Err_0),
{
    lemma_entries_refused_upto(items, f, i, items.len() as int);
    assert(items.take(items.len() as int) =~= items);
}

proof fn lemma_entries_refused_upto<T>(
    items: Seq<Json>,
    f: spec_fn(Json) -> Result<T, PublishErrorView>,
    i: int,
    k: int,
)
    requires
        0 <= i < k <= items.len(),
        entries_of(items.take(i), f) is Ok,
        f(items[i]) is Err,
    ensures
        entries_of(items.take(k), f) == Err::<Seq<T>, PublishErrorView>(f(items[i])->Err_0),
    decreases k,
{
    assert(items.take(k).drop_last() =~= items.take(k - 1));
    if k > i + 1 {
        lemma_entries_refused_upto(items, f, i, k - 1);
    }
}

/// One developer entry: `name` required; `email`, `organization` and
/// `organizationUrl` optional.
pub open spec fn developer_entry(j: Json) -> Result<
    (Seq<char>, Option<Seq<char>>, Option<Seq<char>>, Option<Seq<char>>),
    PublishErrorView,
> {
    match required_text(j, "name"@) {
        None => Err(PublishErrorView::Required("name"@)),
        Some(n) => Ok(
            (
                n,
                optional_text(j, "email"@),
                optional_text(j, "organization"@),
                optional_text(j, "organizationUrl"@),
            ),
        ),
    }
}

/// The `developers` member: none when missing, else an array of entries.
pub open spec fn descriptor_developers(j: Json) -> Result<
    Seq<(Seq<char>, Option<Seq<char>>, Option<Seq<char>>, Option<Seq<char>>)>,
    PublishErrorView,
> {
    match json_get(j, "developers"@) {
        None => Ok(Seq::empty()),
        Some(Json::Array(items)) => entries_of(items@, |e: Json| developer_entry(e)),
        Some(_) => Err(PublishErrorView::NotObjects("developers"@)),
    }
}

/// Reads the developers of a descriptor.
pub fn parse_descriptor_developers(json: &Json) -> (r: Result<Vec<PublishDeveloper>, PublishError>)
    ensures
        match descriptor_developers(*json) {
            Ok(v) => r matches Ok(l) && developer_views(l@) == v,
            Err(e) => r matches Err(x) && x@ == e,
        },
{
    let ghost f = |e: Json| developer_entry(e);
    match json.get("developers") {
        None => {
            let out: Vec<PublishDeveloper> = Vec::new();
            assert(developer_views(out@) =~= Seq::empty());
            Ok(out)
        },
        Some(Json::Array(items)) => {
            let mut out: Vec<PublishDeveloper> = Vec::new();
            let mut i: usize = 0;
            assert(developer_views(out@) =~= Seq::empty());
            while i < items.len()
                invariant
                    json_get(*json, "developers"@) == Some(Json::Array(*items)),
                    f == (|e: Json| developer_entry(e)),
                    i <= items.len(),
                    entries_of(items@.take(i as int), f) == Ok::<
                        Seq<(Seq<char>, Option<Seq<char>>, Option<Seq<char>>, Option<Seq<char>>)>,
                        PublishErrorView,
                    >(developer_views(out@)),
                decreases items.len() - i,
            {
                assert(items@.take(i + 1).drop_last() =~= items@.take(i as int));
                assert(items@.take(i + 1).last() == items@[i as int]);
                let name = match required_object_string(&items[i], "name") {
                    Ok(n) => n,
                    Err(e) => {
                        proof { lemma_entries_refused(items@, f, i as int); }
                        return Err(e);
                    },
                };
                let email = optional_object_string(&items[i], "email");
                let organization = optional_object_string(&items[i], "organization");
                let organization_url = optional_object_string(&items[i], "organizationUrl");
                let ghost before = developer_views(out@);
                let d = PublishDeveloper { name, email, organization, organization_url };
                let ghost dv = developer_view(d);
                out.push(d);
                assert(developer_views(out@) =~= before.push(dv));
                i += 1;
            }
            assert(items@.take(items.len() as int) =~= items@);
            Ok(out)
        },
        Some(_) => Err(PublishError::NotObjects("developers".to_owned())),
    }
}

/// The `scm` member: none when missing; else `connection` required,
/// `developerConnection` optional, `url` required.
pub open spec fn descriptor_scm(j: Json) -> Result<
    Option<(Seq<char>, Option<Seq<char>>, Seq<char>)>,
    PublishErrorView,
> {
    match json_get(j, "scm"@) {
        None => Ok(None),
        Some(v) => match required_text(v, "connection"@) {
            None => Err(PublishErrorView::Required("connection"@)),
            Some(c) => match required_text(v, "url"@) {
                None => Err(PublishErrorView::Required("url"@)),
                Some(u) => Ok(Some((c, optional_text(v, "developerConnection"@), u))),
            },
        },
    }
}

/// Reads the SCM metadata of a descriptor.
pub fn parse_descriptor_scm(json: &Json) -> (r: Result<Option<PublishScm>, PublishError>)
    ensures
        match descriptor_scm(*json) {
            Ok(v) => r matches Ok(s) && opt_scm_view(s) == v,
            Err(e) => r matches Err(x) && x@ == e,
        },
{
    match json.get("scm") {
        None => Ok(None),
        Some(value) => {
            let connection = required_object_string(value, "connection")?;
            let developer_connection = optional_object_string(value, "developerConnection");
            let url = required_object_string(value, "url")?;
            Ok(Some(PublishScm { connection, developer_connection, url }))
        },
    }
}

// ─── The descriptor ──────────────────────────────────────────────────────────

/// What a `jbx.json` descriptor gives.
pub struct DescriptorFields {
    /// The `main` member: the script to publish, as written.
    pub main: Option<String>,
    pub coordinates: Option<PublishCoordinates>,
    pub package_name: Option<String>,
    pub name: Option<String>,
    pub description: Option<String>,
    pub url: Option<String>,
    pub licenses: Vec<PublishLicense>,
    pub developers: Vec<PublishDeveloper>,
    pub scm: Option<PublishScm>,
    pub java_version: Option<String>,
    pub deps: Vec<String>,
    pub sources: Vec<String>,
    /// Whether the descriptor has a `sources` member at all.
    pub sources_present: bool,
    pub repos: Vec<String>,
}

/// What a descriptor gives, with texts as character sequences.
#[verifier::ext_equal]
pub struct DescriptorFieldsView {
    pub main: Option<Seq<char>>,
    pub coordinates: Option<(Seq<char>, Seq<char>, Seq<char>)>,
    pub package_name: Option<Seq<char>>,
    pub name: Option<Seq<char>>,
    pub description: Option<Seq<char>>,
    pub url: Option<Seq<char>>,
    pub licenses: Seq<(Seq<char>, Seq<char>)>,
    pub developers: Seq<(Seq<char>, Option<Seq<char>>, Option<Seq<char>>, Option<Seq<char>>)>,
    pub scm: Option<(Seq<char>, Option<Seq<char>>, Seq<char>)>,
    pub java_version: Option<Seq<char>>,
    pub deps: Seq<Seq<char>>,
    pub sources: Seq<Seq<char>>,
    pub sources_present: bool,
    pub repos: Seq<Seq<char>>,
}

/// Optional coordinates, viewed.
pub open spec fn opt_coordinates_view(c: Option<PublishCoordinates>) -> Option<
    (Seq<char>, Seq<char>, Seq<char>),
> {
    match c {
        Some(x) => Some(coordinates_view(x)),
        None => None,
    }
}

impl View for DescriptorFields {
    type V = DescriptorFieldsView;

    open spec fn view(&self) -> DescriptorFieldsView {
        DescriptorFieldsView {
            main: opt_view(self.main),
            coordinates: opt_coordinates_view(self.coordinates),
            package_name: opt_view(self.package_name),
            name: opt_view(self.name),
            description: opt_view(self.description),
            url: opt_view(self.url),
            licenses: license_views(self.licenses@),
            developers: developer_views(self.developers@),
            scm: opt_scm_view(self.scm),
            java_version: opt_view(self.java_version),
            deps: strs(self.deps@),
            sources: strs(self.sources@),
            sources_present: self.sources_present,
            repos: strs(self.repos@),
        }
    }
}

/// Whether a descriptor names any coordinate: `group`, `id` or `version`.
pub open spec fn names_coordinates(j: Json) -> bool {
    json_get(j, "group"@) is Some || json_get(j, "id"@) is Some || json_get(j, "version"@) is Some
}

/// What a descriptor gives, or the first refusal: coordinates (when it names
/// any), licenses, developers, SCM, dependencies, sources, repositories.
pub open spec fn descriptor_fields(j: Json) -> Result<DescriptorFieldsView, PublishErrorView> {
    if names_coordinates(j) && descriptor_coordinates(j) is Err {
        Err(descriptor_coordinates(j)->Err_0)
    } else if descriptor_licenses(j) is Err {
        Err(descriptor_licenses(j)->Err_0)
    } else if descriptor_developers(j) is Err {
        Err(descriptor_developers(j)->Err_0)
    } else if descriptor_scm(j) is Err {
        Err(descriptor_scm(j)->Err_0)
    } else if string_list_member(j, "dependencies"@) is Err {
        Err(string_list_member(j, "dependencies"@)->Err_0)
    } else if string_list_member(j, "sources"@) is Err {
        Err(string_list_member(j, "sources"@)->Err_0)
    } else if string_list_member(j, "repositories"@) is Err {
        Err(string_list_member(j, "repositories"@)->Err_0)
    } else {
        Ok(
            DescriptorFieldsView {
                main: str_member(j, "main"@),
                coordinates: if names_coordinates(j) {
                    Some(descriptor_coordinates(j)->Ok_0)
                } else {
                    None
                },
                package_name: str_member(j, "package"@),
                name: str_member(j, "name"@),
                description: str_member(j, "description"@),
                url: str_member(j, "url"@),
                licenses: descriptor_licenses(j)->Ok_0,
                developers: descriptor_developers(j)->Ok_0,
                scm: descriptor_scm(j)->Ok_0,
                java_version: str_member(j, "java"@),
                deps: string_list_member(j, "dependencies"@)->Ok_0,
                sources: string_list_member(j, "sources"@)->Ok_0,
                sources_present: json_get(j, "sources"@) is Some,
                repos: string_list_member(j, "repositories"@)->Ok_0,
            },
        )
    }
}

/// Reads a `jbx.json` descriptor.
pub fn read_descriptor_fields(json: &Json) -> (r: Result<DescriptorFields, PublishError>)
    ensures
        match descriptor_fields(*json) {
            Ok(v) => r matches Ok(f) && f@ == v,
            Err(e) => r matches Err(x) && x@ == e,
        },
{
    let main = member_text(json, "main");
    let coordinates = if json.get("group").is_some() || json.get("id").is_some() || json.get(
        "version",
    ).is_some() {
        Some(parse_descriptor_coordinates(json)?)
    } else {
        None
    };
    let package_name = member_text(json, "package");
    let name = member_text(json, "name");
    let description = member_text(json, "description");
    let url = member_text(json, "url");
    let licenses = parse_descriptor_licenses(json)?;
    let developers = parse_descriptor_developers(json)?;
    let scm = parse_descriptor_scm(json)?;
    let java_version = member_text(json, "java");
    let deps = string_array(json, "dependencies")?;
    let sources_present = json.get("sources").is_some();
    let sources = string_array(json, "sources")?;
    let repos = string_array(json, "repositories")?;
    let fields = DescriptorFields {
        main,
        coordinates,
        package_name,
        name,
        description,
        url,
        licenses,
        developers,
        scm,
        java_version,
        deps,
        sources,
        sources_present,
        repos,
    };
    assert(fields@ =~= descriptor_fields(*json)->Ok_0);
    Ok(fields)
}

// ─── What the GitHub remote tells ────────────────────────────────────────────

/// Publishing metadata taken from the project's GitHub repository.
pub struct InferredPublishMetadata {
    pub url: Option<String>,
    pub license: Option<PublishLicense>,
    pub developer: Option<PublishDeveloper>,
    pub scm: Option<PublishScm>,
}

/// A GitHub license (`licenseInfo`): its non-empty `name`, and the SPDX page
/// of its non-empty `spdxId`, else the Open Source Initiative's list.
pub open spec fn github_license(j: Json) -> Option<(Seq<char>, Seq<char>)> {
    match str_member(j, "name"@) {
        Some(n) => if n.len() > 0 {
            Some(
                (
                    n,
                    match str_member(j, "spdxId"@) {
                        Some(id) => if id.len() > 0 {
                            "https://spdx.org/licenses/"@ + id + ".html"@
                        } else {
                            "https://opensource.org/licenses"@
                        },
                        None => "https://opensource.org/licenses"@,
                    },
                ),
            )
        } else {
            None
        },
        None => None,
    }
}

/// Optional license, viewed.
pub open spec fn opt_license(l: Option<PublishLicense>) -> Option<(Seq<char>, Seq<char>)> {
    match l {
        Some(x) => Some(license_view(x)),
        None => None,
    }
}

/// Optional developer, viewed.
pub open spec fn opt_developer(d: Option<PublishDeveloper>) -> Option<
    (Seq<char>, Option<Seq<char>>, Option<Seq<char>>, Option<Seq<char>>),
> {
    match d {
        Some(x) => Some(developer_view(x)),
        None => None,
    }
}

/// Reads the license of a GitHub repository.
pub fn github_license_from_json(value: &Json) -> (r: Option<PublishLicense>)
    ensures
        opt_license(r) == github_license(*value),
{
    let name = match member_text(value, "name") {
        Some(n) => n,
        None => return None,
    };
    if name.as_str().is_empty() {
        return None;
    }
    let url = match member_text(value, "spdxId") {
        Some(id) => if id.as_str().is_empty() {
            "https://opensource.org/licenses".to_owned()
        } else {
            let mut u = "https://spdx.org/licenses/".to_owned();
            u.append(id.as_str());
            u.append(".html");
            u
        },
        None => "https://opensource.org/licenses".to_owned(),
    };
    Some(PublishLicense { name, url })
}

/// A GitHub repository owner: its non-empty `login` as the developer's name,
/// with the owner's GitHub page as organization URL.
pub open spec fn github_developer(j: Json) -> Option<
    (Seq<char>, Option<Seq<char>>, Option<Seq<char>>, Option<Seq<char>>),
> {
    match str_member(j, "login"@) {
        Some(login) => if login.len() > 0 {
            Some((login, None, None, Some("https://github.com/"@ + login)))
        } else {
            None
        },
        None => None,
    }
}

/// Reads the owner of a GitHub repository as a developer.
pub fn github_developer_from_owner(value: &Json) -> (r: Option<PublishDeveloper>)
    ensures
        opt_developer(r) == github_developer(*value),
{
    let login = match member_text(value, "login") {
        Some(l) => l,
        None => return None,
    };
    if login.as_str().is_empty() {
        return None;
    }
    let mut page = "https://github.com/".to_owned();
    page.append(login.as_str());
    Some(PublishDeveloper { name: login, email: None, organization: None, organization_url: Some(page) })
}

/// Metadata inferred from a GitHub repository `owner/repo`: its page as URL,
/// its git URLs as SCM, and, where `gh repo view` answered, the URL, the
/// license and the owner it reported.
pub open spec fn github_metadata(repo: Seq<char>, gh: Option<Json>) -> (
    Option<Seq<char>>,
    Option<(Seq<char>, Seq<char>)>,
    Option<(Seq<char>, Option<Seq<char>>, Option<Seq<char>>, Option<Seq<char>>)>,
    Option<(Seq<char>, Option<Seq<char>>, Seq<char>)>,
) {
    let page = "https://github.com/"@ + repo;
    let scm = Some(
        (
            "scm:git:https://github.com/"@ + repo + ".git"@,
            Some("scm:git:ssh://git@github.com/"@ + repo + ".git"@),
            page,
        ),
    );
    match gh {
        None => (Some(page), None, None, scm),
        Some(j) => (
            match str_member(j, "url"@) {
                Some(u) => Some(u),
                None => Some(page),
            },
            match json_get(j, "licenseInfo"@) {
                Some(l) => github_license(l),
                None => None,
            },
            match json_get(j, "owner"@) {
                Some(o) => github_developer(o),
                None => None,
            },
            scm,
        ),
    }
}

/// Inferred metadata, viewed.
pub open spec fn inferred_view(m: InferredPublishMetadata) -> (
    Option<Seq<char>>,
    Option<(Seq<char>, Seq<char>)>,
    Option<(Seq<char>, Option<Seq<char>>, Option<Seq<char>>, Option<Seq<char>>)>,
    Option<(Seq<char>, Option<Seq<char>>, Seq<char>)>,
) {
    (opt_view(m.url), opt_license(m.license), opt_developer(m.developer), opt_scm_view(m.scm))
}

/// The metadata of a GitHub repository `owner/repo`, given what `gh repo
/// view` answered, if it did.
pub fn github_publish_metadata(repo: &str, gh: Option<&Json>) -> (r: InferredPublishMetadata)
    ensures
        inferred_view(r) == github_metadata(
            repo@,
            match gh {
                Some(j) => Some(*j),
                None => None,
            },
        ),
{
    let mut page = "https://github.com/".to_owned();
    page.append(repo);
    let mut connection = "scm:git:https://github.com/".to_owned();
    connection.append(repo);
    connection.append(".git");
    let mut developer_connection = "scm:git:ssh://git@github.com/".to_owned();
    developer_connection.append(repo);
    developer_connection.append(".git");
    let scm = PublishScm {
        connection,
        developer_connection: Some(developer_connection),
        url: page.clone(),
    };
    match gh {
        None => InferredPublishMetadata { url: Some(page), license: None, developer: None, scm: Some(scm) },
        Some(j) => {
            let url = match member_text(j, "url") {
                Some(u) => Some(u),
                None => Some(page),
            };
            let license = match j.get("licenseInfo") {
                Some(l) => github_license_from_json(l),
                None => None,
            };
            let developer = match j.get("owner") {
                Some(o) => github_developer_from_owner(o),
                None => None,
            };
            InferredPublishMetadata { url, license, developer, scm: Some(scm) }
        },
    }
}

// ─── Settling what is published ──────────────────────────────────────────────

/// What is published, with texts as character sequences (the script and the
/// descriptor's directory aside).
#[verifier::ext_equal]
pub struct PublishDescriptorView {
    pub coordinates: (Seq<char>, Seq<char>, Seq<char>),
    pub package_name: Option<Seq<char>>,
    pub name: Option<Seq<char>>,
    pub description: Option<Seq<char>>,
    pub url: Option<Seq<char>>,
    pub licenses: Seq<(Seq<char>, Seq<char>)>,
    pub developers: Seq<(Seq<char>, Option<Seq<char>>, Option<Seq<char>>, Option<Seq<char>>)>,
    pub scm: Option<(Seq<char>, Option<Seq<char>>, Seq<char>)>,
    pub java_version: Option<Seq<char>>,
    pub deps: Seq<Seq<char>>,
    pub sources: Seq<Seq<char>>,
    pub auto_discover_sources: bool,
    pub repos: Seq<Seq<char>>,
}

/// A publish descriptor, viewed.
pub open spec fn publish_descriptor_view(d: PublishDescriptor) -> PublishDescriptorView {
    PublishDescriptorView {
        coordinates: coordinates_view(d.coordinates),
        package_name: opt_view(d.package_name),
        name: opt_view(d.name),
        description: opt_view(d.description),
        url: opt_view(d.url),
        licenses: license_views(d.licenses@),
        developers: developer_views(d.developers@),
        scm: opt_scm_view(d.scm),
        java_version: opt_view(d.java_version),
        deps: strs(d.deps@),
        sources: strs(d.sources@),
        auto_discover_sources: d.auto_discover_sources,
        repos: strs(d.repos@),
    }
}

/// What no descriptor gives.
pub open spec fn no_descriptor_fields() -> DescriptorFieldsView {
    DescriptorFieldsView {
        main: None,
        coordinates: None,
        package_name: None,
        name: None,
        description: None,
        url: None,
        licenses: Seq::empty(),
        developers: Seq::empty(),
        scm: None,
        java_version: None,
        deps: Seq::empty(),
        sources: Seq::empty(),
        sources_present: false,
        repos: Seq::empty(),
    }
}

/// The coordinates: the descriptor's, else those of a `//GAV` directive
/// (refused unless it is `group:artifact:version`), else none.
pub open spec fn merged_coordinates(
    coordinates: Option<(Seq<char>, Seq<char>, Seq<char>)>,
    gav: Option<Seq<char>>,
) -> Result<Option<(Seq<char>, Seq<char>, Seq<char>)>, PublishErrorView> {
    match coordinates {
        Some(c) => Ok(Some(c)),
        None => match gav {
            None => Ok(None),
            Some(raw) => {
                let parts = split_on(raw, seq![':']);
                if parts.len() == 3 {
                    Ok(Some((parts[0], parts[1], parts[2])))
                } else {
                    Err(PublishErrorView::BadGav(raw))
                }
            },
        },
    }
}

/// A coordinate part that is also a safe path segment.
pub open spec fn path_safe_part(s: Seq<char>) -> bool {
    coordinate_part(s) && s != "."@ && s != ".."@
}

/// The first thing wrong with settled coordinates and package name, in the
/// order they are checked: group, artifact id, version, package name, and a
/// `-SNAPSHOT` version.
pub open spec fn coordinates_refusal(
    c: (Seq<char>, Seq<char>, Seq<char>),
    package: Option<Seq<char>>,
) -> Option<PublishErrorView> {
    if !coordinate_part(c.0) {
        Some(PublishErrorView::InvalidPart("group"@, c.0))
    } else if !group_segments_ok(c.0) {
        Some(PublishErrorView::InvalidGroup(c.0))
    } else if !path_safe_part(c.1) {
        Some(PublishErrorView::InvalidPart("id"@, c.1))
    } else if !path_safe_part(c.2) {
        Some(PublishErrorView::InvalidPart("version"@, c.2))
    } else if package is Some && !package_parts_ok(package->0) {
        Some(PublishErrorView::InvalidPackage(package->0))
    } else if has_suffix(c.2, "-SNAPSHOT"@) {
        Some(PublishErrorView::Snapshot)
    } else {
        None
    }
}

/// The first metadata that Maven Central needs and that is missing: a URL
/// that is not blank, a license, a developer, SCM metadata.
pub open spec fn metadata_refusal(
    url: Option<Seq<char>>,
    licenses: nat,
    developers: nat,
    has_scm: bool,
) -> Option<PublishErrorView> {
    if !(url is Some && trim(url->0).len() > 0) {
        Some(PublishErrorView::MissingMetadata("url"@))
    } else if licenses == 0 {
        Some(PublishErrorView::NoLicense)
    } else if developers == 0 {
        Some(PublishErrorView::NoDeveloper)
    } else if !has_scm {
        Some(PublishErrorView::NoScm)
    } else {
        None
    }
}

/// The first of two optional values that is there.
pub open spec fn first_of<T>(a: Option<T>, b: Option<T>) -> Option<T> {
    match a {
        Some(x) => Some(x),
        None => b,
    }
}

/// An optional value as a list of none or one.
pub open spec fn opt_list<T>(a: Option<T>) -> Seq<T> {
    match a {
        Some(x) => seq![x],
        None => Seq::empty(),
    }
}

/// A list, or the fallback when it is empty.
pub open spec fn or_list<T>(a: Seq<T>, b: Seq<T>) -> Seq<T> {
    if a.len() == 0 {
        b
    } else {
        a
    }
}

/// What is published, settled from the descriptor `f`, the directives `d` of
/// the script, the metadata `g` of its GitHub repository, a version and a
/// package name given on the command line, and whether Maven Central's
/// metadata rules apply (`strict`).
///
/// The descriptor wins; directives fill in coordinates, description, Java
/// version, dependencies, sources and repositories; GitHub fills in URL,
/// license, developer and SCM. The command line's version and package name
/// override. The name defaults to `group:id`, the description to
/// `<id> published with jbx`; sources are discovered unless the descriptor
/// has a `sources` member.
pub open spec fn settled_descriptor(
    f: DescriptorFieldsView,
    d: DirectivesView,
    g: Option<
        (
            Option<Seq<char>>,
            Option<(Seq<char>, Seq<char>)>,
            Option<(Seq<char>, Option<Seq<char>>, Option<Seq<char>>, Option<Seq<char>>)>,
            Option<(Seq<char>, Option<Seq<char>>, Seq<char>)>,
        ),
    >,
    version: Option<Seq<char>>,
    package: Option<Seq<char>>,
    strict: bool,
) -> Result<PublishDescriptorView, PublishErrorView> {
    match merged_coordinates(f.coordinates, d.gav) {
        Err(e) => Err(e),
        Ok(None) => Err(PublishErrorView::NoCoordinates),
        Ok(Some(c0)) => {
            let c = match version {
                Some(v) => (c0.0, c0.1, v),
                None => c0,
            };
            let package_name = first_of(package, f.package_name);
            let url = first_of(f.url, match g { Some(m) => m.0, None => None });
            let licenses = or_list(f.licenses, opt_list(match g { Some(m) => m.1, None => None }));
            let developers = or_list(
                f.developers,
                opt_list(match g { Some(m) => m.2, None => None }),
            );
            let scm = first_of(f.scm, match g { Some(m) => m.3, None => None });
            if coordinates_refusal(c, package_name) is Some {
                Err(coordinates_refusal(c, package_name)->0)
            } else if strict && metadata_refusal(url, licenses.len(), developers.len(), scm is Some) is Some {
                Err(metadata_refusal(url, licenses.len(), developers.len(), scm is Some)->0)
            } else {
                Ok(
                    PublishDescriptorView {
                        coordinates: c,
                        package_name,
                        name: Some(first_of(f.name, Some(c.0 + ":"@ + c.1))->0),
                        description: Some(
                            first_of(
                                first_of(f.description, d.description),
                                Some(c.1 + " published with jbx"@),
                            )->0,
                        ),
                        url,
                        licenses,
                        developers,
                        scm,
                        java_version: first_of(f.java_version, d.java_version),
                        deps: or_list(f.deps, d.deps),
                        sources: or_list(f.sources, d.sources),
                        auto_discover_sources: !f.sources_present,
                        repos: or_list(f.repos, d.repos),
                    },
                )
            }
        },
    }
}

fn merge_coordinates(coordinates: Option<PublishCoordinates>, gav: &Option<String>) -> (r: Result<
    Option<PublishCoordinates>,
    PublishError,
>)
    ensures
        match merged_coordinates(opt_coordinates_view(coordinates), opt_view(*gav)) {
            Ok(c) => r matches Ok(x) && opt_coordinates_view(x) == c,
            Err(e) => r matches Err(x) && x@ == e,
        },
{
    match coordinates {
        Some(c) => Ok(Some(c)),
        None => match gav {
            None => Ok(None),
            Some(raw) => match parse_gav_directive(raw.as_str()) {
                Ok(c) => Ok(Some(c)),
                Err(e) => Err(e),
            },
        },
    }
}

fn check_coordinates(c: &PublishCoordinates, package: &Option<String>) -> (r: Result<(), PublishError>)
    ensures
        match coordinates_refusal(coordinates_view(*c), opt_view(*package)) {
            Some(e) => r matches Err(x) && x@ == e,
            None => r is Ok,
        },
{
    validate_group(c.group.as_str())?;
    validate_path_safe_coordinate_part(c.id.as_str(), "id")?;
    validate_path_safe_coordinate_part(c.version.as_str(), "version")?;
    match package {
        Some(p) => validate_package_name(p.as_str())?,
        None => {},
    }
    let v = chars_of(c.version.as_str());
    let snapshot = chars_of("-SNAPSHOT");
    if ends_with(v.as_slice(), snapshot.as_slice()) {
        return Err(PublishError::Snapshot);
    }
    Ok(())
}

fn check_metadata(url: &Option<String>, licenses: usize, developers: usize, has_scm: bool) -> (r:
    Result<(), PublishError>)
    ensures
        match metadata_refusal(opt_view(*url), licenses as nat, developers as nat, has_scm) {
            Some(e) => r matches Err(x) && x@ == e,
            None => r is Ok,
        },
{
    let blank = match url {
        Some(u) => trim_str(u.as_str()).as_str().is_empty(),
        None => true,
    };
    if blank {
        return Err(PublishError::MissingMetadata("url".to_owned()));
    }
    if licenses == 0 {
        return Err(PublishError::NoLicense);
    }
    if developers == 0 {
        return Err(PublishError::NoDeveloper);
    }
    if !has_scm {
        return Err(PublishError::NoScm);
    }
    Ok(())
}

fn copy_opt(o: &Option<String>) -> (r: Option<String>)
    ensures
        opt_view(r) == opt_view(*o),
{
    match o {
        Some(s) => Some(s.clone()),
        None => None,
    }
}

fn or_strings(a: Vec<String>, b: &Vec<String>) -> (r: Vec<String>)
    ensures
        strs(r@) == or_list(strs(a@), strs(b@)),
{
    if a.len() == 0 {
        let mut out: Vec<String> = Vec::new();
        crate::compile::append_strings(&mut out, b);
        assert(strs(out@) =~= strs(b@));
        out
    } else {
        a
    }
}

fn opt_into_list<T>(a: Option<T>) -> (r: Vec<T>)
    ensures
        r@ == opt_list(a),
{
    let mut out: Vec<T> = Vec::new();
    match a {
        Some(x) => {
            out.push(x);
            assert(out@ =~= seq![x]);
        },
        None => {
            assert(out@ =~= Seq::<T>::empty());
        },
    }
    out
}

/// Optional inferred metadata, viewed.
pub open spec fn opt_inferred_view(m: Option<InferredPublishMetadata>) -> Option<
    (
        Option<Seq<char>>,
        Option<(Seq<char>, Seq<char>)>,
        Option<(Seq<char>, Option<Seq<char>>, Option<Seq<char>>, Option<Seq<char>>)>,
        Option<(Seq<char>, Option<Seq<char>>, Seq<char>)>,
    ),
> {
    match m {
        Some(x) => Some(inferred_view(x)),
        None => None,
    }
}

/// What no descriptor gives, as a value.
pub fn no_descriptor() -> (r: DescriptorFields)
    ensures
        r@ == no_descriptor_fields(),
{
    let r = DescriptorFields {
        main: None,
        coordinates: None,
        package_name: None,
        name: None,
        description: None,
        url: None,
        licenses: Vec::new(),
        developers: Vec::new(),
        scm: None,
        java_version: None,
        deps: Vec::new(),
        sources: Vec::new(),
        sources_present: false,
        repos: Vec::new(),
    };
    assert(r@ =~= no_descriptor_fields());
    r
}

/// Settles what is published: see [`settled_descriptor`]. `script` and
/// `descriptor_dir` are carried through; `strict` is set when publishing or
/// preparing a dry run for Maven Central.
#[verifier::rlimit(60)]
#[verifier::spinoff_prover]
pub fn build_publish_descriptor(
    script: std::path::PathBuf,
    descriptor_dir: std::path::PathBuf,
    fields: DescriptorFields,
    directives: &Directives,
    github: Option<InferredPublishMetadata>,
    version: Option<String>,
    package: Option<String>,
    strict: bool,
) -> (r: Result<PublishDescriptor, PublishError>)
    ensures
        match settled_descriptor(
            fields@,
            directives@,
            opt_inferred_view(github),
            opt_view(version),
            opt_view(package),
            strict,
        ) {
            Ok(v) => r matches Ok(x) && publish_descriptor_view(x) == v && x.script == script
                && x.descriptor_dir == descriptor_dir,
            Err(e) => r matches Err(x) && x@ == e,
        },
{
    let ghost f = fields@;
    let ghost g = opt_inferred_view(github);
    let DescriptorFields {
        main: _,
        coordinates,
        package_name,
        name,
        description,
        url,
        licenses,
        developers,
        scm,
        java_version,
        deps,
        sources,
        sources_present,
        repos,
    } = fields;
    let merged = merge_coordinates(coordinates, &directives.gav);
    let mut c = match merged {
        Err(e) => return Err(e),
        Ok(None) => return Err(PublishError::NoCoordinates),
        Ok(Some(c)) => c,
    };
    match version {
        Some(v) => {
            c.version = v;
        },
        None => {},
    }
    let package_name = match package {
        Some(p) => Some(p),
        None => package_name,
    };
    let (g_url, g_license, g_developer, g_scm) = match github {
        Some(m) => (m.url, m.license, m.developer, m.scm),
        None => (None, None, None, None),
    };
    let url = match url {
        Some(u) => Some(u),
        None => g_url,
    };
    let licenses = if licenses.len() == 0 {
        let l = opt_into_list(g_license);
        assert(license_views(l@) =~= opt_list(opt_license(g_license)));
        l
    } else {
        licenses
    };
    let developers = if developers.len() == 0 {
        let l = opt_into_list(g_developer);
        assert(developer_views(l@) =~= opt_list(opt_developer(g_developer)));
        l
    } else {
        developers
    };
    let scm = match scm {
        Some(s) => Some(s),
        None => g_scm,
    };
    check_coordinates(&c, &package_name)?;
    if strict {
        check_metadata(&url, licenses.len(), developers.len(), scm.is_some())?;
    }
    let name = match name {
        Some(n) => Some(n),
        None => {
            let mut n = c.group.clone();
            n.append(":");
            n.append(c.id.as_str());
            Some(n)
        },
    };
    let description = match description {
        Some(d) => Some(d),
        None => match copy_opt(&directives.description) {
            Some(d) => Some(d),
            None => {
                let mut d = c.id.clone();
                d.append(" published with jbx");
                Some(d)
            },
        },
    };
    let java_version = match java_version {
        Some(j) => Some(j),
        None => copy_opt(&directives.java_version),
    };
    let deps = or_strings(deps, &directives.deps);
    let sources = or_strings(sources, &directives.sources);
    let repos = or_strings(repos, &directives.repos);
    let d = PublishDescriptor {
        script,
        descriptor_dir,
        coordinates: c,
        package_name,
        name,
        description,
        url,
        licenses,
        developers,
        scm,
        java_version,
        deps,
        sources,
        auto_discover_sources: !sources_present,
        repos,
    };
    assert(publish_descriptor_view(d) =~= settled_descriptor(
        f,
        directives@,
        g,
        opt_view(version),
        opt_view(package),
        strict,
    )->Ok_0);
    Ok(d)
}


/// The fields of a publish descriptor file's text: the text must be a JSON
/// document, which `read_descriptor_fields` reads.
pub fn read_descriptor_text(text: &str) -> (r: Result<DescriptorFields, PublishError>)
    ensures
        match crate::json_text::json_text_value(text@) {
            None => r matches Err(PublishError::UnreadableDescriptor),
            Some(v) => exists|j: Json|
                #![trigger crate::catalog::json_view(j)]
                crate::catalog::json_view(j) == v && match descriptor_fields(j) {
                    Ok(f) => r matches Ok(x) && x@ == f,
                    Err(e) => r matches Err(x) && x@ == e,
                },
        },
{
    match crate::json_text::parse_json_text(text) {
        Some(json) => read_descriptor_fields(&json),
        None => Err(PublishError::UnreadableDescriptor),
    }
}

} // verus!
