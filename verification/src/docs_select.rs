//! Choosing what `docs` shows: type filters, Maven coordinates of
//! documented artifacts and where their documentation is published, and the
//! JSON that describes a source's directives.
use vstd::prelude::*;
use crate::catalog::{json_get, json_str, json_view, Json, JsonView, Named};
use crate::docs::{jmembers, json_object, or_text, text_of, DocsCoordinate};
use crate::publish::{
    coordinate_part, group_segments_ok, validate_group, validate_path_safe_coordinate_part,
    PublishError, PublishErrorView,
};
use crate::resolver::{opt_view, Repository};
use crate::text::{
    chars_of, ends_with, has_prefix, has_suffix, replace_all, slice_chars, split_on, starts_with,
    str_eq, string_of, trim, trim_str,
};

verus! {

// ─── Type filters ────────────────────────────────────────────────────────────

/// A simple glob: `*` matches everything, `*x` what ends with `x`, `x*`
/// what starts with `x`; other patterns match nothing.
pub open spec fn glob_matches(pattern: Seq<char>, value: Seq<char>) -> bool {
    if pattern == "*"@ {
        true
    } else if pattern.len() > 0 && pattern[0] == '*' {
        has_suffix(value, pattern.drop_first())
    } else if pattern.len() > 0 && pattern.last() == '*' {
        has_prefix(value, pattern.drop_last())
    } else {
        false
    }
}

/// Whether `value` matches a simple glob.
pub fn simple_glob_match(pattern: &str, value: &str) -> (r: bool)
    ensures
        r == glob_matches(pattern@, value@),
{
    if str_eq(pattern, "*") {
        return true;
    }
    let p = chars_of(pattern);
    let v = chars_of(value);
    if p.len() > 0 && p[0] == '*' {
        let suffix = slice_chars(p.as_slice(), 1, p.len());
        assert(suffix@ =~= pattern@.drop_first());
        ends_with(v.as_slice(), suffix.as_slice())
    } else if p.len() > 0 && p[p.len() - 1] == '*' {
        let prefix = slice_chars(p.as_slice(), 0, p.len() - 1);
        assert(prefix@ =~= pattern@.drop_last());
        starts_with(v.as_slice(), prefix.as_slice())
    } else {
        false
    }
}

/// Whether one filter (trimmed) selects a type with simple name `name` and
/// qualified name `qualified`: equal to either, a `.`-suffix of the
/// qualified name, or a glob matching either.
pub open spec fn filter_selects(filter: Seq<char>, name: Seq<char>, qualified: Seq<char>) -> bool {
    let f = trim(filter);
    f == name || f == qualified || has_suffix(qualified, "."@ + f) || glob_matches(f, name)
        || glob_matches(f, qualified)
}

/// Whether some filter selects a type of the JSON model.
pub open spec fn type_selected(ty: Json, filters: Seq<Seq<char>>) -> bool {
    let name = or_text(text_of(ty, "name"@), Seq::empty());
    let qualified = or_text(text_of(ty, "qualifiedName"@), Seq::empty());
    exists|i: int| 0 <= i < filters.len() && filter_selects(#[trigger] filters[i], name, qualified)
}

fn text_or_empty<'a>(j: &'a Json, key: &str) -> (r: String)
    ensures
        r@ == or_text(text_of(*j, key@), Seq::empty()),
{
    match j.get(key) {
        Some(v) => match v.as_str() {
            Some(s) => s.to_owned(),
            None => String::new(),
        },
        None => String::new(),
    }
}

fn selects(filter: &str, name: &str, qualified: &str) -> (r: bool)
    ensures
        r == filter_selects(filter@, name@, qualified@),
{
    let f = trim_str(filter);
    let qc = chars_of(qualified);
    let mut dotted = ".".to_owned();
    dotted.append(f.as_str());
    let dc = chars_of(dotted.as_str());
    str_eq(f.as_str(), name) || str_eq(f.as_str(), qualified) || ends_with(qc.as_slice(), dc.as_slice())
        || simple_glob_match(f.as_str(), name) || simple_glob_match(f.as_str(), qualified)
}

/// Whether some filter selects a type.
pub fn docs_type_matches_filters(ty: &Json, filters: &Vec<String>) -> (r: bool)
    ensures
        r == type_selected(*ty, filters@.map_values(|s: String| s@)),
{
    let ghost fv = filters@.map_values(|s: String| s@);
    let name = text_or_empty(ty, "name");
    let qualified = text_or_empty(ty, "qualifiedName");
    let mut i: usize = 0;
    while i < filters.len()
        invariant
            fv == filters@.map_values(|s: String| s@),
            name@ == or_text(text_of(*ty, "name"@), Seq::empty()),
            qualified@ == or_text(text_of(*ty, "qualifiedName"@), Seq::empty()),
            i <= filters.len(),
            forall|k: int| 0 <= k < i ==> !filter_selects(#[trigger] fv[k], name@, qualified@),
        decreases filters.len() - i,
    {
        if selects(filters[i].as_str(), name.as_str(), qualified.as_str()) {
            assert(filter_selects(fv[i as int], name@, qualified@));
            return true;
        }
        i += 1;
    }
    false
}

/// The types that the filters select, in order; all of them without
/// filters.
pub open spec fn filtered_types(types: Seq<Json>, filters: Seq<Seq<char>>) -> Seq<Json> {
    if filters.len() == 0 {
        types
    } else {
        types.filter(|t: Json| type_selected(t, filters))
    }
}

/// Keeps the types that the filters select.
pub fn filter_docs_types(types: Vec<Json>, filters: &Vec<String>) -> (r: Vec<Json>)
    ensures
        r@ == filtered_types(types@, filters@.map_values(|s: String| s@)),
{
    if filters.len() == 0 {
        return types;
    }
    let ghost fv = filters@.map_values(|s: String| s@);
    let ghost all = types@;
    let mut rest = types;
    let mut out: Vec<Json> = Vec::new();
    let mut k: usize = 0;
    assert(all.skip(0) =~= all);
    assert(all.len() == rest.len());
    assert(all.take(0).filter(|t: Json| type_selected(t, fv)) =~= Seq::<Json>::empty()) by {
        reveal(Seq::filter);
    }
    while rest.len() > 0
        invariant
            fv == filters@.map_values(|s: String| s@),
            k <= all.len(),
            all.len() <= usize::MAX,
            rest@ == all.skip(k as int),
            out@ == all.take(k as int).filter(|t: Json| type_selected(t, fv)),
        decreases rest.len(),
    {
        assert(all.skip(k as int).len() == all.len() - k);
        let x = rest.remove(0);
        assert(x == all[k as int]);
        assert(rest@ =~= all.skip(k + 1));
        assert(all.take(k + 1).drop_last() =~= all.take(k as int));
        assert(all.take(k + 1).last() == x);
        let keep = docs_type_matches_filters(&x, filters);
        proof {
            reveal(Seq::filter);
        }
        if keep {
            out.push(x);
        }
        k += 1;
    }
    assert(all.take(k as int) =~= all);
    out
}

/// The `types` of a JSON model narrowed to those the filters select; the
/// model is unchanged when it has no `types` array.
pub open spec fn with_filtered_types(model: Json, filters: Seq<Seq<char>>) -> JsonView {
    match model {
        Json::Object(members) => JsonView::Object(
            members@.map_values(
                |m: (String, Json)|
                    if m.0@ == "types"@ && m.1 is Array {
                        (m.0@, JsonView::Array(
                            filtered_types(m.1->Array_0@, filters).map_values(|t: Json| json_view(t)),
                        ))
                    } else {
                        (m.0@, json_view(m.1))
                    },
            ),
        ),
        _ => json_view(model),
    }
}

/// Narrows the `types` of a JSON documentation model to those the filters
/// select.
pub fn filter_model_types(model: Json, filters: &Vec<String>) -> (r: Json)
    ensures
        json_view(r) == with_filtered_types(model, filters@.map_values(|s: String| s@)),
{
    match model {
        Json::Object(members) => {
            let ghost fv = filters@.map_values(|s: String| s@);
            let ghost all = members@;
            let mut rest = members;
            let mut out: Vec<(String, Json)> = Vec::new();
            let mut k: usize = 0;
            assert(all.skip(0) =~= all);
            assert(all.len() == rest.len());
            while rest.len() > 0
                invariant
                    fv == filters@.map_values(|s: String| s@),
                    k <= all.len(),
                    all.len() <= usize::MAX,
                    rest@ == all.skip(k as int),
                    out.len() == k,
                    forall|i: int|
                        0 <= i < k ==> (#[trigger] out@[i].0@, json_view(out@[i].1)) == (if all[i].0@
                            == "types"@ && all[i].1 is Array {
                            (all[i].0@, JsonView::Array(
                                filtered_types(all[i].1->Array_0@, fv).map_values(
                                    |t: Json| json_view(t),
                                ),
                            ))
                        } else {
                            (all[i].0@, json_view(all[i].1))
                        }),
                decreases rest.len(),
            {
                assert(all.skip(k as int).len() == all.len() - k);
                let (key, value) = rest.remove(0);
                assert((key, value) == all[k as int]);
                assert(rest@ =~= all.skip(k + 1));
                let is_types = str_eq(key.as_str(), "types");
                match value {
                    Json::Array(items) => {
                        if is_types {
                            let kept = filter_docs_types(items, filters);
                            let ghost kv = kept@;
                            let a = Json::Array(kept);
                            proof {
                                crate::docs::lemma_array_view(kept);
                                assert(json_view(a)->Array_0 =~= kv.map_values(|t: Json| json_view(t)));
                            }
                            out.push((key, a));
                        } else {
                            out.push((key, Json::Array(items)));
                        }
                    },
                    other => {
                        out.push((key, other));
                    },
                }
                k += 1;
            }
            let r = Json::Object(out);
            proof {
                crate::docs::lemma_object_view(out);
                assert(json_view(r)->Object_0 =~= with_filtered_types(
                    Json::Object(members),
                    fv,
                )->Object_0);
            }
            r
        },
        other => other,
    }
}

// ─── Coordinates ─────────────────────────────────────────────────────────────

/// Text that names Maven coordinates of documentation: not a URL, two or
/// three `:`-separated parts, none empty.
pub open spec fn docs_coordinate_like(value: Seq<char>) -> bool {
    !has_prefix(value, "http://"@) && !has_prefix(value, "https://"@) && (split_on(
        value,
        seq![':'],
    ).len() == 2 || split_on(value, seq![':']).len() == 3) && forall|i: int|
        0 <= i < split_on(value, seq![':']).len() ==> (#[trigger] split_on(value, seq![':'])[i]).len()
            > 0
}

/// Whether text names Maven coordinates of documentation.
pub fn looks_like_docs_coordinate(value: &str) -> (r: bool)
    ensures
        r == docs_coordinate_like(value@),
{
    let c = chars_of(value);
    let colon = vec![':'];
    assert(colon@ =~= seq![':']);
    let parts = crate::text::split_chars(c.as_slice(), colon.as_slice());
    assert(crate::text::views(parts@).len() == parts.len());
    crate::junit::is_maven_tool_shorthand(value) && (parts.len() == 2 || parts.len() == 3)
}

/// Why text does not name documentation coordinates.
#[derive(Debug)]
pub enum DocsCoordinateError {
    /// Not `group:artifact` or `group:artifact:version`.
    NotCoordinates,
    /// A part is not a valid coordinate part.
    Invalid(PublishError),
}

/// The group, artifact id and version (when given) of documentation
/// coordinates, or why they are refused: the wrong number of parts, then
/// the group, the artifact id and the version checked in that order.
pub open spec fn docs_coordinate_parts(value: Seq<char>) -> Result<
    (Seq<char>, Seq<char>, Option<Seq<char>>),
    Option<PublishErrorView>,
> {
    let parts = split_on(value, seq![':']);
    if parts.len() != 2 && parts.len() != 3 {
        Err(None)
    } else if !coordinate_part(parts[0]) {
        Err(Some(PublishErrorView::InvalidPart("group"@, parts[0])))
    } else if !group_segments_ok(parts[0]) {
        Err(Some(PublishErrorView::InvalidGroup(parts[0])))
    } else if !crate::descriptor::path_safe_part(parts[1]) {
        Err(Some(PublishErrorView::InvalidPart("id"@, parts[1])))
    } else if parts.len() == 3 && !crate::descriptor::path_safe_part(parts[2]) {
        Err(Some(PublishErrorView::InvalidPart("version"@, parts[2])))
    } else {
        Ok((parts[0], parts[1], if parts.len() == 3 { Some(parts[2]) } else { None }))
    }
}

/// Splits documentation coordinates; a missing version is resolved by the
/// caller, as the latest one.
pub fn split_docs_coordinate(value: &str) -> (r: Result<(String, String, Option<String>), DocsCoordinateError>)
    ensures
        match docs_coordinate_parts(value@) {
            Ok((g, a, v)) => r matches Ok((x, y, z)) && x@ == g && y@ == a && opt_view(z) == v,
            Err(None) => r matches Err(DocsCoordinateError::NotCoordinates),
            Err(Some(e)) => r matches Err(DocsCoordinateError::Invalid(x)) && x@ == e,
        },
{
    let c = chars_of(value);
    let colon = vec![':'];
    assert(colon@ =~= seq![':']);
    let parts = crate::text::split_chars(c.as_slice(), colon.as_slice());
    let ghost pv = crate::text::views(parts@);
    assert(pv.len() == parts.len());
    if parts.len() != 2 && parts.len() != 3 {
        return Err(DocsCoordinateError::NotCoordinates);
    }
    let group = string_of(parts[0].as_slice());
    let id = string_of(parts[1].as_slice());
    assert(pv[0] == group@ && pv[1] == id@);
    match validate_group(group.as_str()) {
        Ok(()) => {},
        Err(e) => return Err(DocsCoordinateError::Invalid(e)),
    }
    match validate_path_safe_coordinate_part(id.as_str(), "id") {
        Ok(()) => {},
        Err(e) => return Err(DocsCoordinateError::Invalid(e)),
    }
    if parts.len() == 3 {
        let version = string_of(parts[2].as_slice());
        assert(pv[2] == version@);
        match validate_path_safe_coordinate_part(version.as_str(), "version") {
            Ok(()) => {},
            Err(e) => return Err(DocsCoordinateError::Invalid(e)),
        }
        Ok((group, id, Some(version)))
    } else {
        Ok((group, id, None))
    }
}

/// The URL of a file of documented coordinates in a repository:
/// `url/group/path/artifact/version/file`.
pub open spec fn docs_url(repo_url: Seq<char>, c: (Seq<char>, Seq<char>, Seq<char>), file: Seq<char>) -> Seq<char> {
    crate::resolver::module_base(repo_url, (c.0, c.1)) + "/"@ + c.2 + "/"@ + file
}

/// The URL of a file of documented coordinates in a repository.
pub fn docs_artifact_url(repo: &Repository, coordinate: &DocsCoordinate, filename: &str) -> (r: String)
    ensures
        r@ == docs_url(repo.url@, (coordinate.group@, coordinate.id@, coordinate.version@), filename@),
{
    let module = crate::resolver::Module { org: coordinate.group.clone(), name: coordinate.id.clone() };
    let base = repo.module_base_chars(&module);
    let mut out = string_of(base.as_slice());
    out.append("/");
    out.append(coordinate.version.as_str());
    out.append("/");
    out.append(filename);
    out
}

/// Repositories for documentation: Maven Central last, the others first,
/// each group in the order given.
pub open spec fn docs_repository_order(repos: Seq<Repository>) -> Seq<Repository> {
    repos.filter(|r: Repository| r.id@ != "central"@) + repos.filter(|r: Repository| r.id@ == "central"@)
}

/// Orders repositories for documentation.
pub fn docs_repositories(repos: Vec<Repository>) -> (r: Vec<Repository>)
    ensures
        r@ == docs_repository_order(repos@),
{
    let ghost all = repos@;
    let mut rest = repos;
    let mut others: Vec<Repository> = Vec::new();
    let mut central: Vec<Repository> = Vec::new();
    let mut k: usize = 0;
    assert(all.skip(0) =~= all);
    assert(all.len() == rest.len());
    proof {
        reveal(Seq::filter);
        assert(all.take(0).filter(|r: Repository| r.id@ != "central"@) =~= Seq::<Repository>::empty());
        assert(all.take(0).filter(|r: Repository| r.id@ == "central"@) =~= Seq::<Repository>::empty());
    }
    while rest.len() > 0
        invariant
            k <= all.len(),
            all.len() <= usize::MAX,
            rest@ == all.skip(k as int),
            others@ == all.take(k as int).filter(|r: Repository| r.id@ != "central"@),
            central@ == all.take(k as int).filter(|r: Repository| r.id@ == "central"@),
        decreases rest.len(),
    {
        assert(all.skip(k as int).len() == all.len() - k);
        let x = rest.remove(0);
        assert(x == all[k as int]);
        assert(rest@ =~= all.skip(k + 1));
        assert(all.take(k + 1).drop_last() =~= all.take(k as int));
        assert(all.take(k + 1).last() == x);
        proof {
            reveal(Seq::filter);
        }
        if str_eq(x.id.as_str(), "central") {
            central.push(x);
        } else {
            others.push(x);
        }
        k += 1;
    }
    assert(all.take(k as int) =~= all);
    let ghost o = others@;
    let ghost c = central@;
    let mut i: usize = 0;
    let mut rest_c = central;
    while rest_c.len() > 0
        invariant
            i <= c.len(),
            c.len() <= usize::MAX,
            rest_c@ == c.skip(i as int),
            others@ == o + c.take(i as int),
        decreases rest_c.len(),
    {
        assert(c.skip(i as int).len() == c.len() - i);
        let x = rest_c.remove(0);
        assert(x == c[i as int]);
        assert(rest_c@ =~= c.skip(i + 1));
        others.push(x);
        assert(c.take(i + 1) =~= c.take(i as int).push(x));
        i += 1;
    }
    assert(c.take(i as int) =~= c);
    others
}

// ─── Directives as JSON ──────────────────────────────────────────────────────

/// A repository directive as JSON: `id=url` gives both, a bare URL gives a
/// `null` id.
pub open spec fn repo_view(repo: Seq<char>) -> JsonView {
    match crate::text::split_first(repo, '=') {
        Some((id, url)) => JsonView::Object(seq![("id"@, JsonView::Str(id)), ("url"@, JsonView::Str(url))]),
        None => JsonView::Object(seq![("id"@, JsonView::Null), ("url"@, JsonView::Str(repo))]),
    }
}

/// A repository directive as JSON.
pub fn repo_json(repo: &str) -> (r: Json)
    ensures
        json_view(r) == repo_view(repo@),
{
    let c = chars_of(repo);
    let mut members: Vec<(String, Json)> = Vec::new();
    match crate::text::split_first_char(c.as_slice(), '=') {
        Some((id, url)) => {
            members.push(("id".to_owned(), Json::Str(string_of(id.as_slice()))));
            members.push(("url".to_owned(), Json::Str(string_of(url.as_slice()))));
        },
        None => {
            members.push(("id".to_owned(), Json::Null));
            members.push(("url".to_owned(), Json::Str(repo.to_owned())));
        },
    }
    let r = json_object(members);
    assert(json_view(r)->Object_0 =~= repo_view(repo@)->Object_0);
    r
}

/// `key=value` entries as JSON: objects of `key` and `value` (`null` when
/// there is none).
pub open spec fn key_values_view(kvs: Seq<(Seq<char>, Option<Seq<char>>)>) -> JsonView {
    JsonView::Array(
        kvs.map_values(
            |kv: (Seq<char>, Option<Seq<char>>)|
                JsonView::Object(seq![("key"@, JsonView::Str(kv.0)), ("value"@, crate::docs::jopt(kv.1))]),
        ),
    )
}

/// `key=value` entries as JSON.
pub fn key_values_json(values: &Vec<crate::directives::KeyValue>) -> (r: Json)
    ensures
        json_view(r) == key_values_view(crate::directives::kvs(values@)),
{
    let ghost kv = crate::directives::kvs(values@);
    let mut items: Vec<Json> = Vec::new();
    let mut i: usize = 0;
    while i < values.len()
        invariant
            kv == crate::directives::kvs(values@),
            i <= values.len(),
            items.len() == i,
            forall|k: int| 0 <= k < i ==> json_view(#[trigger] items@[k]) == JsonView::Object(
                seq![("key"@, JsonView::Str(kv[k].0)), ("value"@, crate::docs::jopt(kv[k].1))],
            ),
        decreases values.len() - i,
    {
        let mut members: Vec<(String, Json)> = Vec::new();
        members.push(("key".to_owned(), Json::Str(values[i].key.clone())));
        let value = match &values[i].value {
            Some(v) => Json::Str(v.clone()),
            None => Json::Null,
        };
        members.push(("value".to_owned(), value));
        let o = json_object(members);
        assert(kv[i as int] == values@[i as int]@);
        assert(json_view(o)->Object_0 =~= seq![
            ("key"@, JsonView::Str(kv[i as int].0)),
            ("value"@, crate::docs::jopt(kv[i as int].1)),
        ]);
        items.push(o);
        i += 1;
    }
    let r = crate::docs::json_array_of(items);
    assert(json_view(r)->Array_0 =~= key_values_view(kv)->Array_0);
    r
}

/// The target of a `//DOCS` entry: `id=target`, or the `main` entry.
pub open spec fn doc_target(kv: (Seq<char>, Option<Seq<char>>)) -> (Seq<char>, Seq<char>) {
    match kv.1 {
        Some(v) => (kv.0, v),
        None => ("main"@, kv.0),
    }
}

/// The `//DOCS` entries grouped by id, groups in the order their ids first
/// appear, targets in the order given.
pub open spec fn doc_groups(kvs: Seq<(Seq<char>, Option<Seq<char>>)>) -> Seq<(Seq<char>, Seq<Seq<char>>)>
    decreases kvs.len(),
{
    if kvs.len() == 0 {
        Seq::empty()
    } else {
        let g = doc_groups(kvs.drop_last());
        let (id, target) = doc_target(kvs.last());
        let i = first_group(g, id);
        if i < g.len() {
            g.update(i, (id, g[i].1.push(target)))
        } else {
            g.push((id, seq![target]))
        }
    }
}

/// The position of the first group named `id`, or the number of groups.
pub open spec fn first_group(groups: Seq<(Seq<char>, Seq<Seq<char>>)>, id: Seq<char>) -> int
    decreases groups.len(),
{
    if groups.len() == 0 {
        0
    } else if groups[0].0 == id {
        0
    } else {
        1 + first_group(groups.drop_first(), id)
    }
}

proof fn lemma_first_group(groups: Seq<(Seq<char>, Seq<Seq<char>>)>, id: Seq<char>)
    ensures
        0 <= first_group(groups, id) <= groups.len(),
        first_group(groups, id) < groups.len() ==> groups[first_group(groups, id)].0 == id,
        forall|j: int| 0 <= j < first_group(groups, id) ==> (#[trigger] groups[j]).0 != id,
    decreases groups.len(),
{
    if groups.len() > 0 && groups[0].0 != id {
        lemma_first_group(groups.drop_first(), id);
        assert forall|j: int| 0 <= j < first_group(groups, id) implies (#[trigger] groups[j]).0 != id by {
            if j > 0 {
                assert(groups[j] == groups.drop_first()[j - 1]);
            }
        }
    }
}

/// The `//DOCS` entries as JSON: an object of the ids, each an array of
/// `{"originalResource": target}`.
pub open spec fn docs_view(kvs: Seq<(Seq<char>, Option<Seq<char>>)>) -> JsonView {
    JsonView::Object(
        doc_groups(kvs).map_values(
            |g: (Seq<char>, Seq<Seq<char>>)|
                (
                    g.0,
                    JsonView::Array(
                        g.1.map_values(
                            |t: Seq<char>| JsonView::Object(seq![("originalResource"@, JsonView::Str(t))]),
                        ),
                    ),
                ),
        ),
    )
}

fn group_position(groups: &Vec<(String, Vec<String>)>, id: &str) -> (r: usize)
    ensures
        r == first_group(
            groups@.map_values(|g: (String, Vec<String>)| (g.0@, crate::directives::strs(g.1@))),
            id@,
        ),
{
    let ghost gv = groups@.map_values(|g: (String, Vec<String>)| (g.0@, crate::directives::strs(g.1@)));
    proof {
        lemma_first_group(gv, id@);
    }
    let mut i: usize = 0;
    while i < groups.len()
        invariant
            gv == groups@.map_values(|g: (String, Vec<String>)| (g.0@, crate::directives::strs(g.1@))),
            0 <= first_group(gv, id@) <= gv.len(),
            first_group(gv, id@) < gv.len() ==> gv[first_group(gv, id@)].0 == id@,
            forall|j: int| 0 <= j < first_group(gv, id@) ==> (#[trigger] gv[j]).0 != id@,
            i <= groups.len(),
            forall|k: int| 0 <= k < i ==> (#[trigger] gv[k]).0 != id@,
        decreases groups.len() - i,
    {
        assert(gv[i as int].0 == groups@[i as int].0@);
        if str_eq(groups[i].0.as_str(), id) {
            return i;
        }
        i += 1;
    }
    i
}

/// The `//DOCS` entries as JSON.
pub fn docs_json(values: &Vec<crate::directives::KeyValue>) -> (r: Json)
    ensures
        json_view(r) == docs_view(crate::directives::kvs(values@)),
{
    let ghost kv = crate::directives::kvs(values@);
    let mut groups: Vec<(String, Vec<String>)> = Vec::new();
    let mut i: usize = 0;
    while i < values.len()
        invariant
            kv == crate::directives::kvs(values@),
            i <= values.len(),
            groups@.map_values(|g: (String, Vec<String>)| (g.0@, crate::directives::strs(g.1@)))
                == doc_groups(kv.take(i as int)),
        decreases values.len() - i,
    {
        assert(kv.take(i + 1).drop_last() =~= kv.take(i as int));
        assert(kv.take(i + 1).last() == values@[i as int]@);
        let (id, target) = match &values[i].value {
            Some(v) => (values[i].key.clone(), v.clone()),
            None => ("main".to_owned(), values[i].key.clone()),
        };
        let ghost before = groups@.map_values(|g: (String, Vec<String>)| (g.0@, crate::directives::strs(g.1@)));
        let p = group_position(&groups, id.as_str());
        if p < groups.len() {
            let mut taken: (String, Vec<String>) = (String::new(), Vec::new());
            let ghost old_group = groups@[p as int];
            groups.set_and_swap(p, &mut taken);
            assert(taken == old_group);
            let (_, mut targets) = taken;
            let ghost old_targets = crate::directives::strs(targets@);
            targets.push(target);
            assert(crate::directives::strs(targets@) =~= old_targets.push(target@));
            let mut entry = (id, targets);
            groups.set_and_swap(p, &mut entry);
            assert(groups@.map_values(|g: (String, Vec<String>)| (g.0@, crate::directives::strs(g.1@)))
                =~= before.update(p as int, (id@, before[p as int].1.push(target@))));
        } else {
            let mut targets: Vec<String> = Vec::new();
            targets.push(target);
            assert(crate::directives::strs(targets@) =~= seq![target@]);
            groups.push((id, targets));
            assert(groups@.map_values(|g: (String, Vec<String>)| (g.0@, crate::directives::strs(g.1@)))
                =~= before.push((id@, seq![target@])));
        }
        i += 1;
    }
    assert(kv.take(values.len() as int) =~= kv);
    let ghost gv = groups@.map_values(|g: (String, Vec<String>)| (g.0@, crate::directives::strs(g.1@)));
    let mut members: Vec<(String, Json)> = Vec::new();
    let mut rest = groups;
    let mut k: usize = 0;
    assert(gv.len() == rest.len());
    while rest.len() > 0
        invariant
            k <= gv.len(),
            gv.len() <= usize::MAX,
            rest@.map_values(|g: (String, Vec<String>)| (g.0@, crate::directives::strs(g.1@))) == gv.skip(k as int),
            members.len() == k,
            forall|j: int| 0 <= j < k ==> (#[trigger] members@[j].0@, json_view(members@[j].1)) == (
                gv[j].0,
                JsonView::Array(
                    gv[j].1.map_values(
                        |t: Seq<char>| JsonView::Object(seq![("originalResource"@, JsonView::Str(t))]),
                    ),
                ),
            ),
        decreases rest.len(),
    {
        let ghost rv = rest@.map_values(|g: (String, Vec<String>)| (g.0@, crate::directives::strs(g.1@)));
        let ghost old_rest = rest@;
        assert(rv.len() == rest.len());
        let (id, targets) = rest.remove(0);
        assert(rv[0] == (id@, crate::directives::strs(targets@)));
        assert(rest@ =~= old_rest.subrange(1, old_rest.len() as int));
        assert(rest@.map_values(|g: (String, Vec<String>)| (g.0@, crate::directives::strs(g.1@))) =~= rv.skip(1));
        assert(gv.skip(k as int).skip(1) =~= gv.skip(k + 1));
        let mut items: Vec<Json> = Vec::new();
        let mut t: usize = 0;
        while t < targets.len()
            invariant
                t <= targets.len(),
                items.len() == t,
                forall|j: int| 0 <= j < t ==> json_view(#[trigger] items@[j]) == JsonView::Object(
                    seq![("originalResource"@, JsonView::Str(targets@[j]@))],
                ),
            decreases targets.len() - t,
        {
            let mut m: Vec<(String, Json)> = Vec::new();
            m.push(("originalResource".to_owned(), Json::Str(targets[t].clone())));
            let o = json_object(m);
            assert(json_view(o)->Object_0 =~= seq![("originalResource"@, JsonView::Str(targets@[t as int]@))]);
            items.push(o);
            t += 1;
        }
        let a = crate::docs::json_array_of(items);
        assert(json_view(a)->Array_0 =~= gv[k as int].1.map_values(
            |t: Seq<char>| JsonView::Object(seq![("originalResource"@, JsonView::Str(t))]),
        ));
        members.push((id, a));
        k += 1;
    }
    let r = json_object(members);
    assert(json_view(r)->Object_0 =~= docs_view(kv)->Object_0);
    r
}

fn strings_json(v: &Vec<String>) -> (r: Json)
    ensures
        json_view(r) == crate::docs::jstrs(crate::directives::strs(v@)),
{
    let mut copy: Vec<String> = Vec::new();
    crate::compile::append_strings(&mut copy, v);
    assert(crate::directives::strs(copy@) =~= crate::directives::strs(v@));
    let r = crate::docs::json_strings(copy);
    assert(copy@.map_values(|s: String| s@) =~= crate::directives::strs(copy@));
    r
}

fn opt_json(o: &Option<String>) -> (r: Json)
    ensures
        json_view(r) == crate::docs::jopt(opt_view(*o)),
{
    match o {
        Some(s) => Json::Str(s.clone()),
        None => Json::Null,
    }
}

/// A `//DOCS` entry as JSON: its key, and its value when it has one.
pub open spec fn doc_entry_view(kv: (Seq<char>, Option<Seq<char>>)) -> JsonView {
    match kv.1 {
        Some(v) => JsonView::Object(seq![("key"@, JsonView::Str(kv.0)), ("value"@, JsonView::Str(v))]),
        None => JsonView::Object(seq![("key"@, JsonView::Str(kv.0))]),
    }
}

/// Documented coordinates as JSON: group, artifact id, version and the
/// coordinate they make; `null` without them.
pub open spec fn artifact_view(c: Option<(Seq<char>, Seq<char>, Seq<char>)>) -> JsonView {
    match c {
        Some((g, a, v)) => JsonView::Object(
            seq![
                ("group"@, JsonView::Str(g)),
                ("id"@, JsonView::Str(a)),
                ("version"@, JsonView::Str(v)),
                ("coordinate"@, JsonView::Str(g + ":"@ + a + ":"@ + v)),
            ],
        ),
        None => JsonView::Null,
    }
}

/// What `docs` says of a source, as JSON: its path and file name, and its
/// description, `//DOCS` entries, dependencies, repositories, sources, Java
/// version, main class, and the coordinates it is published under.
pub open spec fn docs_source_view(
    path: Seq<char>,
    name: Seq<char>,
    d: crate::directives::DirectivesView,
    artifact: Option<(Seq<char>, Seq<char>, Seq<char>)>,
) -> JsonView {
    JsonView::Object(
        seq![
            ("path"@, JsonView::Str(path)),
            ("name"@, JsonView::Str(name)),
            ("description"@, crate::docs::jopt(d.description)),
            ("docs"@, JsonView::Array(d.docs.map_values(|kv: (Seq<char>, Option<Seq<char>>)| doc_entry_view(kv)))),
            ("dependencies"@, crate::docs::jstrs(d.deps)),
            ("repositories"@, crate::docs::jstrs(d.repos)),
            ("sources"@, crate::docs::jstrs(d.sources)),
            ("java"@, crate::docs::jopt(d.java_version)),
            ("main"@, crate::docs::jopt(d.main_class)),
            ("artifact"@, artifact_view(artifact)),
        ],
    )
}

fn doc_entries_json(docs: &Vec<crate::directives::KeyValue>) -> (r: Json)
    ensures
        json_view(r) == JsonView::Array(
            crate::directives::kvs(docs@).map_values(|kv: (Seq<char>, Option<Seq<char>>)| doc_entry_view(kv)),
        ),
{
    let ghost kv = crate::directives::kvs(docs@);
    let mut items: Vec<Json> = Vec::new();
    let mut i: usize = 0;
    while i < docs.len()
        invariant
            kv == crate::directives::kvs(docs@),
            i <= docs.len(),
            items.len() == i,
            forall|k: int| 0 <= k < i ==> json_view(#[trigger] items@[k]) == doc_entry_view(kv[k]),
        decreases docs.len() - i,
    {
        assert(kv[i as int] == docs@[i as int]@);
        let mut members: Vec<(String, Json)> = Vec::new();
        members.push(("key".to_owned(), Json::Str(docs[i].key.clone())));
        match &docs[i].value {
            Some(v) => {
                members.push(("value".to_owned(), Json::Str(v.clone())));
            },
            None => {},
        }
        let o = json_object(members);
        assert(json_view(o)->Object_0 =~= doc_entry_view(kv[i as int])->Object_0);
        items.push(o);
        i += 1;
    }
    let r = crate::docs::json_array_of(items);
    assert(json_view(r)->Array_0 =~= kv.map_values(|kv: (Seq<char>, Option<Seq<char>>)| doc_entry_view(kv)));
    r
}

/// What `docs` says of a source, as JSON (see [`docs_source_view`]).
pub fn docs_source_json(
    path: &str,
    name: &str,
    d: &crate::directives::Directives,
    artifact: Option<&DocsCoordinate>,
) -> (r: Json)
    ensures
        json_view(r) == docs_source_view(
            path@,
            name@,
            d@,
            match artifact {
                Some(c) => Some((c.group@, c.id@, c.version@)),
                None => None,
            },
        ),
{
    let artifact_value = match artifact {
        Some(c) => {
            let mut coordinate = c.group.clone();
            coordinate.append(":");
            coordinate.append(c.id.as_str());
            coordinate.append(":");
            coordinate.append(c.version.as_str());
            let mut m: Vec<(String, Json)> = Vec::new();
            m.push(("group".to_owned(), Json::Str(c.group.clone())));
            m.push(("id".to_owned(), Json::Str(c.id.clone())));
            m.push(("version".to_owned(), Json::Str(c.version.clone())));
            m.push(("coordinate".to_owned(), Json::Str(coordinate)));
            let o = json_object(m);
            assert(json_view(o)->Object_0 =~= artifact_view(Some((c.group@, c.id@, c.version@)))->Object_0);
            o
        },
        None => Json::Null,
    };
    let mut members: Vec<(String, Json)> = Vec::new();
    members.push(("path".to_owned(), Json::Str(path.to_owned())));
    members.push(("name".to_owned(), Json::Str(name.to_owned())));
    members.push(("description".to_owned(), opt_json(&d.description)));
    members.push(("docs".to_owned(), doc_entries_json(&d.docs)));
    members.push(("dependencies".to_owned(), strings_json(&d.deps)));
    members.push(("repositories".to_owned(), strings_json(&d.repos)));
    members.push(("sources".to_owned(), strings_json(&d.sources)));
    members.push(("java".to_owned(), opt_json(&d.java_version)));
    members.push(("main".to_owned(), opt_json(&d.main_class)));
    members.push(("artifact".to_owned(), artifact_value));
    let r = json_object(members);
    assert(json_view(r)->Object_0 =~= docs_source_view(
        path@,
        name@,
        d@,
        match artifact {
            Some(c) => Some((c.group@, c.id@, c.version@)),
            None => None,
        },
    )->Object_0);
    r
}

/// Repository directives as JSON, one object each.
pub open spec fn repos_view(repos: Seq<Seq<char>>) -> JsonView {
    JsonView::Array(repos.map_values(|r: Seq<char>| repo_view(r)))
}

fn repos_json(repos: &Vec<String>) -> (r: Json)
    ensures
        json_view(r) == repos_view(crate::directives::strs(repos@)),
{
    let mut items: Vec<Json> = Vec::new();
    let mut i: usize = 0;
    while i < repos.len()
        invariant
            i <= repos.len(),
            items.len() == i,
            forall|k: int| 0 <= k < i ==> json_view(#[trigger] items@[k]) == repo_view(repos@[k]@),
        decreases repos.len() - i,
    {
        items.push(repo_json(repos[i].as_str()));
        i += 1;
    }
    let r = crate::docs::json_array_of(items);
    assert(json_view(r)->Array_0 =~= repos_view(crate::directives::strs(repos@))->Array_0);
    r
}

/// What an IDE is told of a built script, as JSON: where it came from and
/// was compiled to, its main class, dependencies (declared and resolved),
/// repositories, Java version, options, agents, manifest entries, files,
/// sources, description, coordinates, module, `//DOCS` entries and flags.
pub open spec fn tools_view(
    script: Seq<char>,
    classes_dir: Seq<char>,
    main_class: Option<Seq<char>>,
    resolved: Seq<Seq<char>>,
    d: crate::directives::DirectivesView,
) -> JsonView {
    JsonView::Object(
        seq![
            ("originalResource"@, JsonView::Str(script)),
            ("backingResource"@, JsonView::Str(script)),
            ("applicationClassesDir"@, JsonView::Str(classes_dir)),
            ("applicationJar"@, JsonView::Null),
            ("mainClass"@, crate::docs::jopt(main_class)),
            ("dependencies"@, crate::docs::jstrs(d.deps)),
            ("repositories"@, repos_view(d.repos)),
            ("resolvedDependencies"@, crate::docs::jstrs(resolved)),
            ("javaVersion"@, crate::docs::jopt(d.java_version)),
            ("requestedJavaVersion"@, crate::docs::jopt(d.java_version)),
            ("compileOptions"@, crate::docs::jstrs(d.javac_options)),
            ("runtimeOptions"@, crate::docs::jstrs(d.runtime_options)),
            ("nativeOptions"@, crate::docs::jstrs(d.native_options)),
            ("javaAgents"@, key_values_view(d.java_agents)),
            ("manifestOptions"@, key_values_view(d.manifest_options)),
            ("files"@, crate::docs::jstrs(d.files)),
            ("sources"@, crate::docs::jstrs(d.sources)),
            ("description"@, crate::docs::jopt(d.description)),
            ("gav"@, crate::docs::jopt(d.gav)),
            ("module"@, crate::docs::jopt(d.module)),
            ("docs"@, docs_view(d.docs)),
            ("enablePreview"@, JsonView::Bool(d.enable_preview)),
            ("enableCds"@, JsonView::Bool(d.enable_cds)),
            ("disableIntegrations"@, JsonView::Bool(d.disable_integrations)),
        ],
    )
}

/// What an IDE is told of a built script (see [`tools_view`]).
pub fn tools_payload(
    script: &str,
    classes_dir: &str,
    main_class: &Option<String>,
    resolved: &Vec<String>,
    d: &crate::directives::Directives,
) -> (r: Json)
    ensures
        json_view(r) == tools_view(script@, classes_dir@, opt_view(*main_class), crate::directives::strs(resolved@), d@),
{
    let mut members: Vec<(String, Json)> = Vec::new();
    members.push(("originalResource".to_owned(), Json::Str(script.to_owned())));
    members.push(("backingResource".to_owned(), Json::Str(script.to_owned())));
    members.push(("applicationClassesDir".to_owned(), Json::Str(classes_dir.to_owned())));
    members.push(("applicationJar".to_owned(), Json::Null));
    members.push(("mainClass".to_owned(), opt_json(main_class)));
    members.push(("dependencies".to_owned(), strings_json(&d.deps)));
    members.push(("repositories".to_owned(), repos_json(&d.repos)));
    members.push(("resolvedDependencies".to_owned(), strings_json(resolved)));
    members.push(("javaVersion".to_owned(), opt_json(&d.java_version)));
    members.push(("requestedJavaVersion".to_owned(), opt_json(&d.java_version)));
    members.push(("compileOptions".to_owned(), strings_json(&d.javac_options)));
    members.push(("runtimeOptions".to_owned(), strings_json(&d.runtime_options)));
    members.push(("nativeOptions".to_owned(), strings_json(&d.native_options)));
    members.push(("javaAgents".to_owned(), key_values_json(&d.java_agents)));
    members.push(("manifestOptions".to_owned(), key_values_json(&d.manifest_options)));
    members.push(("files".to_owned(), strings_json(&d.files)));
    members.push(("sources".to_owned(), strings_json(&d.sources)));
    members.push(("description".to_owned(), opt_json(&d.description)));
    members.push(("gav".to_owned(), opt_json(&d.gav)));
    members.push(("module".to_owned(), opt_json(&d.module)));
    members.push(("docs".to_owned(), docs_json(&d.docs)));
    members.push(("enablePreview".to_owned(), Json::Bool(d.enable_preview)));
    members.push(("enableCds".to_owned(), Json::Bool(d.enable_cds)));
    members.push(("disableIntegrations".to_owned(), Json::Bool(d.disable_integrations)));
    let r = json_object(members);
    assert(json_view(r)->Object_0 =~= tools_view(
        script@,
        classes_dir@,
        opt_view(*main_class),
        crate::directives::strs(resolved@),
        d@,
    )->Object_0);
    r
}

// ─── Order of documented types ───────────────────────────────────────────────

impl Named for Json {
    /// A documented type is named by its qualified name (empty when it has
    /// none).
    open spec fn name_of(&self) -> Seq<char> {
        or_text(text_of(*self, "qualifiedName"@), Seq::empty())
    }

    fn name_str(&self) -> (r: &str) {
        proof {
            reveal_strlit("");
        }
        match self.get("qualifiedName") {
            Some(v) => match v.as_str() {
                Some(s) => s,
                None => "",
            },
            None => "",
        }
    }
}

/// Sorts documented types by qualified name, keeping the order of equal
/// names.
pub fn sort_docs_types(types: Vec<Json>) -> (r: Vec<Json>)
    ensures
        r@ == crate::catalog::sort_by_name(types@),
{
    crate::catalog::sort_named(types)
}

/// The text of remote documentation as it is shown: unchanged unless it is
/// JSON and type filters are given; then the model's `types` narrowed to the
/// selected ones, pretty-printed with a closing newline, or `None` where the
/// text is not a JSON document.
pub fn filter_remote_docs_text(text: String, json: bool, type_filters: &Vec<String>) -> (r: Option<String>)
    ensures
        (!json || type_filters.len() == 0) ==> r == Some(text),
        (json && type_filters.len() > 0) ==> match crate::json_text::json_text_value(text@) {
            None => r is None,
            Some(v) => exists|j: Json|
                #![trigger json_view(j)]
                json_view(j) == v && (r matches Some(t) && t@ == crate::json_text::json_pretty_text(
                    with_filtered_types(j, type_filters@.map_values(|s: String| s@)),
                ) + seq!['\n']),
        },
{
    if !json || type_filters.len() == 0 {
        return Some(text);
    }
    let model = match crate::json_text::parse_json_text(text.as_str()) {
        Some(m) => m,
        None => {
            return None;
        },
    };
    let ghost m0 = model;
    let filtered = filter_model_types(model, type_filters);
    let mut out = crate::json_text::pretty_json_text(&filtered);
    crate::text::push_char(&mut out, '\n');
    assert(json_view(m0) == crate::json_text::json_text_value(text@)->Some_0);
    Some(out)
}

} // verus!
