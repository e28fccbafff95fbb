//! `jbang-catalog.json` files: aliases, external catalogs and templates.
//!
//! A catalog is read into a [`Json`] value; the functions here pick out its
//! entries, resolve the references they make and edit the value.
use vstd::prelude::*;
use crate::directives::{kvs, key_value_of, split_directive_words, split_words_spec, strs, KeyValue};
use crate::pom::str_views;
use crate::remote::{index_of_any, is_remote_url, remote_url};
use crate::text::{
    chars_lt, chars_of, has_prefix, has_suffix, lemma_split_first, seq_lt, split_first, split_once, str_eq,
    string_of, trim_end, trim_start,
};

verus! {

/// A JSON value.
#[derive(Debug)]
pub enum Json {
    Null,
    Bool(bool),
    /// A number, as written.
    Number(String),
    Str(String),
    Array(Vec<Json>),
    /// The members of an object, in order.
    Object(Vec<(String, Json)>),
}

/// The first member named `key`.
pub open spec fn member(entries: Seq<(String, Json)>, key: Seq<char>) -> Option<Json>
    decreases entries.len(),
{
    if entries.len() == 0 {
        None
    } else if entries[0].0@ == key {
        Some(entries[0].1)
    } else {
        member(entries.drop_first(), key)
    }
}

/// The member `key` of an object (`Value::get`).
pub open spec fn json_get(j: Json, key: Seq<char>) -> Option<Json> {
    match j {
        Json::Object(e) => member(e@, key),
        _ => None,
    }
}

/// The text of a string value (`Value::as_str`).
pub open spec fn json_str(j: Option<Json>) -> Option<Seq<char>> {
    match j {
        Some(Json::Str(s)) => Some(s@),
        _ => None,
    }
}

/// The member `key`, or else the member `alt`.
pub open spec fn json_get_either(j: Json, key: Seq<char>, alt: Seq<char>) -> Option<Json> {
    match json_get(j, key) {
        Some(x) => Some(x),
        None => json_get(j, alt),
    }
}

impl Json {
    /// The member `key` of an object.
    pub fn get(&self, key: &str) -> (r: Option<&Json>)
        ensures
            match json_get(*self, key@) {
                Some(x) => r matches Some(y) && *y == x,
                None => r is None,
            },
    {
        match self {
            Json::Object(entries) => {
                let mut i: usize = 0;
                assert(entries@.skip(0) =~= entries@);
                while i < entries.len()
                    invariant
                        i <= entries.len(),
                        json_get(*self, key@) == member(entries@, key@),
                        member(entries@, key@) == member(entries@.skip(i as int), key@),
                    decreases entries.len() - i,
                {
                    let ghost s = entries@.skip(i as int);
                    assert(s[0] == entries@[i as int]);
                    assert(s.drop_first() =~= entries@.skip(i + 1));
                    if str_eq(entries[i].0.as_str(), key) {
                        return Some(&entries[i].1);
                    }
                    i += 1;
                }
                None
            },
            _ => None,
        }
    }

    /// The text of a string value.
    pub fn as_str(&self) -> (r: Option<&str>)
        ensures
            match json_str(Some(*self)) {
                Some(s) => r matches Some(t) && t@ == s,
                None => r is None,
            },
    {
        match self {
            Json::Str(s) => Some(s.as_str()),
            _ => None,
        }
    }
}

fn get_either<'a>(j: &'a Json, key: &str, alt: &str) -> (r: Option<&'a Json>)
    ensures
        match json_get_either(*j, key@, alt@) {
            Some(x) => r matches Some(y) && *y == x,
            None => r is None,
        },
{
    match j.get(key) {
        Some(x) => Some(x),
        None => j.get(alt),
    }
}

fn opt_text(j: Option<&Json>) -> (r: Option<String>)
    ensures
        crate::resolver::opt_view(r) == json_str(match j {
            Some(x) => Some(*x),
            None => None,
        }),
{
    match j {
        Some(Json::Str(s)) => Some(s.clone()),
        _ => None,
    }
}

/// The strings among some values.
pub open spec fn strings_of(items: Seq<Json>) -> Seq<Seq<char>>
    decreases items.len(),
{
    if items.len() == 0 {
        Seq::empty()
    } else {
        let rest = strings_of(items.drop_last());
        match items.last() {
            Json::Str(s) => rest.push(s@),
            _ => rest,
        }
    }
}

/// A list member: the strings of an array, or the words of a string.
pub open spec fn json_string_list_of(value: Json, key: Seq<char>) -> Seq<Seq<char>> {
    match json_get(value, key) {
        Some(Json::Array(items)) => strings_of(items@),
        Some(Json::Str(text)) => split_words_spec(text@, true),
        _ => Seq::empty(),
    }
}

/// Reads a list member.
pub fn json_string_list(value: &Json, key: &str) -> (r: Vec<String>)
    ensures
        str_views(r@) == json_string_list_of(*value, key@),
{
    match value.get(key) {
        Some(Json::Array(items)) => {
            let mut out: Vec<String> = Vec::new();
            let mut i: usize = 0;
            while i < items.len()
                invariant
                    i <= items.len(),
                    str_views(out@) == strings_of(items@.take(i as int)),
                decreases items.len() - i,
            {
                assert(items@.take(i + 1).drop_last() =~= items@.take(i as int));
                match &items[i] {
                    Json::Str(s) => {
                        let ghost before = str_views(out@);
                        out.push(s.clone());
                        assert(str_views(out@) =~= before.push(s@));
                    },
                    _ => {},
                }
                i += 1;
            }
            assert(items@.take(items.len() as int) =~= items@);
            out
        },
        Some(Json::Str(text)) => {
            let w = split_directive_words(text.as_str());
            assert(str_views(w@) =~= strs(w@));
            w
        },
        _ => {
            let out: Vec<String> = Vec::new();
            assert(str_views(out@) =~= Seq::<Seq<char>>::empty());
            out
        },
    }
}

// ─── Entry names ─────────────────────────────────────────────────────────────

/// Why a catalog entry is refused.
#[derive(Debug)]
pub enum CatalogError {
    /// An alias or catalog name is empty.
    EmptyName,
    /// An alias or catalog name is not a letter followed by letters,
    /// digits, `_` or `-`.
    InvalidName(String),
    /// No alias name can be taken from a script reference.
    NoAliasName(String),
    /// The catalog's root is not an object.
    NotAnObject,
    /// The catalog already has an entry of this name (and overwriting was
    /// not asked for).
    Exists(String),
}

/// A valid alias or catalog name: an ASCII letter, then ASCII letters,
/// digits, `_` or `-`.
pub open spec fn entry_name(s: Seq<char>) -> bool {
    s.len() > 0 && crate::init::is_ascii_alpha(s[0]) && forall|i: int|
        1 <= i < s.len() ==> (crate::init::is_ascii_alnum(#[trigger] s[i]) || s[i] == '_' || s[i]
            == '-')
}

/// Checks an alias or catalog name.
pub fn validate_catalog_entry_name(name: &str) -> (r: Result<(), CatalogError>)
    ensures
        name@.len() == 0 ==> r matches Err(CatalogError::EmptyName),
        name@.len() > 0 ==> (r is Ok <==> entry_name(name@)),
        name@.len() > 0 && !entry_name(name@) ==> (r matches Err(CatalogError::InvalidName(n)) && n@
            == name@),
{
    let c = chars_of(name);
    if c.len() == 0 {
        return Err(CatalogError::EmptyName);
    }
    let f = c[0];
    let mut ok = ('a' <= f && f <= 'z') || ('A' <= f && f <= 'Z');
    let mut i: usize = 1;
    while ok && i < c.len()
        invariant
            c@ == name@,
            1 <= i <= c.len(),
            ok ==> crate::init::is_ascii_alpha(c@[0]),
            ok ==> forall|k: int|
                1 <= k < i ==> (crate::init::is_ascii_alnum(#[trigger] c@[k]) || c@[k] == '_' || c@[k]
                    == '-'),
            !ok ==> !entry_name(name@),
        decreases c.len() - i + (if ok { 1int } else { 0int }),
    {
        let ch = c[i];
        if !(('a' <= ch && ch <= 'z') || ('A' <= ch && ch <= 'Z') || ('0' <= ch && ch <= '9') || ch
            == '_' || ch == '-') {
            ok = false;
        } else {
            i += 1;
        }
    }
    if !ok {
        return Err(CatalogError::InvalidName(name.to_owned()));
    }
    Ok(())
}

/// The alias name that a script reference suggests: its last path segment
/// (before any query or fragment) without a script extension.
pub open spec fn alias_name_of(script_ref: Seq<char>) -> Seq<char> {
    let without_query = script_ref.take(index_of_any(script_ref, seq!['?', '#']));
    let k = last_sep(without_query);
    let last = without_query.skip(k);
    let file_name = if last.len() > 0 {
        last
    } else {
        without_query
    };
    strip_script_ext(file_name)
}

/// The position after the last `/` or `\`, or 0.
pub open spec fn last_sep(s: Seq<char>) -> int
    decreases s.len(),
{
    if s.len() == 0 {
        0
    } else if s.last() == '/' || s.last() == '\\' {
        s.len() as int
    } else {
        last_sep(s.drop_last())
    }
}

proof fn lemma_last_sep(s: Seq<char>)
    ensures
        0 <= last_sep(s) <= s.len(),
    decreases s.len(),
{
    if s.len() > 0 && !(s.last() == '/' || s.last() == '\\') {
        lemma_last_sep(s.drop_last());
    }
}

/// A file name without the first of the extensions `.java`, `.kt`,
/// `.groovy`, `.jsh`, `.jav` that it ends with.
pub open spec fn strip_script_ext(f: Seq<char>) -> Seq<char> {
    if has_suffix(f, ".java"@) {
        f.take(f.len() - ".java"@.len())
    } else if has_suffix(f, ".kt"@) {
        f.take(f.len() - ".kt"@.len())
    } else if has_suffix(f, ".groovy"@) {
        f.take(f.len() - ".groovy"@.len())
    } else if has_suffix(f, ".jsh"@) {
        f.take(f.len() - ".jsh"@.len())
    } else if has_suffix(f, ".jav"@) {
        f.take(f.len() - ".jav"@.len())
    } else {
        f
    }
}

fn strip_suffix_str(f: &[char], ext: &str) -> (r: Option<Vec<char>>)
    ensures
        has_suffix(f@, ext@) ==> (r matches Some(v) && v@ == f@.take(f@.len() - ext@.len())),
        !has_suffix(f@, ext@) ==> r is None,
{
    let e = chars_of(ext);
    if crate::text::ends_with(f, e.as_slice()) {
        Some(crate::text::slice_chars(f, 0, f.len() - e.len()))
    } else {
        None
    }
}

/// The alias name that a script reference suggests.
pub fn alias_name_from_ref(script_ref: &str) -> (r: Result<String, CatalogError>)
    ensures
        alias_name_of(script_ref@).len() > 0 ==> (r matches Ok(n) && n@ == alias_name_of(
            script_ref@,
        )),
        alias_name_of(script_ref@).len() == 0 ==> (r matches Err(CatalogError::NoAliasName(s)) && s@
            == script_ref@),
{
    let c = chars_of(script_ref);
    let stops = vec!['?', '#'];
    assert(stops@ =~= seq!['?', '#']);
    let q = crate::remote::first_of_any(c.as_slice(), stops.as_slice());
    proof {
        crate::remote::lemma_index_of_any(c@, stops@);
    }
    let wq = crate::text::slice_chars(c.as_slice(), 0, q);
    let mut k: usize = wq.len();
    assert(wq@.take(wq.len() as int) =~= wq@);
    while k > 0 && wq[k - 1] != '/' && wq[k - 1] != '\\'
        invariant
            k <= wq.len(),
            last_sep(wq@) == last_sep(wq@.take(k as int)),
        decreases k,
    {
        assert(wq@.take(k as int).drop_last() =~= wq@.take(k - 1));
        k -= 1;
    }
    proof {
        lemma_last_sep(wq@);
        if k > 0 {
            assert(wq@.take(k as int).last() == wq@[k - 1]);
        }
        assert(wq@.take(wq.len() as int) =~= wq@);
    }
    let last = crate::text::slice_chars(wq.as_slice(), k, wq.len());
    let file_name = if last.len() > 0 {
        last
    } else {
        wq
    };
    let stem = match strip_suffix_str(file_name.as_slice(), ".java") {
        Some(s) => s,
        None => match strip_suffix_str(file_name.as_slice(), ".kt") {
            Some(s) => s,
            None => match strip_suffix_str(file_name.as_slice(), ".groovy") {
                Some(s) => s,
                None => match strip_suffix_str(file_name.as_slice(), ".jsh") {
                    Some(s) => s,
                    None => match strip_suffix_str(file_name.as_slice(), ".jav") {
                        Some(s) => s,
                        None => file_name,
                    },
                },
            },
        },
    };
    if stem.len() == 0 {
        Err(CatalogError::NoAliasName(script_ref.to_owned()))
    } else {
        Ok(string_of(stem.as_slice()))
    }
}

/// `base` and `child` joined by one `/` (trailing slashes of `base` and
/// leading slashes of `child` dropped).
pub open spec fn url_joined(base: Seq<char>, child: Seq<char>) -> Seq<char> {
    trim_end_slashes(base) + seq!['/'] + trim_start_slashes(child)
}

/// `s` without trailing `/`.
pub open spec fn trim_end_slashes(s: Seq<char>) -> Seq<char>
    decreases s.len(),
{
    if s.len() > 0 && s.last() == '/' {
        trim_end_slashes(s.drop_last())
    } else {
        s
    }
}

/// `s` without leading `/`.
pub open spec fn trim_start_slashes(s: Seq<char>) -> Seq<char>
    decreases s.len(),
{
    if s.len() > 0 && s[0] == '/' {
        trim_start_slashes(s.drop_first())
    } else {
        s
    }
}

/// Joins a base URL and a child path with one `/`.
pub fn join_url_path(base: &str, child: &str) -> (r: String)
    ensures
        r@ == url_joined(base@, child@),
{
    let b = chars_of(base);
    let c = chars_of(child);
    let mut e: usize = b.len();
    assert(b@.take(b.len() as int) =~= b@);
    while e > 0 && b[e - 1] == '/'
        invariant
            e <= b.len(),
            trim_end_slashes(b@) == trim_end_slashes(b@.take(e as int)),
        decreases e,
    {
        assert(b@.take(e as int).drop_last() =~= b@.take(e - 1));
        e -= 1;
    }
    proof {
        if e > 0 {
            assert(b@.take(e as int).last() == b@[e - 1]);
        }
    }
    let mut s: usize = 0;
    assert(c@.skip(0) =~= c@);
    while s < c.len() && c[s] == '/'
        invariant
            s <= c.len(),
            trim_start_slashes(c@) == trim_start_slashes(c@.skip(s as int)),
        decreases c.len() - s,
    {
        assert(c@.skip(s as int).drop_first() =~= c@.skip(s + 1));
        s += 1;
    }
    proof {
        if s < c.len() {
            assert(c@.skip(s as int)[0] == c@[s as int]);
        }
    }
    let mut out = crate::text::slice_chars(b.as_slice(), 0, e);
    out.push('/');
    let tail = crate::text::slice_chars(c.as_slice(), s, c.len());
    crate::text::append_chars(&mut out, tail.as_slice());
    assert(out@ =~= url_joined(base@, child@));
    string_of(out.as_slice())
}

// ─── Sorting by name ─────────────────────────────────────────────────────────

/// Something with a name.
pub trait Named {
    spec fn name_of(&self) -> Seq<char>;

    fn name_str(&self) -> (r: &str)
        ensures
            r@ == self.name_of(),
    ;
}

/// `x` inserted after every element whose name is not greater than its own.
pub open spec fn insert_by_name<T: Named>(v: Seq<T>, x: T) -> Seq<T>
    decreases v.len(),
{
    if v.len() == 0 {
        seq![x]
    } else if seq_lt(x.name_of(), v[0].name_of()) {
        seq![x] + v
    } else {
        seq![v[0]] + insert_by_name(v.drop_first(), x)
    }
}

/// The elements sorted by name, equal names kept in their order.
pub open spec fn sort_by_name<T: Named>(v: Seq<T>) -> Seq<T>
    decreases v.len(),
{
    if v.len() == 0 {
        Seq::empty()
    } else {
        insert_by_name(sort_by_name(v.drop_last()), v.last())
    }
}

fn insert_named<T: Named>(v: &mut Vec<T>, x: T)
    ensures
        final(v)@ == insert_by_name(old(v)@, x),
{
    let ghost v0 = v@;
    let xc = chars_of(x.name_str());
    let mut p: usize = 0;
    let mut found = false;
    assert(v0.skip(0) =~= v0);
    assert(v0.take(0) + insert_by_name(v0.skip(0), x) =~= insert_by_name(v0, x));
    while p < v.len() && !found
        invariant
            v@ == v0,
            xc@ == x.name_of(),
            p <= v.len(),
            found ==> p < v.len() && seq_lt(x.name_of(), v0[p as int].name_of()),
            insert_by_name(v0, x) == v0.take(p as int) + insert_by_name(v0.skip(p as int), x),
        decreases v.len() - p + (if found { 0int } else { 1int }),
    {
        let vc = chars_of(v[p].name_str());
        if chars_lt(xc.as_slice(), vc.as_slice()) {
            found = true;
        } else {
            proof {
                let s = v0.skip(p as int);
                assert(s.drop_first() =~= v0.skip(p + 1));
                assert(s[0] == v0[p as int]);
                assert(insert_by_name(s, x) == seq![s[0]] + insert_by_name(s.drop_first(), x));
                assert(v0.take(p as int) + (seq![s[0]] + insert_by_name(s.drop_first(), x)) =~= v0.take(
                    p + 1,
                ) + insert_by_name(v0.skip(p + 1), x));
            }
            p += 1;
        }
    }
    let ghost xg = x;
    v.insert(p, x);
    proof {
        let s = v0.skip(p as int);
        if p < v0.len() {
            assert(s[0] == v0[p as int]);
            assert(insert_by_name(s, xg) == seq![xg] + s);
        } else {
            assert(s.len() == 0);
        }
        assert(v@ =~= v0.take(p as int) + (seq![xg] + s));
    }
}

/// Sorts by name, keeping the order of equal names.
pub fn sort_named<T: Named>(v: Vec<T>) -> (r: Vec<T>)
    ensures
        r@ == sort_by_name(v@),
{
    let ghost v0 = v@;
    assert(v0.len() == v.len());
    let mut rest = v;
    let mut out: Vec<T> = Vec::new();
    let mut k: usize = 0;
    while rest.len() > 0
        invariant
            k <= v0.len(),
            v0.len() <= usize::MAX,
            rest@ == v0.skip(k as int),
            out@ == sort_by_name(v0.take(k as int)),
        decreases rest.len(),
    {
        assert(v0.skip(k as int).len() == v0.len() - k);
        assert(k < v0.len());
        let x = rest.remove(0);
        proof {
            assert(x == v0[k as int]);
            assert(v0.take(k + 1).drop_last() =~= v0.take(k as int));
            assert(rest@ =~= v0.skip(k + 1));
        }
        insert_named(&mut out, x);
        k += 1;
    }
    assert(v0.take(k as int) =~= v0);
    out
}

/// The first element named `name`.
pub open spec fn first_named<T: Named>(v: Seq<T>, name: Seq<char>) -> Option<T>
    decreases v.len(),
{
    if v.len() == 0 {
        None
    } else if v[0].name_of() == name {
        Some(v[0])
    } else {
        first_named(v.drop_first(), name)
    }
}

/// Takes the first element named `name` out of `items`.
pub fn find_named<T: Named>(items: Vec<T>, name: &str) -> (r: Option<T>)
    ensures
        r == first_named(items@, name@),
{
    let ghost v0 = items@;
    let mut v = items;
    let mut i: usize = 0;
    assert(v0.skip(0) =~= v0);
    while i < v.len()
        invariant
            v@ == v0,
            items@ == v0,
            i <= v.len(),
            first_named(v0, name@) == first_named(v0.skip(i as int), name@),
        decreases v.len() - i,
    {
        let ghost s = v0.skip(i as int);
        assert(s[0] == v0[i as int]);
        if str_eq(v[i].name_str(), name) {
            assert(first_named(s, name@) == Some(s[0]));
            let x = v.remove(i);
            assert(x == v0[i as int]);
            return Some(x);
        }
        assert(s.drop_first() =~= v0.skip(i + 1));
        i += 1;
    }
    None
}

/// The alias named `name` among the aliases that the catalogs define: the
/// first of that name.
pub fn resolve_catalog_alias(aliases: Vec<CatalogAlias>, name: &str) -> (r: Option<CatalogAlias>)
    ensures
        r == first_named(aliases@, name@),
{
    find_named(aliases, name)
}

/// Where `init` looks for a template: `name@catalog` names a template of one
/// registered catalog; any other name is looked up among all templates.
#[derive(Debug)]
pub enum TemplateRef {
    Listed(String),
    InCatalog { template: String, catalog: String },
}

/// Reads a template name: split at its first `@`.
pub fn template_ref(name: &str) -> (r: TemplateRef)
    ensures
        match split_first(name@, '@') {
            Some((t, c)) => r matches TemplateRef::InCatalog { template, catalog } && template@ == t
                && catalog@ == c,
            None => r matches TemplateRef::Listed(n) && n@ == name@,
        },
{
    let c = chars_of(name);
    match split_once(c.as_slice(), '@') {
        Some((t, k)) => {
            proof {
                lemma_split_first(name@, '@', t@, k@);
            }
            TemplateRef::InCatalog { template: string_of(t.as_slice()), catalog: string_of(k.as_slice()) }
        },
        None => {
            proof {
                lemma_split_first(name@, '@', Seq::empty(), Seq::empty());
            }
            TemplateRef::Listed(name.to_owned())
        },
    }
}

/// The elements of the lists, list after list.
pub open spec fn concat_lists<T>(vs: Seq<Seq<T>>) -> Seq<T>
    decreases vs.len(),
{
    if vs.len() == 0 {
        Seq::empty()
    } else {
        concat_lists(vs.drop_last()) + vs.last()
    }
}

/// The contents of each list.
pub open spec fn list_views<T>(vs: Seq<Vec<T>>) -> Seq<Seq<T>> {
    vs.map_values(|v: Vec<T>| v@)
}

/// The items of a catalog followed by those of each catalog it imports, sorted
/// by name; among equal names the catalog's own come first, then the imports
/// in their order.
pub fn merge_catalog_items<T: Named>(own: Vec<T>, imported: Vec<Vec<T>>) -> (r: Vec<T>)
    ensures
        r@ == sort_by_name(own@ + concat_lists(list_views(imported@))),
{
    let ghost o = own@;
    let ghost iv = list_views(imported@);
    let mut out = own;
    let mut rest = imported;
    let mut k: usize = 0;
    assert(iv.skip(0) =~= iv);
    assert(o + concat_lists(iv.take(0)) =~= o);
    assert(iv.len() == rest.len());
    while rest.len() > 0
        invariant
            k <= iv.len(),
            iv.len() <= usize::MAX,
            list_views(rest@) == iv.skip(k as int),
            out@ == o + concat_lists(iv.take(k as int)),
        decreases rest.len(),
    {
        assert(list_views(rest@).len() == rest@.len());
        let ghost old_rest = rest@;
        let mut x = rest.remove(0);
        proof {
            assert(list_views(old_rest)[0] == x@);
            assert(iv.skip(k as int)[0] == x@);
            assert forall|j: int| 0 <= j < rest@.len() implies list_views(rest@)[j] == iv.skip(
                k + 1,
            )[j] by {
                assert(rest@[j] == old_rest[j + 1]);
                assert(list_views(old_rest)[j + 1] == iv.skip(k as int)[j + 1]);
            }
            assert(iv[k as int] == x@);
            assert(iv.take(k + 1).drop_last() =~= iv.take(k as int));
            assert(list_views(rest@) =~= iv.skip(k + 1));
        }
        let ghost before = out@;
        out.append(&mut x);
        assert(out@ =~= o + concat_lists(iv.take(k + 1)));
        k += 1;
    }
    assert(iv.take(k as int) =~= iv);
    sort_named(out)
}

// ─── Paths of catalog entries ────────────────────────────────────────────────

/// `PathBuf::from`: the text as a path. Nothing is stated: paths are opaque.
#[verifier::external_body]
fn path_of(s: &str) -> std::path::PathBuf {
    std::path::PathBuf::from(s)
}

/// `Path::join`: `part` under `base`. Nothing is stated: paths are opaque.
#[verifier::external_body]
pub(crate) fn path_join(base: &std::path::Path, part: &str) -> std::path::PathBuf {
    base.join(part)
}

/// `Path::join` on an owned path: `part` under `base`. Nothing is stated:
/// paths are opaque.
#[verifier::external_body]
pub(crate) fn path_buf_join(base: &std::path::PathBuf, part: &str) -> std::path::PathBuf {
    base.join(part)
}

/// `Path::to_path_buf`: a copy of a path, equal to it.
#[verifier::external_body]
pub(crate) fn path_copy(p: &std::path::Path) -> (r: std::path::PathBuf) {
    p.to_path_buf()
}

/// `Path::file_name` of the path `path`, as text. How a path splits differs
/// between platforms; for a portable path text the result is what the
/// documentation of `Path::components` and `file_name` gives on every
/// platform (`file_name_of`). A name taken from a `str` is always text.
#[verifier::external_body]
fn file_name_text(path: &str) -> (r: Option<String>)
    ensures
        crate::source::portable_path(path@) ==> crate::resolver::opt_view(r) == crate::source::file_name_of(path@),
{
    std::path::Path::new(path).file_name().and_then(|n| n.to_str()).map(|n| n.to_owned())
}

/// Where a catalog entry's reference points.
#[derive(Debug)]
pub enum PathPlan {
    /// The text itself, as a path: a URL or an absolute path.
    Text(String),
    /// The reference under an absolute base.
    Under(String, String),
    /// The catalog's directory with these parts joined in turn.
    InCatalogDir(Vec<String>),
}

/// How a script reference of a catalog is resolved: a URL or absolute path
/// is taken as it is; with a `base-ref`, a URL base is joined to it as a
/// URL, an absolute base is its directory, a relative one lies in the
/// catalog's directory; without one, the catalog's directory holds it.
pub open spec fn script_ref_plan_matches(
    p: PathPlan,
    base_ref: Option<Seq<char>>,
    script_ref: Seq<char>,
    ref_abs: bool,
    base_abs: bool,
) -> bool {
    if remote_url(script_ref) || ref_abs {
        p matches PathPlan::Text(t) && t@ == script_ref
    } else {
        match base_ref {
            Some(b) => if remote_url(b) {
                p matches PathPlan::Text(t) && t@ == url_joined(b, script_ref)
            } else if base_abs {
                p matches PathPlan::Under(x, y) && x@ == b && y@ == script_ref
            } else {
                p matches PathPlan::InCatalogDir(parts) && str_views(parts@) == seq![b, script_ref]
            },
            None => p matches PathPlan::InCatalogDir(parts) && str_views(parts@) == seq![script_ref],
        }
    }
}

/// Decides how a script reference of a catalog is resolved, given whether
/// the platform takes the reference and the base for absolute paths.
pub fn script_ref_plan(base_ref: Option<&str>, script_ref: &str, ref_abs: bool, base_abs: bool) -> (r:
    PathPlan)
    ensures
        script_ref_plan_matches(
            r,
            match base_ref {
                Some(b) => Some(b@),
                None => None,
            },
            script_ref@,
            ref_abs,
            base_abs,
        ),
{
    if is_remote_url(script_ref) || ref_abs {
        return PathPlan::Text(script_ref.to_owned());
    }
    match base_ref {
        Some(b) => {
            if is_remote_url(b) {
                PathPlan::Text(join_url_path(b, script_ref))
            } else if base_abs {
                PathPlan::Under(b.to_owned(), script_ref.to_owned())
            } else {
                let parts = vec![b.to_owned(), script_ref.to_owned()];
                assert(str_views(parts@) =~= seq![b@, script_ref@]);
                PathPlan::InCatalogDir(parts)
            }
        },
        None => {
            let parts = vec![script_ref.to_owned()];
            assert(str_views(parts@) =~= seq![script_ref@]);
            PathPlan::InCatalogDir(parts)
        },
    }
}

/// Lays a plan onto a catalog's directory. This is the platform's path
/// arithmetic (`PathBuf::from`, `Path::join`), of which nothing is stated;
/// the decisions are the plan's.
pub fn plan_path(catalog_dir: &std::path::Path, plan: &PathPlan) -> std::path::PathBuf {
    match plan {
        PathPlan::Text(t) => path_of(t.as_str()),
        PathPlan::Under(b, r) => {
            let base = path_of(b.as_str());
            path_buf_join(&base, r.as_str())
        },
        PathPlan::InCatalogDir(parts) => {
            let mut p = path_copy(catalog_dir);
            let mut i: usize = 0;
            while i < parts.len()
                decreases parts.len() - i,
            {
                p = path_buf_join(&p, parts[i].as_str());
                i += 1;
            }
            p
        },
    }
}

/// A reference that no platform takes for an absolute path: no leading `/`,
/// no backslash and no `:`.
pub open spec fn surely_relative(s: Seq<char>) -> bool {
    !has_prefix(s, seq!['/']) && !s.contains('\\') && !s.contains(':')
}

/// `p` is how a catalog resolves `script_ref` with `base_ref`, for the
/// platform's reading of which texts are absolute paths (which no platform
/// claims of a surely relative text).
pub open spec fn script_planned(p: PathPlan, base_ref: Option<Seq<char>>, script_ref: Seq<char>) -> bool {
    exists|ref_abs: bool, base_abs: bool|
        (surely_relative(script_ref) ==> !ref_abs) && (base_ref matches Some(b) ==> (
        surely_relative(b) ==> !base_abs)) && #[trigger] script_ref_plan_matches(
            p,
            base_ref,
            script_ref,
            ref_abs,
            base_abs,
        )
}

/// How a catalog resolves a script reference, given its `base-ref`.
pub fn catalog_script_plan(base_ref: Option<&str>, script_ref: &str) -> (r: PathPlan)
    ensures
        script_planned(
            r,
            match base_ref {
                Some(b) => Some(b@),
                None => None,
            },
            script_ref@,
        ),
{
    let ref_abs = crate::remote::path_is_absolute(script_ref);
    let base_abs = match base_ref {
        Some(b) => crate::remote::path_is_absolute(b),
        None => false,
    };
    script_ref_plan(base_ref, script_ref, ref_abs, base_abs)
}

/// The path of a script that a catalog entry refers to: the plan of
/// `catalog_script_plan` laid onto the catalog's directory.
pub(crate) fn resolve_catalog_script_ref(
    catalog_dir: &std::path::Path,
    base_ref: Option<&str>,
    script_ref: &str,
) -> std::path::PathBuf {
    let plan = catalog_script_plan(base_ref, script_ref);
    plan_path(catalog_dir, &plan)
}

/// Where the catalog file of a catalog reference is: a URL or absolute path
/// as it is, else under the catalog's directory; `jbang-catalog.json` is
/// added unless the reference already names that file.
pub open spec fn catalog_ref_plan_matches(
    p: PathPlan,
    catalog_ref: Seq<char>,
    abs: bool,
    name: Option<Seq<char>>,
) -> bool {
    let named = name == Some("jbang-catalog.json"@);
    if remote_url(catalog_ref) || abs {
        if named {
            p matches PathPlan::Text(t) && t@ == catalog_ref
        } else {
            p matches PathPlan::Under(b, f) && b@ == catalog_ref && f@ == "jbang-catalog.json"@
        }
    } else if named {
        p matches PathPlan::InCatalogDir(parts) && str_views(parts@) == seq![catalog_ref]
    } else {
        p matches PathPlan::InCatalogDir(parts) && str_views(parts@) == seq![catalog_ref, "jbang-catalog.json"@]
    }
}

/// `p` is where the catalog file of a reference is, for the platform's
/// reading of absolute paths and of the reference's file name (which every
/// platform reads alike for a portable reference).
pub open spec fn catalog_ref_planned(p: PathPlan, catalog_ref: Seq<char>) -> bool {
    exists|abs: bool, name: Option<Seq<char>>|
        (surely_relative(catalog_ref) ==> !abs) && (crate::source::portable_path(catalog_ref) ==> name
            == crate::source::file_name_of(catalog_ref)) && #[trigger] catalog_ref_plan_matches(
            p,
            catalog_ref,
            abs,
            name,
        )
}

/// Where the catalog file of a catalog reference is.
pub fn catalog_ref_plan(catalog_ref: &str) -> (r: PathPlan)
    ensures
        catalog_ref_planned(r, catalog_ref@),
{
    let abs = crate::remote::path_is_absolute(catalog_ref);
    let name = file_name_text(catalog_ref);
    let named = match &name {
        Some(n) => str_eq(n.as_str(), "jbang-catalog.json"),
        None => false,
    };
    let ghost nv = crate::resolver::opt_view(name);
    assert(named == (nv == Some("jbang-catalog.json"@)));
    let r = if is_remote_url(catalog_ref) || abs {
        if named {
            PathPlan::Text(catalog_ref.to_owned())
        } else {
            PathPlan::Under(catalog_ref.to_owned(), "jbang-catalog.json".to_owned())
        }
    } else if named {
        let parts = vec![catalog_ref.to_owned()];
        assert(str_views(parts@) =~= seq![catalog_ref@]);
        PathPlan::InCatalogDir(parts)
    } else {
        let parts = vec![catalog_ref.to_owned(), "jbang-catalog.json".to_owned()];
        assert(str_views(parts@) =~= seq![catalog_ref@, "jbang-catalog.json"@]);
        PathPlan::InCatalogDir(parts)
    };
    assert(catalog_ref_plan_matches(r, catalog_ref@, abs, nv));
    r
}

/// The catalog file that a catalog reference names: the plan of
/// `catalog_ref_plan` laid onto the catalog's directory.
pub(crate) fn resolve_catalog_file_ref(catalog_dir: &std::path::Path, catalog_ref: &str) -> std::path::PathBuf {
    let plan = catalog_ref_plan(catalog_ref);
    plan_path(catalog_dir, &plan)
}

// ─── Entries ─────────────────────────────────────────────────────────────────

/// An external catalog registered in a catalog.
#[derive(Debug)]
pub struct CatalogRefEntry {
    pub name: String,
    pub catalog_ref: String,
    /// Where the reference points before `jbang-catalog.json` is added.
    pub catalog_plan: PathPlan,
    pub catalog: std::path::PathBuf,
    pub description: Option<String>,
    pub import_items: bool,
}

impl Named for CatalogRefEntry {
    open spec fn name_of(&self) -> Seq<char> {
        self.name@
    }

    fn name_str(&self) -> (r: &str) {
        self.name.as_str()
    }
}

/// What a catalog says of an external catalog: name, reference,
/// description and whether its items are imported.
pub type RefView = (Seq<char>, Seq<char>, Option<Seq<char>>, bool);

/// The view of a catalog reference, without its resolved path.
pub open spec fn ref_view(e: CatalogRefEntry) -> RefView {
    (e.name@, e.catalog_ref@, crate::resolver::opt_view(e.description), e.import_items)
}

/// The import flag of an entry (`import`, false unless `true`).
pub open spec fn import_flag(v: Json) -> bool {
    json_get(v, "import"@) == Some(Json::Bool(true))
}

/// The external catalogs of a catalog's `catalogs` object, in member order:
/// those with a `catalog-ref` (or `catalogRef`) string.
pub open spec fn ref_entries_in(members: Seq<(String, Json)>) -> Seq<RefView>
    decreases members.len(),
{
    if members.len() == 0 {
        Seq::empty()
    } else {
        let rest = ref_entries_in(members.drop_last());
        let (name, v) = members.last();
        match json_str(json_get_either(v, "catalog-ref"@, "catalogRef"@)) {
            Some(r) => rest.push((name@, r, json_str(json_get(v, "description"@)), import_flag(v))),
            None => rest,
        }
    }
}

/// The external catalogs that a catalog registers.
pub open spec fn ref_entries_of(catalog: Json) -> Seq<RefView> {
    match json_get(catalog, "catalogs"@) {
        Some(Json::Object(members)) => ref_entries_in(members@),
        _ => Seq::empty(),
    }
}

/// Reads the external catalogs that a catalog registers, sorted by name;
/// each catalog path is resolved against the catalog's directory.
pub fn read_catalog_refs(catalog: &Json, catalog_dir: &std::path::Path) -> (r: Vec<CatalogRefEntry>)
    ensures
        exists|c: Seq<CatalogRefEntry>|
            c.map_values(|e: CatalogRefEntry| ref_view(e)) == ref_entries_of(*catalog) && r@
                == sort_by_name(c) && forall|k: int|
                0 <= k < c.len() ==> catalog_ref_planned(
                    (#[trigger] c[k]).catalog_plan,
                    c[k].catalog_ref@,
                ),
{
    let mut out: Vec<CatalogRefEntry> = Vec::new();
    match catalog.get("catalogs") {
        Some(Json::Object(members)) => {
            let mut i: usize = 0;
            while i < members.len()
                invariant
                    i <= members.len(),
                    out@.map_values(|e: CatalogRefEntry| ref_view(e)) == ref_entries_in(
                        members@.take(i as int),
                    ),
                    forall|k: int|
                        0 <= k < out.len() ==> catalog_ref_planned(
                            (#[trigger] out@[k]).catalog_plan,
                            out@[k].catalog_ref@,
                        ),
                decreases members.len() - i,
            {
                assert(members@.take(i + 1).drop_last() =~= members@.take(i as int));
                let (name, value) = (&members[i].0, &members[i].1);
                match get_either(value, "catalog-ref", "catalogRef") {
                    Some(Json::Str(r)) => {
                        let import_items = match value.get("import") {
                            Some(Json::Bool(b)) => *b,
                            _ => false,
                        };
                        let e = CatalogRefEntry {
                            name: name.clone(),
                            catalog_ref: r.clone(),
                            catalog_plan: catalog_ref_plan(r.as_str()),
                            catalog: resolve_catalog_file_ref(catalog_dir, r.as_str()),
                            description: opt_text(value.get("description")),
                            import_items,
                        };
                        let ghost before = out@;
                        out.push(e);
                        assert(out@.map_values(|e: CatalogRefEntry| ref_view(e)) =~= before.map_values(
                            |e: CatalogRefEntry| ref_view(e),
                        ).push(ref_view(e)));
                    },
                    _ => {},
                }
                i += 1;
            }
            assert(members@.take(members.len() as int) =~= members@);
        },
        _ => {
            assert(out@.map_values(|e: CatalogRefEntry| ref_view(e)) =~= Seq::<RefView>::empty());
        },
    }
    let ghost c = out@;
    let r = sort_named(out);
    assert(c.map_values(|e: CatalogRefEntry| ref_view(e)) == ref_entries_of(*catalog));
    r
}

/// An alias: a name for a script with the options to run it with.
#[derive(Debug)]
pub struct CatalogAlias {
    pub name: String,
    pub script_ref: String,
    /// How the script reference is resolved.
    pub script_plan: PathPlan,
    pub script: std::path::PathBuf,
    pub description: Option<String>,
    pub arguments: Vec<String>,
    pub deps: Vec<String>,
    pub repos: Vec<String>,
    pub sources: Vec<String>,
    pub files: Vec<String>,
    pub classpaths: Vec<std::path::PathBuf>,
    pub javac_options: Vec<String>,
    pub runtime_options: Vec<String>,
    pub java_agents: Vec<KeyValue>,
    pub java_version: Option<String>,
    pub main_class: Option<String>,
}

impl Named for CatalogAlias {
    open spec fn name_of(&self) -> Seq<char> {
        self.name@
    }

    fn name_str(&self) -> (r: &str) {
        self.name.as_str()
    }
}

/// What a catalog says of an alias, its resolved paths aside.
#[verifier::ext_equal]
pub struct AliasView {
    pub name: Seq<char>,
    pub script_ref: Seq<char>,
    pub description: Option<Seq<char>>,
    pub arguments: Seq<Seq<char>>,
    pub deps: Seq<Seq<char>>,
    pub repos: Seq<Seq<char>>,
    pub sources: Seq<Seq<char>>,
    pub files: Seq<Seq<char>>,
    pub classpath_count: nat,
    pub javac_options: Seq<Seq<char>>,
    pub runtime_options: Seq<Seq<char>>,
    pub java_agents: Seq<(Seq<char>, Option<Seq<char>>)>,
    pub java_version: Option<Seq<char>>,
    pub main_class: Option<Seq<char>>,
}

/// The view of an alias.
pub open spec fn alias_view(a: CatalogAlias) -> AliasView {
    AliasView {
        name: a.name@,
        script_ref: a.script_ref@,
        description: crate::resolver::opt_view(a.description),
        arguments: str_views(a.arguments@),
        deps: str_views(a.deps@),
        repos: str_views(a.repos@),
        sources: str_views(a.sources@),
        files: str_views(a.files@),
        classpath_count: a.classpaths.len() as nat,
        javac_options: str_views(a.javac_options@),
        runtime_options: str_views(a.runtime_options@),
        java_agents: kvs(a.java_agents@),
        java_version: crate::resolver::opt_view(a.java_version),
        main_class: crate::resolver::opt_view(a.main_class),
    }
}

/// What the member `v` named `name` of a catalog's `aliases` says, given
/// its script reference.
pub open spec fn alias_from(name: Seq<char>, script_ref: Seq<char>, v: Json) -> AliasView {
    AliasView {
        name,
        script_ref,
        description: json_str(json_get(v, "description"@)),
        arguments: json_string_list_of(v, "arguments"@),
        deps: json_string_list_of(v, "dependencies"@),
        repos: json_string_list_of(v, "repositories"@),
        sources: json_string_list_of(v, "sources"@),
        files: json_string_list_of(v, "files"@),
        classpath_count: json_string_list_of(v, "classpaths"@).len(),
        javac_options: json_string_list_of(v, "compile-options"@),
        runtime_options: json_string_list_of(v, "runtime-options"@) + json_string_list_of(
            v,
            "java-options"@,
        ),
        java_agents: json_string_list_of(v, "java-agents"@).map_values(
            |t: Seq<char>| key_value_of(t),
        ),
        java_version: json_str(json_get(v, "java"@)),
        main_class: json_str(json_get(v, "main"@)),
    }
}

/// The aliases of a catalog's `aliases` object, in member order: those with
/// a `script-ref` (or `scriptRef`) string.
pub open spec fn alias_entries_in(members: Seq<(String, Json)>) -> Seq<AliasView>
    decreases members.len(),
{
    if members.len() == 0 {
        Seq::empty()
    } else {
        let rest = alias_entries_in(members.drop_last());
        let (name, v) = members.last();
        match json_str(json_get_either(v, "script-ref"@, "scriptRef"@)) {
            Some(r) => rest.push(alias_from(name@, r, v)),
            None => rest,
        }
    }
}

/// The aliases that a catalog defines.
pub open spec fn alias_entries_of(catalog: Json) -> Seq<AliasView> {
    match json_get(catalog, "aliases"@) {
        Some(Json::Object(members)) => alias_entries_in(members@),
        _ => Seq::empty(),
    }
}

fn paths_of(v: &Vec<String>) -> (r: Vec<std::path::PathBuf>)
    ensures
        r.len() == v.len(),
{
    let mut out: Vec<std::path::PathBuf> = Vec::new();
    let mut i: usize = 0;
    while i < v.len()
        invariant
            i <= v.len(),
            out.len() == i,
        decreases v.len() - i,
    {
        out.push(path_of(v[i].as_str()));
        i += 1;
    }
    out
}

fn key_values_of(v: &Vec<String>) -> (r: Vec<KeyValue>)
    ensures
        kvs(r@) == str_views(v@).map_values(|t: Seq<char>| key_value_of(t)),
{
    let mut out: Vec<KeyValue> = Vec::new();
    let mut i: usize = 0;
    while i < v.len()
        invariant
            i <= v.len(),
            kvs(out@) == str_views(v@.take(i as int)).map_values(|t: Seq<char>| key_value_of(t)),
        decreases v.len() - i,
    {
        let ghost before = kvs(out@);
        let kv = KeyValue::parse(v[i].as_str());
        let ghost kvv = kv@;
        out.push(kv);
        assert(v@.take(i + 1) =~= v@.take(i as int).push(v@[i as int]));
        assert(str_views(v@.take(i + 1)) =~= str_views(v@.take(i as int)).push(v@[i as int]@));
        assert(kvs(out@) =~= before.push(kvv));
        assert(kvs(out@) =~= str_views(v@.take(i + 1)).map_values(|t: Seq<char>| key_value_of(t)));
        i += 1;
    }
    assert(v@.take(v.len() as int) =~= v@);
    out
}

fn read_alias(name: &String, script_ref: &String, v: &Json, catalog_dir: &std::path::Path, base_ref: Option<&str>) -> (r:
    CatalogAlias)
    ensures
        alias_view(r) == alias_from(name@, script_ref@, *v),
        script_planned(
            r.script_plan,
            match base_ref {
                Some(b) => Some(b@),
                None => None,
            },
            r.script_ref@,
        ),
{
    let classpath_texts = json_string_list(v, "classpaths");
    let mut runtime_options = json_string_list(v, "runtime-options");
    let java_options = json_string_list(v, "java-options");
    let ghost ro = str_views(runtime_options@);
    let mut k: usize = 0;
    while k < java_options.len()
        invariant
            k <= java_options.len(),
            str_views(runtime_options@) == ro + str_views(java_options@.take(k as int)),
        decreases java_options.len() - k,
    {
        let ghost before = str_views(runtime_options@);
        runtime_options.push(java_options[k].clone());
        assert(java_options@.take(k + 1) =~= java_options@.take(k as int).push(java_options@[k as int]));
        assert(str_views(java_options@.take(k + 1)) =~= str_views(java_options@.take(k as int)).push(java_options@[k as int]@));
        assert(str_views(runtime_options@) =~= before.push(java_options@[k as int]@));
        assert(str_views(runtime_options@) =~= ro + str_views(java_options@.take(k + 1)));
        k += 1;
    }
    assert(java_options@.take(java_options.len() as int) =~= java_options@);
    let agents = json_string_list(v, "java-agents");
    let r = CatalogAlias {
        name: name.clone(),
        script_ref: script_ref.clone(),
        script_plan: catalog_script_plan(base_ref, script_ref.as_str()),
        script: resolve_catalog_script_ref(catalog_dir, base_ref, script_ref.as_str()),
        description: opt_text(v.get("description")),
        arguments: json_string_list(v, "arguments"),
        deps: json_string_list(v, "dependencies"),
        repos: json_string_list(v, "repositories"),
        sources: json_string_list(v, "sources"),
        files: json_string_list(v, "files"),
        classpaths: paths_of(&classpath_texts),
        javac_options: json_string_list(v, "compile-options"),
        runtime_options,
        java_agents: key_values_of(&agents),
        java_version: opt_text(v.get("java")),
        main_class: opt_text(v.get("main")),
    };
    assert(alias_view(r) =~= alias_from(name@, script_ref@, *v));
    r
}

/// The `base-ref` (or `baseRef`) of a catalog, where it is a string.
pub open spec fn catalog_base_ref(catalog: Json) -> Option<Seq<char>> {
    json_str(json_get_either(catalog, "base-ref"@, "baseRef"@))
}

/// Reads the aliases that a catalog defines, sorted by name; each script
/// path is resolved against the catalog's directory and its `base-ref`.
pub fn read_catalog_aliases(catalog: &Json, catalog_dir: &std::path::Path) -> (r: Vec<CatalogAlias>)
    ensures
        exists|c: Seq<CatalogAlias>|
            c.map_values(|a: CatalogAlias| alias_view(a)) == alias_entries_of(*catalog) && r@
                == sort_by_name(c) && forall|k: int|
                0 <= k < c.len() ==> script_planned(
                    (#[trigger] c[k]).script_plan,
                    catalog_base_ref(*catalog),
                    c[k].script_ref@,
                ),
{
    let base_ref: Option<&str> = match get_either(catalog, "base-ref", "baseRef") {
        Some(Json::Str(b)) => Some(b.as_str()),
        _ => None,
    };
    let mut out: Vec<CatalogAlias> = Vec::new();
    match catalog.get("aliases") {
        Some(Json::Object(members)) => {
            let mut i: usize = 0;
            while i < members.len()
                invariant
                    i <= members.len(),
                    out@.map_values(|a: CatalogAlias| alias_view(a)) == alias_entries_in(
                        members@.take(i as int),
                    ),
                    match base_ref {
                        Some(b) => Some(b@),
                        None => None,
                    } == catalog_base_ref(*catalog),
                    forall|k: int|
                        0 <= k < out.len() ==> script_planned(
                            (#[trigger] out@[k]).script_plan,
                            catalog_base_ref(*catalog),
                            out@[k].script_ref@,
                        ),
                decreases members.len() - i,
            {
                assert(members@.take(i + 1).drop_last() =~= members@.take(i as int));
                let (name, value) = (&members[i].0, &members[i].1);
                match get_either(value, "script-ref", "scriptRef") {
                    Some(Json::Str(r)) => {
                        let a = read_alias(name, r, value, catalog_dir, base_ref);
                        let ghost before = out@;
                        out.push(a);
                        assert(out@.map_values(|a: CatalogAlias| alias_view(a)) =~= before.map_values(
                            |a: CatalogAlias| alias_view(a),
                        ).push(alias_view(a)));
                    },
                    _ => {},
                }
                i += 1;
            }
            assert(members@.take(members.len() as int) =~= members@);
        },
        _ => {
            assert(out@.map_values(|a: CatalogAlias| alias_view(a)) =~= Seq::<AliasView>::empty());
        },
    }
    let ghost c = out@;
    let r = sort_named(out);
    assert(c.map_values(|a: CatalogAlias| alias_view(a)) == alias_entries_of(*catalog));
    r
}

/// A template that `init` can render: a built-in one, or one that a
/// catalog defines by the files it copies.
#[derive(Debug)]
pub struct CatalogTemplate {
    pub name: String,
    pub description: Option<String>,
    pub file_refs: Vec<(String, String)>,
    pub properties: Vec<(String, Option<String>)>,
    pub catalog_dir: std::path::PathBuf,
    pub base_ref: Option<String>,
}

impl Named for CatalogTemplate {
    open spec fn name_of(&self) -> Seq<char> {
        self.name@
    }

    fn name_str(&self) -> (r: &str) {
        self.name.as_str()
    }
}

/// What a catalog says of a template: name, description, the files it
/// copies (target and source), its properties with their defaults, and
/// the catalog's `base-ref`.
pub type TemplateView = (
    Seq<char>,
    Option<Seq<char>>,
    Seq<(Seq<char>, Seq<char>)>,
    Seq<(Seq<char>, Option<Seq<char>>)>,
    Option<Seq<char>>,
);

/// The views of optional-valued pairs.
pub open spec fn opt_pairs(v: Seq<(String, Option<String>)>) -> Seq<(Seq<char>, Option<Seq<char>>)> {
    v.map_values(|p: (String, Option<String>)| (p.0@, crate::resolver::opt_view(p.1)))
}

/// The view of a template, without its catalog directory.
pub open spec fn template_view(t: CatalogTemplate) -> TemplateView {
    (
        t.name@,
        crate::resolver::opt_view(t.description),
        crate::resolver::prop_views(t.file_refs@),
        opt_pairs(t.properties@),
        crate::resolver::opt_view(t.base_ref),
    )
}

/// The files of a template's `file-refs` object whose source is a string.
pub open spec fn file_refs_in(members: Seq<(String, Json)>) -> Seq<(Seq<char>, Seq<char>)>
    decreases members.len(),
{
    if members.len() == 0 {
        Seq::empty()
    } else {
        let rest = file_refs_in(members.drop_last());
        match members.last().1 {
            Json::Str(src) => rest.push((members.last().0@, src@)),
            _ => rest,
        }
    }
}

/// The properties of a template's `properties` object with their
/// `default` strings.
pub open spec fn properties_in(members: Seq<(String, Json)>) -> Seq<(Seq<char>, Option<Seq<char>>)>
    decreases members.len(),
{
    if members.len() == 0 {
        Seq::empty()
    } else {
        properties_in(members.drop_last()).push(
            (members.last().0@, json_str(json_get(members.last().1, "default"@))),
        )
    }
}

/// What the member `v` named `name` of a catalog's `templates` says.
pub open spec fn template_from(name: Seq<char>, v: Json, base_ref: Option<Seq<char>>) -> TemplateView {
    (
        name,
        json_str(json_get(v, "description"@)),
        match json_get_either(v, "file-refs"@, "fileRefs"@) {
            Some(Json::Object(m)) => file_refs_in(m@),
            _ => Seq::empty(),
        },
        match json_get(v, "properties"@) {
            Some(Json::Object(m)) => properties_in(m@),
            _ => Seq::empty(),
        },
        base_ref,
    )
}

/// The templates of a catalog's `templates` object, in member order.
pub open spec fn template_entries_in(members: Seq<(String, Json)>, base_ref: Option<Seq<char>>) -> Seq<
    TemplateView,
>
    decreases members.len(),
{
    if members.len() == 0 {
        Seq::empty()
    } else {
        template_entries_in(members.drop_last(), base_ref).push(
            template_from(members.last().0@, members.last().1, base_ref),
        )
    }
}

/// The templates that a catalog defines.
pub open spec fn template_entries_of(catalog: Json) -> Seq<TemplateView> {
    match json_get(catalog, "templates"@) {
        Some(Json::Object(members)) => template_entries_in(
            members@,
            json_str(json_get_either(catalog, "base-ref"@, "baseRef"@)),
        ),
        _ => Seq::empty(),
    }
}

fn read_file_refs(members: &Vec<(String, Json)>) -> (r: Vec<(String, String)>)
    ensures
        crate::resolver::prop_views(r@) == file_refs_in(members@),
{
    let mut out: Vec<(String, String)> = Vec::new();
    let mut i: usize = 0;
    while i < members.len()
        invariant
            i <= members.len(),
            crate::resolver::prop_views(out@) == file_refs_in(members@.take(i as int)),
        decreases members.len() - i,
    {
        assert(members@.take(i + 1).drop_last() =~= members@.take(i as int));
        match &members[i].1 {
            Json::Str(src) => {
                let ghost before = crate::resolver::prop_views(out@);
                out.push((members[i].0.clone(), src.clone()));
                assert(crate::resolver::prop_views(out@) =~= before.push((members@[i as int].0@, src@)));
            },
            _ => {},
        }
        i += 1;
    }
    assert(members@.take(members.len() as int) =~= members@);
    out
}

fn read_properties(members: &Vec<(String, Json)>) -> (r: Vec<(String, Option<String>)>)
    ensures
        opt_pairs(r@) == properties_in(members@),
{
    let mut out: Vec<(String, Option<String>)> = Vec::new();
    let mut i: usize = 0;
    while i < members.len()
        invariant
            i <= members.len(),
            opt_pairs(out@) == properties_in(members@.take(i as int)),
        decreases members.len() - i,
    {
        assert(members@.take(i + 1).drop_last() =~= members@.take(i as int));
        let ghost before = opt_pairs(out@);
        let d = opt_text(members[i].1.get("default"));
        let ghost dv = crate::resolver::opt_view(d);
        out.push((members[i].0.clone(), d));
        assert(opt_pairs(out@) =~= before.push((members@[i as int].0@, dv)));
        i += 1;
    }
    assert(members@.take(members.len() as int) =~= members@);
    out
}

/// Reads the templates that a catalog defines, sorted by name.
pub fn read_catalog_templates(catalog: &Json, catalog_dir: &std::path::Path) -> (r: Vec<
    CatalogTemplate,
>)
    ensures
        exists|c: Seq<CatalogTemplate>|
            c.map_values(|t: CatalogTemplate| template_view(t)) == template_entries_of(*catalog) && r@
                == sort_by_name(c),
{
    let base_ref = opt_text(get_either(catalog, "base-ref", "baseRef"));
    let mut out: Vec<CatalogTemplate> = Vec::new();
    match catalog.get("templates") {
        Some(Json::Object(members)) => {
            let mut i: usize = 0;
            while i < members.len()
                invariant
                    i <= members.len(),
                    crate::resolver::opt_view(base_ref) == json_str(
                        json_get_either(*catalog, "base-ref"@, "baseRef"@),
                    ),
                    out@.map_values(|t: CatalogTemplate| template_view(t)) == template_entries_in(
                        members@.take(i as int),
                        crate::resolver::opt_view(base_ref),
                    ),
                decreases members.len() - i,
            {
                assert(members@.take(i + 1).drop_last() =~= members@.take(i as int));
                let value = &members[i].1;
                let file_refs = match get_either(value, "file-refs", "fileRefs") {
                    Some(Json::Object(m)) => read_file_refs(m),
                    _ => {
                        let e: Vec<(String, String)> = Vec::new();
                        assert(crate::resolver::prop_views(e@) =~= Seq::<(Seq<char>, Seq<char>)>::empty());
                        e
                    },
                };
                let properties = match value.get("properties") {
                    Some(Json::Object(m)) => read_properties(m),
                    _ => {
                        let e: Vec<(String, Option<String>)> = Vec::new();
                        assert(opt_pairs(e@) =~= Seq::<(Seq<char>, Option<Seq<char>>)>::empty());
                        e
                    },
                };
                let t = CatalogTemplate {
                    name: members[i].0.clone(),
                    description: opt_text(value.get("description")),
                    file_refs,
                    properties,
                    catalog_dir: path_copy(catalog_dir),
                    base_ref: crate::resolver::copy_opt(&base_ref),
                };
                let ghost before = out@;
                out.push(t);
                assert(out@.map_values(|t: CatalogTemplate| template_view(t)) =~= before.map_values(
                    |t: CatalogTemplate| template_view(t),
                ).push(template_view(t)));
                i += 1;
            }
            assert(members@.take(members.len() as int) =~= members@);
        },
        _ => {
            assert(out@.map_values(|t: CatalogTemplate| template_view(t)) =~= Seq::<TemplateView>::empty());
        },
    }
    let ghost c = out@;
    let r = sort_named(out);
    assert(c.map_values(|t: CatalogTemplate| template_view(t)) == template_entries_of(*catalog));
    r
}

/// The built-in templates as catalog templates: each with its description,
/// no files, no properties and no `base-ref`.
pub open spec fn builtin_template_views() -> Seq<TemplateView> {
    Seq::new(
        6,
        |i: int|
            (
                crate::init::init_template_names()[i],
                Some(crate::init::init_template_descriptions()[i]),
                Seq::<(Seq<char>, Seq<char>)>::empty(),
                Seq::<(Seq<char>, Option<Seq<char>>)>::empty(),
                None::<Seq<char>>,
            ),
    )
}

/// The built-in templates as catalog templates: each with its description,
/// no files, no properties.
pub fn builtin_catalog_templates() -> (r: Vec<CatalogTemplate>)
    ensures
        r.len() == 6,
        forall|i: int|
            0 <= i < 6 ==> template_view(#[trigger] r@[i]) == (
                crate::init::init_template_names()[i],
                Some(crate::init::init_template_descriptions()[i]),
                Seq::<(Seq<char>, Seq<char>)>::empty(),
                Seq::<(Seq<char>, Option<Seq<char>>)>::empty(),
                None::<Seq<char>>,
            ),
{
    let all = crate::init::init_templates();
    let mut out: Vec<CatalogTemplate> = Vec::new();
    let mut i: usize = 0;
    while i < all.len()
        invariant
            all.len() == 6,
            forall|k: int|
                0 <= k < 6 ==> (#[trigger] all@[k]).name@ == crate::init::init_template_names()[k]
                    && all@[k].description@ == crate::init::init_template_descriptions()[k],
            i <= 6,
            out.len() == i,
            forall|k: int|
                0 <= k < i ==> template_view(#[trigger] out@[k]) == (
                    crate::init::init_template_names()[k],
                    Some(crate::init::init_template_descriptions()[k]),
                    Seq::<(Seq<char>, Seq<char>)>::empty(),
                    Seq::<(Seq<char>, Option<Seq<char>>)>::empty(),
                    None::<Seq<char>>,
                ),
        decreases all.len() - i,
    {
        let fr: Vec<(String, String)> = Vec::new();
        let pr: Vec<(String, Option<String>)> = Vec::new();
        assert(crate::resolver::prop_views(fr@) =~= Seq::<(Seq<char>, Seq<char>)>::empty());
        assert(opt_pairs(pr@) =~= Seq::<(Seq<char>, Option<Seq<char>>)>::empty());
        let t = CatalogTemplate {
            name: all[i].name.to_owned(),
            description: Some(all[i].description.to_owned()),
            file_refs: fr,
            properties: pr,
            catalog_dir: path_of(""),
            base_ref: None,
        };
        out.push(t);
        i += 1;
    }
    out
}

/// The templates that `init` offers: the built-in ones and those of the
/// catalogs, sorted by name (built-in ones first among equal names).
pub fn all_catalog_templates(read: Vec<CatalogTemplate>) -> (r: Vec<CatalogTemplate>)
    ensures
        exists|b: Seq<CatalogTemplate>|
            b.map_values(|t: CatalogTemplate| template_view(t)) == builtin_template_views() && r@
                == sort_by_name(b + read@),
{
    let mut all = builtin_catalog_templates();
    let ghost b = all@;
    assert(b.map_values(|t: CatalogTemplate| template_view(t)) =~= builtin_template_views());
    let mut read = read;
    all.append(&mut read);
    sort_named(all)
}

fn find_member(entries: &Vec<(String, Json)>, key: &str) -> (r: Option<usize>)
    ensures
        match r {
            Some(i) => i < entries.len() && entries@[i as int].0@ == key@ && forall|j: int|
                0 <= j < i ==> (#[trigger] entries@[j]).0@ != key@,
            None => forall|j: int| 0 <= j < entries.len() ==> (#[trigger] entries@[j]).0@ != key@,
        },
{
    let mut i: usize = 0;
    while i < entries.len()
        invariant
            i <= entries.len(),
            forall|j: int| 0 <= j < i ==> (#[trigger] entries@[j]).0@ != key@,
        decreases entries.len() - i,
    {
        if str_eq(entries[i].0.as_str(), key) {
            return Some(i);
        }
        i += 1;
    }
    None
}

proof fn lemma_member(e: Seq<(String, Json)>, key: Seq<char>)
    ensures
        (forall|j: int| 0 <= j < e.len() ==> (#[trigger] e[j]).0@ != key) ==> member(e, key) is None,
        forall|i: int|
            0 <= i < e.len() && (#[trigger] e[i]).0@ == key && (forall|j: int|
                0 <= j < i ==> (#[trigger] e[j]).0@ != key) ==> member(e, key) == Some(e[i].1),
    decreases e.len(),
{
    if e.len() > 0 {
        lemma_member(e.drop_first(), key);
        assert forall|j: int| 0 <= j < e.len() - 1 implies e.drop_first()[j] == e[j + 1] by {}
        assert forall|i: int|
            0 <= i < e.len() && (#[trigger] e[i]).0@ == key && (forall|j: int|
                0 <= j < i ==> (#[trigger] e[j]).0@ != key) implies member(e, key) == Some(e[i].1) by {
            if i > 0 {
                assert(e[0].0@ != key);
                assert(e.drop_first()[i - 1] == e[i]);
                assert forall|j: int| 0 <= j < i - 1 implies (#[trigger] e.drop_first()[j]).0@ != key by {
                    assert(e.drop_first()[j] == e[j + 1]);
                }
            }
        }
        if forall|j: int| 0 <= j < e.len() ==> (#[trigger] e[j]).0@ != key {
            assert(e[0].0@ != key);
            assert forall|j: int| 0 <= j < e.len() - 1 implies (#[trigger] e.drop_first()[j]).0@ != key by {
                assert(e.drop_first()[j] == e[j + 1]);
            }
        }
    }
}

/// `j` is the first member of `m` named `key`.
pub open spec fn first_member_at(m: Seq<(String, Json)>, key: Seq<char>, j: int) -> bool {
    0 <= j < m.len() && m[j].0@ == key && forall|k: int| 0 <= k < j ==> (#[trigger] m[k]).0@ != key
}

/// `after` is `before` with the member `key` set to `value`: its first
/// member of that name takes the value, or, without one, the member is added
/// at the end.
pub open spec fn member_set(before: Seq<(String, Json)>, after: Seq<(String, Json)>, key: Seq<char>, value: Json) -> bool {
    ||| exists|j: int|
        #[trigger] first_member_at(before, key, j) && after == before.update(j, (before[j].0, value))
    ||| (forall|k: int| 0 <= k < before.len() ==> (#[trigger] before[k]).0@ != key) && after.len()
        == before.len() + 1 && after.drop_last() == before && after.last().0@ == key
        && after.last().1 == value
}

/// Sets the member `key` of an object's members to `value`.
pub fn set_member(m: &mut Vec<(String, Json)>, key: &str, value: Json)
    ensures
        member_set(old(m)@, final(m)@, key@, value),
{
    let ghost before = m@;
    match find_member(m, key) {
        Some(j) => {
            let (k, _old) = m.remove(j);
            m.insert(j, (k, value));
            assert(first_member_at(before, key@, j as int));
            assert(m@ =~= before.update(j as int, (before[j as int].0, value)));
        },
        None => {
            m.push((key.to_owned(), value));
            assert(m@.drop_last() =~= before);
        },
    }
}

/// Sets the member `key` to the text `value`, unless it is absent or empty.
pub fn set_text_member(m: &mut Vec<(String, Json)>, key: &str, value: Option<String>)
    ensures
        match value {
            Some(v) => if v@.len() > 0 {
                member_set(old(m)@, final(m)@, key@, Json::Str(v))
            } else {
                final(m)@ == old(m)@
            },
            None => final(m)@ == old(m)@,
        },
{
    match value {
        Some(v) => {
            if !v.as_str().is_empty() {
                set_member(m, key, Json::Str(v));
            }
        },
        None => {},
    }
}

/// Sets the member `key` to an array of the texts `values`, unless there are
/// none.
pub fn set_list_member(m: &mut Vec<(String, Json)>, key: &str, values: Vec<String>)
    ensures
        values.len() == 0 ==> final(m)@ == old(m)@,
        values.len() > 0 ==> exists|v: Json|
            #[trigger] member_set(old(m)@, final(m)@, key@, v) && (v matches Json::Array(x) && x.len()
                == values.len() && forall|i: int| 0 <= i < x.len() ==> x@[i] == Json::Str(#[trigger] values@[i])),
{
    if values.len() == 0 {
        return;
    }
    let mut items: Vec<Json> = Vec::new();
    let mut i: usize = 0;
    while i < values.len()
        invariant
            i <= values.len(),
            items.len() == i,
            forall|k: int| 0 <= k < i ==> items@[k] == Json::Str(#[trigger] values@[k]),
        decreases values.len() - i,
    {
        items.push(Json::Str(values[i].clone()));
        i += 1;
    }
    let ghost a = items@;
    let v = Json::Array(items);
    set_member(m, key, v);
}

fn section_contains(catalog: &Json, section: &str, name: &str) -> (r: bool)
    ensures
        r == section_has(*catalog, section@, name@),
{
    match catalog.get(section) {
        Some(Json::Object(m)) => {
            let r = find_member(m, name).is_some();
            assert(section_members(*catalog, section@) == m@);
            r
        },
        _ => false,
    }
}

/// Takes the members of the section out of a catalog's members: the first
/// member of that name keeps its name and holds `null` meanwhile.
fn take_section(entries: &mut Vec<(String, Json)>, section: &str) -> (sec: Vec<(String, Json)>)
    ensures
        sec@ == section_members(Json::Object(*old(entries)), section@),
        (exists|i: int|
            #[trigger] first_member_at(old(entries)@, section@, i) && final(entries)@ == old(entries)@.update(
                i,
                (old(entries)@[i].0, Json::Null),
            )) || ((forall|k: int| 0 <= k < old(entries).len() ==> (#[trigger] old(entries)@[k]).0@ != section@)
            && final(entries)@ == old(entries)@),
{
    let ghost e1 = entries@;
    proof {
        lemma_member(e1, section@);
    }
    match find_member(entries, section) {
        Some(i) => {
            let (k, v) = entries.remove(i);
            let sec = match v {
                Json::Object(m) => m,
                _ => Vec::new(),
            };
            entries.insert(i, (k, Json::Null));
            assert(entries@ =~= e1.update(i as int, (e1[i as int].0, Json::Null)));
            assert(first_member_at(e1, section@, i as int));
            sec
        },
        None => Vec::new(),
    }
}

proof fn lemma_member_set_after_take(
    e1: Seq<(String, Json)>,
    em: Seq<(String, Json)>,
    e2: Seq<(String, Json)>,
    key: Seq<char>,
    v: Json,
)
    requires
        (exists|i: int| #[trigger] first_member_at(e1, key, i) && em == e1.update(i, (e1[i].0, Json::Null)))
            || ((forall|k: int| 0 <= k < e1.len() ==> (#[trigger] e1[k]).0@ != key) && em == e1),
        member_set(em, e2, key, v),
    ensures
        member_set(e1, e2, key, v),
{
    if exists|i: int| #[trigger] first_member_at(e1, key, i) && em == e1.update(i, (e1[i].0, Json::Null)) {
        let i = choose|i: int| #[trigger] first_member_at(e1, key, i) && em == e1.update(i, (e1[i].0, Json::Null));
        assert(first_member_at(em, key, i)) by {
            assert forall|k: int| 0 <= k < i implies (#[trigger] em[k]).0@ != key by {
                assert(em[k] == e1[k]);
            }
        }
        if exists|j: int| #[trigger] first_member_at(em, key, j) && e2 == em.update(j, (em[j].0, v)) {
            let j = choose|j: int| #[trigger] first_member_at(em, key, j) && e2 == em.update(j, (em[j].0, v));
            if j < i {
                assert(em[j] == e1[j]);
            } else if i < j {
                assert(em[i].0 == e1[i].0);
            }
            assert(j == i);
            assert(e2 =~= e1.update(i, (e1[i].0, v)));
        } else {
            assert(em[i].0@ == key);
        }
    }
}

/// Adds or replaces the entry `name` of the object `section` of a catalog:
/// the catalog must be an object; a section that is missing or not an
/// object starts empty; an entry of that name already there is replaced only
/// when `force` is set.
pub fn put_catalog_entry(catalog: &mut Json, section: &str, name: &str, entry: Json, force: bool) -> (r: Result<(), CatalogError>)
    ensures
        !(*old(catalog) is Object) ==> r == Err::<(), CatalogError>(CatalogError::NotAnObject),
        (*old(catalog) is Object && section_has(*old(catalog), section@, name@) && !force) ==> (r
            matches Err(CatalogError::Exists(n)) && n@ == name@),
        r is Err ==> *final(catalog) == *old(catalog),
        (*old(catalog) is Object && (force || !section_has(*old(catalog), section@, name@))) ==> (r is Ok
            && (*old(catalog) matches Json::Object(e1) && (*final(catalog) matches Json::Object(e2)
            && exists|v: Json|
            #[trigger] member_set(e1@, e2@, section@, v) && (v matches Json::Object(s2)
                && member_set(section_members(*old(catalog), section@), s2@, name@, entry))))),
{
    match &*catalog {
        Json::Object(_) => {},
        _ => {
            return Err(CatalogError::NotAnObject);
        },
    }
    if section_contains(catalog, section, name) && !force {
        return Err(CatalogError::Exists(name.to_owned()));
    }
    let ghost c0 = *catalog;
    let mut tmp = Json::Null;
    std::mem::swap(catalog, &mut tmp);
    match tmp {
        Json::Object(mut entries) => {
            let ghost e1 = entries@;
            assert(c0 == Json::Object(entries));
            let mut sec = take_section(&mut entries, section);
            let ghost em = entries@;
            let ghost s1 = sec@;
            set_member(&mut sec, name, entry);
            let ghost s2 = sec@;
            let v = Json::Object(sec);
            let ghost vv = v;
            set_member(&mut entries, section, v);
            proof {
                lemma_member_set_after_take(e1, em, entries@, section@, vv);
                assert(s1 == section_members(c0, section@));
                assert(member_set(s1, s2, name@, entry));
                assert(vv matches Json::Object(x) && x@ == s2);
                assert(member_set(e1, entries@, section@, vv));
                assert(c0 == *old(catalog));
                assert(exists|v: Json|
                    #[trigger] member_set(e1, entries@, section@, v) && (v matches Json::Object(x)
                        && member_set(section_members(c0, section@), x@, name@, entry)));
            }
            let ghost e2 = entries@;
            *catalog = Json::Object(entries);
            proof {
                assert(*catalog matches Json::Object(x) && x@ == e2);
                assert(*old(catalog) matches Json::Object(x) && x@ == e1);
            }
            Ok(())
        },
        other => {
            *catalog = other;
            Ok(())
        },
    }
}

/// The members of a catalog's section: those of its first member of that
/// name where that is an object, else none.
pub open spec fn section_members(catalog: Json, section: Seq<char>) -> Seq<(String, Json)> {
    match json_get(catalog, section) {
        Some(Json::Object(m)) => m@,
        _ => Seq::empty(),
    }
}

/// A catalog's section has an entry named `name`.
pub open spec fn section_has(catalog: Json, section: Seq<char>, name: Seq<char>) -> bool {
    exists|j: int|
        0 <= j < section_members(catalog, section).len() && (#[trigger] section_members(catalog, section)[j]).0@
            == name
}

/// The catalog's `aliases` object has a member named `name`.
pub open spec fn has_alias(catalog: Json, name: Seq<char>) -> bool {
    json_get(catalog, "aliases"@) matches Some(Json::Object(a)) && exists|j: int|
        0 <= j < a.len() && (#[trigger] a@[j]).0@ == name
}

/// Removes an alias from a catalog: its name must be valid; the result says
/// whether the catalog's `aliases` object has a member of that name, and
/// then the first such member is gone and nothing else changes; otherwise
/// the catalog is left as it is.
pub fn alias_remove(catalog: &mut Json, name: &str) -> (r: Result<bool, CatalogError>)
    ensures
        name@.len() == 0 ==> r matches Err(CatalogError::EmptyName),
        name@.len() > 0 && !entry_name(name@) ==> r matches Err(CatalogError::InvalidName(_)),
        entry_name(name@) ==> r == Ok::<bool, CatalogError>(has_alias(*old(catalog), name@)),
        !(r == Ok::<bool, CatalogError>(true)) ==> *final(catalog) == *old(catalog),
        r == Ok::<bool, CatalogError>(true) ==> (*old(catalog) matches Json::Object(e1) && (
        *final(catalog) matches Json::Object(e2) && e2.len() == e1.len() && exists|i: int|
            0 <= i < e1.len() && e1@[i].0@ == "aliases"@ && e2@[i].0 == e1@[i].0 && (forall|
                k: int,
            | 0 <= k < e1.len() && k != i ==> e2@[k] == e1@[k]) && (e1@[i].1 matches Json::Object(a1)
                && e2@[i].1 matches Json::Object(a2) && exists|j: int|
                0 <= j < a1.len() && a1@[j].0@ == name@ && a2@ == a1@.remove(j)))),
{
    validate_catalog_entry_name(name)?;
    let (i, j) = match &*catalog {
        Json::Object(entries) => {
            proof {
                lemma_member(entries@, "aliases"@);
            }
            match find_member(entries, "aliases") {
                Some(i) => match &entries[i].1 {
                    Json::Object(als) => match find_member(als, name) {
                        Some(j) => (i, j),
                        None => {
                            return Ok(false);
                        },
                    },
                    _ => {
                        return Ok(false);
                    },
                },
                None => {
                    return Ok(false);
                },
            }
        },
        _ => {
            return Ok(false);
        },
    };
    let mut tmp = Json::Null;
    std::mem::swap(catalog, &mut tmp);
    match tmp {
        Json::Object(mut entries) => {
            let ghost e1 = entries@;
            let (k, v) = entries.remove(i);
            match v {
                Json::Object(mut als) => {
                    let ghost a1 = als@;
                    als.remove(j);
                    let ghost a2 = als@;
                    entries.insert(i, (k, Json::Object(als)));
                    proof {
                        assert(a2 =~= a1.remove(j as int));
                        assert(entries@.len() == e1.len());
                        assert(forall|x: int| 0 <= x < e1.len() && x != i ==> entries@[x] == e1[x]);
                    }
                    *catalog = Json::Object(entries);
                    Ok(true)
                },
                other => {
                    proof {
                        assert(false);
                    }
                    entries.insert(i, (k, other));
                    *catalog = Json::Object(entries);
                    Ok(true)
                },
            }
        },
        other => {
            proof {
                assert(false);
            }
            *catalog = other;
            Ok(false)
        },
    }
}

} // verus!

verus! {

/// What a JSON value says, as mathematical values.
pub enum JsonView {
    Null,
    Bool(bool),
    Number(Seq<char>),
    Str(Seq<char>),
    Array(Seq<JsonView>),
    Object(Seq<(Seq<char>, JsonView)>),
}

/// The view of a JSON value.
pub open spec fn json_view(j: Json) -> JsonView
    decreases j,
{
    match j {
        Json::Null => JsonView::Null,
        Json::Bool(b) => JsonView::Bool(b),
        Json::Number(n) => JsonView::Number(n@),
        Json::Str(s) => JsonView::Str(s@),
        Json::Array(items) => JsonView::Array(
            Seq::new(
                items@.len(),
                |i: int|
                    if 0 <= i < items@.len() {
                        json_view(items@[i])
                    } else {
                        JsonView::Null
                    },
            ),
        ),
        Json::Object(members) => JsonView::Object(
            Seq::new(
                members@.len(),
                |i: int|
                    if 0 <= i < members@.len() {
                        (members@[i].0@, json_view(members@[i].1))
                    } else {
                        (Seq::empty(), JsonView::Null)
                    },
            ),
        ),
    }
}

} // verus!
