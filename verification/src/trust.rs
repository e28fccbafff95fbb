//! The store of trusted remote scripts: a list of URLs with the hash of
//! what was trusted, kept sorted by URL, one `url<TAB>hash` line each.
use vstd::prelude::*;
use crate::directives::{lines_of, lines_spec, strs, Directives, DirectivesView};
use crate::remote::{
    binary_dependency, ensure_remote_url, file_ref_parts, looks_like_binary_dependency,
    remote_resource_url, remote_url, resolve_remote_resource_url, split_file_ref,
    validate_remote_relative_ref, RemoteError,
};
use crate::resolver::prop_views;
use crate::text::{
    chars_lt, chars_of, lemma_seq_lt_irreflexive, lemma_seq_lt_total, lemma_seq_lt_transitive,
    has_prefix, seq_lt, split_first, split_first_char, str_eq, string_of, views,
};

verus! {

/// A trust entry: a URL and a hash.
pub type TrustEntry = (Seq<char>, Seq<char>);

// ─── Ordering by URL ─────────────────────────────────────────────────────────

/// `x` inserted after every entry whose URL is not greater than its own.
pub open spec fn insert_by_url(v: Seq<TrustEntry>, x: TrustEntry) -> Seq<TrustEntry>
    decreases v.len(),
{
    if v.len() == 0 {
        seq![x]
    } else if seq_lt(x.0, v[0].0) {
        seq![x] + v
    } else {
        seq![v[0]] + insert_by_url(v.drop_first(), x)
    }
}

/// The entries sorted by URL, entries with equal URLs kept in their order
/// (a stable sort).
pub open spec fn sort_by_url(v: Seq<TrustEntry>) -> Seq<TrustEntry>
    decreases v.len(),
{
    if v.len() == 0 {
        Seq::empty()
    } else {
        insert_by_url(sort_by_url(v.drop_last()), v.last())
    }
}

/// URLs never decrease along `v`.
pub open spec fn sorted_by_url(v: Seq<TrustEntry>) -> bool {
    forall|i: int, j: int| 0 <= i < j < v.len() ==> !seq_lt((#[trigger] v[j]).0, (#[trigger] v[i]).0)
}

proof fn lemma_insert_by_url(v: Seq<TrustEntry>, x: TrustEntry)
    ensures
        insert_by_url(v, x).len() == v.len() + 1,
        forall|y: TrustEntry|
            #![trigger insert_by_url(v, x).contains(y)]
            #![trigger v.contains(y)]
            insert_by_url(v, x).contains(y) <==> (v.contains(y) || y == x),
        sorted_by_url(v) ==> sorted_by_url(insert_by_url(v, x)),
    decreases v.len(),
{
    let r = insert_by_url(v, x);
    if v.len() == 0 {
        assert forall|y: TrustEntry| r.contains(y) <==> (v.contains(y) || y == x) by {
            if r.contains(y) {
                assert(r[0] == y);
            }
            if y == x {
                assert(r[0] == y);
            }
        }
    } else if seq_lt(x.0, v[0].0) {
        assert forall|y: TrustEntry| r.contains(y) <==> (v.contains(y) || y == x) by {
            if r.contains(y) {
                let k = choose|k: int| 0 <= k < r.len() && r[k] == y;
                if k > 0 {
                    assert(v[k - 1] == y);
                }
            }
            if v.contains(y) {
                let k = choose|k: int| 0 <= k < v.len() && v[k] == y;
                assert(r[k + 1] == y);
            }
            if y == x {
                assert(r[0] == y);
            }
        }
        if sorted_by_url(v) {
            assert forall|i: int, j: int| 0 <= i < j < r.len() implies !seq_lt(
                (#[trigger] r[j]).0,
                (#[trigger] r[i]).0,
            ) by {
                if i == 0 {
                    if j == 1 {
                        lemma_seq_lt_total(x.0, v[0].0);
                        if seq_lt(v[0].0, x.0) {
                            lemma_seq_lt_transitive(x.0, v[0].0, x.0);
                            lemma_seq_lt_irreflexive(x.0);
                        }
                    } else {
                        assert(!seq_lt(v[j - 1].0, v[0].0));
                        if seq_lt(v[j - 1].0, x.0) {
                            lemma_seq_lt_transitive(v[j - 1].0, x.0, v[0].0);
                        }
                    }
                } else {
                    assert(r[i] == v[i - 1] && r[j] == v[j - 1]);
                }
            }
        }
    } else {
        let t = v.drop_first();
        lemma_insert_by_url(t, x);
        let rt = insert_by_url(t, x);
        assert(r == seq![v[0]] + rt);
        assert forall|y: TrustEntry| r.contains(y) <==> (v.contains(y) || y == x) by {
            if r.contains(y) {
                let k = choose|k: int| 0 <= k < r.len() && r[k] == y;
                if k > 0 {
                    assert(rt[k - 1] == y);
                    assert(rt.contains(y));
                    if t.contains(y) {
                        let m = choose|m: int| 0 <= m < t.len() && t[m] == y;
                        assert(v[m + 1] == y);
                    }
                } else {
                    assert(v[0] == y);
                }
            }
            if v.contains(y) {
                let k = choose|k: int| 0 <= k < v.len() && v[k] == y;
                if k > 0 {
                    assert(t[k - 1] == y);
                    assert(t.contains(y));
                    let m = choose|m: int| 0 <= m < rt.len() && rt[m] == y;
                    assert(r[m + 1] == y);
                } else {
                    assert(r[0] == y);
                }
            }
            if y == x {
                assert(rt.contains(x));
                let m = choose|m: int| 0 <= m < rt.len() && rt[m] == x;
                assert(r[m + 1] == y);
            }
        }
        if sorted_by_url(v) {
            assert(sorted_by_url(t)) by {
                assert forall|i: int, j: int| 0 <= i < j < t.len() implies !seq_lt(
                    (#[trigger] t[j]).0,
                    (#[trigger] t[i]).0,
                ) by {
                    assert(t[i] == v[i + 1] && t[j] == v[j + 1]);
                }
            }
            assert forall|i: int, j: int| 0 <= i < j < r.len() implies !seq_lt(
                (#[trigger] r[j]).0,
                (#[trigger] r[i]).0,
            ) by {
                if i == 0 {
                    let y = rt[j - 1];
                    assert(rt.contains(y));
                    if y == x {
                    } else {
                        assert(t.contains(y));
                        let m = choose|m: int| 0 <= m < t.len() && t[m] == y;
                        assert(v[m + 1] == y);
                    }
                } else {
                    assert(r[i] == rt[i - 1] && r[j] == rt[j - 1]);
                }
            }
        }
    }
}

/// Sorting by URL keeps the entries and orders them.
pub proof fn lemma_sort_by_url(v: Seq<TrustEntry>)
    ensures
        sort_by_url(v).len() == v.len(),
        forall|y: TrustEntry|
            #![trigger sort_by_url(v).contains(y)]
            #![trigger v.contains(y)]
            sort_by_url(v).contains(y) <==> v.contains(y),
        sorted_by_url(sort_by_url(v)),
    decreases v.len(),
{
    if v.len() > 0 {
        lemma_sort_by_url(v.drop_last());
        lemma_insert_by_url(sort_by_url(v.drop_last()), v.last());
        assert forall|y: TrustEntry| sort_by_url(v).contains(y) <==> v.contains(y) by {
            if v.drop_last().contains(y) {
                let k = choose|k: int| 0 <= k < v.len() - 1 && v.drop_last()[k] == y;
                assert(v[k] == y);
            }
            if v.contains(y) {
                let k = choose|k: int| 0 <= k < v.len() && v[k] == y;
                if k < v.len() - 1 {
                    assert(v.drop_last()[k] == y);
                }
            }
        }
    }
}

fn insert_entry(v: &mut Vec<(String, String)>, x: (String, String))
    ensures
        prop_views(final(v)@) == insert_by_url(prop_views(old(v)@), (x.0@, x.1@)),
{
    let ghost pv = prop_views(v@);
    let ghost xv = (x.0@, x.1@);
    let xc = chars_of(x.0.as_str());
    let mut p: usize = 0;
    let mut found = false;
    assert(pv.skip(0) =~= pv);
    assert(pv.take(0) + insert_by_url(pv.skip(0), xv) =~= insert_by_url(pv, xv));
    while p < v.len() && !found
        invariant
            pv == prop_views(v@),
            xc@ == x.0@,
            xv == (x.0@, x.1@),
            p <= v.len(),
            found ==> p < v.len() && seq_lt(xv.0, pv[p as int].0),
            insert_by_url(pv, xv) == pv.take(p as int) + insert_by_url(pv.skip(p as int), xv),
        decreases v.len() - p + (if found { 0int } else { 1int }),
    {
        let vc = chars_of(v[p].0.as_str());
        if chars_lt(xc.as_slice(), vc.as_slice()) {
            found = true;
        } else {
            proof {
                let s = pv.skip(p as int);
                assert(s.drop_first() =~= pv.skip(p + 1));
                assert(s[0] == pv[p as int]);
                assert(insert_by_url(s, xv) == seq![s[0]] + insert_by_url(s.drop_first(), xv));
                assert(pv.take(p as int) + seq![pv[p as int]] =~= pv.take(p + 1));
                assert(pv.take(p as int) + (seq![s[0]] + insert_by_url(s.drop_first(), xv)) =~= pv.take(p + 1) + insert_by_url(pv.skip(p + 1), xv));
            }
            p += 1;
        }
    }
    v.insert(p, x);
    proof {
        let s = pv.skip(p as int);
        if p < pv.len() {
            assert(s[0] == pv[p as int]);
            assert(insert_by_url(s, xv) == seq![xv] + s);
        } else {
            assert(s.len() == 0);
        }
        assert(prop_views(v@) =~= pv.take(p as int) + (seq![xv] + s));
    }
}

/// Sorts trust entries by URL, keeping the order of equal URLs.
pub fn sort_entries(v: Vec<(String, String)>) -> (r: Vec<(String, String)>)
    ensures
        prop_views(r@) == sort_by_url(prop_views(v@)),
{
    let ghost pv = prop_views(v@);
    let mut out: Vec<(String, String)> = Vec::new();
    let mut i: usize = 0;
    while i < v.len()
        invariant
            pv == prop_views(v@),
            i <= v.len(),
            prop_views(out@) == sort_by_url(pv.take(i as int)),
        decreases v.len() - i,
    {
        assert(pv.take(i + 1).drop_last() =~= pv.take(i as int));
        assert(pv.take(i + 1).last() == (v@[i as int].0@, v@[i as int].1@));
        insert_entry(&mut out, (v[i].0.clone(), v[i].1.clone()));
        i += 1;
    }
    assert(pv.take(v.len() as int) =~= pv);
    out
}

// ─── The store ───────────────────────────────────────────────────────────────

/// The entries of the lines of a trust store: `url<TAB>hash` lines with
/// both parts present, in order.
pub open spec fn trust_lines(lines: Seq<Seq<char>>) -> Seq<TrustEntry>
    decreases lines.len(),
{
    if lines.len() == 0 {
        Seq::empty()
    } else {
        let rest = trust_lines(lines.drop_last());
        match split_first(lines.last(), '\t') {
            Some((u, h)) => if u.len() > 0 && h.len() > 0 {
                rest.push((u, h))
            } else {
                rest
            },
            None => rest,
        }
    }
}

/// The entries of a trust store, sorted by URL.
pub open spec fn trust_entries_of(text: Seq<char>) -> Seq<TrustEntry> {
    sort_by_url(trust_lines(lines_spec(text)))
}

/// Reads the entries of a trust store.
pub fn parse_trust_entries(text: &str) -> (r: Vec<(String, String)>)
    ensures
        prop_views(r@) == trust_entries_of(text@),
{
    let c = chars_of(text);
    let lines = lines_of(c.as_slice());
    let ghost ls = lines_spec(text@);
    let mut entries: Vec<(String, String)> = Vec::new();
    let mut i: usize = 0;
    while i < lines.len()
        invariant
            views(lines@) == ls,
            i <= lines.len(),
            prop_views(entries@) == trust_lines(ls.take(i as int)),
        decreases lines.len() - i,
    {
        assert(ls.take(i + 1).drop_last() =~= ls.take(i as int));
        assert(ls.take(i + 1).last() == lines@[i as int]@);
        match split_first_char(lines[i].as_slice(), '\t') {
            Some((u, h)) => {
                if u.len() > 0 && h.len() > 0 {
                    let ghost before = prop_views(entries@);
                    entries.push((string_of(u.as_slice()), string_of(h.as_slice())));
                    assert(prop_views(entries@) =~= before.push((u@, h@)));
                }
            },
            None => {},
        }
        i += 1;
    }
    assert(ls.take(lines.len() as int) =~= ls);
    sort_entries(entries)
}

/// The text of a trust store: one `url<TAB>hash` line per entry.
pub open spec fn trust_text(entries: Seq<TrustEntry>) -> Seq<char>
    decreases entries.len(),
{
    if entries.len() == 0 {
        Seq::empty()
    } else {
        trust_text(entries.drop_last()) + entries.last().0 + seq!['\t'] + entries.last().1 + seq![
            '\n',
        ]
    }
}

/// Writes the text of a trust store.
pub fn render_trust_entries(entries: &[(String, String)]) -> (r: String)
    ensures
        r@ == trust_text(prop_views(entries@)),
{
    let ghost pv = prop_views(entries@);
    let mut out = String::new();
    let mut i: usize = 0;
    while i < entries.len()
        invariant
            pv == prop_views(entries@),
            i <= entries.len(),
            out@ == trust_text(pv.take(i as int)),
        decreases entries.len() - i,
    {
        assert(pv.take(i + 1).drop_last() =~= pv.take(i as int));
        out.append(entries[i].0.as_str());
        crate::text::push_char(&mut out, '\t');
        out.append(entries[i].1.as_str());
        crate::text::push_char(&mut out, '\n');
        assert(out@ =~= trust_text(pv.take(i + 1)));
        i += 1;
    }
    assert(pv.take(entries.len() as int) =~= pv);
    out
}

/// The entries whose URL is not `url`, in order.
pub open spec fn without_url(v: Seq<TrustEntry>, url: Seq<char>) -> Seq<TrustEntry>
    decreases v.len(),
{
    if v.len() == 0 {
        Seq::empty()
    } else {
        let w = without_url(v.drop_last(), url);
        if v.last().0 == url {
            w
        } else {
            w.push(v.last())
        }
    }
}

/// Some entry has URL `url`.
pub open spec fn has_url(v: Seq<TrustEntry>, url: Seq<char>) -> bool {
    exists|i: int| 0 <= i < v.len() && (#[trigger] v[i]).0 == url
}

/// The store after trusting `url` with `hash`: its old entry replaced, the
/// entries sorted by URL.
pub open spec fn trust_with(v: Seq<TrustEntry>, url: Seq<char>, hash: Seq<char>) -> Seq<TrustEntry> {
    sort_by_url(without_url(v, url).push((url, hash)))
}

fn remove_url(entries: &[(String, String)], url: &str) -> (r: Vec<(String, String)>)
    ensures
        prop_views(r@) == without_url(prop_views(entries@), url@),
{
    let ghost pv = prop_views(entries@);
    let mut out: Vec<(String, String)> = Vec::new();
    let mut i: usize = 0;
    while i < entries.len()
        invariant
            pv == prop_views(entries@),
            i <= entries.len(),
            prop_views(out@) == without_url(pv.take(i as int), url@),
        decreases entries.len() - i,
    {
        assert(pv.take(i + 1).drop_last() =~= pv.take(i as int));
        if !str_eq(entries[i].0.as_str(), url) {
            let ghost before = prop_views(out@);
            out.push((entries[i].0.clone(), entries[i].1.clone()));
            assert(prop_views(out@) =~= before.push(pv[i as int]));
        }
        i += 1;
    }
    assert(pv.take(entries.len() as int) =~= pv);
    out
}

/// Records `url` as trusted with `hash`, replacing any earlier entry.
pub fn write_trust_entry(entries: &[(String, String)], url: &str, hash: &str) -> (r: Vec<
    (String, String),
>)
    ensures
        prop_views(r@) == trust_with(prop_views(entries@), url@, hash@),
{
    let mut kept = remove_url(entries, url);
    let ghost before = prop_views(kept@);
    kept.push((url.to_owned(), hash.to_owned()));
    assert(prop_views(kept@) =~= before.push((url@, hash@)));
    sort_entries(kept)
}

/// Forgets `url`: the entries without it, and whether there was one.
pub fn trust_remove(url: &str, entries: &[(String, String)]) -> (r: (Vec<(String, String)>, bool))
    ensures
        prop_views(r.0@) == without_url(prop_views(entries@), url@),
        r.1 == (without_url(prop_views(entries@), url@).len() != entries.len()),
{
    let kept = remove_url(entries, url);
    let removed = kept.len() != entries.len();
    (kept, removed)
}

/// `url` is trusted with exactly `hash`.
pub open spec fn trusted(v: Seq<TrustEntry>, url: Seq<char>, hash: Seq<char>) -> bool {
    v.contains((url, hash))
}

/// Whether `url` is trusted with `hash`.
pub fn is_trusted_remote(entries: &[(String, String)], url: &str, hash: &str) -> (r: bool)
    ensures
        r == trusted(prop_views(entries@), url@, hash@),
{
    let mut i: usize = 0;
    while i < entries.len()
        invariant
            i <= entries.len(),
            forall|k: int| 0 <= k < i ==> prop_views(entries@)[k] != (url@, hash@),
        decreases entries.len() - i,
    {
        if str_eq(entries[i].0.as_str(), url) && str_eq(entries[i].1.as_str(), hash) {
            assert(prop_views(entries@)[i as int] == (url@, hash@));
            return true;
        }
        i += 1;
    }
    false
}

// ─── Laws of the store ───────────────────────────────────────────────────────

proof fn lemma_without_url(v: Seq<TrustEntry>, url: Seq<char>)
    ensures
        forall|y: TrustEntry|
            #![trigger without_url(v, url).contains(y)]
            #![trigger v.contains(y)]
            without_url(v, url).contains(y) <==> (v.contains(y) && y.0 != url),
        without_url(v, url).len() <= v.len(),
        without_url(v, url).len() == v.len() <==> !has_url(v, url),
    decreases v.len(),
{
    if v.len() > 0 {
        let t = v.drop_last();
        lemma_without_url(t, url);
        let w = without_url(t, url);
        if v.last().0 == url {
            assert(without_url(v, url) == w);
        } else {
            assert(without_url(v, url) == w.push(v.last()));
        }
        assert forall|y: TrustEntry| without_url(v, url).contains(y) <==> (v.contains(y) && y.0 != url) by {
            if without_url(v, url).contains(y) {
                let k = choose|k: int| 0 <= k < without_url(v, url).len() && without_url(v, url)[k] == y;
                if k < w.len() {
                    assert(w[k] == y);
                    assert(w.contains(y));
                    let m = choose|m: int| 0 <= m < t.len() && t[m] == y;
                    assert(v[m] == y);
                } else {
                    assert(v[v.len() - 1] == y);
                }
            }
            if v.contains(y) && y.0 != url {
                let k = choose|k: int| 0 <= k < v.len() && v[k] == y;
                if k < v.len() - 1 {
                    assert(t[k] == y);
                    assert(t.contains(y));
                    assert(w.contains(y));
                    let m = choose|m: int| 0 <= m < w.len() && w[m] == y;
                    assert(without_url(v, url)[m] == y);
                } else {
                    assert(without_url(v, url)[w.len() as int] == y);
                }
            }
        }
        if has_url(t, url) {
            let k = choose|k: int| 0 <= k < t.len() && (#[trigger] t[k]).0 == url;
            assert(v[k].0 == url);
        }
        if has_url(v, url) && !has_url(t, url) {
            let k = choose|k: int| 0 <= k < v.len() && (#[trigger] v[k]).0 == url;
            if k < v.len() - 1 {
                assert(t[k].0 == url);
            }
        }
    }
}

/// Once a URL is trusted with a hash, the store trusts it with that hash.
pub proof fn law_trusted_after_write(v: Seq<TrustEntry>, url: Seq<char>, hash: Seq<char>)
    ensures
        trusted(trust_with(v, url, hash), url, hash),
        sorted_by_url(trust_with(v, url, hash)),
{
    let w = without_url(v, url).push((url, hash));
    lemma_sort_by_url(w);
    assert(w[w.len() - 1] == (url, hash));
    assert(w.contains((url, hash)));
}

/// Trusting a URL again replaces its entry: no other hash stays trusted for
/// it, and every entry of another URL is kept.
pub proof fn law_write_replaces(v: Seq<TrustEntry>, url: Seq<char>, hash: Seq<char>, y: TrustEntry)
    ensures
        y.0 == url ==> (trusted(trust_with(v, url, hash), y.0, y.1) <==> y.1 == hash),
        y.0 != url ==> (trust_with(v, url, hash).contains(y) <==> v.contains(y)),
{
    let w = without_url(v, url).push((url, hash));
    lemma_sort_by_url(w);
    lemma_without_url(v, url);
    if w.contains(y) {
        let k = choose|k: int| 0 <= k < w.len() && w[k] == y;
        if k < w.len() - 1 {
            assert(without_url(v, url)[k] == y);
            assert(without_url(v, url).contains(y));
        }
    }
    if without_url(v, url).contains(y) {
        let k = choose|k: int| 0 <= k < without_url(v, url).len() && without_url(v, url)[k] == y;
        assert(w[k] == y);
    }
    assert(w[w.len() - 1] == (url, hash));
    assert(w.contains((url, hash)));
    assert((y.0, y.1) == y);
}

/// Removing a URL that was just trusted reports a removal and leaves no
/// entry for it.
pub proof fn law_remove_after_write(v: Seq<TrustEntry>, url: Seq<char>, hash: Seq<char>)
    ensures
        !has_url(without_url(trust_with(v, url, hash), url), url),
        without_url(trust_with(v, url, hash), url).len() != trust_with(v, url, hash).len(),
{
    let t = trust_with(v, url, hash);
    law_trusted_after_write(v, url, hash);
    lemma_without_url(t, url);
    let k = choose|k: int| 0 <= k < t.len() && t[k] == (url, hash);
    assert(t[k].0 == url);
    if has_url(without_url(t, url), url) {
        let j = choose|j: int| 0 <= j < without_url(t, url).len() && (#[trigger] without_url(t, url)[j]).0 == url;
        assert(without_url(t, url).contains(without_url(t, url)[j]));
    }
}

/// The number of entries with URL `url`.
pub open spec fn url_count(v: Seq<TrustEntry>, url: Seq<char>) -> nat
    decreases v.len(),
{
    if v.len() == 0 {
        0
    } else {
        (if v[0].0 == url {
            1nat
        } else {
            0nat
        }) + url_count(v.drop_first(), url)
    }
}

proof fn lemma_url_count_last(v: Seq<TrustEntry>, url: Seq<char>)
    requires
        v.len() > 0,
    ensures
        url_count(v, url) == url_count(v.drop_last(), url) + (if v.last().0 == url {
            1nat
        } else {
            0nat
        }),
    decreases v.len(),
{
    if v.len() > 1 {
        lemma_url_count_last(v.drop_first(), url);
        assert(v.drop_first().drop_last() =~= v.drop_last().drop_first());
        assert(v.drop_first().last() == v.last());
        assert(v.drop_last()[0] == v[0]);
        assert(url_count(v, url) == (if v[0].0 == url {
            1nat
        } else {
            0nat
        }) + url_count(v.drop_first(), url));
        assert(url_count(v.drop_last(), url) == (if v[0].0 == url {
            1nat
        } else {
            0nat
        }) + url_count(v.drop_last().drop_first(), url));
    } else {
        assert(v.drop_last().len() == 0);
        assert(v.drop_first().len() == 0);
        assert(url_count(v.drop_last(), url) == 0);
        assert(url_count(v.drop_first(), url) == 0);
        assert(v.last() == v[0]);
    }
}

proof fn lemma_url_count_insert(v: Seq<TrustEntry>, x: TrustEntry, url: Seq<char>)
    ensures
        url_count(insert_by_url(v, x), url) == url_count(v, url) + (if x.0 == url {
            1nat
        } else {
            0nat
        }),
    decreases v.len(),
{
    if v.len() == 0 {
        assert(seq![x].drop_first() =~= Seq::<TrustEntry>::empty());
        assert(seq![x][0] == x);
        assert(url_count(Seq::<TrustEntry>::empty(), url) == 0);
    } else if seq_lt(x.0, v[0].0) {
        assert((seq![x] + v).drop_first() =~= v);
        assert((seq![x] + v)[0] == x);
    } else {
        lemma_url_count_insert(v.drop_first(), x, url);
        let r = seq![v[0]] + insert_by_url(v.drop_first(), x);
        assert(r.drop_first() =~= insert_by_url(v.drop_first(), x));
        assert(r[0] == v[0]);
    }
}

proof fn lemma_url_count_sort(v: Seq<TrustEntry>, url: Seq<char>)
    ensures
        url_count(sort_by_url(v), url) == url_count(v, url),
    decreases v.len(),
{
    if v.len() > 0 {
        lemma_url_count_sort(v.drop_last(), url);
        lemma_url_count_insert(sort_by_url(v.drop_last()), v.last(), url);
        lemma_url_count_last(v, url);
    }
}

proof fn lemma_url_count_without(v: Seq<TrustEntry>, url: Seq<char>)
    ensures
        url_count(without_url(v, url), url) == 0,
    decreases v.len(),
{
    if v.len() > 0 {
        lemma_url_count_without(v.drop_last(), url);
        let w = without_url(v.drop_last(), url);
        if v.last().0 != url {
            lemma_url_count_last(w.push(v.last()), url);
            assert(w.push(v.last()).drop_last() =~= w);
        }
    }
}

/// After trusting `url`, exactly one entry has that URL.
pub proof fn law_write_keeps_one_entry(v: Seq<TrustEntry>, url: Seq<char>, hash: Seq<char>)
    ensures
        url_count(trust_with(v, url, hash), url) == 1,
{
    let w = without_url(v, url);
    lemma_url_count_without(v, url);
    lemma_url_count_last(w.push((url, hash)), url);
    assert(w.push((url, hash)).drop_last() =~= w);
    lemma_url_count_sort(w.push((url, hash)), url);
}

/// Removing a URL reports a removal exactly when some entry had that URL.
pub proof fn law_remove_reports_presence(v: Seq<TrustEntry>, url: Seq<char>)
    ensures
        (without_url(v, url).len() != v.len()) == has_url(v, url),
{
    lemma_without_url(v, url);
}

/// Removing a URL that has no entry changes nothing and reports so.
pub proof fn law_remove_absent(v: Seq<TrustEntry>, url: Seq<char>)
    requires
        !has_url(v, url),
    ensures
        without_url(v, url) == v,
    decreases v.len(),
{
    if v.len() > 0 {
        let t = v.drop_last();
        assert(!has_url(t, url)) by {
            if has_url(t, url) {
                let k = choose|k: int| 0 <= k < t.len() && (#[trigger] t[k]).0 == url;
                assert(v[k].0 == url);
            }
        }
        law_remove_absent(t, url);
        assert(v.last().0 != url) by {
            assert(v[v.len() - 1].0 != url);
        }
        assert(t.push(v.last()) =~= v);
    }
}

// ─── Hashing what is trusted ─────────────────────────────────────────────────

/// A resource of a remote script: how the script refers to it, where it was
/// fetched from, and what was fetched.
#[derive(Debug, Clone)]
pub struct RemoteRelativeResource {
    pub resource_ref: String,
    pub url: String,
    pub body: String,
}

/// The entries of `deps` that do not name Maven artifacts, in order.
pub open spec fn source_deps(deps: Seq<Seq<char>>) -> Seq<Seq<char>>
    decreases deps.len(),
{
    if deps.len() == 0 {
        Seq::empty()
    } else if binary_dependency(deps.last()) {
        source_deps(deps.drop_last())
    } else {
        source_deps(deps.drop_last()).push(deps.last())
    }
}

/// The references of a remote script that may name resources beside it: its
/// sources, its dependencies that are not Maven artifacts, then the source of
/// each of its files, in that order.
pub open spec fn resource_refs(d: DirectivesView) -> Seq<Seq<char>> {
    d.sources + source_deps(d.deps) + d.files.map_values(|f: Seq<char>| file_ref_parts(f).1)
}

/// Lists the references of a remote script that may name resources beside it.
pub fn remote_resource_refs(directives: &Directives) -> (r: Vec<String>)
    ensures
        strs(r@) == resource_refs(directives@),
{
    let ghost d = directives@;
    let mut out: Vec<String> = Vec::new();
    let mut i: usize = 0;
    while i < directives.sources.len()
        invariant
            d == directives@,
            i <= directives.sources.len(),
            strs(out@) == d.sources.take(i as int),
        decreases directives.sources.len() - i,
    {
        let ghost before = strs(out@);
        out.push(directives.sources[i].clone());
        assert(strs(out@) =~= before.push(directives.sources@[i as int]@));
        assert(strs(out@) =~= d.sources.take(i + 1));
        i += 1;
    }
    assert(d.sources.take(i as int) =~= d.sources);
    let mut k: usize = 0;
    assert(d.deps.take(0) =~= Seq::<Seq<char>>::empty());
    while k < directives.deps.len()
        invariant
            d == directives@,
            k <= directives.deps.len(),
            strs(out@) == d.sources + source_deps(d.deps.take(k as int)),
        decreases directives.deps.len() - k,
    {
        assert(d.deps.take(k + 1).drop_last() =~= d.deps.take(k as int));
        assert(d.deps.take(k + 1).last() == directives.deps@[k as int]@);
        if !looks_like_binary_dependency(directives.deps[k].as_str()) {
            let ghost before = strs(out@);
            out.push(directives.deps[k].clone());
            assert(strs(out@) =~= before.push(directives.deps@[k as int]@));
        }
        k += 1;
    }
    assert(d.deps.take(k as int) =~= d.deps);
    let ghost head = strs(out@);
    let mut j: usize = 0;
    while j < directives.files.len()
        invariant
            d == directives@,
            j <= directives.files.len(),
            strs(out@) == head + d.files.take(j as int).map_values(|f: Seq<char>| file_ref_parts(f).1),
        decreases directives.files.len() - j,
    {
        let (_, source) = split_file_ref(directives.files[j].as_str());
        let ghost before = strs(out@);
        out.push(source);
        assert(strs(out@) =~= before.push(file_ref_parts(directives.files@[j as int]@).1));
        assert(d.files.take(j + 1).map_values(|f: Seq<char>| file_ref_parts(f).1) =~= d.files.take(
            j as int,
        ).map_values(|f: Seq<char>| file_ref_parts(f).1).push(file_ref_parts(d.files[j as int]).1));
        assert(strs(out@) =~= head + d.files.take(j + 1).map_values(
            |f: Seq<char>| file_ref_parts(f).1,
        ));
        j += 1;
    }
    assert(d.files.take(j as int) =~= d.files);
    out
}

/// What becomes of one reference of a remote script: nothing when it is empty
/// or names a Maven artifact; else it is checked to be a relative path and
/// resolved against the script's URL, giving the URL to fetch it from.
pub fn resource_url_to_fetch(remote_url: &str, resource_ref: &str) -> (r: Result<
    Option<String>,
    RemoteError,
>)
    ensures
        (resource_ref@.len() == 0 || binary_dependency(resource_ref@)) ==> r matches Ok(None),
        r matches Ok(Some(u)) ==> resource_ref@.len() > 0 && !binary_dependency(resource_ref@)
            && remote_resource_url(remote_url@, resource_ref@) == Some(u@),
        (resource_ref@.len() > 0 && !binary_dependency(resource_ref@) && (has_prefix(
            resource_ref@,
            seq!['/'],
        ) || resource_ref@.contains('\\'))) ==> (r matches Err(RemoteError::NotRelative(e))
            && e@ == resource_ref@),
        (resource_ref@.len() > 0 && !binary_dependency(resource_ref@) && r is Ok) ==> (match
            remote_resource_url(remote_url@, resource_ref@) {
            Some(u) => r matches Ok(Some(s)) && s@ == u,
            None => false,
        }),
{
    if resource_ref.is_empty() || looks_like_binary_dependency(resource_ref) {
        return Ok(None);
    }
    validate_remote_relative_ref(resource_ref)?;
    let url = resolve_remote_resource_url(remote_url, resource_ref)?;
    Ok(Some(url))
}

/// `a` comes before `b`: by reference, then by URL.
pub open spec fn resource_lt(a: RemoteRelativeResource, b: RemoteRelativeResource) -> bool {
    seq_lt(a.resource_ref@, b.resource_ref@) || (a.resource_ref@ == b.resource_ref@ && seq_lt(
        a.url@,
        b.url@,
    ))
}

/// `x` inserted after every resource that does not come after it.
pub open spec fn insert_resource(v: Seq<RemoteRelativeResource>, x: RemoteRelativeResource) -> Seq<
    RemoteRelativeResource,
>
    decreases v.len(),
{
    if v.len() == 0 {
        seq![x]
    } else if resource_lt(x, v[0]) {
        seq![x] + v
    } else {
        seq![v[0]] + insert_resource(v.drop_first(), x)
    }
}

/// The resources sorted by reference, then URL; equal ones keep their order.
pub open spec fn sort_resources_spec(v: Seq<RemoteRelativeResource>) -> Seq<RemoteRelativeResource>
    decreases v.len(),
{
    if v.len() == 0 {
        Seq::empty()
    } else {
        insert_resource(sort_resources_spec(v.drop_last()), v.last())
    }
}

fn resource_before(a: &RemoteRelativeResource, b: &RemoteRelativeResource) -> (r: bool)
    ensures
        r == resource_lt(*a, *b),
{
    let ar = chars_of(a.resource_ref.as_str());
    let br = chars_of(b.resource_ref.as_str());
    if chars_lt(ar.as_slice(), br.as_slice()) {
        return true;
    }
    if !str_eq(a.resource_ref.as_str(), b.resource_ref.as_str()) {
        return false;
    }
    let au = chars_of(a.url.as_str());
    let bu = chars_of(b.url.as_str());
    chars_lt(au.as_slice(), bu.as_slice())
}

fn insert_resource_into(v: &mut Vec<RemoteRelativeResource>, x: RemoteRelativeResource)
    ensures
        final(v)@ == insert_resource(old(v)@, x),
{
    let ghost v0 = v@;
    let mut p: usize = 0;
    let mut found = false;
    assert(v0.skip(0) =~= v0);
    assert(v0.take(0) + insert_resource(v0.skip(0), x) =~= insert_resource(v0, x));
    while p < v.len() && !found
        invariant
            v@ == v0,
            p <= v.len(),
            found ==> p < v.len() && resource_lt(x, v0[p as int]),
            insert_resource(v0, x) == v0.take(p as int) + insert_resource(v0.skip(p as int), x),
        decreases v.len() - p + (if found { 0int } else { 1int }),
    {
        if resource_before(&x, &v[p]) {
            found = true;
        } else {
            proof {
                let s = v0.skip(p as int);
                assert(s.drop_first() =~= v0.skip(p + 1));
                assert(s[0] == v0[p as int]);
                assert(insert_resource(s, x) == seq![s[0]] + insert_resource(s.drop_first(), x));
                assert(v0.take(p as int) + (seq![s[0]] + insert_resource(s.drop_first(), x))
                    =~= v0.take(p + 1) + insert_resource(v0.skip(p + 1), x));
            }
            p += 1;
        }
    }
    let ghost xg = x;
    v.insert(p, x);
    proof {
        let s = v0.skip(p as int);
        if p < v0.len() {
            assert(s[0] == v0[p as int]);
            assert(insert_resource(s, xg) == seq![xg] + s);
        } else {
            assert(s.len() == 0);
        }
        assert(v@ =~= v0.take(p as int) + (seq![xg] + s));
    }
}

/// Sorts fetched resources by reference, then URL, so that the hash of a
/// trusted script does not depend on the order they were listed in.
pub fn sort_resources(v: Vec<RemoteRelativeResource>) -> (r: Vec<RemoteRelativeResource>)
    ensures
        r@ == sort_resources_spec(v@),
{
    let ghost v0 = v@;
    assert(v0.len() == v.len());
    let mut rest = v;
    let mut out: Vec<RemoteRelativeResource> = Vec::new();
    let mut k: usize = 0;
    while rest.len() > 0
        invariant
            k <= v0.len(),
            v0.len() <= usize::MAX,
            rest@ == v0.skip(k as int),
            out@ == sort_resources_spec(v0.take(k as int)),
        decreases rest.len(),
    {
        assert(v0.skip(k as int).len() == v0.len() - k);
        let x = rest.remove(0);
        proof {
            assert(x == v0[k as int]);
            assert(v0.take(k + 1).drop_last() =~= v0.take(k as int));
            assert(rest@ =~= v0.skip(k + 1));
        }
        insert_resource_into(&mut out, x);
        k += 1;
    }
    assert(v0.take(k as int) =~= v0);
    out
}

/// 64 lower-case hexadecimal digits.
pub open spec fn lower_hex_digest(s: Seq<char>) -> bool {
    s.len() == 64 && forall|i: int| 0 <= i < s.len() ==> ('0' <= #[trigger] s[i] <= '9' || 'a' <= s[i] <= 'f')
}

/// The SHA-256 digest of `data` in lower-case hexadecimal.
pub uninterp spec fn sha256_hex_of(data: Seq<u8>) -> Seq<char>;

/// `sha2::Sha256::digest`, formatted as lower-case hexadecimal (`{:x}` on
/// the digest writes two digits `0-9a-f` per byte). The result is named
/// `sha256_hex_of(data)`; a digest has 32 bytes, so the text has 64
/// characters.
#[verifier::external_body]
pub(crate) fn sha256_hex(data: &[u8]) -> (r: String)
    ensures
        r@ == sha256_hex_of(data@),
        r@.len() == 64,
        forall|i: int| 0 <= i < r@.len() ==> ('0' <= #[trigger] r@[i] <= '9' || 'a' <= r@[i] <= 'f'),
{
    format!("{:x}", <sha2::Sha256 as sha2::Digest>::digest(data))
}

/// The bytes that stand for the resources of a remote script in its hash.
pub open spec fn resources_hash_input(r: Seq<RemoteRelativeResource>) -> Seq<u8>
    decreases r.len(),
{
    if r.len() == 0 {
        Seq::empty()
    } else {
        let x = r.last();
        resources_hash_input(r.drop_last()) + vstd::utf8::encode_utf8("\nresource\0"@)
            + vstd::utf8::encode_utf8(x.resource_ref@) + vstd::utf8::encode_utf8("\0"@)
            + vstd::utf8::encode_utf8(x.url@) + vstd::utf8::encode_utf8("\0"@) + vstd::utf8::encode_utf8(
            x.body@,
        )
    }
}

/// The bytes that are hashed when a remote script is trusted: a version
/// tag, the script, then each resource's reference, URL and content.
pub open spec fn trust_hash_input(source: Seq<char>, r: Seq<RemoteRelativeResource>) -> Seq<u8> {
    vstd::utf8::encode_utf8("jbx-remote-v1\nmain\0"@) + vstd::utf8::encode_utf8(source)
        + resources_hash_input(r)
}

pub(crate) fn push_bytes(data: &mut Vec<u8>, s: &str)
    ensures
        final(data)@ == old(data)@ + vstd::utf8::encode_utf8(s@),
{
    let b = s.as_bytes();
    let ghost d0 = data@;
    let mut i: usize = 0;
    while i < b.len()
        invariant
            b@ == vstd::utf8::encode_utf8(s@),
            i <= b.len(),
            data@ == d0 + b@.take(i as int),
        decreases b.len() - i,
    {
        data.push(b[i]);
        assert(b@.take(i + 1) =~= b@.take(i as int).push(b@[i as int]));
        i += 1;
    }
    assert(b@.take(b.len() as int) =~= b@);
}

/// The hash under which a remote script and its resources are trusted.
pub fn trusted_remote_hash(source: &str, resources: &[RemoteRelativeResource]) -> (r: String)
    ensures
        r@ == sha256_hex_of(trust_hash_input(source@, resources@)),
        lower_hex_digest(r@),
{
    let mut data: Vec<u8> = Vec::new();
    push_bytes(&mut data, "jbx-remote-v1\nmain\0");
    push_bytes(&mut data, source);
    let ghost head = data@;
    let mut i: usize = 0;
    while i < resources.len()
        invariant
            i <= resources.len(),
            data@ == head + resources_hash_input(resources@.take(i as int)),
        decreases resources.len() - i,
    {
        assert(resources@.take(i + 1).drop_last() =~= resources@.take(i as int));
        push_bytes(&mut data, "\nresource\0");
        push_bytes(&mut data, resources[i].resource_ref.as_str());
        push_bytes(&mut data, "\0");
        push_bytes(&mut data, resources[i].url.as_str());
        push_bytes(&mut data, "\0");
        push_bytes(&mut data, resources[i].body.as_str());
        assert(data@ =~= head + resources_hash_input(resources@.take(i + 1)));
        i += 1;
    }
    assert(resources@.take(resources.len() as int) =~= resources@);
    assert(data@ =~= trust_hash_input(source@, resources@));
    sha256_hex(data.as_slice())
}

/// Trusts a remote script whose source and resources were fetched: refuses
/// what is not an `http(s)` URL, else returns the hash and the store with
/// the script's entry written.
pub fn trust_add(
    url: &str,
    source: &str,
    resources: &[RemoteRelativeResource],
    entries: &[(String, String)],
) -> (r: Result<(String, Vec<(String, String)>), RemoteError>)
    ensures
        !remote_url(url@) ==> (r matches Err(RemoteError::NotRemote(u)) && u@ == url@),
        remote_url(url@) ==> (r matches Ok((h, e)) && h@ == sha256_hex_of(
            trust_hash_input(source@, resources@),
        ) && lower_hex_digest(h@) && prop_views(e@) == trust_with(prop_views(entries@), url@, h@)),
{
    ensure_remote_url(url)?;
    let hash = trusted_remote_hash(source, resources);
    let written = write_trust_entry(entries, url, hash.as_str());
    Ok((hash, written))
}

} // verus!
