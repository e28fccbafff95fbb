//! The local Maven repository that `publish` lays out and serves: where its
//! files go, the checksums beside them, its metadata, and the requests it
//! answers.
use vstd::prelude::*;
use crate::directives::strs;
use crate::resolver::opt_view;
use crate::text::{
    chars_of, contains_char, decimal, decimal_string, find_seq, occurs_at, contains_seq, seq_lt,
    chars_lt, slice_chars, split_on, str_eq, string_of, trim, trim_chars, views,
};

verus! {

// ─── Requests ────────────────────────────────────────────────────────────────

/// Text before the first `c`, or all of it.
pub open spec fn before_char(s: Seq<char>, c: char) -> Seq<char> {
    s.take(crate::remote::index_of_any(s, seq![c]))
}

/// Text without its leading `c`s.
pub open spec fn without_leading(s: Seq<char>, c: char) -> Seq<char>
    decreases s.len(),
{
    if s.len() > 0 && s[0] == c {
        without_leading(s.drop_first(), c)
    } else {
        s
    }
}

/// A segment of a request path that cannot name a file of the repository:
/// empty, `.`, `..`, or with a backslash.
pub open spec fn bad_request_segment(s: Seq<char>) -> bool {
    s.len() == 0 || s == "."@ || s == ".."@ || s.contains('\\')
}

/// The segments of the file a request target names (query dropped, leading
/// slashes dropped); none when nothing is named or a segment is bad.
pub open spec fn request_segments(target: Seq<char>) -> Option<Seq<Seq<char>>> {
    let path = without_leading(before_char(target, '?'), '/');
    if path.len() == 0 {
        None
    } else if exists|i: int| 0 <= i < split_on(path, seq!['/']).len() && bad_request_segment(#[trigger] split_on(path, seq!['/'])[i]) {
        None
    } else {
        Some(split_on(path, seq!['/']))
    }
}

/// The segments of the file a request target names.
pub fn maven_request_segments(target: &str) -> (r: Option<Vec<String>>)
    ensures
        match request_segments(target@) {
            Some(v) => r matches Some(x) && strs(x@) == v,
            None => r is None,
        },
{
    let c = chars_of(target);
    let q = vec!['?'];
    assert(q@ =~= seq!['?']);
    let k = crate::remote::first_of_any(c.as_slice(), q.as_slice());
    proof {
        crate::remote::lemma_index_of_any(c@, q@);
    }
    let mut path = slice_chars(c.as_slice(), 0, k);
    assert(path@ =~= before_char(target@, '?'));
    while path.len() > 0 && path[0] == '/'
        invariant
            without_leading(path@, '/') == without_leading(before_char(target@, '?'), '/'),
        decreases path.len(),
    {
        let rest = slice_chars(path.as_slice(), 1, path.len());
        assert(rest@ =~= path@.drop_first());
        path = rest;
    }
    if path.len() == 0 {
        return None;
    }
    let slash = vec!['/'];
    assert(slash@ =~= seq!['/']);
    let parts = crate::text::split_chars(path.as_slice(), slash.as_slice());
    let ghost pv = split_on(path@, seq!['/']);
    let mut out: Vec<String> = Vec::new();
    let mut i: usize = 0;
    while i < parts.len()
        invariant
            views(parts@) == pv,
            pv == split_on(path@, seq!['/']),
            path@ == without_leading(before_char(target@, '?'), '/'),
            path@.len() > 0,
            i <= parts.len(),
            strs(out@) == pv.take(i as int),
            forall|k: int| 0 <= k < i ==> !bad_request_segment(#[trigger] pv[k]),
        decreases parts.len() - i,
    {
        assert(pv[i as int] == parts@[i as int]@);
        let seg = string_of(parts[i].as_slice());
        if parts[i].len() == 0 || str_eq(seg.as_str(), ".") || str_eq(seg.as_str(), "..") || contains_char(
            parts[i].as_slice(),
            '\\',
        ) {
            assert(bad_request_segment(pv[i as int]));
            return None;
        }
        let ghost before = strs(out@);
        out.push(seg);
        assert(strs(out@) =~= before.push(pv[i as int]));
        assert(pv.take(i + 1) =~= pv.take(i as int).push(pv[i as int]));
        i += 1;
    }
    assert(pv.take(parts.len() as int) =~= pv);
    Some(out)
}

/// The file of the repository that a request target names, where it names
/// one (see [`request_segments`]).
pub fn maven_repository_request_path(repository: &std::path::Path, target: &str) -> (r: Option<
    std::path::PathBuf,
>)
    ensures
        r is Some <==> request_segments(target@) is Some,
{
    match maven_request_segments(target) {
        Some(segments) => {
            let mut path = crate::catalog::path_copy(repository);
            let mut i: usize = 0;
            while i < segments.len()
                decreases segments.len() - i,
            {
                path = crate::catalog::path_buf_join(&path, segments[i].as_str());
                i += 1;
            }
            Some(path)
        },
        None => None,
    }
}

/// What the repository server does with a request line.
#[derive(Debug)]
pub enum RepositoryResponse {
    /// Only `GET` and `HEAD` are answered (405).
    MethodNotAllowed,
    /// The target names no file of the repository (404).
    NotFound,
    /// Send the named file; without its body for `HEAD`.
    Serve { segments: Vec<String>, head_only: bool },
}

/// The decision for a request line: its first word is the method, its
/// second the target (`/` when missing).
pub open spec fn request_decision(line: Seq<char>) -> (bool, Option<Seq<Seq<char>>>, bool) {
    let words = crate::docs::ws_words(line);
    let method = if words.len() > 0 { words[0] } else { Seq::empty() };
    let target = if words.len() > 1 { words[1] } else { "/"@ };
    (method == "GET"@ || method == "HEAD"@, request_segments(target), method == "HEAD"@)
}

/// Decides how the repository server answers a request line.
pub fn repository_response(request_line: &str) -> (r: RepositoryResponse)
    ensures
        ({
            let (allowed, segments, head) = request_decision(request_line@);
            if !allowed {
                r matches RepositoryResponse::MethodNotAllowed
            } else {
                match segments {
                    None => r matches RepositoryResponse::NotFound,
                    Some(s) => r matches RepositoryResponse::Serve { segments: x, head_only: h } && strs(x@) == s && h == head,
                }
            }
        }),
{
    let words = crate::docs::split_ws_words(request_line);
    let ghost wv = words@.map_values(|w: String| w@);
    assert(wv.len() == words.len());
    let empty = String::new();
    let method: &str = if words.len() > 0 {
        assert(wv[0] == words@[0]@);
        words[0].as_str()
    } else {
        empty.as_str()
    };
    let target: &str = if words.len() > 1 {
        assert(wv[1] == words@[1]@);
        words[1].as_str()
    } else {
        "/"
    };
    let get = str_eq(method, "GET");
    let head = str_eq(method, "HEAD");
    if !get && !head {
        return RepositoryResponse::MethodNotAllowed;
    }
    match maven_request_segments(target) {
        Some(segments) => RepositoryResponse::Serve { segments, head_only: head },
        None => RepositoryResponse::NotFound,
    }
}

/// The status line and headers of a response with a body of `length` bytes.
pub open spec fn response_head(status: u16, reason: Seq<char>, length: usize) -> Seq<char> {
    "HTTP/1.1 "@ + decimal(status as nat) + " "@ + reason + "\r\nContent-Length: "@ + decimal(
        length as nat,
    ) + "\r\nConnection: close\r\n\r\n"@
}

/// The status line and headers of a response.
pub fn http_response_head(status: u16, reason: &str, length: usize) -> (r: String)
    ensures
        r@ == response_head(status, reason@, length),
{
    let mut out = "HTTP/1.1 ".to_owned();
    out.append(decimal_string(status as u64).as_str());
    out.append(" ");
    out.append(reason);
    out.append("\r\nContent-Length: ");
    out.append(decimal_string(length as u64).as_str());
    out.append("\r\nConnection: close\r\n\r\n");
    out
}

// ─── Dates ───────────────────────────────────────────────────────────────────

/// The civil date (year, month, day) of a day counted from 1970-01-01, in
/// the proleptic Gregorian calendar (eras of 400 years from March 1).
pub open spec fn civil(days: int) -> (int, int, int) {
    let z = days + 719468;
    let era = z / 146097;
    let doe = z - era * 146097;
    let yoe = (doe - doe / 1460 + doe / 36524 - doe / 146096) / 365;
    let y = yoe + era * 400;
    let doy = doe - (365 * yoe + yoe / 4 - yoe / 100);
    let mp = (5 * doy + 2) / 153;
    let d = doy - (153 * mp + 2) / 5 + 1;
    let m = if mp < 10 { mp + 3 } else { mp - 9 };
    (if m <= 2 { y + 1 } else { y }, m, d)
}

proof fn lemma_era_negative(z: int, q: int)
    requires
        z < 0,
        q == (146096 - z) / 146097,
    ensures
        z / 146097 == -q,
{
    let r = (146096 - z) % 146097;
    assert(146096 - z == 146097 * q + r && 0 <= r < 146097) by {
        vstd::arithmetic::div_mod::lemma_fundamental_div_mod(146096 - z, 146097);
    }
    assert(z == 146097 * (-q) + (146096 - r));
    vstd::arithmetic::div_mod::lemma_fundamental_div_mod_converse(z, 146097, -q, 146096 - r);
}

/// The civil date of a day counted from 1970-01-01.
#[verifier::rlimit(30)]
pub fn civil_from_days(days: i64) -> (r: (i64, u32, u32))
    requires
        days <= i64::MAX - 719468,
    ensures
        (r.0 as int, r.1 as int, r.2 as int) == civil(days as int),
{
    let z: i64 = days + 719468;
    let era: i64 = if z >= 0 {
        ((z as u64) / 146097) as i64
    } else {
        let q: u64 = ((146096 - z) as u64) / 146097;
        proof {
            lemma_era_negative(z as int, q as int);
        }
        -(q as i64)
    };
    assert(era == (z as int) / 146097);
    let doe_i: i64 = z - era * 146097;
    proof {
        vstd::arithmetic::div_mod::lemma_fundamental_div_mod(z as int, 146097);
    }
    assert(0 <= doe_i < 146097);
    let doe: u64 = doe_i as u64;
    let yoe: u64 = (doe - doe / 1460 + doe / 36524 - doe / 146096) / 365;
    assert(yoe <= 400) by (nonlinear_arith)
        requires
            doe < 146097,
            yoe == (doe - doe / 1460 + doe / 36524 - doe / 146096) / 365,
    ;
    let y: i64 = yoe as i64 + era * 400;
    let doy: u64 = doe - (365 * yoe + yoe / 4 - yoe / 100);
    let mp: u64 = (5 * doy + 2) / 153;
    let d: u64 = doy - (153 * mp + 2) / 5 + 1;
    let m: u64 = if mp < 10 { mp + 3 } else { mp - 9 };
    let year: i64 = if m <= 2 { y + 1 } else { y };
    (year, m as u32, d as u32)
}

/// `n` in decimal, padded with zeros to `width` digits.
pub open spec fn padded(n: nat, width: nat) -> Seq<char> {
    if decimal(n).len() >= width {
        decimal(n)
    } else {
        Seq::new((width - decimal(n).len()) as nat, |i: int| '0') + decimal(n)
    }
}

fn pad_decimal(n: u64, width: usize) -> (r: String)
    ensures
        r@ == padded(n as nat, width as nat),
{
    let digits = decimal_string(n);
    let len = chars_of(digits.as_str()).len();
    if len >= width {
        return digits;
    }
    let count: usize = width - len;
    let mut out = String::new();
    let mut k: usize = 0;
    while k < count
        invariant
            k <= count,
            out@ == Seq::new(k as nat, |i: int| '0'),
        decreases count - k,
    {
        push_char_to(&mut out, '0');
        assert(out@ =~= Seq::new((k + 1) as nat, |i: int| '0'));
        k += 1;
    }
    out.append(digits.as_str());
    out
}

fn push_char_to(s: &mut String, c: char)
    ensures
        final(s)@ == old(s)@.push(c),
{
    crate::text::push_char(s, c);
}

/// The `lastUpdated` text of Maven metadata for a time in seconds since
/// 1970-01-01 (UTC): `yyyyMMddHHmmss`, the year at least four digits.
pub open spec fn last_updated_of(seconds: nat) -> Seq<char> {
    let days = seconds / 86400;
    let sod = seconds % 86400;
    let (y, m, d) = civil(days as int);
    padded(y as nat, 4) + padded(m as nat, 2) + padded(d as nat, 2) + padded(sod / 3600, 2) + padded(
        (sod % 3600) / 60,
        2,
    ) + padded(sod % 60, 2)
}

proof fn lemma_civil_positive(days: int)
    requires
        0 <= days,
    ensures
        civil(days).0 >= 1,
        civil(days).1 >= 1,
        civil(days).2 >= 1,
{
    let z = days + 719468;
    let era = z / 146097;
    assert(era >= 4);
}

/// The `lastUpdated` text of Maven metadata for a time in seconds since
/// 1970-01-01 (UTC).
pub fn maven_last_updated_timestamp(seconds: u64) -> (r: String)
    requires
        seconds <= i64::MAX,
    ensures
        r@ == last_updated_of(seconds as nat),
{
    let days: u64 = seconds / 86400;
    let sod: u64 = seconds % 86400;
    let (y, m, d) = civil_from_days(days as i64);
    proof {
        lemma_civil_positive(days as int);
    }
    let mut out = pad_decimal(y as u64, 4);
    out.append(pad_decimal(m as u64, 2).as_str());
    out.append(pad_decimal(d as u64, 2).as_str());
    out.append(pad_decimal(sod / 3600, 2).as_str());
    out.append(pad_decimal((sod % 3600) / 60, 2).as_str());
    out.append(pad_decimal(sod % 60, 2).as_str());
    out
}

// ─── Metadata versions ───────────────────────────────────────────────────────

/// The first position of `p` in `s` (which holds it).
pub open spec fn first_at(s: Seq<char>, p: Seq<char>) -> int {
    choose|i: int| occurs_at(s, p, i) && forall|j: int| 0 <= j < i ==> !occurs_at(s, p, j)
}

proof fn lemma_first_below(s: Seq<char>, p: Seq<char>, k: int)
    requires
        occurs_at(s, p, k),
    ensures
        exists|i: int| occurs_at(s, p, i) && forall|j: int| 0 <= j < i ==> !occurs_at(s, p, j),
    decreases k,
{
    if exists|j: int| 0 <= j < k && occurs_at(s, p, j) {
        let j = choose|j: int| 0 <= j < k && occurs_at(s, p, j);
        lemma_first_below(s, p, j);
    } else {
        assert(forall|j: int| 0 <= j < k ==> !occurs_at(s, p, j));
    }
}

/// Where `p` occurs in `s`, `first_at` is its first position.
pub proof fn lemma_first_at(s: Seq<char>, p: Seq<char>)
    requires
        contains_seq(s, p),
    ensures
        occurs_at(s, p, first_at(s, p)),
        forall|j: int| 0 <= j < first_at(s, p) ==> !occurs_at(s, p, j),
{
    let k = choose|k: int| occurs_at(s, p, k);
    lemma_first_below(s, p, k);
}

/// The texts of the `<version>` elements of Maven metadata, trimmed, in
/// order, empty ones left out; reading stops at an element that is not
/// closed.
#[verifier::opaque]
pub open spec fn version_elements(rest: Seq<char>) -> Seq<Seq<char>>
    decreases rest.len(),
{
    if !contains_seq(rest, "<version>"@) {
        Seq::empty()
    } else {
        let after = rest.skip(first_at(rest, "<version>"@) + "<version>"@.len());
        if !contains_seq(after, "</version>"@) {
            Seq::empty()
        } else {
            let e = first_at(after, "</version>"@);
            let v = trim(after.take(e));
            let tail = after.skip(e + "</version>"@.len());
            proof {
                reveal_strlit("<version>");
                reveal_strlit("</version>");
                lemma_first_at(rest, "<version>"@);
                lemma_first_at(after, "</version>"@);
            }
            (if v.len() > 0 { seq![v] } else { Seq::empty() }) + version_elements(tail)
        }
    }
}

/// Strictly sorted (as strings order).
pub open spec fn strictly_sorted(v: Seq<Seq<char>>) -> bool {
    forall|i: int, j: int| 0 <= i < j < v.len() ==> seq_lt(#[trigger] v[i], #[trigger] v[j])
}

fn find_text(s: &[char], p: &str) -> (r: Option<usize>)
    ensures
        match r {
            Some(i) => occurs_at(s@, p@, i as int) && forall|j: int| 0 <= j < i ==> !occurs_at(s@, p@, j),
            None => !contains_seq(s@, p@),
        },
{
    let pc = chars_of(p);
    find_seq(s, pc.as_slice())
}

#[verifier::rlimit(60)]
#[verifier::spinoff_prover]
fn next_version(rest: &Vec<char>) -> (r: Option<(Option<String>, Vec<char>)>)
    ensures
        match r {
            None => version_elements(rest@) == Seq::<Seq<char>>::empty(),
            Some((v, tail)) => tail.len() < rest.len() && version_elements(rest@) == (match v {
                Some(x) => seq![x@],
                None => Seq::<Seq<char>>::empty(),
            }) + version_elements(tail@),
        },
{
    proof {
        reveal_strlit("<version>");
        reveal_strlit("</version>");
        reveal(version_elements);
    }
    let start = match find_text(rest.as_slice(), "<version>") {
        Some(i) => i,
        None => return None,
    };
    proof {
        lemma_first_at(rest@, "<version>"@);
        let f = first_at(rest@, "<version>"@);
        if f < start {
        } else if f > start {
            assert(!occurs_at(rest@, "<version>"@, start as int));
        }
    }
    assert(occurs_at(rest@, "<version>"@, start as int));
    assert("<version>"@.len() == 9);
    assert(start + 9 <= rest.len());
    let after = slice_chars(rest.as_slice(), start + 9, rest.len());
    assert(after@ =~= rest@.skip(start + 9));
    let end = match find_text(after.as_slice(), "</version>") {
        Some(e) => e,
        None => return None,
    };
    proof {
        lemma_first_at(after@, "</version>"@);
        let f = first_at(after@, "</version>"@);
        if f < end {
        } else if f > end {
            assert(!occurs_at(after@, "</version>"@, end as int));
        }
    }
    let inner = slice_chars(after.as_slice(), 0, end);
    assert(inner@ =~= after@.take(end as int));
    let v = trim_chars(inner.as_slice());
    let tail = slice_chars(after.as_slice(), end + 10, after.len());
    assert(tail@ =~= after@.skip(end + 10));
    if v.len() > 0 {
        Some((Some(string_of(v.as_slice())), tail))
    } else {
        Some((None, tail))
    }
}

/// The versions that Maven metadata lists, in the order of its elements.
pub fn maven_metadata_version_list(text: &str) -> (r: Vec<String>)
    ensures
        strs(r@) == version_elements(text@),
{
    let mut rest = chars_of(text);
    let mut out: Vec<String> = Vec::new();
    assert(strs(out@) + version_elements(rest@) =~= version_elements(text@));
    loop
        invariant
            strs(out@) + version_elements(rest@) == version_elements(text@),
        decreases rest.len(),
    {
        match next_version(&rest) {
            None => {
                assert(strs(out@) =~= strs(out@) + version_elements(rest@));
                return out;
            },
            Some((v, tail)) => {
                let ghost before = strs(out@);
                match v {
                    Some(x) => {
                        let ghost xv = x@;
                        out.push(x);
                        assert(strs(out@) =~= before + seq![xv]);
                    },
                    None => {},
                }
                assert(strs(out@) + version_elements(tail@) =~= before + version_elements(rest@));
                rest = tail;
            },
        }
    }
}

/// Inserts `v` into a strictly sorted list unless it is there.
#[verifier::opaque]
pub open spec fn sorted_insert(v: Seq<Seq<char>>, x: Seq<char>) -> Seq<Seq<char>>
    decreases v.len(),
{
    if v.len() == 0 {
        seq![x]
    } else if v[0] == x {
        v
    } else if seq_lt(x, v[0]) {
        seq![x] + v
    } else {
        seq![v[0]] + sorted_insert(v.drop_first(), x)
    }
}

proof fn lemma_sorted_insert_unfold(v: Seq<Seq<char>>, x: Seq<char>)
    ensures
        sorted_insert(v, x) == (if v.len() == 0 {
            seq![x]
        } else if v[0] == x {
            v
        } else if seq_lt(x, v[0]) {
            seq![x] + v
        } else {
            seq![v[0]] + sorted_insert(v.drop_first(), x)
        }),
{
    reveal(sorted_insert);
}

/// The set of versions as a sorted list: each inserted in turn.
pub open spec fn version_set(vs: Seq<Seq<char>>) -> Seq<Seq<char>>
    decreases vs.len(),
{
    if vs.len() == 0 {
        Seq::empty()
    } else {
        sorted_insert(version_set(vs.drop_last()), vs.last())
    }
}

/// Inserts a version into a sorted list of versions unless it is there.
pub fn insert_version(versions: &mut Vec<String>, v: &str)
    ensures
        strs(final(versions)@) == sorted_insert(strs(old(versions)@), v@),
{
    let ghost v0 = strs(versions@);
    let vc = chars_of(v);
    let mut p: usize = 0;
    assert(v0.skip(0) =~= v0);
    assert(v0.take(0) + sorted_insert(v0.skip(0), v@) =~= sorted_insert(v0, v@));
    while p < versions.len()
        invariant
            v0 == strs(old(versions)@),
            strs(versions@) == v0,
            vc@ == v@,
            p <= versions.len(),
            sorted_insert(v0, v@) == v0.take(p as int) + sorted_insert(v0.skip(p as int), v@),
        decreases versions.len() - p,
    {
        let ghost s = v0.skip(p as int);
        proof {
            lemma_sorted_insert_unfold(s, v@);
        }
        assert(s[0] == versions@[p as int]@);
        assert(s.drop_first() =~= v0.skip(p + 1));
        if str_eq(versions[p].as_str(), v) {
            assert(v0.take(p as int) + s =~= v0);
            return;
        }
        let xc = chars_of(versions[p].as_str());
        if chars_lt(vc.as_slice(), xc.as_slice()) {
            versions.insert(p, v.to_owned());
            assert(strs(versions@) =~= v0.take(p as int) + (seq![v@] + s));
            return;
        }
        assert(v0.take(p as int) + (seq![s[0]] + sorted_insert(s.drop_first(), v@)) =~= v0.take(p + 1)
            + sorted_insert(v0.skip(p + 1), v@));
        p += 1;
    }
    proof {
        lemma_sorted_insert_unfold(v0.skip(p as int), v@);
    }
    assert(v0.skip(p as int) =~= Seq::<Seq<char>>::empty());
    versions.push(v.to_owned());
    assert(strs(versions@) =~= v0.take(p as int) + seq![v@]);
}

/// The versions that Maven metadata lists, as a sorted set.
pub fn maven_metadata_versions(text: &str) -> (r: Vec<String>)
    ensures
        strs(r@) == version_set(version_elements(text@)),
{
    let list = maven_metadata_version_list(text);
    let ghost lv = strs(list@);
    let mut out: Vec<String> = Vec::new();
    let mut i: usize = 0;
    assert(strs(out@) =~= version_set(lv.take(0)));
    while i < list.len()
        invariant
            lv == strs(list@),
            i <= list.len(),
            strs(out@) == version_set(lv.take(i as int)),
        decreases list.len() - i,
    {
        assert(lv.take(i + 1).drop_last() =~= lv.take(i as int));
        assert(lv.take(i + 1).last() == list@[i as int]@);
        insert_version(&mut out, list[i].as_str());
        i += 1;
    }
    assert(lv.take(list.len() as int) =~= lv);
    out
}

// ─── Checksums ───────────────────────────────────────────────────────────────

/// The MD5 digest of `data` in lower-case hexadecimal.
pub uninterp spec fn md5_hex_of(data: Seq<u8>) -> Seq<char>;

/// `md5::Md5::digest` (crate `md-5`), formatted as lower-case hexadecimal.
/// The result is named `md5_hex_of(data)`; a digest has 16 bytes, so the
/// text has 32 characters.
#[verifier::external_body]
fn md5_hex(data: &[u8]) -> (r: String)
    ensures
        r@ == md5_hex_of(data@),
        r@.len() == 32,
{
    format!("{:x}", <md5::Md5 as md5::Digest>::digest(data))
}

/// The SHA-1 digest of `data` in lower-case hexadecimal.
pub uninterp spec fn sha1_hex_of(data: Seq<u8>) -> Seq<char>;

/// `sha1::Sha1::digest` (crate `sha1`), formatted as lower-case
/// hexadecimal. The result is named `sha1_hex_of(data)`; a digest has 20
/// bytes, so the text has 40 characters.
#[verifier::external_body]
fn sha1_hex(data: &[u8]) -> (r: String)
    ensures
        r@ == sha1_hex_of(data@),
        r@.len() == 40,
{
    format!("{:x}", <sha1::Sha1 as sha1::Digest>::digest(data))
}

/// The SHA-512 digest of `data` in lower-case hexadecimal.
pub uninterp spec fn sha512_hex_of(data: Seq<u8>) -> Seq<char>;

/// `sha2::Sha512::digest` (crate `sha2`), formatted as lower-case
/// hexadecimal. The result is named `sha512_hex_of(data)`; a digest has 64
/// bytes, so the text has 128 characters.
#[verifier::external_body]
fn sha512_hex(data: &[u8]) -> (r: String)
    ensures
        r@ == sha512_hex_of(data@),
        r@.len() == 128,
{
    format!("{:x}", <sha2::Sha512 as sha2::Digest>::digest(data))
}

/// The checksum files written beside a published file named `name`:
/// `name.md5`, `name.sha1`, `name.sha256` and `name.sha512`, each holding
/// the digest in hexadecimal.
pub open spec fn checksum_files_of(name: Seq<char>, data: Seq<u8>) -> Seq<(Seq<char>, Seq<char>)> {
    seq![
        (name + ".md5"@, md5_hex_of(data)),
        (name + ".sha1"@, sha1_hex_of(data)),
        (name + ".sha256"@, crate::trust::sha256_hex_of(data)),
        (name + ".sha512"@, sha512_hex_of(data)),
    ]
}

fn suffixed(name: &str, suffix: &str) -> (r: String)
    ensures
        r@ == name@ + suffix@,
{
    let mut out = name.to_owned();
    out.append(suffix);
    out
}

/// The checksum files of a published file: names and contents.
pub fn checksum_files(name: &str, data: &[u8]) -> (r: Vec<(String, String)>)
    ensures
        r@.map_values(|f: (String, String)| (f.0@, f.1@)) == checksum_files_of(name@, data@),
{
    let mut out: Vec<(String, String)> = Vec::new();
    out.push((suffixed(name, ".md5"), md5_hex(data)));
    out.push((suffixed(name, ".sha1"), sha1_hex(data)));
    out.push((suffixed(name, ".sha256"), crate::trust::sha256_hex(data)));
    out.push((suffixed(name, ".sha512"), sha512_hex(data)));
    assert(out@.map_values(|f: (String, String)| (f.0@, f.1@)) =~= checksum_files_of(name@, data@));
    out
}

/// Why a downloaded JAR is refused.
#[derive(Debug)]
pub enum Sha1Error {
    /// The `.sha1` file holds no checksum.
    EmptyResponse,
    /// The JAR does not have the checksum; the expected and actual digests.
    Mismatch(String, String),
}

/// What a downloaded JAR is checked against: the first word of its `.sha1`
/// file, which must be the SHA-1 digest of its bytes.
pub open spec fn sha1_check(data: Seq<u8>, sha_text: Seq<char>) -> Option<Option<(Seq<char>, Seq<char>)>> {
    let words = crate::docs::ws_words(sha_text);
    if words.len() == 0 {
        Some(None)
    } else if sha1_hex_of(data) != words[0] {
        Some(Some((words[0], sha1_hex_of(data))))
    } else {
        None
    }
}

/// Checks a downloaded JAR against the text of its `.sha1` file.
pub fn verify_sha1_text(data: &[u8], sha_text: &str) -> (r: Result<(), Sha1Error>)
    ensures
        match sha1_check(data@, sha_text@) {
            None => r is Ok,
            Some(None) => r matches Err(Sha1Error::EmptyResponse),
            Some(Some((e, a))) => r matches Err(Sha1Error::Mismatch(x, y)) && x@ == e && y@ == a,
        },
{
    let words = crate::docs::split_ws_words(sha_text);
    assert(words@.map_values(|w: String| w@).len() == words.len());
    if words.len() == 0 {
        return Err(Sha1Error::EmptyResponse);
    }
    assert(words@.map_values(|w: String| w@)[0] == words@[0]@);
    let actual = sha1_hex(data);
    if !str_eq(actual.as_str(), words[0].as_str()) {
        return Err(Sha1Error::Mismatch(words[0].clone(), actual));
    }
    Ok(())
}

// ─── Layout ──────────────────────────────────────────────────────────────────

/// The directory of a published version in the repository:
/// `group/path/artifact/version`.
pub open spec fn version_dir_of(group: Seq<char>, id: Seq<char>, version: Seq<char>) -> Seq<char> {
    crate::resolver::group_path(group) + "/"@ + id + "/"@ + version
}

/// The directory of a published version in the repository.
pub fn publish_version_dir(group: &str, id: &str, version: &str) -> (r: String)
    ensures
        r@ == version_dir_of(group@, id@, version@),
{
    let g = chars_of(group);
    let dot = vec!['.'];
    assert(dot@ =~= seq!['.']);
    let slash = chars_of("/");
    let gp = crate::text::replace_chars(g.as_slice(), dot.as_slice(), slash.as_slice());
    let mut out = string_of(gp.as_slice());
    out.append("/");
    out.append(id);
    out.append("/");
    out.append(version);
    out
}

/// Where other tools keep a module's JAR, relative to the home directory:
/// the local Maven repository's file, Gradle's cache directory of the
/// version (whose hash directories hold the file), and Coursier's file.
pub open spec fn local_cache_paths_of(
    org: Seq<char>,
    name: Seq<char>,
    version: Seq<char>,
    jar: Seq<char>,
) -> (Seq<char>, Seq<char>, Seq<char>) {
    (
        ".m2/repository/"@ + version_dir_of(org, name, version) + "/"@ + jar,
        ".gradle/caches/modules-2/files-2.1/"@ + org + "/"@ + name + "/"@ + version,
        ".cache/coursier/v1/https/repo1.maven.org/maven2/"@ + version_dir_of(org, name, version) + "/"@
            + jar,
    )
}

/// Where other tools keep a module's JAR, relative to the home directory.
pub fn local_cache_paths(org: &str, name: &str, version: &str, jar: &str) -> (r: (String, String, String))
    ensures
        (r.0@, r.1@, r.2@) == local_cache_paths_of(org@, name@, version@, jar@),
{
    let dir = publish_version_dir(org, name, version);
    let mut maven = ".m2/repository/".to_owned();
    maven.append(dir.as_str());
    maven.append("/");
    maven.append(jar);
    let mut gradle = ".gradle/caches/modules-2/files-2.1/".to_owned();
    gradle.append(org);
    gradle.append("/");
    gradle.append(name);
    gradle.append("/");
    gradle.append(version);
    let mut coursier = ".cache/coursier/v1/https/repo1.maven.org/maven2/".to_owned();
    coursier.append(dir.as_str());
    coursier.append("/");
    coursier.append(jar);
    (maven, gradle, coursier)
}

/// The files of a published version, by the prefix `id-version`: the JAR,
/// the sources and Javadoc JARs, the POM, and the Markdown and JSON
/// documentation.
pub open spec fn publish_file_names_of(id: Seq<char>, version: Seq<char>) -> Seq<Seq<char>> {
    let p = id + "-"@ + version;
    seq![p + ".jar"@, p + "-sources.jar"@, p + "-javadoc.jar"@, p + ".pom"@, p + "-jbx-docs.md"@, p + "-jbx-docs.json"@]
}

/// The files of a published version.
pub fn publish_file_names(id: &str, version: &str) -> (r: Vec<String>)
    ensures
        strs(r@) == publish_file_names_of(id@, version@),
{
    let mut p = id.to_owned();
    p.append("-");
    p.append(version);
    let mut out: Vec<String> = Vec::new();
    out.push(suffixed(p.as_str(), ".jar"));
    out.push(suffixed(p.as_str(), "-sources.jar"));
    out.push(suffixed(p.as_str(), "-javadoc.jar"));
    out.push(suffixed(p.as_str(), ".pom"));
    out.push(suffixed(p.as_str(), "-jbx-docs.md"));
    out.push(suffixed(p.as_str(), "-jbx-docs.json"));
    assert(strs(out@) =~= publish_file_names_of(id@, version@));
    out
}

/// The name of the Maven Central bundle of a published version.
pub open spec fn bundle_name_of(id: Seq<char>, version: Seq<char>) -> Seq<char> {
    id + "-"@ + version + "-central-bundle.zip"@
}

/// The name of the Maven Central bundle of a published version.
pub fn publish_bundle_name(id: &str, version: &str) -> (r: String)
    ensures
        r@ == bundle_name_of(id@, version@),
{
    let mut out = id.to_owned();
    out.append("-");
    out.append(version);
    out.append("-central-bundle.zip");
    out
}

/// Directories that are not searched for sources to publish (the
/// descriptor's own directory aside): hidden ones, `target`, `build`, `out`
/// and `classes`.
pub open spec fn ignored_publish_dir(name: Seq<char>) -> bool {
    (name.len() > 0 && name[0] == '.') || name == "target"@ || name == "build"@ || name == "out"@
        || name == "classes"@
}

/// Whether a directory is skipped when searching for sources to publish.
pub fn is_ignored_publish_source_dir(name: &str) -> (r: bool)
    ensures
        r == ignored_publish_dir(name@),
{
    let c = chars_of(name);
    (c.len() > 0 && c[0] == '.') || str_eq(name, "target") || str_eq(name, "build") || str_eq(name, "out")
        || str_eq(name, "classes")
}

/// How a source is staged for publishing: under the directory of its
/// package, its text as it is or with a package declaration added.
pub open spec fn staged_source_of(
    source: Seq<char>,
    package_name: Option<Seq<char>>,
    group: Seq<char>,
    id: Seq<char>,
) -> Result<(Option<Seq<char>>, Seq<char>), Seq<char>> {
    match crate::source::declared_package(source) {
        Some(p) => Ok((Some(p), source)),
        None => {
            let pkg = match package_name {
                Some(p) => p,
                None => group + "."@ + crate::text::replace_all(id, "-"@, Seq::empty()),
            };
            if crate::fmt::compact_looking(source) {
                Ok((None, source))
            } else if !crate::publish::package_parts_ok(pkg) {
                Err(pkg)
            } else {
                Ok((Some(pkg), "package "@ + pkg + ";\n\n"@ + source))
            }
        },
    }
}

/// Stages a source for publishing: the package whose directory it goes to
/// (none for a compact source) and the text written there. The package is
/// the one it declares, else the descriptor's, else `group.id` (without
/// `-`); a source that declares none gets a package declaration.
pub fn stage_publish_source(
    source: &str,
    package_name: &Option<String>,
    group: &str,
    id: &str,
) -> (r: Result<(Option<String>, String), crate::publish::PublishError>)
    ensures
        match staged_source_of(source@, opt_view(*package_name), group@, id@) {
            Ok((p, t)) => r matches Ok((x, y)) && opt_view(x) == p && y@ == t,
            Err(pkg) => r matches Err(crate::publish::PublishError::InvalidPackage(x)) && x@ == pkg,
        },
{
    match crate::source::package_name(source) {
        Some(p) => Ok((Some(p), source.to_owned())),
        None => {
            let pkg = match package_name {
                Some(p) => p.clone(),
                None => {
                    proof {
                        reveal_strlit("-");
                    }
                    let ic = chars_of(id);
                    let dash = chars_of("-");
                    let empty: Vec<char> = Vec::new();
                    let stripped = crate::text::replace_seq(ic.as_slice(), dash.as_slice(), empty.as_slice());
                    assert(empty@ =~= Seq::<char>::empty());
                    let mut q = group.to_owned();
                    q.append(".");
                    q.append(string_of(stripped.as_slice()).as_str());
                    q
                },
            };
            if crate::fmt::looks_like_compact_source(source) {
                return Ok((None, source.to_owned()));
            }
            crate::publish::validate_package_name(pkg.as_str())?;
            let mut text = "package ".to_owned();
            text.append(pkg.as_str());
            text.append(";\n\n");
            text.append(source);
            Ok((Some(pkg), text))
        },
    }
}

/// The `javadoc` arguments of a published version: quiet, into `out_dir`,
/// sources from `source_dir`, the class path when there is one, then the
/// sources.
pub open spec fn javadoc_args_of(
    out_dir: Seq<char>,
    source_dir: Seq<char>,
    classpath: Option<Seq<char>>,
    sources: Seq<Seq<char>>,
) -> Seq<Seq<char>> {
    seq!["-quiet"@, "-d"@, out_dir, "-sourcepath"@, source_dir] + (match classpath {
        Some(cp) => seq!["-classpath"@, cp],
        None => Seq::empty(),
    }) + sources
}

/// The `javadoc` arguments of a published version.
pub fn javadoc_arguments(out_dir: &str, source_dir: &str, classpath: Option<String>, sources: &Vec<String>) -> (r:
    Vec<String>)
    ensures
        strs(r@) == javadoc_args_of(out_dir@, source_dir@, opt_view(classpath), strs(sources@)),
{
    let mut out: Vec<String> = Vec::new();
    out.push("-quiet".to_owned());
    out.push("-d".to_owned());
    out.push(out_dir.to_owned());
    out.push("-sourcepath".to_owned());
    out.push(source_dir.to_owned());
    match classpath {
        Some(cp) => {
            out.push("-classpath".to_owned());
            out.push(cp);
        },
        None => {},
    }
    let ghost head = strs(out@);
    crate::compile::append_strings(&mut out, sources);
    assert(strs(out@) =~= javadoc_args_of(out_dir@, source_dir@, opt_view(classpath), strs(sources@)));
    out
}

// ─── Laws ────────────────────────────────────────────────────────────────────

proof fn lemma_sorted_insert(v: Seq<Seq<char>>, x: Seq<char>)
    requires
        strictly_sorted(v),
    ensures
        strictly_sorted(sorted_insert(v, x)),
        forall|y: Seq<char>| #[trigger] sorted_insert(v, x).contains(y) <==> (v.contains(y) || y == x),
    decreases v.len(),
{
    lemma_sorted_insert_unfold(v, x);
    let r = sorted_insert(v, x);
    if v.len() == 0 {
        assert forall|y: Seq<char>| #[trigger] r.contains(y) <==> (v.contains(y) || y == x) by {
            if r.contains(y) {
                assert(r[0] == y);
            }
            if y == x {
                assert(r[0] == x);
            }
        }
    } else if v[0] == x {
        assert forall|y: Seq<char>| #[trigger] r.contains(y) <==> (v.contains(y) || y == x) by {
            if y == x {
                assert(v[0] == y);
            }
        }
    } else if seq_lt(x, v[0]) {
        assert forall|i: int, j: int| 0 <= i < j < r.len() implies seq_lt(#[trigger] r[i], #[trigger] r[j]) by {
            if i == 0 {
                if j > 1 {
                    crate::text::lemma_seq_lt_transitive(x, v[0], v[j - 1]);
                }
            } else {
                assert(r[i] == v[i - 1] && r[j] == v[j - 1]);
            }
        }
        assert forall|y: Seq<char>| #[trigger] r.contains(y) <==> (v.contains(y) || y == x) by {
            if r.contains(y) {
                let k = choose|k: int| 0 <= k < r.len() && r[k] == y;
                if k > 0 {
                    assert(v[k - 1] == y);
                }
            }
            if v.contains(y) {
                let k = choose|k: int| 0 <= k < v.len() && v[k] == y;
                assert(r[k + 1] == y);
            }
            if y == x {
                assert(r[0] == y);
            }
        }
    } else {
        let t = v.drop_first();
        assert forall|i: int, j: int| 0 <= i < j < t.len() implies seq_lt(#[trigger] t[i], #[trigger] t[j]) by {
            assert(t[i] == v[i + 1] && t[j] == v[j + 1]);
        }
        lemma_sorted_insert(t, x);
        let rest = sorted_insert(t, x);
        crate::text::lemma_seq_lt_total(x, v[0]);
        assert forall|k: int| 0 <= k < rest.len() implies seq_lt(v[0], #[trigger] rest[k]) by {
            assert(rest.contains(rest[k]));
            if rest[k] == x {
            } else {
                assert(t.contains(rest[k]));
                let m = choose|m: int| 0 <= m < t.len() && t[m] == rest[k];
                assert(v[m + 1] == rest[k]);
            }
        }
        assert forall|i: int, j: int| 0 <= i < j < r.len() implies seq_lt(#[trigger] r[i], #[trigger] r[j]) by {
            if i == 0 {
                assert(r[j] == rest[j - 1]);
            } else {
                assert(r[i] == rest[i - 1] && r[j] == rest[j - 1]);
            }
        }
        assert forall|y: Seq<char>| #[trigger] r.contains(y) <==> (v.contains(y) || y == x) by {
            if r.contains(y) {
                let k = choose|k: int| 0 <= k < r.len() && r[k] == y;
                if k > 0 {
                    assert(rest[k - 1] == y);
                    assert(rest.contains(y));
                    if t.contains(y) {
                        let m = choose|m: int| 0 <= m < t.len() && t[m] == y;
                        assert(v[m + 1] == y);
                    }
                }
            }
            if v.contains(y) {
                let k = choose|k: int| 0 <= k < v.len() && v[k] == y;
                if k > 0 {
                    assert(t[k - 1] == y);
                    assert(rest.contains(y));
                    let m = choose|m: int| 0 <= m < rest.len() && rest[m] == y;
                    assert(r[m + 1] == y);
                } else {
                    assert(r[0] == y);
                }
            }
            if y == x {
                assert(rest.contains(y));
                let m = choose|m: int| 0 <= m < rest.len() && rest[m] == y;
                assert(r[m + 1] == y);
            }
        }
    }
}

/// Versions collected one by one form a sorted set: in strict string order,
/// holding exactly the versions given.
pub proof fn law_version_set(vs: Seq<Seq<char>>)
    ensures
        strictly_sorted(version_set(vs)),
        forall|y: Seq<char>| #[trigger] version_set(vs).contains(y) <==> vs.contains(y),
    decreases vs.len(),
{
    if vs.len() > 0 {
        law_version_set(vs.drop_last());
        lemma_sorted_insert(version_set(vs.drop_last()), vs.last());
        assert forall|y: Seq<char>| #[trigger] version_set(vs).contains(y) <==> vs.contains(y) by {
            if vs.drop_last().contains(y) {
                let k = choose|k: int| 0 <= k < vs.drop_last().len() && vs.drop_last()[k] == y;
                assert(vs[k] == y);
            }
            if vs.contains(y) {
                let k = choose|k: int| 0 <= k < vs.len() && vs[k] == y;
                if k < vs.len() - 1 {
                    assert(vs.drop_last()[k] == y);
                }
            }
        }
    } else {
        assert(version_set(vs) =~= Seq::<Seq<char>>::empty());
    }
}

/// Inserting a version keeps the list a sorted set and adds exactly that
/// version; inserting it again changes nothing.
pub proof fn law_insert_version(v: Seq<Seq<char>>, x: Seq<char>)
    requires
        strictly_sorted(v),
    ensures
        strictly_sorted(sorted_insert(v, x)),
        forall|y: Seq<char>| #[trigger] sorted_insert(v, x).contains(y) <==> (v.contains(y) || y == x),
        sorted_insert(sorted_insert(v, x), x) == sorted_insert(v, x),
{
    lemma_sorted_insert(v, x);
    lemma_insert_present(sorted_insert(v, x), x);
}

proof fn lemma_insert_present(v: Seq<Seq<char>>, x: Seq<char>)
    requires
        strictly_sorted(v),
        v.contains(x),
    ensures
        sorted_insert(v, x) == v,
    decreases v.len(),
{
    lemma_sorted_insert_unfold(v, x);
    if v[0] != x {
        let k = choose|k: int| 0 <= k < v.len() && v[k] == x;
        assert(k > 0);
        assert(seq_lt(v[0], x));
        if seq_lt(x, v[0]) {
            crate::text::lemma_seq_lt_transitive(x, v[0], x);
            crate::text::lemma_seq_lt_irreflexive(x);
        }
        let t = v.drop_first();
        assert forall|i: int, j: int| 0 <= i < j < t.len() implies seq_lt(#[trigger] t[i], #[trigger] t[j]) by {
            assert(t[i] == v[i + 1] && t[j] == v[j + 1]);
        }
        assert(t[k - 1] == x);
        lemma_insert_present(t, x);
        assert(seq![v[0]] + t =~= v);
    }
}

/// Every day has a month from 1 to 12 and a day of the month from 1 to 31.
pub proof fn law_civil_ranges(days: int)
    ensures
        1 <= civil(days).1 <= 12,
        1 <= civil(days).2 <= 31,
{
    let z = days + 719468;
    let era = z / 146097;
    let doe = z - era * 146097;
    vstd::arithmetic::div_mod::lemma_fundamental_div_mod(z, 146097);
    assert(0 <= doe < 146097);
    let yoe = (doe - doe / 1460 + doe / 36524 - doe / 146096) / 365;
    assert(0 <= yoe <= 399);
    let doy = doe - (365 * yoe + yoe / 4 - yoe / 100);
    assert(0 <= doy <= 365);
    let mp = (5 * doy + 2) / 153;
    assert(0 <= mp <= 11);
    let d = doy - (153 * mp + 2) / 5 + 1;
    assert(1 <= d <= 31);
}

} // verus!
