//! Remote scripts and the resources they refer to, and small rules about
//! script directives.
use vstd::prelude::*;
use crate::directives::{kvs, KeyValue};
use crate::pom::str_views;
use crate::text::{
    chars_of, contains_char, ends_with, find_any, find_seq, has_prefix, has_suffix, occurs_at,
    rfind_char, slice_chars, split_first, split_first_char, split_on, starts_with, str_eq,
    string_of,
};

verus! {

// ─── Positions in text ───────────────────────────────────────────────────────

/// The position of the first character of `set` in `s`, or its length.
pub open spec fn index_of_any(s: Seq<char>, set: Seq<char>) -> int
    decreases s.len(),
{
    if s.len() == 0 {
        0
    } else if set.contains(s[0]) {
        0
    } else {
        1 + index_of_any(s.drop_first(), set)
    }
}

/// `index_of_any` is the first position of a character of `set`.
pub proof fn lemma_index_of_any(s: Seq<char>, set: Seq<char>)
    ensures
        0 <= index_of_any(s, set) <= s.len(),
        index_of_any(s, set) < s.len() ==> set.contains(s[index_of_any(s, set)]),
        forall|j: int| 0 <= j < index_of_any(s, set) ==> !set.contains(#[trigger] s[j]),
    decreases s.len(),
{
    if s.len() > 0 && !set.contains(s[0]) {
        lemma_index_of_any(s.drop_first(), set);
        assert forall|j: int| 0 <= j < index_of_any(s, set) implies !set.contains(#[trigger] s[j]) by {
            if j > 0 {
                assert(s[j] == s.drop_first()[j - 1]);
            }
        }
    }
}

pub(crate) fn first_of_any(s: &[char], set: &[char]) -> (r: usize)
    ensures
        r == index_of_any(s@, set@),
{
    proof {
        lemma_index_of_any(s@, set@);
    }
    let ghost k = index_of_any(s@, set@);
    match find_any(s, set) {
        Some(i) => {
            assert(i <= k) by {
                if k < i {
                    assert(set@.contains(s@[k]));
                }
            }
            assert(k <= i) by {
                if i < k {
                    assert(!set@.contains(s@[i as int]));
                }
            }
            i
        },
        None => {
            assert(k == s.len()) by {
                if k < s.len() {
                    assert(set@.contains(s@[k]));
                }
            }
            s.len()
        },
    }
}

/// The first position at which `p` occurs in `s`.
pub open spec fn index_of_seq(s: Seq<char>, p: Seq<char>) -> Option<int>
    decreases s.len(),
{
    if p.len() > s.len() {
        None
    } else if s.subrange(0, p.len() as int) == p {
        Some(0)
    } else if s.len() == 0 {
        None
    } else {
        match index_of_seq(s.drop_first(), p) {
            Some(i) => Some(i + 1),
            None => None,
        }
    }
}

/// `index_of_seq` is the first occurrence.
pub proof fn lemma_index_of_seq(s: Seq<char>, p: Seq<char>)
    ensures
        match index_of_seq(s, p) {
            Some(i) => occurs_at(s, p, i) && forall|j: int| 0 <= j < i ==> !occurs_at(s, p, j),
            None => forall|j: int| !occurs_at(s, p, j),
        },
    decreases s.len(),
{
    if p.len() > s.len() {
    } else if s.subrange(0, p.len() as int) == p {
    } else if s.len() == 0 {
        assert(p.len() == 0);
        assert(s.subrange(0, 0) =~= p);
    } else {
        let t = s.drop_first();
        lemma_index_of_seq(t, p);
        assert forall|j: int| 0 <= j + 1 <= t.len() - p.len() + 1 && j >= 0 implies (occurs_at(s, p, j + 1)
            <==> occurs_at(t, p, j)) by {
            if j + p.len() <= t.len() {
                assert(s.subrange(j + 1, j + 1 + p.len()) =~= t.subrange(j, j + p.len()));
            }
        }
        match index_of_seq(t, p) {
            Some(i) => {
                assert(s.subrange(i + 1, i + 1 + p.len()) =~= t.subrange(i, i + p.len()));
                assert forall|j: int| 0 <= j < i + 1 implies !occurs_at(s, p, j) by {
                    if j > 0 {
                        assert(!occurs_at(t, p, j - 1));
                        if j + p.len() <= s.len() {
                            assert(s.subrange(j, j + p.len()) =~= t.subrange(j - 1, j - 1 + p.len()));
                        }
                    }
                }
            },
            None => {
                assert forall|j: int| !occurs_at(s, p, j) by {
                    if j > 0 && j + p.len() <= s.len() {
                        assert(!occurs_at(t, p, j - 1));
                        assert(s.subrange(j, j + p.len()) =~= t.subrange(j - 1, j - 1 + p.len()));
                    }
                }
            },
        }
    }
}

pub(crate) fn first_occurrence(s: &[char], p: &[char]) -> (r: Option<usize>)
    ensures
        match r {
            Some(i) => index_of_seq(s@, p@) == Some(i as int),
            None => index_of_seq(s@, p@) is None,
        },
{
    proof {
        lemma_index_of_seq(s@, p@);
    }
    let r = find_seq(s, p);
    proof {
        match (r, index_of_seq(s@, p@)) {
            (Some(i), Some(k)) => {
                if (i as int) < k {
                    assert(!occurs_at(s@, p@, i as int));
                }
                if k < i {
                    assert(!occurs_at(s@, p@, k));
                }
            },
            (Some(i), None) => {
                assert(!occurs_at(s@, p@, i as int));
            },
            (None, Some(k)) => {
                assert(occurs_at(s@, p@, k));
            },
            (None, None) => {},
        }
    }
    r
}

/// The last position of `c` in `s`.
pub open spec fn last_index_of(s: Seq<char>, c: char) -> Option<int>
    decreases s.len(),
{
    if s.len() == 0 {
        None
    } else if s.last() == c {
        Some(s.len() - 1)
    } else {
        last_index_of(s.drop_last(), c)
    }
}

/// `last_index_of` is the last occurrence.
pub proof fn lemma_last_index_of(s: Seq<char>, c: char)
    ensures
        match last_index_of(s, c) {
            Some(i) => 0 <= i < s.len() && s[i] == c && forall|j: int| i < j < s.len() ==> s[j] != c,
            None => forall|j: int| 0 <= j < s.len() ==> s[j] != c,
        },
    decreases s.len(),
{
    if s.len() > 0 && s.last() != c {
        lemma_last_index_of(s.drop_last(), c);
        assert forall|j: int| 0 <= j < s.len() - 1 implies s.drop_last()[j] == s[j] by {}
    }
}

pub(crate) fn last_occurrence(s: &[char], c: char) -> (r: Option<usize>)
    ensures
        match r {
            Some(i) => last_index_of(s@, c) == Some(i as int),
            None => last_index_of(s@, c) is None,
        },
{
    proof {
        lemma_last_index_of(s@, c);
    }
    let r = rfind_char(s, c);
    proof {
        match (r, last_index_of(s@, c)) {
            (Some(i), Some(k)) => {
                if (i as int) < k {
                    assert(s@[k] == c);
                }
                if k < i {
                    assert(s@[i as int] == c);
                }
            },
            (Some(i), None) => {
                assert(s@[i as int] == c);
            },
            (None, Some(k)) => {
                assert(s@[k] == c);
            },
            (None, None) => {},
        }
    }
    r
}

// ─── Remote URLs ─────────────────────────────────────────────────────────────

/// Errors about remote scripts and their resources.
#[derive(Debug)]
pub enum RemoteError {
    /// A script to trust must be an `http://` or `https://` URL.
    NotRemote(String),
    /// A URL without `://`.
    InvalidRemoteUrl(String),
    /// A resource of a remote script must be a relative URL path.
    NotRelative(String),
    /// A resource path has an empty, `.` or `..` segment.
    BadSegment(String),
}

/// `text` is an `http://` or `https://` URL.
pub open spec fn remote_url(text: Seq<char>) -> bool {
    has_prefix(text, "http://"@) || has_prefix(text, "https://"@)
}

/// Whether `text` names a remote script.
pub fn is_remote_url(text: &str) -> (r: bool)
    ensures
        r == remote_url(text@),
{
    let c = chars_of(text);
    let http = chars_of("http://");
    let https = chars_of("https://");
    starts_with(c.as_slice(), http.as_slice()) || starts_with(c.as_slice(), https.as_slice())
}

/// Refuses what is not an `http://` or `https://` URL.
pub fn ensure_remote_url(url: &str) -> (r: Result<(), RemoteError>)
    ensures
        remote_url(url@) ==> r is Ok,
        !remote_url(url@) ==> (r matches Err(RemoteError::NotRemote(u)) && u@ == url@),
{
    if is_remote_url(url) {
        Ok(())
    } else {
        Err(RemoteError::NotRemote(url.to_owned()))
    }
}

/// The URL of a script with its query and fragment cut off.
pub open spec fn without_query(url: Seq<char>) -> Seq<char> {
    url.take(index_of_any(url, seq!['?', '#']))
}

/// Where a resource of the script at `remote` is found: a reference that
/// starts with `/` is taken from the URL's origin, any other relative to the
/// script's directory (the origin when the URL has no path). `None` when the
/// URL has no `://`.
pub open spec fn remote_resource_url(remote: Seq<char>, resource_ref: Seq<char>) -> Option<Seq<char>> {
    let nq = without_query(remote);
    match index_of_seq(nq, seq![':', '/', '/']) {
        None => None,
        Some(se) => {
            let after = se + 3;
            let host_end = after + index_of_any(nq.skip(after), seq!['/']);
            let origin = nq.take(host_end);
            if has_prefix(resource_ref, seq!['/']) {
                Some(origin + resource_ref)
            } else {
                let base = match last_index_of(nq, '/') {
                    Some(i) => if i >= host_end {
                        nq.take(i + 1)
                    } else {
                        origin.push('/')
                    },
                    None => origin.push('/'),
                };
                Some(base + resource_ref)
            }
        },
    }
}

/// Resolves a resource reference against the URL of the script that
/// declares it.
pub fn resolve_remote_resource_url(remote_url: &str, resource_ref: &str) -> (r: Result<
    String,
    RemoteError,
>)
    ensures
        match remote_resource_url(remote_url@, resource_ref@) {
            Some(u) => r matches Ok(s) && s@ == u,
            None => r matches Err(RemoteError::InvalidRemoteUrl(e)) && e@ == remote_url@,
        },
{
    let c = chars_of(remote_url);
    let stops = vec!['?', '#'];
    assert(stops@ =~= seq!['?', '#']);
    let q = first_of_any(c.as_slice(), stops.as_slice());
    proof {
        lemma_index_of_any(c@, stops@);
    }
    let nq = slice_chars(c.as_slice(), 0, q);
    assert(nq@ =~= without_query(remote_url@));
    let sep = vec![':', '/', '/'];
    assert(sep@ =~= seq![':', '/', '/']);
    let se = match first_occurrence(nq.as_slice(), sep.as_slice()) {
        Some(i) => i,
        None => {
            return Err(RemoteError::InvalidRemoteUrl(remote_url.to_owned()));
        },
    };
    proof {
        lemma_index_of_seq(nq@, sep@);
    }
    let after = se + 3;
    let rest = slice_chars(nq.as_slice(), after, nq.len());
    let slash = vec!['/'];
    assert(slash@ =~= seq!['/']);
    let h = first_of_any(rest.as_slice(), slash.as_slice());
    proof {
        lemma_index_of_any(rest@, slash@);
        assert(rest@ =~= nq@.skip(after as int));
    }
    let host_end = after + h;
    let origin = slice_chars(nq.as_slice(), 0, host_end);
    let rc = chars_of(resource_ref);
    let mut out: Vec<char>;
    if starts_with(rc.as_slice(), slash.as_slice()) {
        out = origin;
    } else {
        match last_occurrence(nq.as_slice(), '/') {
            Some(i) => {
                if i >= host_end {
                    proof {
                        lemma_last_index_of(nq@, '/');
                    }
                    out = slice_chars(nq.as_slice(), 0, i + 1);
                } else {
                    out = origin;
                    out.push('/');
                }
            },
            None => {
                out = origin;
                out.push('/');
            },
        }
    }
    crate::text::append_chars(&mut out, rc.as_slice());
    Ok(string_of(out.as_slice()))
}

/// The segments of a resource path that a remote script may not use.
pub open spec fn bad_segment(part: Seq<char>) -> bool {
    part == ".."@ || part == "."@ || part.len() == 0
}

/// What checking a resource reference of a remote script gives, where `abs`
/// says whether the platform takes it for an absolute path: a reference that
/// is absolute, starts with `/` or holds `\\` is not relative; else one with an
/// empty, `.` or `..` segment has a bad segment; else it is accepted.
pub open spec fn relative_ref_checked(r: Result<(), RemoteError>, s: Seq<char>, abs: bool) -> bool {
    let segs = split_on(s, seq!['/']);
    if abs || has_prefix(s, seq!['/']) || s.contains('\\') {
        r matches Err(RemoteError::NotRelative(e)) && e@ == s
    } else if exists|i: int| 0 <= i < segs.len() && bad_segment(#[trigger] segs[i]) {
        r matches Err(RemoteError::BadSegment(e)) && e@ == s
    } else {
        r is Ok
    }
}

/// Checks a resource reference of a remote script, given whether the
/// platform takes it for an absolute path.
pub fn check_remote_relative_ref(resource_ref: &str, is_absolute: bool) -> (r: Result<(), RemoteError>)
    ensures
        relative_ref_checked(r, resource_ref@, is_absolute),
{
    let c = chars_of(resource_ref);
    let slash = vec!['/'];
    assert(slash@ =~= seq!['/']);
    if is_absolute || starts_with(c.as_slice(), slash.as_slice()) || contains_char(c.as_slice(), '\\') {
        return Err(RemoteError::NotRelative(resource_ref.to_owned()));
    }
    let parts = crate::text::split_chars(c.as_slice(), slash.as_slice());
    let mut i: usize = 0;
    while i < parts.len()
        invariant
            crate::text::views(parts@) == split_on(resource_ref@, seq!['/']),
            !is_absolute,
            !has_prefix(resource_ref@, seq!['/']),
            !resource_ref@.contains('\\'),
            i <= parts.len(),
            forall|k: int| 0 <= k < i ==> !bad_segment(#[trigger] split_on(resource_ref@, seq!['/'])[k]),
        decreases parts.len() - i,
    {
        let part = string_of(parts[i].as_slice());
        assert(part@ == split_on(resource_ref@, seq!['/'])[i as int]);
        if str_eq(part.as_str(), "..") || str_eq(part.as_str(), ".") || parts[i].len() == 0 {
            assert(bad_segment(split_on(resource_ref@, seq!['/'])[i as int]));
            return Err(RemoteError::BadSegment(resource_ref.to_owned()));
        }
        i += 1;
    }
    Ok(())
}

/// Checks that a resource of a remote script is a relative URL path
/// without empty, `.` or `..` segments, as `check_remote_relative_ref` does
/// for the platform's reading of absolute paths (which no platform claims
/// of a reference without a leading `/`, a backslash or a `:`).
pub fn validate_remote_relative_ref(resource_ref: &str) -> (r: Result<(), RemoteError>)
    ensures
        exists|abs: bool|
            (crate::catalog::surely_relative(resource_ref@) ==> !abs) && #[trigger] relative_ref_checked(
                r,
                resource_ref@,
                abs,
            ),
        (has_prefix(resource_ref@, seq!['/']) || resource_ref@.contains('\\')) ==> (r matches Err(
            RemoteError::NotRelative(e),
        ) && e@ == resource_ref@),
        r is Ok ==> !has_prefix(resource_ref@, seq!['/']) && !resource_ref@.contains('\\')
            && forall|i: int|
            0 <= i < split_on(resource_ref@, seq!['/']).len() ==> !bad_segment(
                #[trigger] split_on(resource_ref@, seq!['/'])[i],
            ),
{
    let abs = path_is_absolute(resource_ref);
    let r = check_remote_relative_ref(resource_ref, abs);
    assert(relative_ref_checked(r, resource_ref@, abs));
    r
}

/// `Path::is_absolute`: whether the platform takes `s` for an absolute
/// path. What that means differs between platforms; what holds on all of
/// them is stated: without a leading `/`, a backslash or a `:` (which a Windows
/// prefix needs) a path has neither root nor prefix, so it is not absolute.
#[verifier::external_body]
pub(crate) fn path_is_absolute(s: &str) -> (r: bool)
    ensures
        !has_prefix(s@, seq!['/']) && !s@.contains('\\') && !s@.contains(':') ==> !r,
{
    std::path::Path::new(s).is_absolute()
}

/// The file name under which a remote script is kept: the last segment of
/// its URL path (before any query), `RemoteScript.java` when that is empty,
/// with `.java` added unless it ends so.
pub open spec fn remote_file_name_of(url: Seq<char>) -> Seq<char> {
    let path = url.take(index_of_any(url, seq!['?']));
    let name = match last_index_of(path, '/') {
        Some(i) => path.skip(i + 1),
        None => path,
    };
    let n = if name.len() == 0 {
        "RemoteScript.java"@
    } else {
        name
    };
    if has_suffix(n, ".java"@) {
        n
    } else {
        n + ".java"@
    }
}

/// The file name under which a remote script is kept.
pub fn remote_file_name(url: &str) -> (r: String)
    ensures
        r@ == remote_file_name_of(url@),
{
    let c = chars_of(url);
    let q = vec!['?'];
    assert(q@ =~= seq!['?']);
    let end = first_of_any(c.as_slice(), q.as_slice());
    proof {
        lemma_index_of_any(c@, q@);
    }
    let path = slice_chars(c.as_slice(), 0, end);
    let name = match last_occurrence(path.as_slice(), '/') {
        Some(i) => {
            proof {
                lemma_last_index_of(path@, '/');
            }
            slice_chars(path.as_slice(), i + 1, path.len())
        },
        None => path,
    };
    let mut n = if name.len() == 0 {
        "RemoteScript.java".to_owned()
    } else {
        string_of(name.as_slice())
    };
    let nc = chars_of(n.as_str());
    let java = chars_of(".java");
    if !ends_with(nc.as_slice(), java.as_slice()) {
        n.append(".java");
    }
    n
}

// ─── Directive rules ─────────────────────────────────────────────────────────

/// A `//DEPS` entry that names a Maven artifact rather than a source file:
/// it has a `:` and does not end in `.java`.
pub open spec fn binary_dependency(dep: Seq<char>) -> bool {
    dep.contains(':') && !has_suffix(dep, ".java"@)
}

/// Whether a `//DEPS` entry names a Maven artifact.
pub fn looks_like_binary_dependency(dep: &str) -> (r: bool)
    ensures
        r == binary_dependency(dep@),
{
    let c = chars_of(dep);
    let java = chars_of(".java");
    contains_char(c.as_slice(), ':') && !ends_with(c.as_slice(), java.as_slice())
}

/// A compiler option that sets the source level or source path.
pub open spec fn source_or_release_option(o: Seq<char>) -> bool {
    o == "--release"@ || o == "-release"@ || o == "--source"@ || o == "-source"@ || o
        == "-sourcepath"@ || o == "--source-path"@ || has_prefix(o, "--release="@) || has_prefix(
        o,
        "--source="@,
    ) || has_prefix(o, "-source"@)
}

/// Whether the compiler options already set the source level.
pub fn has_source_or_release_option(options: &[String]) -> (r: bool)
    ensures
        r == exists|i: int| 0 <= i < options.len() && source_or_release_option(#[trigger] options@[i]@),
{
    let release_eq = chars_of("--release=");
    let source_eq = chars_of("--source=");
    let source = chars_of("-source");
    let mut i: usize = 0;
    while i < options.len()
        invariant
            i <= options.len(),
            release_eq@ == "--release="@,
            source_eq@ == "--source="@,
            source@ == "-source"@,
            forall|k: int| 0 <= k < i ==> !source_or_release_option(#[trigger] options@[k]@),
        decreases options.len() - i,
    {
        let o = options[i].as_str();
        let oc = chars_of(o);
        if str_eq(o, "--release") || str_eq(o, "-release") || str_eq(o, "--source") || str_eq(
            o,
            "-source",
        ) || str_eq(o, "-sourcepath") || str_eq(o, "--source-path") || starts_with(
            oc.as_slice(),
            release_eq.as_slice(),
        ) || starts_with(oc.as_slice(), source_eq.as_slice()) || starts_with(
            oc.as_slice(),
            source.as_slice(),
        ) {
            assert(source_or_release_option(options@[i as int]@));
            return true;
        }
        i += 1;
    }
    false
}

/// The JVM option for a `//JAVAAGENT` entry.
pub open spec fn java_agent_option(agent: (Seq<char>, Option<Seq<char>>)) -> Seq<char> {
    match agent.1 {
        Some(v) => "-javaagent:"@ + agent.0 + "="@ + v,
        None => "-javaagent:"@ + agent.0,
    }
}

/// The JVM option for a Java agent: `-javaagent:path[=options]`.
pub fn format_java_agent(agent: &KeyValue) -> (r: String)
    ensures
        r@ == java_agent_option(agent@),
{
    let mut out = "-javaagent:".to_owned();
    out.append(agent.key.as_str());
    match &agent.value {
        Some(v) => {
            out.append("=");
            out.append(v.as_str());
        },
        None => {},
    }
    out
}

/// The values of `s` in order, each kept at its first occurrence only.
pub open spec fn first_occurrences<T>(s: Seq<T>) -> Seq<T>
    decreases s.len(),
{
    if s.len() == 0 {
        Seq::empty()
    } else {
        let d = first_occurrences(s.drop_last());
        if s.drop_last().contains(s.last()) {
            d
        } else {
            d.push(s.last())
        }
    }
}

/// Keeps the first occurrence of each string.
pub fn dedupe_strings(values: &mut Vec<String>)
    ensures
        str_views(final(values)@) == first_occurrences(str_views(old(values)@)),
{
    let ghost src = str_views(values@);
    let mut out: Vec<String> = Vec::new();
    let mut i: usize = 0;
    while i < values.len()
        invariant
            src == str_views(values@),
            i <= values.len(),
            str_views(out@) == first_occurrences(src.take(i as int)),
            forall|x: Seq<char>| str_views(out@).contains(x) <==> src.take(i as int).contains(x),
        decreases values.len() - i,
    {
        proof {
            assert(src.take(i + 1).drop_last() =~= src.take(i as int));
            assert(src.take(i + 1).last() == values@[i as int]@);
        }
        let mut seen = false;
        let mut k: usize = 0;
        while k < out.len()
            invariant
                k <= out.len(),
                i < values.len(),
                !seen ==> forall|j: int| 0 <= j < k ==> out@[j]@ != values@[i as int]@,
                seen ==> str_views(out@).contains(values@[i as int]@),
            decreases out.len() - k,
        {
            if str_eq(out[k].as_str(), values[i].as_str()) {
                seen = true;
                assert(str_views(out@)[k as int] == values@[i as int]@);
            }
            k += 1;
        }
        let ghost before = str_views(out@);
        if !seen {
            out.push(values[i].clone());
            assert(str_views(out@) =~= before.push(values@[i as int]@));
            assert(!before.contains(values@[i as int]@)) by {
                if before.contains(values@[i as int]@) {
                    let j = choose|j: int| 0 <= j < before.len() && #[trigger] before[j] == values@[i as int]@;
                    assert(out@[j]@ == before[j]);
                }
            }
        }
        proof {
            assert forall|x: Seq<char>| str_views(out@).contains(x) <==> src.take(i + 1).contains(x) by {
                if src.take(i + 1).contains(x) {
                    let j = choose|j: int| 0 <= j < i + 1 && #[trigger] src.take(i + 1)[j] == x;
                    if j < i {
                        assert(src.take(i as int)[j] == x);
                        assert(before.contains(x));
                        let j2 = choose|j2: int| 0 <= j2 < before.len() && #[trigger] before[j2] == x;
                        assert(str_views(out@)[j2] == x);
                    } else if !seen {
                        assert(str_views(out@)[before.len() as int] == x);
                    }
                }
                if str_views(out@).contains(x) {
                    let j = choose|j: int| 0 <= j < str_views(out@).len() && #[trigger] str_views(out@)[j] == x;
                    if j < before.len() {
                        assert(before[j] == x);
                        assert(before.contains(x));
                        assert(src.take(i as int).contains(x));
                        let j3 = choose|j3: int| 0 <= j3 < i && #[trigger] src.take(i as int)[j3] == x;
                        assert(src.take(i + 1)[j3] == x);
                    } else {
                        assert(src.take(i + 1)[i as int] == x);
                    }
                }
            }
        }
        i += 1;
    }
    assert(src.take(values.len() as int) =~= src);
    *values = out;
}

/// Keeps the first occurrence of each key and value.
pub fn dedupe_key_values(values: &mut Vec<KeyValue>)
    ensures
        kvs(final(values)@) == first_occurrences(kvs(old(values)@)),
{
    let ghost src = kvs(values@);
    let mut out: Vec<KeyValue> = Vec::new();
    let mut i: usize = 0;
    while i < values.len()
        invariant
            src == kvs(values@),
            i <= values.len(),
            kvs(out@) == first_occurrences(src.take(i as int)),
            forall|x: (Seq<char>, Option<Seq<char>>)| kvs(out@).contains(x) <==> src.take(i as int).contains(x),
        decreases values.len() - i,
    {
        proof {
            assert(src.take(i + 1).drop_last() =~= src.take(i as int));
            assert(src.take(i + 1).last() == values@[i as int]@);
        }
        let mut seen = false;
        let mut k: usize = 0;
        while k < out.len()
            invariant
                k <= out.len(),
                i < values.len(),
                !seen ==> forall|j: int| 0 <= j < k ==> out@[j]@ != values@[i as int]@,
                seen ==> kvs(out@).contains(values@[i as int]@),
            decreases out.len() - k,
        {
            if str_eq(out[k].key.as_str(), values[i].key.as_str()) && same_opt(&out[k].value, &values[i].value) {
                seen = true;
                assert(kvs(out@)[k as int] == values@[i as int]@);
            }
            k += 1;
        }
        let ghost before = kvs(out@);
        if !seen {
            out.push(KeyValue { key: values[i].key.clone(), value: crate::resolver::copy_opt(&values[i].value) });
            assert(kvs(out@) =~= before.push(values@[i as int]@));
            assert(!before.contains(values@[i as int]@)) by {
                if before.contains(values@[i as int]@) {
                    let j = choose|j: int| 0 <= j < before.len() && #[trigger] before[j] == values@[i as int]@;
                    assert(out@[j]@ == before[j]);
                }
            }
        }
        proof {
            assert forall|x: (Seq<char>, Option<Seq<char>>)| kvs(out@).contains(x) <==> src.take(i + 1).contains(x) by {
                if src.take(i + 1).contains(x) {
                    let j = choose|j: int| 0 <= j < i + 1 && #[trigger] src.take(i + 1)[j] == x;
                    if j < i {
                        assert(src.take(i as int)[j] == x);
                        assert(before.contains(x));
                        let j2 = choose|j2: int| 0 <= j2 < before.len() && #[trigger] before[j2] == x;
                        assert(kvs(out@)[j2] == x);
                    } else if !seen {
                        assert(kvs(out@)[before.len() as int] == x);
                    }
                }
                if kvs(out@).contains(x) {
                    let j = choose|j: int| 0 <= j < kvs(out@).len() && #[trigger] kvs(out@)[j] == x;
                    if j < before.len() {
                        assert(before[j] == x);
                        assert(before.contains(x));
                        assert(src.take(i as int).contains(x));
                        let j3 = choose|j3: int| 0 <= j3 < i && #[trigger] src.take(i as int)[j3] == x;
                        assert(src.take(i + 1)[j3] == x);
                    } else {
                        assert(src.take(i + 1)[i as int] == x);
                    }
                }
            }
        }
        i += 1;
    }
    assert(src.take(values.len() as int) =~= src);
    *values = out;
}

fn same_opt(a: &Option<String>, b: &Option<String>) -> (r: bool)
    ensures
        r == (crate::directives::ostr(*a) == crate::directives::ostr(*b)),
{
    match (a, b) {
        (Some(x), Some(y)) => str_eq(x.as_str(), y.as_str()),
        (None, None) => true,
        _ => false,
    }
}

/// A `//FILES` entry: `target=source`, or a source alone.
pub open spec fn file_ref_parts(file_ref: Seq<char>) -> (Option<Seq<char>>, Seq<char>) {
    match split_first(file_ref, '=') {
        Some((t, s)) => (Some(t), s),
        None => (None, file_ref),
    }
}

/// Splits a `//FILES` entry into its target (if any) and source.
pub fn split_file_ref(file_ref: &str) -> (r: (Option<String>, String))
    ensures
        (crate::directives::ostr(r.0), r.1@) == file_ref_parts(file_ref@),
{
    let c = chars_of(file_ref);
    match split_first_char(c.as_slice(), '=') {
        Some((t, s)) => (Some(string_of(t.as_slice())), string_of(s.as_slice())),
        None => (None, file_ref.to_owned()),
    }
}

} // verus!
