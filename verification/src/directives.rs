//! Script directives: `//DEPS`, `//JAVA`, `//SOURCES` and the other comment
//! lines that configure how a Java script is built and run.
use vstd::prelude::*;
use crate::text::{
    lemma_split_on_len, split_chars, split_on, chars_of, has_prefix, is_whitespace, is_ws, leading_ws, slice_chars, split_first,
    split_first_char, starts_with, string_of, trim, trim_chars, trim_start, trim_start_chars,
    views,
};

verus! {

// ─── Word splitting ─────────────────────────────────────────────────────────

/// The state of the word splitter: finished words, the current word, and the
/// quote character that is open, if any.
pub type WordState = (Seq<Seq<char>>, Seq<char>, Option<char>);

/// One step of the word splitter. Inside quotes every character but the
/// closing quote belongs to the word; outside, `'` and `"` open a quote, white
/// space (and `,` and `;` when `commas` holds) ends a non-empty word, and any
/// other character belongs to the word.
pub open spec fn word_step(st: WordState, ch: char, commas: bool) -> WordState {
    match st.2 {
        Some(q) => if ch == q {
            (st.0, st.1, None)
        } else {
            (st.0, st.1.push(ch), st.2)
        },
        None => if ch == '\'' || ch == '"' {
            (st.0, st.1, Some(ch))
        } else if is_ws(ch) || (commas && (ch == ',' || ch == ';')) {
            if st.1.len() > 0 {
                (st.0.push(st.1), Seq::<char>::empty(), None)
            } else {
                st
            }
        } else {
            (st.0, st.1.push(ch), None)
        },
    }
}

/// The splitter's state after reading `s`.
pub open spec fn word_state(s: Seq<char>, commas: bool) -> WordState
    decreases s.len(),
{
    if s.len() == 0 {
        (Seq::<Seq<char>>::empty(), Seq::<char>::empty(), None)
    } else {
        word_step(word_state(s.drop_last(), commas), s.last(), commas)
    }
}

/// The words of `s`: the finished words, then the last word if it is not empty.
pub open spec fn split_words_spec(s: Seq<char>, commas: bool) -> Seq<Seq<char>> {
    let st = word_state(s, commas);
    if st.1.len() > 0 {
        st.0.push(st.1)
    } else {
        st.0
    }
}

/// The views of a sequence of strings.
pub open spec fn strs(v: Seq<String>) -> Seq<Seq<char>> {
    v.map_values(|x: String| x@)
}

/// Converts character vectors to strings.
pub fn to_strings(v: &Vec<Vec<char>>) -> (r: Vec<String>)
    ensures
        strs(r@) == views(v@),
{
    let mut r: Vec<String> = Vec::new();
    let mut i: usize = 0;
    while i < v.len()
        invariant
            i <= v.len(),
            strs(r@) == views(v@).take(i as int),
        decreases v.len() - i,
    {
        let ghost before = strs(r@);
        r.push(string_of(v[i].as_slice()));
        assert(strs(r@) =~= before.push(v@[i as int]@));
        assert(views(v@).take(i + 1) =~= views(v@).take(i as int).push(v@[i as int]@));
        i += 1;
    }
    assert(views(v@).take(v.len() as int) =~= views(v@));
    r
}

fn split_words(text: &str, commas: bool) -> (r: Vec<String>)
    ensures
        strs(r@) == split_words_spec(text@, commas),
{
    let s = chars_of(text);
    let mut out: Vec<Vec<char>> = Vec::new();
    let mut cur: Vec<char> = Vec::new();
    let mut quote: Option<char> = None;
    let mut i: usize = 0;
    assert(s@.take(0) =~= Seq::<char>::empty());
    assert(views(out@) =~= Seq::<Seq<char>>::empty());
    while i < s.len()
        invariant
            i <= s.len(),
            s@ == text@,
            word_state(s@.take(i as int), commas) == (views(out@), cur@, quote),
        decreases s.len() - i,
    {
        let ch = s[i];
        proof {
            assert(s@.take(i + 1).drop_last() =~= s@.take(i as int));
            assert(s@.take(i + 1).last() == ch);
        }
        let ghost before = views(out@);
        match quote {
            Some(q) => {
                if ch == q {
                    quote = None;
                } else {
                    cur.push(ch);
                }
            },
            None => {
                if ch == '\'' || ch == '"' {
                    quote = Some(ch);
                } else if is_whitespace(ch) || (commas && (ch == ',' || ch == ';')) {
                    if cur.len() > 0 {
                        let ghost word = cur@;
                        let mut fresh: Vec<char> = Vec::new();
                        std::mem::swap(&mut cur, &mut fresh);
                        out.push(fresh);
                        assert(views(out@) =~= before.push(word));
                    }
                } else {
                    cur.push(ch);
                }
            },
        }
        proof {
            assert(views(out@) =~= word_state(s@.take(i + 1), commas).0);
        }
        i += 1;
    }
    assert(s@.take(s.len() as int) =~= s@);
    if cur.len() > 0 {
        let ghost before = views(out@);
        let ghost word = cur@;
        out.push(cur);
        assert(views(out@) =~= before.push(word));
    }
    to_strings(&out)
}

/// Splits a dependency-style directive value into words: separators are white
/// space, `,` and `;`; single or double quotes group a word.
pub fn split_directive_words(text: &str) -> (r: Vec<String>)
    ensures
        strs(r@) == split_words_spec(text@, true),
{
    split_words(text, true)
}

/// Splits an option-style directive value into words: separators are white
/// space only; single or double quotes group a word.
pub fn split_space_words(text: &str) -> (r: Vec<String>)
    ensures
        strs(r@) == split_words_spec(text@, false),
{
    split_words(text, false)
}

// ─── Key/value pairs ────────────────────────────────────────────────────────

/// A `key` or `key=value` entry, such as a Java agent or a manifest attribute.
#[derive(Debug, Clone, Default, PartialEq, Eq)]
pub struct KeyValue {
    pub key: String,
    pub value: Option<String>,
}

/// The view of an optional string.
pub open spec fn ostr(o: Option<String>) -> Option<Seq<char>> {
    match o {
        Some(s) => Some(s@),
        None => None,
    }
}

impl View for KeyValue {
    type V = (Seq<char>, Option<Seq<char>>);

    open spec fn view(&self) -> (Seq<char>, Option<Seq<char>>) {
        (self.key@, ostr(self.value))
    }
}

/// The entry that a text denotes: split at its first `=`, or a key alone.
pub open spec fn key_value_of(text: Seq<char>) -> (Seq<char>, Option<Seq<char>>) {
    match split_first(text, '=') {
        Some((k, v)) => (k, Some(v)),
        None => (text, None),
    }
}

impl KeyValue {
    /// Parses `key=value` (split at the first `=`) or a bare `key`.
    pub fn parse(text: &str) -> (r: Self)
        ensures
            r@ == key_value_of(text@),
    {
        let c = chars_of(text);
        match split_first_char(c.as_slice(), '=') {
            Some((k, v)) => KeyValue {
                key: string_of(k.as_slice()),
                value: Some(string_of(v.as_slice())),
            },
            None => KeyValue { key: string_of(c.as_slice()), value: None },
        }
    }
}

/// The views of a sequence of entries.
pub open spec fn kvs(v: Seq<KeyValue>) -> Seq<(Seq<char>, Option<Seq<char>>)> {
    v.map_values(|x: KeyValue| x@)
}

/// Parses every word as an entry.
pub fn parse_key_values(words: &Vec<String>) -> (r: Vec<KeyValue>)
    ensures
        r.len() == words.len(),
        forall|i: int| 0 <= i < r.len() ==> (#[trigger] r@[i])@ == key_value_of(words@[i]@),
{
    let mut r: Vec<KeyValue> = Vec::new();
    let mut i: usize = 0;
    while i < words.len()
        invariant
            i <= words.len(),
            r.len() == i,
            forall|j: int| 0 <= j < i ==> (#[trigger] r@[j])@ == key_value_of(words@[j]@),
        decreases words.len() - i,
    {
        r.push(KeyValue::parse(words[i].as_str()));
        i += 1;
    }
    r
}


// ─── Lines ──────────────────────────────────────────────────────────────────

/// `l` without one trailing carriage return.
pub open spec fn strip_cr(l: Seq<char>) -> Seq<char> {
    if l.len() > 0 && l.last() == '\r' {
        l.drop_last()
    } else {
        l
    }
}

/// The lines of `s` (`str::lines`): the pieces between `\n`, without a final
/// empty piece after a trailing `\n`; a `\r` right before a `\n` is dropped.
pub open spec fn lines_spec(s: Seq<char>) -> Seq<Seq<char>> {
    let p = split_on(s, seq!['\n']);
    let n = p.len();
    if s.len() == 0 {
        Seq::<Seq<char>>::empty()
    } else if s.last() == '\n' {
        Seq::new((n - 1) as nat, |i: int| strip_cr(p[i]))
    } else {
        Seq::new(n, |i: int| if i < n - 1 { strip_cr(p[i]) } else { p[i] })
    }
}

fn strip_cr_chars(l: &Vec<char>) -> (r: Vec<char>)
    ensures
        r@ == strip_cr(l@),
{
    if l.len() > 0 && l[l.len() - 1] == '\r' {
        let r = slice_chars(l.as_slice(), 0, l.len() - 1);
        assert(r@ =~= l@.drop_last());
        r
    } else {
        slice_chars(l.as_slice(), 0, l.len())
    }
}

/// The lines of a text.
pub fn lines_of(s: &[char]) -> (r: Vec<Vec<char>>)
    ensures
        views(r@) == lines_spec(s@),
{
    let nl = vec!['\n'];
    assert(nl@ =~= seq!['\n']);
    let parts = split_chars(s, nl.as_slice());
    let ghost p = split_on(s@, seq!['\n']);
    proof {
        lemma_split_on_len(s@, seq!['\n']);
    }
    let mut out: Vec<Vec<char>> = Vec::new();
    if s.len() == 0 {
        assert(views(out@) =~= lines_spec(s@));
        return out;
    }
    let trailing = s[s.len() - 1] == '\n';
    let n = parts.len();
    let count = if trailing {
        n - 1
    } else {
        n
    };
    let mut i: usize = 0;
    while i < count
        invariant
            views(parts@) == p,
            p == split_on(s@, seq!['\n']),
            n == parts.len(),
            n >= 1,
            count == if trailing { n - 1 } else { n as int },
            trailing == (s@.last() == '\n'),
            s@.len() > 0,
            i <= count,
            out.len() == i,
            forall|j: int|
                0 <= j < i ==> (#[trigger] out@[j])@ == (if j < n - 1 {
                    strip_cr(p[j])
                } else {
                    p[j]
                }),
        decreases count - i,
    {
        assert(p[i as int] == parts@[i as int]@);
        let line = if i < n - 1 {
            strip_cr_chars(&parts[i])
        } else {
            slice_chars(parts[i].as_slice(), 0, parts[i].len())
        };
        out.push(line);
        i += 1;
    }
    assert(views(out@) =~= lines_spec(s@));
    out
}

// ─── The directive grammar ──────────────────────────────────────────────────

/// An upper-case ASCII letter.
pub open spec fn is_upper(c: char) -> bool {
    'A' <= c && c <= 'Z'
}

/// A character of a directive key: an upper-case letter or `_`.
pub open spec fn is_key_char(c: char) -> bool {
    is_upper(c) || c == '_'
}

/// The end of the run of upper-case letters of `t` that starts at `i`.
pub open spec fn upper_run(t: Seq<char>, i: int) -> int
    decreases t.len() - i,
{
    if 0 <= i < t.len() && is_upper(t[i]) {
        upper_run(t, i + 1)
    } else {
        i
    }
}

/// The end of the run of key characters of `t` that starts at `i`.
pub open spec fn key_run(t: Seq<char>, i: int) -> int
    decreases t.len() - i,
{
    if 0 <= i < t.len() && is_key_char(t[i]) {
        key_run(t, i + 1)
    } else {
        i
    }
}

/// The end of the run of white space of `t` that starts at `i`.
pub open spec fn ws_run(t: Seq<char>, i: int) -> int
    decreases t.len() - i,
{
    if 0 <= i < t.len() && is_ws(t[i]) {
        ws_run(t, i + 1)
    } else {
        i
    }
}

/// Where the key of a directive ends: `PREFIX:KEY` (upper-case letters, a
/// colon, then key characters) when that shape is there, else the run of key
/// characters at the start.
pub open spec fn key_end(t: Seq<char>) -> int {
    let u = upper_run(t, 0);
    if u > 0 && u < t.len() && t[u] == ':' && key_run(t, u + 1) > u + 1 {
        key_run(t, u + 1)
    } else {
        key_run(t, 0)
    }
}

/// A trailing comment starts at `p`: white space, `//`, white space.
pub open spec fn comment_at(t: Seq<char>, p: int) -> bool {
    0 <= p && p + 3 < t.len() && is_ws(t[p]) && t[p + 1] == '/' && t[p + 2] == '/' && is_ws(
        t[p + 3],
    )
}

/// The end of a directive value that starts at `p`: the first trailing
/// comment, or the end of the line.
pub open spec fn value_end(t: Seq<char>, p: int) -> int
    decreases t.len() - p,
{
    if p < 0 || p >= t.len() {
        t.len() as int
    } else if comment_at(t, p) {
        p
    } else {
        value_end(t, p + 1)
    }
}

/// The key and the (untrimmed) value of a directive text, such as
/// `DEPS a:b:1 // comment`: a key followed by the end of the text, or by white
/// space and a value that runs to the first trailing ` // ` comment.
pub open spec fn directive_match(t: Seq<char>) -> Option<(Seq<char>, Seq<char>)> {
    let k = key_end(t);
    if k == 0 || (k < t.len() && !is_ws(t[k])) {
        None
    } else if k == t.len() {
        Some((t, Seq::<char>::empty()))
    } else {
        let v0 = ws_run(t, k);
        Some((t.take(k), t.subrange(v0, value_end(t, v0))))
    }
}

/// The directive on a source line, if it holds one: after leading white
/// space, `//`, then optional white space and a directive (not a third `/`
/// pair); the value is trimmed.
pub open spec fn line_directive(raw: Seq<char>) -> Option<(Seq<char>, Seq<char>)> {
    let line = trim_start(raw);
    if !has_prefix(line, "//"@) {
        None
    } else {
        let stripped = trim_start(line.skip(2));
        if has_prefix(stripped, "//"@) {
            None
        } else {
            match directive_match(stripped) {
                None => None,
                Some((k, v)) => Some((k, trim(v))),
            }
        }
    }
}

fn run_end(t: &[char], i: usize, keys: bool) -> (r: usize)
    requires
        i <= t.len(),
    ensures
        r as int == if keys {
            key_run(t@, i as int)
        } else {
            upper_run(t@, i as int)
        },
        i <= r <= t.len(),
{
    let mut j = i;
    while j < t.len() && (('A' <= t[j] && t[j] <= 'Z') || (keys && t[j] == '_'))
        invariant
            i <= j <= t.len(),
            (if keys {
                key_run(t@, i as int)
            } else {
                upper_run(t@, i as int)
            }) == (if keys {
                key_run(t@, j as int)
            } else {
                upper_run(t@, j as int)
            }),
        decreases t.len() - j,
    {
        j += 1;
    }
    j
}

fn ws_end(t: &[char], i: usize) -> (r: usize)
    requires
        i <= t.len(),
    ensures
        r as int == ws_run(t@, i as int),
        i <= r <= t.len(),
{
    let mut j = i;
    while j < t.len() && is_whitespace(t[j])
        invariant
            i <= j <= t.len(),
            ws_run(t@, i as int) == ws_run(t@, j as int),
        decreases t.len() - j,
    {
        j += 1;
    }
    j
}

fn find_value_end(t: &[char], p: usize) -> (r: usize)
    requires
        p <= t.len(),
    ensures
        r as int == value_end(t@, p as int),
        p <= r <= t.len(),
{
    let mut j = p;
    while j < t.len()
        invariant
            p <= j <= t.len(),
            value_end(t@, p as int) == value_end(t@, j as int),
        decreases t.len() - j,
    {
        if t.len() - j > 3 && is_whitespace(t[j]) && t[j + 1] == '/' && t[j + 2] == '/'
            && is_whitespace(t[j + 3]) {
            return j;
        }
        j += 1;
    }
    j
}

/// Matches a directive text against the directive grammar.
pub fn match_directive(t: &[char]) -> (r: Option<(Vec<char>, Vec<char>)>)
    ensures
        match directive_match(t@) {
            None => r is None,
            Some((k, v)) => r matches Some((rk, rv)) && rk@ == k && rv@ == v,
        },
{
    let u = run_end(t, 0, false);
    let k = if u > 0 && u < t.len() && t[u] == ':' {
        let k2 = run_end(t, u + 1, true);
        if k2 > u + 1 {
            k2
        } else {
            run_end(t, 0, true)
        }
    } else {
        run_end(t, 0, true)
    };
    if k == 0 || (k < t.len() && !is_whitespace(t[k])) {
        return None;
    }
    if k == t.len() {
        return Some((slice_chars(t, 0, t.len()), Vec::new()));
    }
    let v0 = ws_end(t, k);
    let ve = find_value_end(t, v0);
    Some((slice_chars(t, 0, k), slice_chars(t, v0, ve)))
}

/// Finds the directive on a source line, if any.
pub fn directive_on_line(raw: &[char]) -> (r: Option<(Vec<char>, Vec<char>)>)
    ensures
        match line_directive(raw@) {
            None => r is None,
            Some((k, v)) => r matches Some((rk, rv)) && rk@ == k && rv@ == v,
        },
{
    let line = trim_start_chars(raw);
    let slashes = chars_of("//");
    if !starts_with(line.as_slice(), slashes.as_slice()) {
        return None;
    }
    assert(slashes@.len() == 2) by {
        reveal_strlit("//");
    }
    let rest = slice_chars(line.as_slice(), 2, line.len());
    assert(rest@ =~= line@.skip(2));
    let stripped = trim_start_chars(rest.as_slice());
    if starts_with(stripped.as_slice(), slashes.as_slice()) {
        return None;
    }
    match match_directive(stripped.as_slice()) {
        None => None,
        Some((k, v)) => Some((k, trim_chars(v.as_slice()))),
    }
}


// ─── Directives ─────────────────────────────────────────────────────────────

/// The directives of a script.
#[derive(Debug, Clone, Default, PartialEq, Eq)]
pub struct Directives {
    pub deps: Vec<String>,
    pub runtime_deps: Vec<String>,
    pub repos: Vec<String>,
    pub sources: Vec<String>,
    pub files: Vec<String>,
    pub javac_options: Vec<String>,
    pub runtime_options: Vec<String>,
    pub native_options: Vec<String>,
    pub java_agents: Vec<KeyValue>,
    pub manifest_options: Vec<KeyValue>,
    pub docs: Vec<KeyValue>,
    pub java_version: Option<String>,
    pub main_class: Option<String>,
    pub module: Option<String>,
    pub gav: Option<String>,
    pub description: Option<String>,
    pub enable_preview: bool,
    pub enable_cds: bool,
    pub disable_integrations: bool,
}

/// What a set of directives says.
#[verifier::ext_equal]
pub struct DirectivesView {
    pub deps: Seq<Seq<char>>,
    pub runtime_deps: Seq<Seq<char>>,
    pub repos: Seq<Seq<char>>,
    pub sources: Seq<Seq<char>>,
    pub files: Seq<Seq<char>>,
    pub javac_options: Seq<Seq<char>>,
    pub runtime_options: Seq<Seq<char>>,
    pub native_options: Seq<Seq<char>>,
    pub java_agents: Seq<(Seq<char>, Option<Seq<char>>)>,
    pub manifest_options: Seq<(Seq<char>, Option<Seq<char>>)>,
    pub docs: Seq<(Seq<char>, Option<Seq<char>>)>,
    pub java_version: Option<Seq<char>>,
    pub main_class: Option<Seq<char>>,
    pub module: Option<Seq<char>>,
    pub gav: Option<Seq<char>>,
    pub description: Option<Seq<char>>,
    pub enable_preview: bool,
    pub enable_cds: bool,
    pub disable_integrations: bool,
}

impl View for Directives {
    type V = DirectivesView;

    open spec fn view(&self) -> DirectivesView {
        DirectivesView {
            deps: strs(self.deps@),
            runtime_deps: strs(self.runtime_deps@),
            repos: strs(self.repos@),
            sources: strs(self.sources@),
            files: strs(self.files@),
            javac_options: strs(self.javac_options@),
            runtime_options: strs(self.runtime_options@),
            native_options: strs(self.native_options@),
            java_agents: kvs(self.java_agents@),
            manifest_options: kvs(self.manifest_options@),
            docs: kvs(self.docs@),
            java_version: ostr(self.java_version),
            main_class: ostr(self.main_class),
            module: ostr(self.module),
            gav: ostr(self.gav),
            description: ostr(self.description),
            enable_preview: self.enable_preview,
            enable_cds: self.enable_cds,
            disable_integrations: self.disable_integrations,
        }
    }
}

/// No directives at all.
pub open spec fn empty_directives() -> DirectivesView {
    DirectivesView {
        deps: Seq::empty(),
        runtime_deps: Seq::empty(),
        repos: Seq::empty(),
        sources: Seq::empty(),
        files: Seq::empty(),
        javac_options: Seq::empty(),
        runtime_options: Seq::empty(),
        native_options: Seq::empty(),
        java_agents: Seq::empty(),
        manifest_options: Seq::empty(),
        docs: Seq::empty(),
        java_version: None,
        main_class: None,
        module: None,
        gav: None,
        description: None,
        enable_preview: false,
        enable_cds: false,
        disable_integrations: false,
    }
}

/// The entries of a space-separated value.
pub open spec fn entries_of(value: Seq<char>) -> Seq<(Seq<char>, Option<Seq<char>>)> {
    split_words_spec(value, false).map_values(|w: Seq<char>| key_value_of(w))
}

/// The directives after applying one directive `key value`. Dependency-like
/// lists split their value at white space, `,` and `;`; option lists split at
/// white space; `JAVA`, `MAIN`, `MODULE` and `GAV` take the last value;
/// `DESCRIPTION` lines are joined with newlines; unknown keys change nothing.
pub open spec fn apply_directive(
    d: DirectivesView,
    key: Seq<char>,
    value: Seq<char>,
) -> DirectivesView {
    if key == "DEPS"@ {
        DirectivesView { deps: d.deps + split_words_spec(value, true), ..d }
    } else if key == "RUNTIME"@ {
        DirectivesView { runtime_deps: d.runtime_deps + split_words_spec(value, true), ..d }
    } else if key == "REPOS"@ {
        DirectivesView { repos: d.repos + split_words_spec(value, true), ..d }
    } else if key == "SOURCES"@ {
        DirectivesView { sources: d.sources + split_words_spec(value, true), ..d }
    } else if key == "FILES"@ {
        DirectivesView { files: d.files + split_words_spec(value, true), ..d }
    } else if key == "JAVAC_OPTIONS"@ || key == "COMPILE_OPTIONS"@ {
        DirectivesView { javac_options: d.javac_options + split_words_spec(value, false), ..d }
    } else if key == "RUNTIME_OPTIONS"@ || key == "JAVA_OPTIONS"@ {
        DirectivesView {
            runtime_options: d.runtime_options + split_words_spec(value, false),
            ..d
        }
    } else if key == "NATIVE_OPTIONS"@ {
        DirectivesView { native_options: d.native_options + split_words_spec(value, false), ..d }
    } else if key == "JAVAAGENT"@ {
        DirectivesView { java_agents: d.java_agents + entries_of(value), ..d }
    } else if key == "MANIFEST"@ {
        DirectivesView { manifest_options: d.manifest_options + entries_of(value), ..d }
    } else if key == "DOCS"@ {
        DirectivesView { docs: d.docs.push(key_value_of(value)), ..d }
    } else if key == "JAVA"@ {
        DirectivesView { java_version: Some(value), ..d }
    } else if key == "MAIN"@ {
        DirectivesView { main_class: Some(value), ..d }
    } else if key == "MODULE"@ {
        DirectivesView { module: Some(value), ..d }
    } else if key == "GAV"@ {
        DirectivesView { gav: Some(value), ..d }
    } else if key == "DESCRIPTION"@ {
        DirectivesView {
            description: Some(
                match d.description {
                    Some(e) => e + "\n"@ + value,
                    None => value,
                },
            ),
            ..d
        }
    } else if key == "PREVIEW"@ {
        DirectivesView { enable_preview: true, ..d }
    } else if key == "CDS"@ {
        DirectivesView { enable_cds: true, ..d }
    } else if key == "NOINTEGRATIONS"@ {
        DirectivesView { disable_integrations: true, ..d }
    } else {
        d
    }
}

/// The directives declared by a sequence of lines, in order.
pub open spec fn directives_of_lines(lines: Seq<Seq<char>>) -> DirectivesView
    decreases lines.len(),
{
    if lines.len() == 0 {
        empty_directives()
    } else {
        let d = directives_of_lines(lines.drop_last());
        match line_directive(lines.last()) {
            None => d,
            Some((k, v)) => apply_directive(d, k, v),
        }
    }
}

/// `//JAVA_OPTIONS` is another name for `//RUNTIME_OPTIONS`: the value's
/// space-separated words are added to the runtime options, after those
/// already declared, and nothing else changes.
pub proof fn law_java_options_are_runtime_options(d: DirectivesView, value: Seq<char>)
    ensures
        apply_directive(d, "JAVA_OPTIONS"@, value) == apply_directive(d, "RUNTIME_OPTIONS"@, value),
        apply_directive(d, "JAVA_OPTIONS"@, value).runtime_options == d.runtime_options
            + split_words_spec(value, false),
        apply_directive(d, "JAVA_OPTIONS"@, value) == (DirectivesView {
            runtime_options: d.runtime_options + split_words_spec(value, false),
            ..d
        }),
{
    reveal_strlit("JAVA_OPTIONS");
    reveal_strlit("RUNTIME_OPTIONS");
    reveal_strlit("DEPS");
    reveal_strlit("RUNTIME");
    reveal_strlit("REPOS");
    reveal_strlit("SOURCES");
    reveal_strlit("FILES");
    reveal_strlit("JAVAC_OPTIONS");
    reveal_strlit("COMPILE_OPTIONS");
    let j = "JAVA_OPTIONS"@;
    let r = "RUNTIME_OPTIONS"@;
    assert(j.len() == 12 && r.len() == 15);
    assert("DEPS"@.len() == 4 && "RUNTIME"@.len() == 7 && "REPOS"@.len() == 5 && "SOURCES"@.len() == 7);
    assert("FILES"@.len() == 5 && "JAVAC_OPTIONS"@.len() == 13 && "COMPILE_OPTIONS"@.len() == 15);
    assert(r[0] != "COMPILE_OPTIONS"@[0]);
    let e = DirectivesView { runtime_options: d.runtime_options + split_words_spec(value, false), ..d };
    assert(apply_directive(d, j, value) == e);
    assert(apply_directive(d, r, value) == e);
}

/// A script line that reads as a `//JAVA_OPTIONS` directive adds the words
/// of its value to the runtime options that the lines before it declared.
pub proof fn law_java_options_line(lines: Seq<Seq<char>>, line: Seq<char>, value: Seq<char>)
    requires
        line_directive(line) == Some(("JAVA_OPTIONS"@, value)),
    ensures
        directives_of_lines(lines.push(line)).runtime_options == directives_of_lines(lines).runtime_options
            + split_words_spec(value, false),
{
    assert(lines.push(line).drop_last() =~= lines);
    law_java_options_are_runtime_options(directives_of_lines(lines), value);
}

/// The directives after reading `lines` on top of those in `d`.
pub open spec fn directives_after(d: DirectivesView, lines: Seq<Seq<char>>) -> DirectivesView
    decreases lines.len(),
{
    if lines.len() == 0 {
        d
    } else {
        let x = directives_after(d, lines.drop_last());
        match line_directive(lines.last()) {
            None => x,
            Some((k, v)) => apply_directive(x, k, v),
        }
    }
}

/// The list-valued directives that sources pass on agree.
pub open spec fn same_lists(a: DirectivesView, b: DirectivesView) -> bool {
    &&& a.deps == b.deps
    &&& a.repos == b.repos
    &&& a.javac_options == b.javac_options
    &&& a.runtime_options == b.runtime_options
    &&& a.native_options == b.native_options
    &&& a.java_agents == b.java_agents
    &&& a.files == b.files
    &&& a.sources == b.sources
}

/// `b`'s lists follow `a`'s in `c`.
pub open spec fn lists_appended(a: DirectivesView, b: DirectivesView, c: DirectivesView) -> bool {
    &&& c.deps == a.deps + b.deps
    &&& c.repos == a.repos + b.repos
    &&& c.javac_options == a.javac_options + b.javac_options
    &&& c.runtime_options == a.runtime_options + b.runtime_options
    &&& c.native_options == a.native_options + b.native_options
    &&& c.java_agents == a.java_agents + b.java_agents
    &&& c.files == a.files + b.files
    &&& c.sources == a.sources + b.sources
}

proof fn lemma_apply_appends(d: DirectivesView, k: Seq<char>, v: Seq<char>)
    ensures
        lists_appended(d, apply_directive(empty_directives(), k, v), apply_directive(d, k, v)),
{
    let e = empty_directives();
    assert(e.deps + split_words_spec(v, true) =~= split_words_spec(v, true));
    assert(e.repos + split_words_spec(v, true) =~= split_words_spec(v, true));
    assert(e.sources + split_words_spec(v, true) =~= split_words_spec(v, true));
    assert(e.files + split_words_spec(v, true) =~= split_words_spec(v, true));
    assert(e.javac_options + split_words_spec(v, false) =~= split_words_spec(v, false));
    assert(e.runtime_options + split_words_spec(v, false) =~= split_words_spec(v, false));
    assert(e.native_options + split_words_spec(v, false) =~= split_words_spec(v, false));
    assert(e.java_agents + entries_of(v) =~= entries_of(v));
    assert(d.deps + Seq::<Seq<char>>::empty() =~= d.deps);
    assert(d.repos + Seq::<Seq<char>>::empty() =~= d.repos);
    assert(d.sources + Seq::<Seq<char>>::empty() =~= d.sources);
    assert(d.files + Seq::<Seq<char>>::empty() =~= d.files);
    assert(d.javac_options + Seq::<Seq<char>>::empty() =~= d.javac_options);
    assert(d.runtime_options + Seq::<Seq<char>>::empty() =~= d.runtime_options);
    assert(d.native_options + Seq::<Seq<char>>::empty() =~= d.native_options);
    assert(d.java_agents + Seq::<(Seq<char>, Option<Seq<char>>)>::empty() =~= d.java_agents);
}

proof fn lemma_after_appends(d: DirectivesView, lines: Seq<Seq<char>>)
    ensures
        lists_appended(d, directives_after(empty_directives(), lines), directives_after(d, lines)),
    decreases lines.len(),
{
    let e = empty_directives();
    if lines.len() == 0 {
        assert(d.deps + e.deps =~= d.deps);
        assert(d.repos + e.repos =~= d.repos);
        assert(d.sources + e.sources =~= d.sources);
        assert(d.files + e.files =~= d.files);
        assert(d.javac_options + e.javac_options =~= d.javac_options);
        assert(d.runtime_options + e.runtime_options =~= d.runtime_options);
        assert(d.native_options + e.native_options =~= d.native_options);
        assert(d.java_agents + e.java_agents =~= d.java_agents);
    } else {
        lemma_after_appends(d, lines.drop_last());
        let x = directives_after(d, lines.drop_last());
        let y = directives_after(e, lines.drop_last());
        match line_directive(lines.last()) {
            None => {},
            Some((k, v)) => {
                lemma_apply_appends(x, k, v);
                lemma_apply_appends(y, k, v);
                let z = apply_directive(e, k, v);
                assert(d.deps + y.deps + z.deps =~= d.deps + (y.deps + z.deps));
                assert(d.repos + y.repos + z.repos =~= d.repos + (y.repos + z.repos));
                assert(d.sources + y.sources + z.sources =~= d.sources + (y.sources + z.sources));
                assert(d.files + y.files + z.files =~= d.files + (y.files + z.files));
                assert(d.javac_options + y.javac_options + z.javac_options =~= d.javac_options + (
                y.javac_options + z.javac_options));
                assert(d.runtime_options + y.runtime_options + z.runtime_options =~= d.runtime_options + (
                y.runtime_options + z.runtime_options));
                assert(d.native_options + y.native_options + z.native_options =~= d.native_options + (
                y.native_options + z.native_options));
                assert(d.java_agents + y.java_agents + z.java_agents =~= d.java_agents + (y.java_agents
                    + z.java_agents));
            },
        }
    }
}

proof fn lemma_after_concat(d: DirectivesView, la: Seq<Seq<char>>, lb: Seq<Seq<char>>)
    ensures
        directives_after(d, la + lb) == directives_after(directives_after(d, la), lb),
    decreases lb.len(),
{
    if lb.len() == 0 {
        assert(la + lb =~= la);
    } else {
        lemma_after_concat(d, la, lb.drop_last());
        assert((la + lb).drop_last() =~= la + lb.drop_last());
        assert((la + lb).last() == lb.last());
    }
}

proof fn lemma_lines_after(lines: Seq<Seq<char>>)
    ensures
        directives_of_lines(lines) == directives_after(empty_directives(), lines),
    decreases lines.len(),
{
    if lines.len() > 0 {
        lemma_lines_after(lines.drop_last());
    }
}

/// Reading two scripts one after the other gives the lists of the first
/// followed by those of the second: dependencies, repositories, compiler,
/// runtime and native options, agents, files and sources.
pub proof fn law_lists_of_concatenated_lines(la: Seq<Seq<char>>, lb: Seq<Seq<char>>)
    ensures
        lists_appended(directives_of_lines(la), directives_of_lines(lb), directives_of_lines(la + lb)),
{
    lemma_lines_after(la);
    lemma_lines_after(lb);
    lemma_lines_after(la + lb);
    lemma_after_concat(empty_directives(), la, lb);
    lemma_after_appends(directives_of_lines(la), lb);
}

/// The directives declared by a script source.
pub open spec fn directives_of(source: Seq<char>) -> DirectivesView {
    directives_of_lines(lines_spec(source))
}

fn extend_strings(dst: &mut Vec<String>, src: Vec<String>)
    ensures
        strs(final(dst)@) == strs(old(dst)@) + strs(src@),
{
    let mut src = src;
    let ghost a = dst@;
    let ghost b = src@;
    dst.append(&mut src);
    assert(strs(a + b) =~= strs(a) + strs(b));
}

fn extend_entries(dst: &mut Vec<KeyValue>, words: Vec<String>)
    ensures
        kvs(final(dst)@) == kvs(old(dst)@) + strs(words@).map_values(|w: Seq<char>| key_value_of(w)),
{
    let mut parsed = parse_key_values(&words);
    let ghost a = dst@;
    let ghost b = parsed@;
    dst.append(&mut parsed);
    assert(kvs(a + b) =~= kvs(a) + strs(words@).map_values(|w: Seq<char>| key_value_of(w)));
}

fn is_key(key: &[char], lit: &str) -> (r: bool)
    ensures
        r == (key@ == lit@),
{
    let l = chars_of(lit);
    crate::text::chars_eq(key, l.as_slice())
}

fn apply_key(d: &mut Directives, key: &[char], value: &[char])
    ensures
        final(d)@ == apply_directive(old(d)@, key@, value@),
{
    let v = string_of(value);
    if is_key(key, "DEPS") {
        extend_strings(&mut d.deps, split_directive_words(v.as_str()));
    } else if is_key(key, "RUNTIME") {
        extend_strings(&mut d.runtime_deps, split_directive_words(v.as_str()));
    } else if is_key(key, "REPOS") {
        extend_strings(&mut d.repos, split_directive_words(v.as_str()));
    } else if is_key(key, "SOURCES") {
        extend_strings(&mut d.sources, split_directive_words(v.as_str()));
    } else if is_key(key, "FILES") {
        extend_strings(&mut d.files, split_directive_words(v.as_str()));
    } else if is_key(key, "JAVAC_OPTIONS") || is_key(key, "COMPILE_OPTIONS") {
        extend_strings(&mut d.javac_options, split_space_words(v.as_str()));
    } else if is_key(key, "RUNTIME_OPTIONS") || is_key(key, "JAVA_OPTIONS") {
        extend_strings(&mut d.runtime_options, split_space_words(v.as_str()));
    } else if is_key(key, "NATIVE_OPTIONS") {
        extend_strings(&mut d.native_options, split_space_words(v.as_str()));
    } else if is_key(key, "JAVAAGENT") {
        extend_entries(&mut d.java_agents, split_space_words(v.as_str()));
    } else if is_key(key, "MANIFEST") {
        extend_entries(&mut d.manifest_options, split_space_words(v.as_str()));
    } else if is_key(key, "DOCS") {
        let ghost before = kvs(d.docs@);
        d.docs.push(KeyValue::parse(v.as_str()));
        assert(kvs(d.docs@) =~= before.push(key_value_of(value@)));
    } else if is_key(key, "JAVA") {
        d.java_version = Some(v);
    } else if is_key(key, "MAIN") {
        d.main_class = Some(v);
    } else if is_key(key, "MODULE") {
        d.module = Some(v);
    } else if is_key(key, "GAV") {
        d.gav = Some(v);
    } else if is_key(key, "DESCRIPTION") {
        let joined = match &d.description {
            Some(existing) => {
                let mut c = chars_of(existing.as_str());
                c.push('\n');
                crate::text::append_chars(&mut c, value);
                assert(c@ =~= existing@ + "\n"@ + value@) by {
                    reveal_strlit("\n");
                }
                string_of(c.as_slice())
            },
            None => v,
        };
        d.description = Some(joined);
    } else if is_key(key, "PREVIEW") {
        d.enable_preview = true;
    } else if is_key(key, "CDS") {
        d.enable_cds = true;
    } else if is_key(key, "NOINTEGRATIONS") {
        d.disable_integrations = true;
    }
}

/// No directives at all.
pub fn new_directives() -> (r: Directives)
    ensures
        r@ == empty_directives(),
{
    let r = Directives {
        deps: Vec::new(),
        runtime_deps: Vec::new(),
        repos: Vec::new(),
        sources: Vec::new(),
        files: Vec::new(),
        javac_options: Vec::new(),
        runtime_options: Vec::new(),
        native_options: Vec::new(),
        java_agents: Vec::new(),
        manifest_options: Vec::new(),
        docs: Vec::new(),
        java_version: None,
        main_class: None,
        module: None,
        gav: None,
        description: None,
        enable_preview: false,
        enable_cds: false,
        disable_integrations: false,
    };
    assert(r@ =~= empty_directives());
    r
}

/// Parses the directives of a script source.
pub fn parse_directives(source: &str) -> (r: Directives)
    ensures
        r@ == directives_of(source@),
{
    let text = chars_of(source);
    let lines = lines_of(text.as_slice());
    let ghost ls = lines_spec(source@);
    let mut d = new_directives();
    let mut i: usize = 0;
    assert(ls.take(0) =~= Seq::<Seq<char>>::empty());
    while i < lines.len()
        invariant
            views(lines@) == ls,
            i <= lines.len(),
            d@ == directives_of_lines(ls.take(i as int)),
        decreases lines.len() - i,
    {
        proof {
            assert(ls.take(i + 1).drop_last() =~= ls.take(i as int));
            assert(ls.take(i + 1).last() == lines@[i as int]@);
        }
        match directive_on_line(lines[i].as_slice()) {
            None => {},
            Some((k, v)) => apply_key(&mut d, k.as_slice(), v.as_slice()),
        }
        i += 1;
    }
    assert(ls.take(lines.len() as int) =~= ls);
    d
}

} // verus!
