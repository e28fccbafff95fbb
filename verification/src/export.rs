//! Exporting a script as a JAR: the manifest and how paths are written in it.
use vstd::prelude::*;
use crate::directives::KeyValue;
use crate::text::push_char;

verus! {

/// How a JAR export carries its classpath.
#[derive(Debug, Clone, Copy, PartialEq, Eq, Structural)]
pub enum ExportKind {
    /// The manifest refers to the dependencies where they are cached.
    Local,
    /// The dependencies are copied next to the JAR, into `lib/`.
    Portable,
}

/// What `export` is asked to create.
#[derive(Debug)]
pub struct ExportOptions {
    pub script: std::path::PathBuf,
    pub output: Option<std::path::PathBuf>,
    pub force: bool,
    pub kind: ExportKind,
    pub extra_deps: Vec<String>,
    pub extra_repos: Vec<String>,
    pub extra_sources: Vec<String>,
    pub extra_files: Vec<String>,
    pub classpath: Vec<std::path::PathBuf>,
    pub javac_options: Vec<String>,
    pub runtime_options: Vec<String>,
    pub java_agents: Vec<KeyValue>,
    pub java_version: Option<String>,
    pub main_class: Option<String>,
    pub cache_dir: Option<std::path::PathBuf>,
    pub trust_remote: bool,
}

/// What a native export is asked to create.
#[derive(Debug)]
pub struct NativeExportOptions {
    pub script: std::path::PathBuf,
    pub output: Option<std::path::PathBuf>,
    pub force: bool,
    pub native_image: Option<std::path::PathBuf>,
    pub extra_native_options: Vec<String>,
    pub extra_deps: Vec<String>,
    pub extra_repos: Vec<String>,
    pub extra_sources: Vec<String>,
    pub extra_files: Vec<String>,
    pub classpath: Vec<std::path::PathBuf>,
    pub javac_options: Vec<String>,
    pub runtime_options: Vec<String>,
    pub java_agents: Vec<KeyValue>,
    pub java_version: Option<String>,
    pub main_class: Option<String>,
    pub cache_dir: Option<std::path::PathBuf>,
    pub trust_remote: bool,
}

// ─── Percent-encoding ────────────────────────────────────────────────────────

/// A byte that a manifest URL keeps as it is in a path segment.
pub open spec fn unreserved(b: u8) -> bool {
    (65 <= b <= 90) || (97 <= b <= 122) || (48 <= b <= 57) || b == 45 || b == 46 || b == 95 || b
        == 126
}

/// The upper-case hexadecimal digit for `d < 16`.
pub open spec fn hex_digit(d: u8) -> char {
    if d < 10 {
        ((48 + d) as u8) as char
    } else {
        ((55 + d) as u8) as char
    }
}

/// `%XX` for a byte.
pub open spec fn pct(b: u8) -> Seq<char> {
    seq!['%', hex_digit(b / 16), hex_digit(b % 16)]
}

/// The bytes percent-encoded, keeping those that `keep` allows.
pub open spec fn pct_encode(bytes: Seq<u8>, path: bool) -> Seq<char>
    decreases bytes.len(),
{
    if bytes.len() == 0 {
        Seq::empty()
    } else {
        let b = bytes.last();
        pct_encode(bytes.drop_last(), path) + if unreserved(b) || (path && (b == 47 || b == 58)) {
            seq![b as char]
        } else {
            pct(b)
        }
    }
}

fn hex_char(d: u8) -> (c: char)
    requires
        d < 16,
    ensures
        c == hex_digit(d),
{
    if d < 10 {
        (48 + d) as char
    } else {
        (55 + d) as char
    }
}

fn percent_encode(text: &str, path: bool) -> (r: String)
    ensures
        r@ == pct_encode(vstd::utf8::encode_utf8(text@), path),
{
    let bytes = text.as_bytes();
    let ghost bv = bytes@;
    let mut out = String::new();
    let mut i: usize = 0;
    while i < bytes.len()
        invariant
            bv == bytes@,
            i <= bytes.len(),
            out@ == pct_encode(bv.take(i as int), path),
        decreases bytes.len() - i,
    {
        assert(bv.take(i + 1).drop_last() =~= bv.take(i as int));
        let b = bytes[i];
        if (65 <= b && b <= 90) || (97 <= b && b <= 122) || (48 <= b && b <= 57) || b == 45 || b == 46
            || b == 95 || b == 126 || (path && (b == 47 || b == 58)) {
            push_char(&mut out, b as char);
        } else {
            push_char(&mut out, '%');
            push_char(&mut out, hex_char(b / 16));
            push_char(&mut out, hex_char(b % 16));
        }
        assert(out@ =~= pct_encode(bv.take(i + 1), path));
        i += 1;
    }
    assert(bv.take(bytes.len() as int) =~= bv);
    out
}

/// Percent-encodes a path for a manifest `file:` URL: letters, digits,
/// `-._~/:` are kept, every other byte of its UTF-8 form becomes `%XX`.
pub fn percent_encode_manifest_path(text: &str) -> (r: String)
    ensures
        r@ == pct_encode(vstd::utf8::encode_utf8(text@), true),
{
    percent_encode(text, true)
}

/// Percent-encodes one path segment: as for a path, but `/` and `:` are
/// encoded too.
pub fn percent_encode_manifest_segment(text: &str) -> (r: String)
    ensures
        r@ == pct_encode(vstd::utf8::encode_utf8(text@), false),
{
    percent_encode(text, false)
}

// ─── Manifest lines ──────────────────────────────────────────────────────────

/// The number of bytes of `c` in UTF-8.
pub open spec fn utf8_len(c: char) -> nat {
    if (c as u32) < 0x80 {
        1
    } else if (c as u32) < 0x800 {
        2
    } else if (c as u32) < 0x10000 {
        3
    } else {
        4
    }
}

/// The number of bytes of `s` in UTF-8.
pub open spec fn utf8_bytes(s: Seq<char>) -> nat
    decreases s.len(),
{
    if s.len() == 0 {
        0
    } else {
        utf8_bytes(s.drop_last()) + utf8_len(s.last())
    }
}

/// Folding a manifest line: the finished output, the piece being filled,
/// and whether it is the first piece.
#[verifier::ext_equal]
pub struct FoldState {
    pub out: Seq<char>,
    pub current: Seq<char>,
    pub first: bool,
}

/// A finished piece: continuation pieces start with a space; each ends the
/// line.
pub open spec fn flush(out: Seq<char>, current: Seq<char>, first: bool) -> Seq<char> {
    if first {
        out + current + seq!['\n']
    } else {
        out + seq![' '] + current + seq!['\n']
    }
}

/// Folding one more character: a piece is finished before a character that
/// would take it past 72 bytes (71 for a continuation, which gains a space).
pub open spec fn fold_step(st: FoldState, ch: char) -> FoldState {
    let limit: int = if st.first {
        72
    } else {
        71
    };
    if st.current.len() > 0 && utf8_bytes(st.current) + utf8_len(ch) > limit {
        FoldState { out: flush(st.out, st.current, st.first), current: seq![ch], first: false }
    } else {
        FoldState { current: st.current.push(ch), ..st }
    }
}

/// The state after folding the characters of `s`.
pub open spec fn fold_chars(s: Seq<char>) -> FoldState
    decreases s.len(),
{
    if s.len() == 0 {
        FoldState { out: Seq::empty(), current: Seq::empty(), first: true }
    } else {
        fold_step(fold_chars(s.drop_last()), s.last())
    }
}

/// A manifest line folded into pieces of at most 72 bytes, continuation
/// pieces starting with a space.
pub open spec fn folded(line: Seq<char>) -> Seq<char> {
    let st = fold_chars(line);
    if st.current.len() > 0 {
        flush(st.out, st.current, st.first)
    } else {
        st.out
    }
}

/// Pieces written one per line.
pub open spec fn lines_joined(ps: Seq<Seq<char>>) -> Seq<char>
    decreases ps.len(),
{
    if ps.len() == 0 {
        Seq::empty()
    } else {
        lines_joined(ps.drop_last()) + ps.last() + seq!['\n']
    }
}

/// The text that folded pieces carry: the first piece, then each
/// continuation piece without its leading space.
pub open spec fn unfolded(ps: Seq<Seq<char>>) -> Seq<char>
    decreases ps.len(),
{
    if ps.len() == 0 {
        Seq::empty()
    } else if ps.len() == 1 {
        ps[0]
    } else {
        unfolded(ps.drop_last()) + ps.last().drop_first()
    }
}

/// Pieces of a folded line: each of at most 72 bytes, every continuation
/// piece starting with a space.
pub open spec fn fold_pieces_ok(ps: Seq<Seq<char>>) -> bool {
    &&& forall|k: int| 0 <= k < ps.len() ==> utf8_bytes(#[trigger] ps[k]) <= 72
    &&& forall|k: int| 1 <= k < ps.len() ==> (#[trigger] ps[k]).len() > 0 && ps[k][0] == ' '
}

/// What folding the characters of `s` has produced: its finished pieces
/// `ps` and the piece being filled.
spec fn fold_state_ok(s: Seq<char>, st: FoldState, ps: Seq<Seq<char>>) -> bool {
    &&& st.out == lines_joined(ps)
    &&& fold_pieces_ok(ps)
    &&& (st.first <==> ps.len() == 0)
    &&& (if ps.len() == 0 {
        st.current == s
    } else {
        unfolded(ps) + st.current == s
    })
    &&& utf8_bytes(st.current) <= (if st.first {
        72int
    } else {
        71int
    })
}

proof fn lemma_fold_state(s: Seq<char>) -> (ps: Seq<Seq<char>>)
    ensures
        fold_state_ok(s, fold_chars(s), ps),
    decreases s.len(),
{
    if s.len() == 0 {
        let ps = Seq::<Seq<char>>::empty();
        assert(fold_chars(s).current == s);
        ps
    } else {
        let ps0 = lemma_fold_state(s.drop_last());
        let st = fold_chars(s.drop_last());
        let ch = s.last();
        let limit: int = if st.first {
            72
        } else {
            71
        };
        assert(utf8_len(ch) <= 4);
        assert(s == s.drop_last().push(ch));
        if st.current.len() > 0 && utf8_bytes(st.current) + utf8_len(ch) > limit {
            let p = if st.first {
                st.current
            } else {
                seq![' '] + st.current
            };
            let ps = ps0.push(p);
            assert(ps.drop_last() =~= ps0);
            assert(utf8_bytes(p) <= 72) by {
                if !st.first {
                    lemma_utf8_bytes_prepend(' ', st.current);
                }
            }
            assert(flush(st.out, st.current, st.first) =~= lines_joined(ps));
            assert(utf8_bytes(seq![ch]) == utf8_len(ch)) by {
                assert(seq![ch].drop_last() =~= Seq::<char>::empty());
                assert(utf8_bytes(Seq::<char>::empty()) == 0);
                assert(seq![ch].last() == ch);
            }
            if ps0.len() == 0 {
                assert(unfolded(ps) == p);
            } else {
                assert(p.drop_first() =~= st.current);
            }
            assert(unfolded(ps) + seq![ch] =~= (if ps0.len() == 0 {
                st.current
            } else {
                unfolded(ps0) + st.current
            }).push(ch));
            assert forall|k: int| 1 <= k < ps.len() implies (#[trigger] ps[k]).len() > 0 && ps[k][0] == ' ' by {
                if k < ps0.len() {
                    assert(ps[k] == ps0[k]);
                }
            }
            assert forall|k: int| 0 <= k < ps.len() implies utf8_bytes(#[trigger] ps[k]) <= 72 by {
                if k < ps0.len() {
                    assert(ps[k] == ps0[k]);
                }
            }
            ps
        } else {
            lemma_utf8_bytes_push(st.current, ch);
            if ps0.len() == 0 {
                assert(st.current.push(ch) =~= s);
            } else {
                assert(unfolded(ps0) + st.current.push(ch) =~= s);
            }
            ps0
        }
    }
}

proof fn lemma_utf8_bytes_prepend(c: char, s: Seq<char>)
    ensures
        utf8_bytes(seq![c] + s) == utf8_len(c) + utf8_bytes(s),
    decreases s.len(),
{
    if s.len() == 0 {
        assert(seq![c] + s =~= seq![c]);
        assert(seq![c].drop_last() =~= Seq::<char>::empty());
        assert(utf8_bytes(Seq::<char>::empty()) == 0);
        assert(seq![c].last() == c);
        assert(utf8_bytes(s) == 0);
    } else {
        lemma_utf8_bytes_prepend(c, s.drop_last());
        assert((seq![c] + s).drop_last() =~= seq![c] + s.drop_last());
        assert((seq![c] + s).last() == s.last());
    }
}

/// Folding a manifest line splits it into lines of at most 72 bytes, each
/// continuation line starting with a space; dropping those spaces and the
/// line breaks gives the line back.
pub proof fn law_folded_lines_fit(line: Seq<char>)
    ensures
        exists|ps: Seq<Seq<char>>|
            #[trigger] lines_joined(ps) == folded(line) && fold_pieces_ok(ps) && unfolded(ps) == line,
{
    let ps = lemma_fold_state(line);
    let st = fold_chars(line);
    if st.current.len() > 0 {
        let p = if st.first {
            st.current
        } else {
            seq![' '] + st.current
        };
        let qs = ps.push(p);
        assert(qs.drop_last() =~= ps);
        assert(utf8_bytes(p) <= 72) by {
            if !st.first {
                lemma_utf8_bytes_prepend(' ', st.current);
            }
        }
        assert(flush(st.out, st.current, st.first) =~= lines_joined(qs));
        if ps.len() > 0 {
            assert(p.drop_first() =~= st.current);
        }
        assert forall|k: int| 1 <= k < qs.len() implies (#[trigger] qs[k]).len() > 0 && qs[k][0] == ' ' by {
            if k < ps.len() {
                assert(qs[k] == ps[k]);
            }
        }
        assert forall|k: int| 0 <= k < qs.len() implies utf8_bytes(#[trigger] qs[k]) <= 72 by {
            if k < ps.len() {
                assert(qs[k] == ps[k]);
            }
        }
        assert(lines_joined(qs) == folded(line));
    } else {
        if ps.len() == 0 {
            assert(line =~= Seq::<char>::empty());
        } else {
            assert(unfolded(ps) + st.current =~= unfolded(ps));
        }
        assert(lines_joined(ps) == folded(line));
    }
}

fn char_utf8_len(c: char) -> (r: usize)
    ensures
        r == utf8_len(c),
{
    let u = c as u32;
    if u < 0x80 {
        1
    } else if u < 0x800 {
        2
    } else if u < 0x10000 {
        3
    } else {
        4
    }
}

proof fn lemma_utf8_bytes_push(s: Seq<char>, c: char)
    ensures
        utf8_bytes(s.push(c)) == utf8_bytes(s) + utf8_len(c),
{
    assert(s.push(c).drop_last() =~= s);
}

/// Folds a manifest line into pieces of at most 72 bytes.
pub fn fold_manifest_line(line: &str) -> (r: String)
    ensures
        r@ == folded(line@),
{
    let c = crate::text::chars_of(line);
    let mut out = String::new();
    let mut current = String::new();
    let mut cur_len: usize = 0;
    let mut first = true;
    let mut i: usize = 0;
    while i < c.len()
        invariant
            c@ == line@,
            i <= c.len(),
            fold_chars(line@.take(i as int)) == (FoldState { out: out@, current: current@, first }),
            cur_len == utf8_bytes(current@),
            cur_len <= 76,
        decreases c.len() - i,
    {
        assert(line@.take(i + 1).drop_last() =~= line@.take(i as int));
        let ch = c[i];
        let ghost st0 = FoldState { out: out@, current: current@, first };
        let n = char_utf8_len(ch);
        let limit: usize = if first {
            72
        } else {
            71
        };
        if cur_len > 0 && cur_len + n > limit {
            if !first {
                push_char(&mut out, ' ');
            }
            out.append(current.as_str());
            push_char(&mut out, '\n');
            current = String::new();
            cur_len = 0;
            first = false;
        }
        proof {
            if current@.len() == 0 {
                assert(utf8_bytes(current@) == 0);
            }
            if cur_len == 0 && current@.len() > 0 {
                assert(utf8_bytes(current@) > 0) by {
                    assert(current@.drop_last().push(current@.last()) =~= current@);
                }
            }
            lemma_utf8_bytes_push(current@, ch);
        }
        push_char(&mut current, ch);
        cur_len = cur_len + n;
        proof {
            assert(seq![ch] =~= Seq::<char>::empty().push(ch));
        }
        assert((FoldState { out: out@, current: current@, first }) =~= fold_step(st0, ch));
        i += 1;
    }
    assert(line@.take(c.len() as int) =~= line@);
    if !current.as_str().is_empty() {
        if !first {
            push_char(&mut out, ' ');
        }
        out.append(current.as_str());
        push_char(&mut out, '\n');
    }
    out
}

/// The manifest of an exported JAR: its version, main class and, when
/// given, class path, each line folded, then an empty line.
pub open spec fn manifest_text(main_class: Seq<char>, classpath: Seq<char>) -> Seq<char> {
    folded("Manifest-Version: 1.0"@) + folded("Main-Class: "@ + main_class) + if classpath.len() > 0 {
        folded("Class-Path: "@ + classpath)
    } else {
        Seq::empty()
    } + seq!['\n']
}

/// Writes the manifest of an exported JAR.
pub fn render_manifest(main_class: &str, classpath: &str) -> (r: String)
    ensures
        r@ == manifest_text(main_class@, classpath@),
{
    let mut m = fold_manifest_line("Manifest-Version: 1.0");
    let mut line = "Main-Class: ".to_owned();
    line.append(main_class);
    let f = fold_manifest_line(line.as_str());
    m.append(f.as_str());
    if !classpath.is_empty() {
        let mut cp = "Class-Path: ".to_owned();
        cp.append(classpath);
        let g = fold_manifest_line(cp.as_str());
        m.append(g.as_str());
    }
    push_char(&mut m, '\n');
    assert(m@ =~= manifest_text(main_class@, classpath@));
    m
}

} // verus!
