//! `jbx fmt`: which sources are compact (a top-level `void main`), how a
//! compact source is wrapped in a class for the formatter and unwrapped
//! again, and the formatter's command line and downloads.
use vstd::prelude::*;
use crate::directives::{lines_of, lines_spec, strs};
use crate::docs::{join_strings, join_with};
use crate::text::{
    chars_of, contains, contains_seq, has_prefix, push_char, slice_chars, starts_with, str_eq,
    string_of, trim, trim_chars, trim_end, trim_start, trim_start_chars, views,
};

verus! {

// ─── Compact sources ─────────────────────────────────────────────────────────

/// The starts of a line that declares a type.
pub open spec fn type_declaration_prefixes() -> Seq<Seq<char>> {
    seq![
        "class "@,
        "abstract class "@,
        "sealed class "@,
        "non-sealed class "@,
        "final class "@,
        "public class "@,
        "public abstract class "@,
        "public sealed class "@,
        "public non-sealed class "@,
        "public final class "@,
        "record "@,
        "public record "@,
        "interface "@,
        "public interface "@,
        "enum "@,
        "public enum "@,
        "@interface "@,
        "public @interface "@,
    ]
}

/// A line (without leading white space) that declares a type.
pub open spec fn type_declaration_start(t: Seq<char>) -> bool {
    exists|i: int| 0 <= i < type_declaration_prefixes().len() && has_prefix(t, #[trigger] type_declaration_prefixes()[i])
}

fn prefix_list() -> (r: Vec<&'static str>)
    ensures
        r@.map_values(|s: &str| s@) == type_declaration_prefixes(),
{
    let r = vec![
        "class ",
        "abstract class ",
        "sealed class ",
        "non-sealed class ",
        "final class ",
        "public class ",
        "public abstract class ",
        "public sealed class ",
        "public non-sealed class ",
        "public final class ",
        "record ",
        "public record ",
        "interface ",
        "public interface ",
        "enum ",
        "public enum ",
        "@interface ",
        "public @interface ",
    ];
    assert(r@.map_values(|s: &str| s@) =~= type_declaration_prefixes());
    r
}

/// Whether a line (without leading white space) declares a type.
pub fn starts_with_java_type_declaration(trimmed: &str) -> (r: bool)
    ensures
        r == type_declaration_start(trimmed@),
{
    let prefixes = prefix_list();
    let ghost pv = prefixes@.map_values(|s: &str| s@);
    let t = chars_of(trimmed);
    let mut i: usize = 0;
    while i < prefixes.len()
        invariant
            pv == prefixes@.map_values(|s: &str| s@),
            pv == type_declaration_prefixes(),
            t@ == trimmed@,
            i <= prefixes.len(),
            forall|k: int| 0 <= k < i ==> !has_prefix(trimmed@, #[trigger] pv[k]),
        decreases prefixes.len() - i,
    {
        let p = chars_of(prefixes[i]);
        assert(p@ == pv[i as int]);
        if starts_with(t.as_slice(), p.as_slice()) {
            return true;
        }
        i += 1;
    }
    false
}

/// The brace depth after a line: `{` opens, `}` closes (not below zero);
/// the count stops at `usize::MAX`.
pub open spec fn brace_depth(depth: int, line: Seq<char>) -> int
    decreases line.len(),
{
    if line.len() == 0 {
        depth
    } else {
        let d = brace_depth(depth, line.drop_last());
        if line.last() == '{' {
            if d < usize::MAX {
                d + 1
            } else {
                d
            }
        } else if line.last() == '}' {
            if d > 0 {
                d - 1
            } else {
                0
            }
        } else {
            d
        }
    }
}

proof fn lemma_brace_depth_range(depth: int, line: Seq<char>)
    requires
        0 <= depth <= usize::MAX,
    ensures
        0 <= brace_depth(depth, line) <= usize::MAX,
    decreases line.len(),
{
    if line.len() > 0 {
        lemma_brace_depth_range(depth, line.drop_last());
    }
}

/// The brace depth after a line.
pub fn update_brace_depth(depth: usize, line: &str) -> (r: usize)
    ensures
        r == brace_depth(depth as int, line@),
{
    let c = chars_of(line);
    let mut d = depth;
    let mut i: usize = 0;
    while i < c.len()
        invariant
            c@ == line@,
            i <= c.len(),
            d == brace_depth(depth as int, line@.take(i as int)),
        decreases c.len() - i,
    {
        assert(line@.take(i + 1).drop_last() =~= line@.take(i as int));
        if c[i] == '{' {
            d = d.saturating_add(1);
        } else if c[i] == '}' {
            d = d.saturating_sub(1);
        }
        i += 1;
    }
    assert(line@.take(c.len() as int) =~= line@);
    d
}

/// Whether a line at brace depth `depth`, or one after it, starts a
/// compact source's `void main(` at the top level.
pub open spec fn compact_from(lines: Seq<Seq<char>>, depth: int) -> bool
    decreases lines.len(),
{
    if lines.len() == 0 {
        false
    } else {
        let t = trim_start(lines[0]);
        if depth == 0 && !type_declaration_start(t) && has_prefix(t, "void main("@) {
            true
        } else {
            compact_from(lines.drop_first(), brace_depth(depth, lines[0]))
        }
    }
}

/// A compact source: some line at the top level (outside braces) starts
/// with `void main(` and declares no type.
pub open spec fn compact_source(source: Seq<char>) -> bool {
    compact_from(lines_spec(source), 0)
}

/// Whether a source is compact.
pub fn is_compact_source(source: &str) -> (r: bool)
    ensures
        r == compact_source(source@),
{
    let c = chars_of(source);
    let lines = lines_of(c.as_slice());
    let ghost ls = lines_spec(source@);
    let main_start = chars_of("void main(");
    let mut depth: usize = 0;
    let mut i: usize = 0;
    assert(ls.skip(0) =~= ls);
    while i < lines.len()
        invariant
            ls == lines_spec(source@),
            views(lines@) == ls,
            main_start@ == "void main("@,
            i <= lines.len(),
            compact_from(ls, 0) == compact_from(ls.skip(i as int), depth as int),
        decreases lines.len() - i,
    {
        let ghost rest = ls.skip(i as int);
        assert(rest[0] == lines@[i as int]@);
        assert(rest.drop_first() =~= ls.skip(i + 1));
        let t = trim_start_chars(lines[i].as_slice());
        let ts = string_of(t.as_slice());
        if depth == 0 && !starts_with_java_type_declaration(ts.as_str()) && starts_with(
            t.as_slice(),
            main_start.as_slice(),
        ) {
            assert(t@ == trim_start(rest[0]));
            assert(compact_from(rest, depth as int));
            return true;
        }
        let line = string_of(lines[i].as_slice());
        depth = update_brace_depth(depth, line.as_str());
        i += 1;
    }
    false
}

/// A quick guess that a text is a compact source: no ` class `,
/// ` public class `, ` record `, ` interface ` or ` enum `, and a
/// `void main(`.
pub open spec fn compact_looking(source: Seq<char>) -> bool {
    !(contains_seq(source, " class "@) || contains_seq(source, " public class "@) || contains_seq(
        source,
        " record "@,
    ) || contains_seq(source, " interface "@) || contains_seq(source, " enum "@)) && contains_seq(
        source,
        "void main("@,
    )
}

fn has_text(c: &Vec<char>, p: &str) -> (r: bool)
    ensures
        r == contains_seq(c@, p@),
{
    let pc = chars_of(p);
    contains(c.as_slice(), pc.as_slice())
}

/// Whether a text looks like a compact source.
pub fn looks_like_compact_source(source: &str) -> (r: bool)
    ensures
        r == compact_looking(source@),
{
    let c = chars_of(source);
    let declares = has_text(&c, " class ") || has_text(&c, " public class ") || has_text(&c, " record ")
        || has_text(&c, " interface ") || has_text(&c, " enum ");
    !declares && has_text(&c, "void main(")
}

// ─── Wrapping for the formatter ──────────────────────────────────────────────

/// Splitting a compact source: the leading lines that are blank, comments,
/// a shebang or imports (with the lines of a block comment that opens
/// there), then the rest.
pub type SplitState = (Seq<char>, Seq<char>, bool, bool);

/// One line of splitting (prefix, body, still in the prefix, in a block
/// comment).
pub open spec fn split_step(st: SplitState, line: Seq<char>) -> SplitState {
    let (prefix, body, in_prefix, in_block) = st;
    let t = trim_start(line);
    if in_prefix && (in_block || t.len() == 0 || has_prefix(t, "//"@) || has_prefix(t, "#!"@)
        || has_prefix(t, "import "@) || has_prefix(t, "/*"@)) {
        (
            prefix + line + "\n"@,
            body,
            true,
            if in_block || has_prefix(t, "/*"@) {
                !contains_seq(t, "*/"@)
            } else {
                in_block
            },
        )
    } else {
        (prefix, body + line + "\n"@, false, in_block)
    }
}

/// Splitting over lines.
pub open spec fn split_lines(lines: Seq<Seq<char>>) -> SplitState
    decreases lines.len(),
{
    if lines.len() == 0 {
        (Seq::empty(), Seq::empty(), true, false)
    } else {
        split_step(split_lines(lines.drop_last()), lines.last())
    }
}

/// The prefix of a compact source and its body without trailing white
/// space.
pub open spec fn compact_split(source: Seq<char>) -> (Seq<char>, Seq<char>) {
    let st = split_lines(lines_spec(source));
    (st.0, trim_end(st.1))
}

fn has_prefix_text(c: &Vec<char>, p: &str) -> (r: bool)
    ensures
        r == has_prefix(c@, p@),
{
    let pc = chars_of(p);
    starts_with(c.as_slice(), pc.as_slice())
}

/// Splits a compact source into its prefix and body.
pub fn split_compact_prefix(source: &str) -> (r: (String, String))
    ensures
        (r.0@, r.1@) == compact_split(source@),
{
    let c = chars_of(source);
    let lines = lines_of(c.as_slice());
    let ghost ls = lines_spec(source@);
    let mut prefix = String::new();
    let mut body = String::new();
    let mut in_prefix = true;
    let mut in_block = false;
    let mut i: usize = 0;
    while i < lines.len()
        invariant
            views(lines@) == ls,
            i <= lines.len(),
            (prefix@, body@, in_prefix, in_block) == split_lines(ls.take(i as int)),
        decreases lines.len() - i,
    {
        assert(ls.take(i + 1).drop_last() =~= ls.take(i as int));
        assert(ls.take(i + 1).last() == lines@[i as int]@);
        let line = string_of(lines[i].as_slice());
        let t = trim_start_chars(lines[i].as_slice());
        if in_prefix && (in_block || t.len() == 0 || has_prefix_text(&t, "//") || has_prefix_text(&t, "#!")
            || has_prefix_text(&t, "import ") || has_prefix_text(&t, "/*")) {
            prefix.append(line.as_str());
            prefix.append("\n");
            if in_block || has_prefix_text(&t, "/*") {
                in_block = !has_text(&t, "*/");
            }
        } else {
            in_prefix = false;
            body.append(line.as_str());
            body.append("\n");
        }
        i += 1;
    }
    assert(ls.take(lines.len() as int) =~= ls);
    let bc = chars_of(body.as_str());
    let e = crate::text::end_without_ws(bc.as_slice());
    let trimmed = slice_chars(bc.as_slice(), 0, e);
    assert(trimmed@ =~= trim_end(body@));
    (prefix, string_of(trimmed.as_slice()))
}

/// The name of the class that wraps a compact source for the formatter.
pub open spec fn wrapper_class() -> Seq<char> {
    "__JuvFormatterWrapper"@
}

/// A compact source wrapped for the formatter: its prefix, then the body,
/// each line indented by four spaces, inside the wrapper class.
pub open spec fn compact_wrapper(prefix: Seq<char>, body: Seq<char>) -> Seq<char> {
    prefix + "class __JuvFormatterWrapper {\n"@ + join_with(
        lines_spec(body).map_values(|l: Seq<char>| "    "@ + l),
        "\n"@,
    ) + "\n}\n"@
}

/// Wraps a compact source's body for the formatter.
pub fn wrap_compact_source(prefix: &str, body: &str) -> (r: String)
    ensures
        r@ == compact_wrapper(prefix@, body@),
{
    let c = chars_of(body);
    let lines = lines_of(c.as_slice());
    let ghost ls = lines_spec(body@);
    let mut indented: Vec<String> = Vec::new();
    let mut i: usize = 0;
    while i < lines.len()
        invariant
            views(lines@) == ls,
            i <= lines.len(),
            strs(indented@) == ls.take(i as int).map_values(|l: Seq<char>| "    "@ + l),
        decreases lines.len() - i,
    {
        let mut l = "    ".to_owned();
        let text = string_of(lines[i].as_slice());
        l.append(text.as_str());
        let ghost before = strs(indented@);
        indented.push(l);
        assert(strs(indented@) =~= before.push("    "@ + ls[i as int]));
        assert(ls.take(i + 1).map_values(|l: Seq<char>| "    "@ + l) =~= ls.take(i as int).map_values(
            |l: Seq<char>| "    "@ + l,
        ).push("    "@ + ls[i as int]));
        i += 1;
    }
    assert(ls.take(lines.len() as int) =~= ls);
    assert(indented@.map_values(|s: String| s@) =~= strs(indented@));
    let joined = join_strings(&indented, "\n");
    let mut out = prefix.to_owned();
    out.append("class __JuvFormatterWrapper {\n");
    out.append(joined.as_str());
    out.append("\n}\n");
    out
}

// ─── Unwrapping the formatter's output ───────────────────────────────────────

/// Why the formatter's output cannot be unwrapped.
#[derive(Debug)]
pub enum UnwrapError {
    /// No line is the wrapper class's opening.
    NoWrapper,
    /// No line after it is a closing brace.
    NoWrapperEnd,
}

/// The number of bytes of a character in UTF-8.
pub open spec fn utf8_len(c: char) -> nat {
    if (c as u32) < 0x80 {
        1
    } else if (c as u32) < 0x800 {
        2
    } else if (c as u32) < 0x10000 {
        3
    } else {
        4
    }
}

/// The number of bytes of a text in UTF-8 (`str::len`).
pub open spec fn byte_len(s: Seq<char>) -> nat
    decreases s.len(),
{
    if s.len() == 0 {
        0
    } else {
        byte_len(s.drop_last()) + utf8_len(s.last())
    }
}

proof fn lemma_byte_len_bound(s: Seq<char>)
    ensures
        byte_len(s) <= 4 * s.len(),
    decreases s.len(),
{
    if s.len() > 0 {
        lemma_byte_len_bound(s.drop_last());
    }
}

proof fn lemma_byte_len_take(s: Seq<char>, k: int)
    requires
        0 <= k <= s.len(),
    ensures
        byte_len(s.take(k)) <= byte_len(s),
    decreases s.len() - k,
{
    if k < s.len() {
        lemma_byte_len_take(s, k + 1);
        assert(s.take(k + 1).drop_last() =~= s.take(k));
    } else {
        assert(s.take(k) =~= s);
    }
}

/// The bytes of a line's leading white space.
pub open spec fn indent_of(l: Seq<char>) -> nat {
    byte_len(l.take(l.len() - trim_start(l).len()))
}

/// The least indentation of the lines that are not blank, if any.
pub open spec fn min_indent(lines: Seq<Seq<char>>) -> Option<nat>
    decreases lines.len(),
{
    if lines.len() == 0 {
        None
    } else {
        let r = min_indent(lines.drop_last());
        let l = lines.last();
        if trim_start(l).len() == 0 {
            r
        } else {
            match r {
                None => Some(indent_of(l)),
                Some(m) => Some(if m <= indent_of(l) { m } else { indent_of(l) }),
            }
        }
    }
}

/// `n` bytes of a line end at a character boundary.
pub open spec fn cuttable(l: Seq<char>, n: nat) -> bool {
    exists|k: int| 0 <= k <= l.len() && byte_len(#[trigger] l.take(k)) == n
}

/// A line without its first `n` bytes when it has that many (`&line[n..]`);
/// unchanged otherwise.
pub open spec fn cut(l: Seq<char>, n: nat) -> Seq<char> {
    if byte_len(l) >= n {
        l.skip(choose|k: int| 0 <= k <= l.len() && byte_len(#[trigger] l.take(k)) == n)
    } else {
        l
    }
}

/// Whether a line is the opening of the wrapper class.
pub open spec fn wrapper_open(l: Seq<char>) -> bool {
    trim(l) == "class __JuvFormatterWrapper {"@
}

/// The first line that opens the wrapper class.
pub open spec fn wrapper_start(lines: Seq<Seq<char>>) -> Option<int> {
    if exists|i: int| 0 <= i < lines.len() && wrapper_open(#[trigger] lines[i]) {
        Some(choose|i: int| 0 <= i < lines.len() && wrapper_open(lines[i]) && forall|j: int| 0 <= j < i ==> !wrapper_open(#[trigger] lines[j]))
    } else {
        None
    }
}

/// The last closing-brace line after line `w`.
pub open spec fn wrapper_stop(lines: Seq<Seq<char>>, w: int) -> Option<int> {
    if exists|i: int| w < i < lines.len() && trim(#[trigger] lines[i]) == "}"@ {
        Some(choose|i: int| w < i < lines.len() && trim(lines[i]) == "}"@ && forall|j: int| i < j < lines.len() ==> trim(#[trigger] lines[j]) != "}"@)
    } else {
        None
    }
}

/// The lines with a line break after each.
pub open spec fn with_breaks(lines: Seq<Seq<char>>) -> Seq<char>
    decreases lines.len(),
{
    if lines.len() == 0 {
        Seq::empty()
    } else {
        with_breaks(lines.drop_last()) + lines.last() + "\n"@
    }
}

/// The formatted compact source: the lines before the wrapper, then the
/// lines inside it without their common indentation (in bytes, as
/// `str::len` counts).
pub open spec fn unwrapped(formatted: Seq<char>) -> Result<Seq<char>, bool> {
    let ls = lines_spec(formatted);
    match wrapper_start(ls) {
        None => Err(false),
        Some(w) => match wrapper_stop(ls, w) {
            None => Err(true),
            Some(e) => {
                let body = ls.subrange(w + 1, e);
                let indent = match min_indent(body) {
                    Some(m) => m,
                    None => 0,
                };
                Ok(with_breaks(ls.take(w)) + with_breaks(body.map_values(|l: Seq<char>| cut(l, indent))))
            },
        },
    }
}

/// Every line inside the wrapper that is as long as the indentation can be
/// cut there (where it cannot, `&line[indent..]` panics).
pub open spec fn unwrappable(formatted: Seq<char>) -> bool {
    let ls = lines_spec(formatted);
    match wrapper_start(ls) {
        None => true,
        Some(w) => match wrapper_stop(ls, w) {
            None => true,
            Some(e) => {
                let body = ls.subrange(w + 1, e);
                let indent = match min_indent(body) {
                    Some(m) => m,
                    None => 0,
                };
                forall|i: int| 0 <= i < body.len() && byte_len(#[trigger] body[i]) >= indent ==> cuttable(body[i], indent)
            },
        },
    }
}

fn utf8_width(c: char) -> (r: usize)
    ensures
        r == utf8_len(c),
{
    let n = c as u32;
    if n < 0x80 {
        1
    } else if n < 0x800 {
        2
    } else if n < 0x10000 {
        3
    } else {
        4
    }
}

fn bytes_of(s: &[char]) -> (r: usize)
    requires
        4 * s@.len() <= usize::MAX,
    ensures
        r == byte_len(s@),
{
    let mut total: usize = 0;
    let mut i: usize = 0;
    while i < s.len()
        invariant
            4 * s@.len() <= usize::MAX,
            i <= s.len(),
            total == byte_len(s@.take(i as int)),
        decreases s.len() - i,
    {
        assert(s@.take(i + 1).drop_last() =~= s@.take(i as int));
        proof {
            lemma_byte_len_bound(s@.take(i + 1));
        }
        total = total + utf8_width(s[i]);
        i += 1;
    }
    assert(s@.take(s.len() as int) =~= s@);
    total
}

fn cut_line(l: &[char], n: usize) -> (r: Vec<char>)
    requires
        4 * l@.len() <= usize::MAX,
        byte_len(l@) >= n ==> cuttable(l@, n as nat),
    ensures
        r@ == cut(l@, n as nat),
{
    if bytes_of(l) < n {
        return slice_chars(l, 0, l.len());
    }
    let ghost kk = choose|k: int| 0 <= k <= l@.len() && byte_len(#[trigger] l@.take(k)) == n;
    let mut total: usize = 0;
    let mut i: usize = 0;
    while total < n
        invariant
            4 * l@.len() <= usize::MAX,
            0 <= kk <= l@.len(),
            byte_len(l@.take(kk)) == n,
            i <= kk,
            total == byte_len(l@.take(i as int)),
            total <= n,
        decreases kk - i,
    {
        proof {
            if i as int == kk {
                assert(false);
            }
            lemma_byte_len_strict(l@, i as int, kk);
        }
        assert(l@.take(i + 1).drop_last() =~= l@.take(i as int));
        total = total + utf8_width(l[i]);
        i += 1;
        proof {
            if total > n {
                lemma_byte_len_strict(l@, i as int, kk);
            }
        }
    }
    proof {
        if i < kk {
            lemma_byte_len_strict(l@, i as int, kk);
        }
    }
    assert(i == kk);
    let r = slice_chars(l, i, l.len());
    assert(r@ =~= l@.skip(i as int));
    r
}

/// Longer prefixes have more bytes.
proof fn lemma_byte_len_strict(s: Seq<char>, i: int, k: int)
    requires
        0 <= i < k <= s.len(),
    ensures
        byte_len(s.take(i)) < byte_len(s.take(k)),
        byte_len(s.take(i + 1)) <= byte_len(s.take(k)),
    decreases k - i,
{
    assert(s.take(i + 1).drop_last() =~= s.take(i));
    if i + 1 < k {
        lemma_byte_len_strict(s, i + 1, k);
    }
}

proof fn lemma_line_within(ls: Seq<Seq<char>>, i: int)
    requires
        0 <= i < ls.len(),
    ensures
        ls[i].len() <= crate::java_source::total_len(ls),
    decreases ls.len(),
{
    crate::java_source::lemma_total_nonneg(ls.drop_last());
    if i < ls.len() - 1 {
        lemma_line_within(ls.drop_last(), i);
    }
}

fn is_text(c: &Vec<char>, t: &str) -> (r: bool)
    ensures
        r == (trim(c@) == t@),
{
    let tc = trim_chars(c.as_slice());
    let s = string_of(tc.as_slice());
    str_eq(s.as_str(), t)
}

fn find_wrapper(lines: &Vec<Vec<char>>) -> (r: usize)
    ensures
        r <= lines.len(),
        forall|j: int| 0 <= j < r ==> !wrapper_open(#[trigger] views(lines@)[j]),
        r < lines.len() ==> wrapper_open(views(lines@)[r as int]),
{
    let mut w: usize = 0;
    while w < lines.len()
        invariant
            w <= lines.len(),
            forall|j: int| 0 <= j < w ==> !wrapper_open(#[trigger] views(lines@)[j]),
        decreases lines.len() - w,
    {
        if is_text(&lines[w], "class __JuvFormatterWrapper {") {
            return w;
        }
        w += 1;
    }
    w
}

fn find_wrapper_end(lines: &Vec<Vec<char>>, w: usize) -> (r: usize)
    requires
        w < lines.len(),
    ensures
        w + 1 < r <= lines.len() ==> trim(views(lines@)[r - 1]) == "}"@,
        w + 1 <= r <= lines.len(),
        forall|j: int| r <= j < lines.len() ==> trim(#[trigger] views(lines@)[j]) != "}"@,
{
    let mut e: usize = lines.len();
    while e > w + 1
        invariant
            w < lines.len(),
            w + 1 <= e <= lines.len(),
            forall|j: int| e <= j < lines.len() ==> trim(#[trigger] views(lines@)[j]) != "}"@,
        decreases e,
    {
        if is_text(&lines[e - 1], "}") {
            return e;
        }
        e -= 1;
    }
    e
}

fn min_indent_of(lines: &Vec<Vec<char>>, from: usize, to: usize) -> (r: Option<usize>)
    requires
        from <= to <= lines.len(),
        forall|k: int| from <= k < to ==> 4 * (#[trigger] lines@[k])@.len() <= usize::MAX,
    ensures
        match r {
            Some(m) => min_indent(views(lines@).subrange(from as int, to as int)) == Some(m as nat),
            None => min_indent(views(lines@).subrange(from as int, to as int)) is None,
        },
{
    let ghost body = views(lines@).subrange(from as int, to as int);
    let mut indent: Option<usize> = None;
    let mut k: usize = from;
    while k < to
        invariant
            from <= k <= to <= lines.len(),
            body == views(lines@).subrange(from as int, to as int),
            forall|j: int| from <= j < to ==> 4 * (#[trigger] lines@[j])@.len() <= usize::MAX,
            match indent {
                Some(m) => min_indent(body.take(k - from)) == Some(m as nat),
                None => min_indent(body.take(k - from)) is None,
            },
        decreases to - k,
    {
        assert(body.take(k - from + 1).drop_last() =~= body.take(k - from));
        assert(body.take(k - from + 1).last() == lines@[k as int]@);
        let t = trim_start_chars(lines[k].as_slice());
        proof {
            crate::junit::lemma_trim_start_len(lines@[k as int]@);
        }
        if t.len() > 0 {
            let lead = lines[k].len() - t.len();
            let head = slice_chars(lines[k].as_slice(), 0, lead);
            assert(head@ =~= lines@[k as int]@.take(lead as int));
            let n = bytes_of(head.as_slice());
            indent = match indent {
                None => Some(n),
                Some(m) => Some(if m <= n { m } else { n }),
            };
        }
        k += 1;
    }
    assert(body.take(to - from) =~= body);
    indent
}

fn lines_with_breaks(lines: &Vec<Vec<char>>, to: usize) -> (r: String)
    requires
        to <= lines.len(),
    ensures
        r@ == with_breaks(views(lines@).take(to as int)),
{
    let mut out = String::new();
    let mut i: usize = 0;
    while i < to
        invariant
            to <= lines.len(),
            i <= to,
            out@ == with_breaks(views(lines@).take(i as int)),
        decreases to - i,
    {
        assert(views(lines@).take(i + 1).drop_last() =~= views(lines@).take(i as int));
        let l = string_of(lines[i].as_slice());
        out.append(l.as_str());
        out.append("\n");
        i += 1;
    }
    out
}

fn cut_lines(lines: &Vec<Vec<char>>, from: usize, to: usize, width: usize) -> (r: String)
    requires
        from <= to <= lines.len(),
        forall|k: int| from <= k < to ==> 4 * (#[trigger] lines@[k])@.len() <= usize::MAX,
        forall|k: int|
            from <= k < to && byte_len(#[trigger] lines@[k]@) >= width ==> cuttable(lines@[k]@, width as nat),
    ensures
        r@ == with_breaks(views(lines@).subrange(from as int, to as int).map_values(|l: Seq<char>| cut(l, width as nat))),
{
    let ghost cuts = views(lines@).subrange(from as int, to as int).map_values(|l: Seq<char>| cut(l, width as nat));
    let mut out = String::new();
    let mut k: usize = from;
    while k < to
        invariant
            from <= k <= to <= lines.len(),
            cuts == views(lines@).subrange(from as int, to as int).map_values(|l: Seq<char>| cut(l, width as nat)),
            forall|j: int| from <= j < to ==> 4 * (#[trigger] lines@[j])@.len() <= usize::MAX,
            forall|j: int|
                from <= j < to && byte_len(#[trigger] lines@[j]@) >= width ==> cuttable(lines@[j]@, width as nat),
            out@ == with_breaks(cuts.take(k - from)),
        decreases to - k,
    {
        assert(cuts.take(k - from + 1).drop_last() =~= cuts.take(k - from));
        assert(cuts[k - from] == cut(lines@[k as int]@, width as nat));
        let piece = cut_line(lines[k].as_slice(), width);
        let p = string_of(piece.as_slice());
        out.append(p.as_str());
        out.append("\n");
        k += 1;
    }
    assert(cuts.take(to - from) =~= cuts);
    out
}

/// Unwraps the formatter's output of a wrapped compact source (see
/// [`unwrapped`]).
pub fn unwrap_compact_source(formatted: &str) -> (r: Result<String, UnwrapError>)
    requires
        4 * formatted@.len() <= usize::MAX,
        unwrappable(formatted@),
    ensures
        match unwrapped(formatted@) {
            Ok(t) => r matches Ok(x) && x@ == t,
            Err(false) => r matches Err(UnwrapError::NoWrapper),
            Err(true) => r matches Err(UnwrapError::NoWrapperEnd),
        },
{
    let c = chars_of(formatted);
    let lines = lines_of(c.as_slice());
    let ghost ls = lines_spec(formatted@);
    assert(views(lines@) == ls);
    let w = find_wrapper(&lines);
    if w >= lines.len() {
        return Err(UnwrapError::NoWrapper);
    }
    proof {
        let c0 = choose|i: int| 0 <= i < ls.len() && wrapper_open(ls[i]) && forall|j: int| 0 <= j < i ==> !wrapper_open(#[trigger] ls[j]);
        if c0 < w {
        } else if c0 > w {
            assert(!wrapper_open(ls[w as int]));
        }
        assert(wrapper_start(ls) == Some(w as int));
    }
    let e = find_wrapper_end(&lines, w);
    if e <= w + 1 {
        proof {
            assert forall|i: int| w < i < ls.len() implies trim(#[trigger] ls[i]) != "}"@ by {}
        }
        return Err(UnwrapError::NoWrapperEnd);
    }
    let end = e - 1;
    proof {
        let c1 = choose|i: int| w < i < ls.len() && trim(ls[i]) == "}"@ && forall|j: int| i < j < ls.len() ==> trim(#[trigger] ls[j]) != "}"@;
        if c1 < end {
            assert(trim(ls[end as int]) != "}"@);
        } else if c1 > end {
        }
        assert(wrapper_stop(ls, w as int) == Some(end as int));
        crate::java_source::lemma_lines_total(formatted@);
        assert forall|k: int| w + 1 <= k < end implies 4 * (#[trigger] lines@[k])@.len() <= usize::MAX by {
            lemma_line_within(ls, k);
        }
    }
    let indent = min_indent_of(&lines, w + 1, end);
    let width: usize = match indent {
        Some(m) => m,
        None => 0,
    };
    proof {
        let body = ls.subrange(w + 1, end as int);
        assert forall|k: int|
            w + 1 <= k < end && byte_len(#[trigger] lines@[k]@) >= width implies cuttable(lines@[k]@, width as nat) by {
            assert(body[k - w - 1] == lines@[k]@);
        }
    }
    let mut out = lines_with_breaks(&lines, w);
    let rest = cut_lines(&lines, w + 1, end, width);
    out.append(rest.as_str());
    Ok(out)
}

// ─── The formatter ───────────────────────────────────────────────────────────

/// Directories that `fmt` does not enter.
pub open spec fn ignored_fmt_dir(name: Seq<char>) -> bool {
    name == ".git"@ || name == "target"@ || name == "build"@ || name == ".gradle"@ || name == ".jbang"@
}

/// Whether `fmt` skips a directory of this name.
pub fn is_ignored_fmt_dir(name: &str) -> (r: bool)
    ensures
        r == ignored_fmt_dir(name@),
{
    str_eq(name, ".git") || str_eq(name, "target") || str_eq(name, "build") || str_eq(name, ".gradle")
        || str_eq(name, ".jbang")
}

/// The classifier of the native formatter for an operating system and
/// architecture (as `std::env::consts` names them), where there is one.
pub open spec fn formatter_classifier(os: Seq<char>, arch: Seq<char>) -> Option<Seq<char>> {
    if os == "linux"@ && arch == "x86_64"@ {
        Some("linux-glibc_x86-64"@)
    } else if os == "linux"@ && arch == "aarch64"@ {
        Some("linux-glibc_aarch64"@)
    } else if os == "macos"@ && arch == "aarch64"@ {
        Some("macos_aarch64"@)
    } else {
        None
    }
}

/// The classifier of the native formatter for a platform.
pub fn native_formatter_classifier(os: &str, arch: &str) -> (r: Option<&'static str>)
    ensures
        match formatter_classifier(os@, arch@) {
            Some(c) => r matches Some(x) && x@ == c,
            None => r is None,
        },
{
    if str_eq(os, "linux") && str_eq(arch, "x86_64") {
        Some("linux-glibc_x86-64")
    } else if str_eq(os, "linux") && str_eq(arch, "aarch64") {
        Some("linux-glibc_aarch64")
    } else if str_eq(os, "macos") && str_eq(arch, "aarch64") {
        Some("macos_aarch64")
    } else {
        None
    }
}

/// The URL of the native formatter at `version` for `classifier` on Maven
/// Central.
pub open spec fn native_formatter_url_of(version: Seq<char>, classifier: Seq<char>) -> Seq<char> {
    "https://repo1.maven.org/maven2/com/palantir/javaformat/palantir-java-format-native/"@ + version
        + "/palantir-java-format-native-"@ + version + "-nativeImage-"@ + classifier + ".bin"@
}

/// The URL of the native formatter.
pub fn native_formatter_url(version: &str, classifier: &str) -> (r: String)
    ensures
        r@ == native_formatter_url_of(version@, classifier@),
{
    let mut out = "https://repo1.maven.org/maven2/com/palantir/javaformat/palantir-java-format-native/".to_owned();
    out.append(version);
    out.append("/palantir-java-format-native-");
    out.append(version);
    out.append("-nativeImage-");
    out.append(classifier);
    out.append(".bin");
    out
}

/// Why a downloaded formatter is refused.
#[derive(Debug)]
pub enum DownloadError {
    /// The checksum file has no checksum.
    EmptyChecksum,
    /// The download does not have the checksum.
    ChecksumMismatch,
}

/// What a formatter download is checked against: the first word of its
/// `.sha256` file, which must be the SHA-256 digest of the bytes.
pub open spec fn download_check(data: Seq<u8>, sha_text: Seq<char>) -> Option<DownloadError> {
    let words = crate::docs::ws_words(sha_text);
    if words.len() == 0 {
        Some(DownloadError::EmptyChecksum)
    } else if crate::trust::sha256_hex_of(data) != words[0] {
        Some(DownloadError::ChecksumMismatch)
    } else {
        None
    }
}

/// Checks a downloaded formatter against its checksum file.
pub fn verify_formatter_download(data: &[u8], sha_text: &str) -> (r: Result<(), DownloadError>)
    ensures
        match download_check(data@, sha_text@) {
            Some(DownloadError::EmptyChecksum) => r matches Err(DownloadError::EmptyChecksum),
            Some(DownloadError::ChecksumMismatch) => r matches Err(DownloadError::ChecksumMismatch),
            None => r is Ok,
        },
{
    let words = crate::docs::split_ws_words(sha_text);
    assert(words@.map_values(|w: String| w@).len() == words.len());
    if words.len() == 0 {
        return Err(DownloadError::EmptyChecksum);
    }
    let actual = crate::trust::sha256_hex(data);
    assert(words@.map_values(|w: String| w@)[0] == words@[0]@);
    if !str_eq(actual.as_str(), words[0].as_str()) {
        return Err(DownloadError::ChecksumMismatch);
    }
    Ok(())
}

/// The JVM arguments that run the formatter from its JARs.
pub open spec fn formatter_jar_args(classpath: Seq<char>) -> Seq<Seq<char>> {
    seq![
        "--add-exports=jdk.compiler/com.sun.tools.javac.api=ALL-UNNAMED"@,
        "--add-exports=jdk.compiler/com.sun.tools.javac.code=ALL-UNNAMED"@,
        "--add-exports=jdk.compiler/com.sun.tools.javac.file=ALL-UNNAMED"@,
        "--add-exports=jdk.compiler/com.sun.tools.javac.parser=ALL-UNNAMED"@,
        "--add-exports=jdk.compiler/com.sun.tools.javac.tree=ALL-UNNAMED"@,
        "--add-exports=jdk.compiler/com.sun.tools.javac.util=ALL-UNNAMED"@,
        "-cp"@,
        classpath,
        "com.palantir.javaformat.java.Main"@,
    ]
}

/// The JVM arguments that run the formatter from its JARs.
pub fn formatter_jar_arguments(classpath: &str) -> (r: Vec<String>)
    ensures
        strs(r@) == formatter_jar_args(classpath@),
{
    let mut out: Vec<String> = Vec::new();
    out.push("--add-exports=jdk.compiler/com.sun.tools.javac.api=ALL-UNNAMED".to_owned());
    out.push("--add-exports=jdk.compiler/com.sun.tools.javac.code=ALL-UNNAMED".to_owned());
    out.push("--add-exports=jdk.compiler/com.sun.tools.javac.file=ALL-UNNAMED".to_owned());
    out.push("--add-exports=jdk.compiler/com.sun.tools.javac.parser=ALL-UNNAMED".to_owned());
    out.push("--add-exports=jdk.compiler/com.sun.tools.javac.tree=ALL-UNNAMED".to_owned());
    out.push("--add-exports=jdk.compiler/com.sun.tools.javac.util=ALL-UNNAMED".to_owned());
    out.push("-cp".to_owned());
    out.push(classpath.to_owned());
    out.push("com.palantir.javaformat.java.Main".to_owned());
    assert(strs(out@) =~= formatter_jar_args(classpath@));
    out
}

} // verus!
