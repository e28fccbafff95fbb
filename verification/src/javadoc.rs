//! Javadoc HTML pages: their text, the Markdown of their descriptions, the
//! signatures and examples they show, and the JSON model of the type they
//! document.
use vstd::prelude::*;
use crate::catalog::{json_view, Json, JsonView};
use crate::resolver::opt_view;
use crate::directives::{lines_of, lines_spec};
use crate::docs::{join_strings, join_with, split_ws_words, ws_words};
use crate::java_source::{
    java_words, member_declaration, member_declaration_text, member_view, parens_in_order,
    parse_member_declaration, declaration_parens_in_order, split_java_words, texts, type_json,
    with_member, DocsMember, DocsTypeBuilder, MemberView, TypeView,
};
use crate::pattern::{capture_groups, is_match, regex_groups, regex_matches, regex_replaced, replace_all_matches};
use crate::junit::{first_ws, first_ws_index, lemma_first_ws};
use crate::text::{
    chars_of, contains_char, ends_with, has_prefix, has_suffix, is_ws, push_char, replace_all,
    replace_seq, slice_chars, starts_with, str_eq, string_of, trim, trim_chars, trim_end,
    trim_start, trim_start_chars, views,
};

verus! {

// ─── HTML text ───────────────────────────────────────────────────────────────

/// Text with the entities `&lt;`, `&gt;`, `&amp;`, `&quot;`, `&#39;` and
/// `&nbsp;` replaced, one after the other in that order.
pub open spec fn unescaped(s: Seq<char>) -> Seq<char> {
    replace_all(
        replace_all(
            replace_all(
                replace_all(replace_all(replace_all(s, "&lt;"@, "<"@), "&gt;"@, ">"@), "&amp;"@, "&"@),
                "&quot;"@,
                "\""@,
            ),
            "&#39;"@,
            "'"@,
        ),
        "&nbsp;"@,
        " "@,
    )
}

fn replace_text(s: Vec<char>, p: &str, t: &str) -> (r: Vec<char>)
    requires
        p@.len() > 0,
    ensures
        r@ == replace_all(s@, p@, t@),
{
    let pc = chars_of(p);
    let tc = chars_of(t);
    replace_seq(s.as_slice(), pc.as_slice(), tc.as_slice())
}

/// Replaces the HTML entities that Javadoc writes.
pub fn html_unescape(input: &str) -> (r: String)
    ensures
        r@ == unescaped(input@),
{
    proof {
        reveal_strlit("&lt;");
        reveal_strlit("&gt;");
        reveal_strlit("&amp;");
        reveal_strlit("&quot;");
        reveal_strlit("&#39;");
        reveal_strlit("&nbsp;");
    }
    let c = chars_of(input);
    let c = replace_text(c, "&lt;", "<");
    let c = replace_text(c, "&gt;", ">");
    let c = replace_text(c, "&amp;", "&");
    let c = replace_text(c, "&quot;", "\"");
    let c = replace_text(c, "&#39;", "'");
    let c = replace_text(c, "&nbsp;", " ");
    string_of(c.as_slice())
}

/// HTML with every tag (`<` … `>`) replaced by a space.
pub open spec fn tags_to_spaces(s: Seq<char>) -> Seq<char> {
    regex_replaced("(?s)<[^>]+>"@, s, " "@)
}

fn replace_tags(input: &str) -> (r: String)
    ensures
        r@ == tags_to_spaces(input@),
{
    replace_all_matches("(?s)<[^>]+>", input, " ")
}

/// The text of HTML: tags become spaces, entities are replaced.
pub open spec fn stripped(s: Seq<char>) -> Seq<char> {
    unescaped(tags_to_spaces(s))
}

/// The text of HTML.
pub fn strip_html_tags(input: &str) -> (r: String)
    ensures
        r@ == stripped(input@),
{
    let t = replace_tags(input);
    html_unescape(t.as_str())
}

/// Text with its white-space runs collapsed to single spaces and no white
/// space at either end.
pub open spec fn doc_text(s: Seq<char>) -> Seq<char> {
    join_with(ws_words(s), " "@)
}

/// Collapses the white space of a text.
pub fn normalize_doc_text(input: &str) -> (r: String)
    ensures
        r@ == doc_text(input@),
{
    let words = split_ws_words(input);
    join_strings(&words, " ")
}

// ─── Markdown ────────────────────────────────────────────────────────────────

/// What `quick_html2md::html_to_markdown` gives for `html`.
pub uninterp spec fn markdown_of(html: Seq<char>) -> Seq<char>;

/// `quick_html2md::html_to_markdown`: the Markdown of an HTML text. The
/// result is named `markdown_of(html)`.
#[verifier::external_body]
fn html_to_markdown(html: &str) -> (r: String)
    ensures
        r@ == markdown_of(html@),
{
    quick_html2md::html_to_markdown(html)
}

/// Whether a line starts a numbered list item: `^\d+\.\s` matches it.
pub open spec fn numbered_item(line: Seq<char>) -> bool {
    regex_matches("^\\d+\\.\\s"@, line)
}

fn is_numbered_item(line: &str) -> (r: bool)
    ensures
        r == numbered_item(line@),
{
    is_match("^\\d+\\.\\s", line)
}

/// A Markdown line that stands on a line of its own: a heading, a quote, a
/// list item.
pub open spec fn block_line(line: Seq<char>) -> bool {
    has_prefix(line, "#"@) || has_prefix(line, ">"@) || has_prefix(line, "- "@) || has_prefix(
        line,
        "* "@,
    ) || numbered_item(line)
}

/// Whether a Markdown line stands on a line of its own.
pub fn is_markdown_block_line(line: &str) -> (r: bool)
    ensures
        r == block_line(line@),
{
    let c = chars_of(line);
    let hash = chars_of("#");
    let quote = chars_of(">");
    let dash = chars_of("- ");
    let star = chars_of("* ");
    starts_with(c.as_slice(), hash.as_slice()) || starts_with(c.as_slice(), quote.as_slice())
        || starts_with(c.as_slice(), dash.as_slice()) || starts_with(c.as_slice(), star.as_slice())
        || is_numbered_item(line)
}

/// `out` ends a line, or is empty.
pub open spec fn at_line_start(out: Seq<char>) -> bool {
    out.len() == 0 || out.last() == '\n'
}

/// `out` with a line break added unless it is empty or ends one.
pub open spec fn line_ended(out: Seq<char>) -> Seq<char> {
    if at_line_start(out) {
        out
    } else {
        out.push('\n')
    }
}

/// The state of Markdown normalisation: the text so far, whether the last
/// line was blank, whether a code fence is open.
pub type MdState = (Seq<char>, bool, bool);

/// One line of Markdown normalisation. Fence lines are kept (trimmed) on
/// lines of their own and open or close a fence; inside a fence lines are
/// kept as they are, without trailing white space; the first of several
/// blank lines makes a paragraph break; block lines stand on their own;
/// other lines are joined with a space.
pub open spec fn md_step(st: MdState, raw: Seq<char>) -> MdState {
    let (out, blank, fence) = st;
    let line = trim_end(raw);
    let t = trim(raw);
    if has_prefix(t, "```"@) {
        (line_ended(out) + t + "\n"@, false, !fence)
    } else if fence {
        (out + line + "\n"@, blank, fence)
    } else if t.len() == 0 {
        if !blank && trim(out).len() > 0 && !has_suffix(out, "\n\n"@) {
            (line_ended(out).push('\n'), true, fence)
        } else {
            (out, true, fence)
        }
    } else if block_line(t) {
        (line_ended(out) + t + "\n"@, false, fence)
    } else if out.len() > 0 && out.last() != '\n' && out.last() != ' ' {
        (out.push(' ') + t, false, fence)
    } else {
        (out + t, false, fence)
    }
}

/// Markdown normalisation over lines.
pub open spec fn md_lines(lines: Seq<Seq<char>>) -> MdState
    decreases lines.len(),
{
    if lines.len() == 0 {
        (Seq::empty(), false, false)
    } else {
        md_step(md_lines(lines.drop_last()), lines.last())
    }
}

/// Markdown with its lines normalised (see [`md_step`]) and no white space
/// at either end.
pub open spec fn normalized_markdown(input: Seq<char>) -> Seq<char> {
    trim(md_lines(lines_spec(input)).0)
}

fn trim_end_text(s: &[char]) -> (r: Vec<char>)
    ensures
        r@ == trim_end(s@),
{
    let e = crate::text::end_without_ws(s);
    assert(s@.subrange(0, e as int) == s@.take(e as int));
    slice_chars(s, 0, e)
}

fn end_line(out: &mut String)
    ensures
        final(out)@ == line_ended(old(out)@),
{
    let c = chars_of(out.as_str());
    if c.len() > 0 && c[c.len() - 1] != '\n' {
        push_char(out, '\n');
    }
}

fn ends_paragraph(out: &str) -> (r: bool)
    ensures
        r == has_suffix(out@, "\n\n"@),
{
    let c = chars_of(out);
    let p = chars_of("\n\n");
    ends_with(c.as_slice(), p.as_slice())
}

/// Normalises Markdown (see [`normalized_markdown`]).
pub fn normalize_markdown_text(input: &str) -> (r: String)
    ensures
        r@ == normalized_markdown(input@),
{
    let c = chars_of(input);
    let lines = lines_of(c.as_slice());
    let ghost ls = lines_spec(input@);
    let fence_mark = chars_of("```");
    let mut out = String::new();
    let mut blank = false;
    let mut fence = false;
    let mut i: usize = 0;
    while i < lines.len()
        invariant
            views(lines@) == ls,
            fence_mark@ == "```"@,
            i <= lines.len(),
            (out@, blank, fence) == md_lines(ls.take(i as int)),
        decreases lines.len() - i,
    {
        assert(ls.take(i + 1).drop_last() =~= ls.take(i as int));
        assert(ls.take(i + 1).last() == lines@[i as int]@);
        let raw = &lines[i];
        let line = trim_end_text(raw.as_slice());
        let t = trim_chars(raw.as_slice());
        let ts = string_of(t.as_slice());
        let ghost st = md_lines(ls.take(i as int));
        assert(raw@ == ls[i as int]);
        if starts_with(t.as_slice(), fence_mark.as_slice()) {
            end_line(&mut out);
            out.append(ts.as_str());
            out.append("\n");
            fence = !fence;
            blank = false;
        } else if fence {
            let ls_ = string_of(line.as_slice());
            out.append(ls_.as_str());
            out.append("\n");
        } else if t.len() == 0 {
            let trimmed_out = crate::text::trim_str(out.as_str());
            if !blank && !trimmed_out.as_str().is_empty() && !ends_paragraph(out.as_str()) {
                end_line(&mut out);
                push_char(&mut out, '\n');
            }
            blank = true;
        } else if is_markdown_block_line(ts.as_str()) {
            end_line(&mut out);
            out.append(ts.as_str());
            out.append("\n");
            blank = false;
        } else {
            let oc = chars_of(out.as_str());
            if oc.len() > 0 && oc[oc.len() - 1] != '\n' && oc[oc.len() - 1] != ' ' {
                push_char(&mut out, ' ');
            }
            out.append(ts.as_str());
            blank = false;
        }
        assert((out@, blank, fence) == md_step(st, ls[i as int]));
        i += 1;
    }
    assert(ls.take(lines.len() as int) =~= ls);
    crate::text::trim_str(out.as_str())
}

/// A code block: its lines without trailing white space, joined by line
/// breaks, without white space at either end.
pub open spec fn code_block(input: Seq<char>) -> Seq<char> {
    trim(join_with(lines_spec(input).map_values(|l: Seq<char>| trim_end(l)), "\n"@))
}

/// Normalises a code block.
pub fn normalize_code_block(input: &str) -> (r: String)
    ensures
        r@ == code_block(input@),
{
    let c = chars_of(input);
    let lines = lines_of(c.as_slice());
    let ghost ls = lines_spec(input@);
    let mut parts: Vec<String> = Vec::new();
    let mut i: usize = 0;
    while i < lines.len()
        invariant
            views(lines@) == ls,
            i <= lines.len(),
            parts@.map_values(|s: String| s@) == ls.take(i as int).map_values(
                |l: Seq<char>| trim_end(l),
            ),
        decreases lines.len() - i,
    {
        let t = trim_end_text(lines[i].as_slice());
        let ghost before = parts@.map_values(|s: String| s@);
        parts.push(string_of(t.as_slice()));
        assert(parts@.map_values(|s: String| s@) =~= before.push(trim_end(ls[i as int])));
        assert(ls.take(i + 1).map_values(|l: Seq<char>| trim_end(l)) =~= ls.take(i as int).map_values(
            |l: Seq<char>| trim_end(l),
        ).push(trim_end(ls[i as int])));
        i += 1;
    }
    assert(ls.take(lines.len() as int) =~= ls);
    let joined = join_strings(&parts, "\n");
    crate::text::trim_str(joined.as_str())
}

/// The Markdown of an HTML fragment: entities replaced, the fragment put in
/// a `div` and converted, the result normalised.
pub open spec fn fragment_markdown(input: Seq<char>) -> Seq<char> {
    normalized_markdown(markdown_of("<div>"@ + unescaped(input) + "</div>"@))
}

/// The Markdown of an HTML fragment.
pub fn html_fragment_to_markdown(input: &str) -> (r: String)
    ensures
        r@ == fragment_markdown(input@),
{
    let fragment = html_unescape(input);
    let mut html = "<div>".to_owned();
    html.append(fragment.as_str());
    html.append("</div>");
    let markdown = html_to_markdown(html.as_str());
    normalize_markdown_text(markdown.as_str())
}

// ─── Signatures ──────────────────────────────────────────────────────────────

/// Text without the annotations that lead it: while it starts with `@`, the
/// word up to the first white space and the white space after it are
/// dropped; an annotation with nothing after it leaves nothing.
pub open spec fn after_annotations(rest: Seq<char>) -> Seq<char>
    decreases rest.len(),
{
    if rest.len() > 0 && rest[0] == '@' {
        let k = first_ws(rest);
        if k >= rest.len() {
            Seq::empty()
        } else {
            proof {
                lemma_first_ws(rest);
                crate::junit::lemma_trim_start_len(rest.skip(k + 1));
            }
            after_annotations(trim_start(rest.skip(k + 1)))
        }
    } else {
        rest
    }
}

/// A declaration without surrounding white space and leading annotations.
pub open spec fn without_annotation_lines(text: Seq<char>) -> Seq<char> {
    after_annotations(trim(text))
}

/// Drops the annotations that lead a declaration.
pub fn strip_leading_annotation_lines(text: &str) -> (r: String)
    ensures
        r@ == without_annotation_lines(text@),
{
    let c = chars_of(text);
    let mut rest = trim_chars(c.as_slice());
    while rest.len() > 0 && rest[0] == '@'
        invariant
            after_annotations(rest@) == without_annotation_lines(text@),
        decreases rest.len(),
    {
        let k = first_ws_index(rest.as_slice());
        proof {
            lemma_first_ws(rest@);
        }
        if k >= rest.len() {
            return String::new();
        }
        let tail = slice_chars(rest.as_slice(), k + 1, rest.len());
        assert(tail@ =~= rest@.skip(k + 1));
        proof {
            crate::junit::lemma_trim_start_len(tail@);
        }
        rest = trim_start_chars(tail.as_slice());
    }
    string_of(rest.as_slice())
}

/// A word that declares a type.
pub open spec fn type_word(w: Seq<char>) -> bool {
    w == "class"@ || w == "interface"@ || w == "enum"@ || w == "record"@
}

/// A member signature: its first word (after annotations) is `public`,
/// `protected` or `private`, and no word declares a type.
pub open spec fn member_signature(text: Seq<char>) -> bool {
    let t = java_words(without_annotation_lines(text));
    t.len() > 0 && (t[0] == "public"@ || t[0] == "protected"@ || t[0] == "private"@) && !exists|
        i: int,
    | 0 <= i < t.len() && type_word(#[trigger] t[i])
}

/// A type signature: a word (after annotations) declares a type.
pub open spec fn type_signature(text: Seq<char>) -> bool {
    let t = java_words(without_annotation_lines(text));
    exists|i: int| 0 <= i < t.len() && type_word(#[trigger] t[i])
}

fn is_type_word(w: &str) -> (r: bool)
    ensures
        r == type_word(w@),
{
    str_eq(w, "class") || str_eq(w, "interface") || str_eq(w, "enum") || str_eq(w, "record")
}

fn has_type_word(words: &Vec<String>) -> (r: bool)
    ensures
        r == exists|i: int| 0 <= i < words.len() && type_word(#[trigger] texts(words@)[i]),
{
    let mut i: usize = 0;
    while i < words.len()
        invariant
            i <= words.len(),
            forall|k: int| 0 <= k < i ==> !type_word(#[trigger] texts(words@)[k]),
        decreases words.len() - i,
    {
        if is_type_word(words[i].as_str()) {
            assert(type_word(texts(words@)[i as int]));
            return true;
        }
        i += 1;
    }
    false
}

/// Whether a text is a member signature.
pub fn is_javadoc_member_signature(text: &str) -> (r: bool)
    ensures
        r == member_signature(text@),
{
    let rest = strip_leading_annotation_lines(text);
    let words = split_java_words(rest.as_str());
    if words.len() == 0 {
        return false;
    }
    let first = words[0].as_str();
    assert(texts(words@)[0] == first@);
    if !(str_eq(first, "public") || str_eq(first, "protected") || str_eq(first, "private")) {
        return false;
    }
    !has_type_word(&words)
}

/// Whether a text is a type signature.
pub fn is_javadoc_type_signature(text: &str) -> (r: bool)
    ensures
        r == type_signature(text@),
{
    let rest = strip_leading_annotation_lines(text);
    let words = split_java_words(rest.as_str());
    has_type_word(&words)
}

/// The file name of a path: what follows its last `/`.
pub open spec fn last_segment(name: Seq<char>) -> Seq<char> {
    match crate::remote::last_index_of(name, '/') {
        Some(i) => name.skip(i + 1),
        None => name,
    }
}

/// A page of a Javadoc JAR that documents a type: an `.html` file without
/// `-` in its path, not a package, module or overview summary nor an index,
/// whose file name starts with an ASCII capital.
pub open spec fn type_page(name: Seq<char>) -> bool {
    has_suffix(name, ".html"@) && !name.contains('-') && !has_suffix(name, "/package-summary.html"@)
        && !has_suffix(name, "/module-summary.html"@) && !has_suffix(
        name,
        "/overview-summary.html"@,
    ) && !has_suffix(name, "/index.html"@) && last_segment(name).len() > 0 && 'A' <= last_segment(
        name,
    )[0] <= 'Z'
}

fn ends_with_text(c: &Vec<char>, p: &str) -> (r: bool)
    ensures
        r == has_suffix(c@, p@),
{
    let pc = chars_of(p);
    ends_with(c.as_slice(), pc.as_slice())
}

/// Whether an entry of a Javadoc JAR documents a type.
pub fn is_javadoc_type_page(name: &str) -> (r: bool)
    ensures
        r == type_page(name@),
{
    let c = chars_of(name);
    if !ends_with_text(&c, ".html") || contains_char(c.as_slice(), '-') || ends_with_text(
        &c,
        "/package-summary.html",
    ) || ends_with_text(&c, "/module-summary.html") || ends_with_text(&c, "/overview-summary.html")
        || ends_with_text(&c, "/index.html") {
        return false;
    }
    proof {
        crate::remote::lemma_last_index_of(c@, '/');
    }
    let file = match crate::text::rfind_char(c.as_slice(), '/') {
        Some(i) => {
            proof {
                match crate::remote::last_index_of(c@, '/') {
                    Some(li) => {
                        if li < i {
                            assert(c@[i as int] == '/');
                        } else if li > i {
                            assert(c@[li] == '/');
                        }
                    },
                    None => {
                        assert(c@[i as int] == '/');
                    },
                }
            }
            assert(i < c.len());
            let f = slice_chars(c.as_slice(), i + 1, c.len());
            assert(f@ =~= c@.skip(i + 1));
            f
        },
        None => {
            proof {
                if let Some(li) = crate::remote::last_index_of(c@, '/') {
                    assert(c@[li] == '/');
                    assert(c@.contains('/'));
                }
            }
            c
        },
    };
    file.len() > 0 && 'A' <= file[0] && file[0] <= 'Z'
}

// ─── Member documentation ────────────────────────────────────────────────────

/// The first group of each match of `pattern` in `html`.
pub open spec fn first_groups(pattern: Seq<char>, html: Seq<char>) -> Seq<Option<Seq<char>>> {
    regex_groups(pattern, html).map_values(|g: (Option<Seq<char>>, Option<Seq<char>>)| g.0)
}

/// The first group of the first match of `pattern` in `html`
/// (`Regex::captures`).
pub open spec fn first_capture(pattern: Seq<char>, html: Seq<char>) -> Option<Seq<char>> {
    if regex_groups(pattern, html).len() > 0 {
        regex_groups(pattern, html)[0].0
    } else {
        None
    }
}

fn capture_first(pattern: &str, html: &str) -> (r: Option<String>)
    ensures
        opt_view(r) == first_capture(pattern@, html@),
{
    let groups = capture_groups(pattern, html);
    if groups.len() == 0 {
        None
    } else {
        let ghost g = groups@.map_values(
            |c: (Option<String>, Option<String>)| (opt_view(c.0), opt_view(c.1)),
        );
        assert(g[0].0 == opt_view(groups@[0].0));
        match &groups[0].0 {
            Some(s) => Some(s.clone()),
            None => None,
        }
    }
}

/// The expression for a member's detail section.
pub open spec fn detail_pattern() -> Seq<char> {
    "(?s)<section class=\"detail\"[^>]*>(.*?)</section>"@
}

/// The expression for a member signature.
pub open spec fn signature_pattern() -> Seq<char> {
    "(?s)<div class=\"member-signature\">(.*?)</div>"@
}

/// The expression for a description block.
pub open spec fn block_pattern() -> Seq<char> {
    "(?s)<div class=\"block\">(.*?)</div>"@
}

/// The expression for a parameter's name and description.
pub open spec fn parameter_pattern() -> Seq<char> {
    "(?s)<dd>\\s*<code>(.*?)</code>\\s*-\\s*(.*?)</dd>"@
}

/// The expression for the description of a return value.
pub open spec fn returns_pattern() -> Seq<char> {
    "(?s)<dt>Returns:</dt>\\s*<dd>(.*?)</dd>"@
}

/// The expression for a preformatted block.
pub open spec fn pre_pattern() -> Seq<char> {
    "(?s)<pre[^>]*>(.*?)</pre>"@
}

/// Markdown that is there and not empty.
pub open spec fn some_markdown(html: Option<Seq<char>>) -> Option<Seq<char>> {
    match html {
        Some(h) => if fragment_markdown(h).len() > 0 {
            Some(fragment_markdown(h))
        } else {
            None
        },
        None => None,
    }
}

fn markdown_if_any(html: Option<String>) -> (r: Option<String>)
    ensures
        opt_view(r) == some_markdown(opt_view(html)),
{
    match html {
        Some(h) => {
            let m = html_fragment_to_markdown(h.as_str());
            if m.as_str().is_empty() {
                None
            } else {
                Some(m)
            }
        },
        None => None,
    }
}

/// The parameter descriptions of a detail section: each name (as text)
/// with the Markdown of its description, both not empty.
pub open spec fn parameter_docs(groups: Seq<(Option<Seq<char>>, Option<Seq<char>>)>) -> Seq<
    (Seq<char>, Seq<char>),
>
    decreases groups.len(),
{
    if groups.len() == 0 {
        Seq::empty()
    } else {
        let rest = parameter_docs(groups.drop_last());
        let g = groups.last();
        if g.0 is Some && g.1 is Some && doc_text(stripped(g.0->0)).len() > 0 && fragment_markdown(
            g.1->0,
        ).len() > 0 {
            rest.push((doc_text(stripped(g.0->0)), fragment_markdown(g.1->0)))
        } else {
            rest
        }
    }
}

/// What a member's detail section documents.
pub struct JavadocMemberDoc {
    pub signature: String,
    pub description: Option<String>,
    pub parameter_descriptions: Vec<(String, String)>,
    pub return_description: Option<String>,
}

/// A member's documentation as signature, description, parameter
/// descriptions and return description.
pub type MemberDocView = (Seq<char>, Option<Seq<char>>, Seq<(Seq<char>, Seq<char>)>, Option<Seq<char>>);

/// Pairs of strings, viewed.
pub open spec fn pair_views(v: Seq<(String, String)>) -> Seq<(Seq<char>, Seq<char>)> {
    v.map_values(|p: (String, String)| (p.0@, p.1@))
}

/// A member's documentation, viewed.
pub open spec fn member_doc_view(d: JavadocMemberDoc) -> MemberDocView {
    (d.signature@, opt_view(d.description), pair_views(d.parameter_descriptions@), opt_view(d.return_description))
}

/// The documentation in a member's detail section: none without a
/// signature that has text.
pub open spec fn member_doc_of(detail: Seq<char>) -> Option<MemberDocView> {
    match first_capture(signature_pattern(), detail) {
        None => None,
        Some(h) => if doc_text(stripped(h)).len() == 0 {
            None
        } else {
            Some(
                (
                    doc_text(stripped(h)),
                    some_markdown(first_capture(block_pattern(), detail)),
                    parameter_docs(regex_groups(parameter_pattern(), detail)),
                    some_markdown(first_capture(returns_pattern(), detail)),
                ),
            )
        },
    }
}

fn parameter_descriptions(detail: &str) -> (r: Vec<(String, String)>)
    ensures
        pair_views(r@) == parameter_docs(regex_groups(parameter_pattern(), detail@)),
{
    let groups = capture_groups("(?s)<dd>\\s*<code>(.*?)</code>\\s*-\\s*(.*?)</dd>", detail);
    let ghost gv = groups@.map_values(
        |c: (Option<String>, Option<String>)| (opt_view(c.0), opt_view(c.1)),
    );
    let mut out: Vec<(String, String)> = Vec::new();
    let mut i: usize = 0;
    while i < groups.len()
        invariant
            gv == groups@.map_values(
                |c: (Option<String>, Option<String>)| (opt_view(c.0), opt_view(c.1)),
            ),
            i <= groups.len(),
            pair_views(out@) == parameter_docs(gv.take(i as int)),
        decreases groups.len() - i,
    {
        assert(gv.take(i + 1).drop_last() =~= gv.take(i as int));
        assert(gv.take(i + 1).last() == gv[i as int]);
        match (&groups[i].0, &groups[i].1) {
            (Some(n), Some(d)) => {
                let name = normalize_doc_text(strip_html_tags(n.as_str()).as_str());
                let description = html_fragment_to_markdown(d.as_str());
                if !name.as_str().is_empty() && !description.as_str().is_empty() {
                    let ghost before = pair_views(out@);
                    out.push((name, description));
                    assert(pair_views(out@) =~= before.push((name@, description@)));
                }
            },
            _ => {},
        }
        i += 1;
    }
    assert(gv.take(groups.len() as int) =~= gv);
    out
}

fn member_doc(detail: &str) -> (r: Option<JavadocMemberDoc>)
    ensures
        match member_doc_of(detail@) {
            Some(v) => r matches Some(d) && member_doc_view(d) == v,
            None => r is None,
        },
{
    let signature_html = match capture_first("(?s)<div class=\"member-signature\">(.*?)</div>", detail) {
        Some(h) => h,
        None => return None,
    };
    let signature = normalize_doc_text(strip_html_tags(signature_html.as_str()).as_str());
    if signature.as_str().is_empty() {
        return None;
    }
    let description = markdown_if_any(capture_first("(?s)<div class=\"block\">(.*?)</div>", detail));
    let parameter_descriptions = parameter_descriptions(detail);
    let return_description = markdown_if_any(
        capture_first("(?s)<dt>Returns:</dt>\\s*<dd>(.*?)</dd>", detail),
    );
    Some(JavadocMemberDoc { signature, description, parameter_descriptions, return_description })
}

/// The documentation of the detail sections, in order.
pub open spec fn detail_docs(details: Seq<Option<Seq<char>>>) -> Seq<MemberDocView>
    decreases details.len(),
{
    if details.len() == 0 {
        Seq::empty()
    } else {
        let rest = detail_docs(details.drop_last());
        match details.last() {
            Some(d) => match member_doc_of(d) {
                Some(m) => rest.push(m),
                None => rest,
            },
            None => rest,
        }
    }
}

/// The signatures of `member-signature` blocks that have text.
pub open spec fn block_signatures(blocks: Seq<Option<Seq<char>>>) -> Seq<Seq<char>>
    decreases blocks.len(),
{
    if blocks.len() == 0 {
        Seq::empty()
    } else {
        let rest = block_signatures(blocks.drop_last());
        match blocks.last() {
            Some(h) => if doc_text(stripped(h)).len() > 0 {
                rest.push(doc_text(stripped(h)))
            } else {
                rest
            },
            None => rest,
        }
    }
}

/// Text without trailing `c`s.
pub open spec fn without_trailing(s: Seq<char>, c: char) -> Seq<char>
    decreases s.len(),
{
    if s.len() > 0 && s.last() == c {
        without_trailing(s.drop_last(), c)
    } else {
        s
    }
}

/// The member signatures of preformatted blocks, without trailing `;`.
pub open spec fn pre_signatures(blocks: Seq<Option<Seq<char>>>) -> Seq<Seq<char>>
    decreases blocks.len(),
{
    if blocks.len() == 0 {
        Seq::empty()
    } else {
        let rest = pre_signatures(blocks.drop_last());
        match blocks.last() {
            Some(h) => if member_signature(without_trailing(doc_text(stripped(h)), ';')) {
                rest.push(without_trailing(doc_text(stripped(h)), ';'))
            } else {
                rest
            },
            None => rest,
        }
    }
}

/// The member signatures of a page: those of its `member-signature`
/// blocks, else those of its preformatted blocks.
pub open spec fn page_signatures(html: Seq<char>) -> Seq<Seq<char>> {
    let a = block_signatures(first_groups(signature_pattern(), html));
    if a.len() > 0 {
        a
    } else {
        pre_signatures(first_groups(pre_pattern(), html))
    }
}

/// The documented members of a page: those of its detail sections, else its
/// bare signatures.
pub open spec fn page_member_docs(html: Seq<char>) -> Seq<MemberDocView> {
    let a = detail_docs(first_groups(detail_pattern(), html));
    if a.len() > 0 {
        a
    } else {
        page_signatures(html).map_values(
            |s: Seq<char>| (s, None::<Seq<char>>, Seq::<(Seq<char>, Seq<char>)>::empty(), None::<Seq<char>>),
        )
    }
}

fn first_group_views(groups: &Vec<(Option<String>, Option<String>)>) -> (r: Ghost<Seq<Option<Seq<char>>>>)
    ensures
        r@ == groups@.map_values(
            |c: (Option<String>, Option<String>)| (opt_view(c.0), opt_view(c.1)),
        ).map_values(|g: (Option<Seq<char>>, Option<Seq<char>>)| g.0),
        r@.len() == groups.len(),
        forall|i: int| 0 <= i < groups.len() ==> r@[i] == opt_view(#[trigger] groups@[i].0),
{
    Ghost(
        groups@.map_values(
            |c: (Option<String>, Option<String>)| (opt_view(c.0), opt_view(c.1)),
        ).map_values(|g: (Option<Seq<char>>, Option<Seq<char>>)| g.0),
    )
}

fn trim_trailing(s: &str, c: char) -> (r: String)
    ensures
        r@ == without_trailing(s@, c),
{
    let mut v = chars_of(s);
    while v.len() > 0 && v[v.len() - 1] == c
        invariant
            without_trailing(v@, c) == without_trailing(s@, c),
        decreases v.len(),
    {
        let ghost before = v@;
        v.pop();
        assert(v@ =~= before.drop_last());
    }
    string_of(v.as_slice())
}

/// The member signatures of a page.
pub fn extract_javadoc_signatures(html: &str) -> (r: Vec<String>)
    ensures
        texts(r@) == page_signatures(html@),
{
    let blocks = capture_groups("(?s)<div class=\"member-signature\">(.*?)</div>", html);
    let Ghost(bv) = first_group_views(&blocks);
    let mut out: Vec<String> = Vec::new();
    let mut i: usize = 0;
    while i < blocks.len()
        invariant
            bv.len() == blocks.len(),
            forall|k: int| 0 <= k < blocks.len() ==> bv[k] == opt_view(#[trigger] blocks@[k].0),
            i <= blocks.len(),
            texts(out@) == block_signatures(bv.take(i as int)),
        decreases blocks.len() - i,
    {
        assert(bv.take(i + 1).drop_last() =~= bv.take(i as int));
        assert(bv.take(i + 1).last() == bv[i as int]);
        match &blocks[i].0 {
            Some(h) => {
                let t = normalize_doc_text(strip_html_tags(h.as_str()).as_str());
                if !t.as_str().is_empty() {
                    let ghost before = texts(out@);
                    out.push(t);
                    assert(texts(out@) =~= before.push(doc_text(stripped(h@))));
                }
            },
            None => {},
        }
        i += 1;
    }
    assert(bv.take(blocks.len() as int) =~= bv);
    if out.len() > 0 {
        return out;
    }
    let pres = capture_groups("(?s)<pre[^>]*>(.*?)</pre>", html);
    let Ghost(pv) = first_group_views(&pres);
    let mut j: usize = 0;
    while j < pres.len()
        invariant
            pv.len() == pres.len(),
            forall|k: int| 0 <= k < pres.len() ==> pv[k] == opt_view(#[trigger] pres@[k].0),
            j <= pres.len(),
            texts(out@) == pre_signatures(pv.take(j as int)),
        decreases pres.len() - j,
    {
        assert(pv.take(j + 1).drop_last() =~= pv.take(j as int));
        assert(pv.take(j + 1).last() == pv[j as int]);
        match &pres[j].0 {
            Some(h) => {
                let t = normalize_doc_text(strip_html_tags(h.as_str()).as_str());
                let t = trim_trailing(t.as_str(), ';');
                if is_javadoc_member_signature(t.as_str()) {
                    let ghost before = texts(out@);
                    out.push(t);
                    assert(texts(out@) =~= before.push(t@));
                }
            },
            None => {},
        }
        j += 1;
    }
    assert(pv.take(pres.len() as int) =~= pv);
    out
}

/// The documented members of a page, in order.
pub fn extract_javadoc_member_docs(html: &str) -> (r: Vec<JavadocMemberDoc>)
    ensures
        r@.map_values(|d: JavadocMemberDoc| member_doc_view(d)) == page_member_docs(html@),
{
    let details = capture_groups("(?s)<section class=\"detail\"[^>]*>(.*?)</section>", html);
    let Ghost(dv) = first_group_views(&details);
    let mut out: Vec<JavadocMemberDoc> = Vec::new();
    let mut i: usize = 0;
    while i < details.len()
        invariant
            dv.len() == details.len(),
            forall|k: int| 0 <= k < details.len() ==> dv[k] == opt_view(#[trigger] details@[k].0),
            i <= details.len(),
            out@.map_values(|d: JavadocMemberDoc| member_doc_view(d)) == detail_docs(dv.take(i as int)),
        decreases details.len() - i,
    {
        assert(dv.take(i + 1).drop_last() =~= dv.take(i as int));
        assert(dv.take(i + 1).last() == dv[i as int]);
        match &details[i].0 {
            Some(d) => match member_doc(d.as_str()) {
                Some(m) => {
                    let ghost before = out@.map_values(|d: JavadocMemberDoc| member_doc_view(d));
                    let ghost mv = member_doc_view(m);
                    out.push(m);
                    assert(out@.map_values(|d: JavadocMemberDoc| member_doc_view(d)) =~= before.push(mv));
                },
                None => {},
            },
            None => {},
        }
        i += 1;
    }
    assert(dv.take(details.len() as int) =~= dv);
    if out.len() > 0 {
        return out;
    }
    let signatures = extract_javadoc_signatures(html);
    let ghost sv = texts(signatures@);
    let mut k: usize = 0;
    while k < signatures.len()
        invariant
            sv == texts(signatures@),
            sv == page_signatures(html@),
            k <= signatures.len(),
            out@.map_values(|d: JavadocMemberDoc| member_doc_view(d)) == sv.take(k as int).map_values(
                |s: Seq<char>| (s, None::<Seq<char>>, Seq::<(Seq<char>, Seq<char>)>::empty(), None::<Seq<char>>),
            ),
        decreases signatures.len() - k,
    {
        let ghost before = out@.map_values(|d: JavadocMemberDoc| member_doc_view(d));
        let m = JavadocMemberDoc {
            signature: signatures[k].clone(),
            description: None,
            parameter_descriptions: Vec::new(),
            return_description: None,
        };
        assert(pair_views(m.parameter_descriptions@) =~= Seq::<(Seq<char>, Seq<char>)>::empty());
        let ghost mv = member_doc_view(m);
        out.push(m);
        assert(out@.map_values(|d: JavadocMemberDoc| member_doc_view(d)) =~= before.push(mv));
        assert(sv.take(k + 1).map_values(
            |s: Seq<char>| (s, None::<Seq<char>>, Seq::<(Seq<char>, Seq<char>)>::empty(), None::<Seq<char>>),
        ) =~= sv.take(k as int).map_values(
            |s: Seq<char>| (s, None::<Seq<char>>, Seq::<(Seq<char>, Seq<char>)>::empty(), None::<Seq<char>>),
        ).push(mv));
        k += 1;
    }
    assert(sv.take(signatures.len() as int) =~= sv);
    out
}

// ─── Enriching members ───────────────────────────────────────────────────────

/// The position of the first member named `key`, or the number of members.
pub open spec fn first_key(m: Seq<(Seq<char>, JsonView)>, key: Seq<char>) -> int
    decreases m.len(),
{
    if m.len() == 0 {
        0
    } else if m[0].0 == key {
        0
    } else {
        1 + first_key(m.drop_first(), key)
    }
}

/// `first_key` is the first member named `key`, if there is one.
pub proof fn lemma_first_key(m: Seq<(Seq<char>, JsonView)>, key: Seq<char>)
    ensures
        0 <= first_key(m, key) <= m.len(),
        first_key(m, key) < m.len() ==> m[first_key(m, key)].0 == key,
        forall|j: int| 0 <= j < first_key(m, key) ==> (#[trigger] m[j]).0 != key,
    decreases m.len(),
{
    if m.len() > 0 && m[0].0 != key {
        lemma_first_key(m.drop_first(), key);
        assert forall|j: int| 0 <= j < first_key(m, key) implies (#[trigger] m[j]).0 != key by {
            if j > 0 {
                assert(m[j] == m.drop_first()[j - 1]);
            }
        }
    }
}

/// An object with member `key` set to `v`: the first member of that name
/// replaced, else the member added at the end (`value[key] = v`). Other
/// values are left as they are.
pub open spec fn jset(j: JsonView, key: Seq<char>, v: JsonView) -> JsonView {
    match j {
        JsonView::Object(m) => {
            let i = first_key(m, key);
            JsonView::Object(
                if i < m.len() {
                    m.update(i, (key, v))
                } else {
                    m.push((key, v))
                },
            )
        },
        _ => j,
    }
}

fn key_index(members: &Vec<(String, Json)>, key: &str) -> (r: usize)
    ensures
        r == first_key(crate::docs::jmembers(members@), key@),
{
    let ghost m = crate::docs::jmembers(members@);
    proof {
        lemma_first_key(m, key@);
    }
    let mut i: usize = 0;
    while i < members.len()
        invariant
            m == crate::docs::jmembers(members@),
            0 <= first_key(m, key@) <= m.len(),
            first_key(m, key@) < m.len() ==> m[first_key(m, key@)].0 == key@,
            forall|j: int| 0 <= j < first_key(m, key@) ==> (#[trigger] m[j]).0 != key@,
            i <= members.len(),
            forall|k: int| 0 <= k < i ==> (#[trigger] m[k]).0 != key@,
        decreases members.len() - i,
    {
        assert(m[i as int].0 == members@[i as int].0@);
        if str_eq(members[i].0.as_str(), key) {
            return i;
        }
        i += 1;
    }
    i
}

/// Sets member `key` of an object.
pub fn json_set(j: Json, key: &str, v: Json) -> (r: Json)
    ensures
        json_view(r) == jset(json_view(j), key@, json_view(v)),
{
    match j {
        Json::Object(members) => {
            let mut members = members;
            proof {
                crate::docs::lemma_object_view(members);
            }
            let ghost before = crate::docs::jmembers(members@);
            let ghost vv = json_view(v);
            let i = key_index(&members, key);
            if i < members.len() {
                members.set(i, (key.to_owned(), v));
                assert(crate::docs::jmembers(members@) =~= before.update(i as int, (key@, vv)));
            } else {
                members.push((key.to_owned(), v));
                assert(crate::docs::jmembers(members@) =~= before.push((key@, vv)));
            }
            proof {
                crate::docs::lemma_object_view(members);
            }
            Json::Object(members)
        },
        other => other,
    }
}

/// The text of the first member named `key`, if it is a string.
pub open spec fn first_str(m: Seq<(Seq<char>, JsonView)>, key: Seq<char>) -> Option<Seq<char>> {
    let i = first_key(m, key);
    if i < m.len() {
        match m[i].1 {
            JsonView::Str(s) => Some(s),
            _ => None,
        }
    } else {
        None
    }
}

/// The description of the first parameter named `name`.
pub open spec fn first_param(params: Seq<(Seq<char>, Seq<char>)>, name: Seq<char>) -> Option<
    Seq<char>,
>
    decreases params.len(),
{
    if params.len() == 0 {
        None
    } else if params[0].0 == name {
        Some(params[0].1)
    } else {
        first_param(params.drop_first(), name)
    }
}

/// A parameter with the description that the documentation gives for its
/// name, if any.
pub open spec fn described_param(p: JsonView, params: Seq<(Seq<char>, Seq<char>)>) -> JsonView {
    match p {
        JsonView::Object(m) => match first_str(m, "name"@) {
            Some(n) => match first_param(params, n) {
                Some(d) => jset(p, "description"@, JsonView::Str(d)),
                None => p,
            },
            None => p,
        },
        _ => p,
    }
}

/// A member whose `parameters` arrays have their descriptions.
pub open spec fn with_param_docs(j: JsonView, params: Seq<(Seq<char>, Seq<char>)>) -> JsonView {
    match j {
        JsonView::Object(m) => JsonView::Object(
            m.map_values(
                |kv: (Seq<char>, JsonView)|
                    if kv.0 == "parameters"@ && kv.1 is Array {
                        (
                            kv.0,
                            JsonView::Array(
                                kv.1->Array_0.map_values(|p: JsonView| described_param(p, params)),
                            ),
                        )
                    } else {
                        kv
                    },
            ),
        ),
        _ => j,
    }
}

/// A member with what its documentation says: its description, the
/// description of its return value and those of its parameters.
pub open spec fn enriched(j: JsonView, doc: MemberDocView) -> JsonView {
    let a = match doc.1 {
        Some(d) => jset(j, "description"@, JsonView::Str(d)),
        None => j,
    };
    let b = match doc.3 {
        Some(d) => jset(a, "returnDescription"@, JsonView::Str(d)),
        None => a,
    };
    with_param_docs(b, doc.2)
}

fn param_description(params: &Vec<(String, String)>, name: &str) -> (r: Option<String>)
    ensures
        opt_view(r) == first_param(pair_views(params@), name@),
{
    let ghost pv = pair_views(params@);
    let mut i: usize = 0;
    assert(pv.skip(0) =~= pv);
    while i < params.len()
        invariant
            pv == pair_views(params@),
            i <= params.len(),
            first_param(pv, name@) == first_param(pv.skip(i as int), name@),
        decreases params.len() - i,
    {
        assert(pv.skip(i as int)[0] == pv[i as int]);
        assert(pv.skip(i as int).drop_first() =~= pv.skip(i + 1));
        if str_eq(params[i].0.as_str(), name) {
            return Some(params[i].1.clone());
        }
        i += 1;
    }
    None
}

fn describe_param(p: Json, params: &Vec<(String, String)>) -> (r: Json)
    ensures
        json_view(r) == described_param(json_view(p), pair_views(params@)),
{
    let found: Option<String> = match &p {
        Json::Object(members) => {
            proof {
                crate::docs::lemma_object_view(*members);
                lemma_first_key(crate::docs::jmembers(members@), "name"@);
            }
            let i = key_index(members, "name");
            if i < members.len() {
                match &members[i].1 {
                    Json::Str(n) => param_description(params, n.as_str()),
                    _ => None,
                }
            } else {
                None
            }
        },
        _ => None,
    };
    match found {
        Some(d) => json_set(p, "description", Json::Str(d)),
        None => p,
    }
}

fn describe_params(items: Vec<Json>, params: &Vec<(String, String)>) -> (r: Vec<Json>)
    ensures
        crate::java_source::json_views(r@) == crate::java_source::json_views(items@).map_values(
            |p: JsonView| described_param(p, pair_views(params@)),
        ),
{
    let ghost all = items@;
    let mut rest = items;
    let mut out: Vec<Json> = Vec::new();
    let mut k: usize = 0;
    assert(all.skip(0) =~= all);
    assert(all.len() == rest.len());
    while rest.len() > 0
        invariant
            k <= all.len(),
            all.len() <= usize::MAX,
            rest@ == all.skip(k as int),
            out.len() == k,
            forall|i: int| 0 <= i < k ==> json_view(#[trigger] out@[i]) == described_param(
                json_view(all[i]),
                pair_views(params@),
            ),
        decreases rest.len(),
    {
        assert(all.skip(k as int).len() == all.len() - k);
        let x = rest.remove(0);
        assert(x == all[k as int]);
        assert(rest@ =~= all.skip(k + 1));
        out.push(describe_param(x, params));
        k += 1;
    }
    assert(crate::java_source::json_views(out@) =~= crate::java_source::json_views(all).map_values(
        |p: JsonView| described_param(p, pair_views(params@)),
    ));
    out
}

fn add_param_docs(j: Json, params: &Vec<(String, String)>) -> (r: Json)
    ensures
        json_view(r) == with_param_docs(json_view(j), pair_views(params@)),
{
    match j {
        Json::Object(members) => {
            proof {
                crate::docs::lemma_object_view(members);
            }
            let ghost all = members@;
            let ghost target = with_param_docs(json_view(Json::Object(members)), pair_views(params@))->Object_0;
            let mut rest = members;
            let mut out: Vec<(String, Json)> = Vec::new();
            let mut k: usize = 0;
            assert(all.skip(0) =~= all);
            assert(all.len() == rest.len());
            while rest.len() > 0
                invariant
                    k <= all.len(),
                    all.len() <= usize::MAX,
                    rest@ == all.skip(k as int),
                    out.len() == k,
                    target.len() == all.len(),
                    forall|i: int| 0 <= i < all.len() ==> #[trigger] target[i] == (if all[i].0@
                        == "parameters"@ && json_view(all[i].1) is Array {
                        (
                            all[i].0@,
                            JsonView::Array(
                                json_view(all[i].1)->Array_0.map_values(
                                    |p: JsonView| described_param(p, pair_views(params@)),
                                ),
                            ),
                        )
                    } else {
                        (all[i].0@, json_view(all[i].1))
                    }),
                    forall|i: int| 0 <= i < k ==> (out@[i].0@, json_view(#[trigger] out@[i].1))
                        == target[i],
                decreases rest.len(),
            {
                assert(all.skip(k as int).len() == all.len() - k);
                let (key, value) = rest.remove(0);
                assert((key, value) == all[k as int]);
                assert(rest@ =~= all.skip(k + 1));
                let is_params = str_eq(key.as_str(), "parameters");
                match value {
                    Json::Array(items) => {
                        if is_params {
                            proof {
                                crate::docs::lemma_array_view(items);
                            }
                            let described = describe_params(items, params);
                            let a = Json::Array(described);
                            proof {
                                crate::docs::lemma_array_view(described);
                            }
                            out.push((key, a));
                        } else {
                            out.push((key, Json::Array(items)));
                        }
                    },
                    other => {
                        out.push((key, other));
                    },
                }
                k += 1;
            }
            let r = Json::Object(out);
            proof {
                crate::docs::lemma_object_view(out);
                assert(json_view(r)->Object_0 =~= target);
            }
            r
        },
        other => other,
    }
}

/// A member with what its documentation says.
pub open spec fn enriched_member(m: MemberView, doc: MemberDocView) -> MemberView {
    match m {
        MemberView::Field(j) => MemberView::Field(enriched(j, doc)),
        MemberView::Constructor(j) => MemberView::Constructor(enriched(j, doc)),
        MemberView::Method(j) => MemberView::Method(enriched(j, doc)),
    }
}

fn enrich_json(j: Json, doc: &JavadocMemberDoc) -> (r: Json)
    ensures
        json_view(r) == enriched(json_view(j), member_doc_view(*doc)),
{
    let a = match &doc.description {
        Some(d) => json_set(j, "description", Json::Str(d.clone())),
        None => j,
    };
    let b = match &doc.return_description {
        Some(d) => json_set(a, "returnDescription", Json::Str(d.clone())),
        None => a,
    };
    add_param_docs(b, &doc.parameter_descriptions)
}

/// Adds what a member's documentation says to the member.
pub fn enrich_member_with_javadoc(member: &mut DocsMember, doc: &JavadocMemberDoc)
    ensures
        member_view(*final(member)) == enriched_member(member_view(*old(member)), member_doc_view(*doc)),
{
    let mut taken = DocsMember::Field(Json::Null);
    std::mem::swap(&mut taken, member);
    let updated = match taken {
        DocsMember::Field(j) => DocsMember::Field(enrich_json(j, doc)),
        DocsMember::Constructor(j) => DocsMember::Constructor(enrich_json(j, doc)),
        DocsMember::Method(j) => DocsMember::Method(enrich_json(j, doc)),
    };
    *member = updated;
}

// ─── Examples and descriptions ───────────────────────────────────────────────

/// The examples among preformatted blocks: each as a code block of its
/// text, kept when it is not empty, not a member or type signature, and not
/// already kept.
pub open spec fn example_list(blocks: Seq<Option<Seq<char>>>) -> Seq<Seq<char>>
    decreases blocks.len(),
{
    if blocks.len() == 0 {
        Seq::empty()
    } else {
        let rest = example_list(blocks.drop_last());
        match blocks.last() {
            Some(h) => {
                let ex = code_block(stripped(h));
                let n = doc_text(ex);
                if ex.len() > 0 && !member_signature(n) && !type_signature(n) && !rest.contains(ex) {
                    rest.push(ex)
                } else {
                    rest
                }
            },
            None => rest,
        }
    }
}

/// The examples of a page.
pub open spec fn page_examples(html: Seq<char>) -> Seq<Seq<char>> {
    example_list(first_groups(pre_pattern(), html))
}

/// The examples of a page, in order.
pub fn extract_javadoc_examples(html: &str) -> (r: Vec<String>)
    ensures
        texts(r@) == page_examples(html@),
{
    let pres = capture_groups("(?s)<pre[^>]*>(.*?)</pre>", html);
    let Ghost(pv) = first_group_views(&pres);
    let mut out: Vec<String> = Vec::new();
    let mut j: usize = 0;
    while j < pres.len()
        invariant
            pv.len() == pres.len(),
            forall|k: int| 0 <= k < pres.len() ==> pv[k] == opt_view(#[trigger] pres@[k].0),
            j <= pres.len(),
            texts(out@) == example_list(pv.take(j as int)),
        decreases pres.len() - j,
    {
        assert(pv.take(j + 1).drop_last() =~= pv.take(j as int));
        assert(pv.take(j + 1).last() == pv[j as int]);
        match &pres[j].0 {
            Some(h) => {
                let example = normalize_code_block(strip_html_tags(h.as_str()).as_str());
                let normalized = normalize_doc_text(example.as_str());
                assert(crate::directives::strs(out@) =~= texts(out@));
                if !example.as_str().is_empty() && !is_javadoc_member_signature(normalized.as_str())
                    && !is_javadoc_type_signature(normalized.as_str())
                    && !crate::compile::contains_option(&out, example.as_str()) {
                    let ghost before = texts(out@);
                    out.push(example);
                    assert(texts(out@) =~= before.push(example@));
                }
            },
            None => {},
        }
        j += 1;
    }
    assert(pv.take(pres.len() as int) =~= pv);
    out
}

/// The expression for the description section of a type.
pub open spec fn type_description_pattern() -> Seq<char> {
    "(?s)<section[^>]*class=\"[^\"]*(?:class|interface|enum|record)-description[^\"]*\"[^>]*>.*?<div class=\"block\">(.*?)</div>"@
}

/// The expression for an older page's description.
pub open spec fn description_pattern() -> Seq<char> {
    "(?s)<div class=\"description\">.*?<div class=\"block\">(.*?)</div>"@
}

/// The description of the documented type: the Markdown of the first block
/// of its description section, else of the page's description, where not
/// empty.
pub open spec fn type_description_of(html: Seq<char>) -> Option<Seq<char>> {
    match some_markdown(first_capture(type_description_pattern(), html)) {
        Some(m) => Some(m),
        None => some_markdown(first_capture(description_pattern(), html)),
    }
}

/// The description of the type a page documents.
pub fn extract_javadoc_type_description(html: &str) -> (r: Option<String>)
    ensures
        opt_view(r) == type_description_of(html@),
{
    let first = markdown_if_any(capture_first(
        "(?s)<section[^>]*class=\"[^\"]*(?:class|interface|enum|record)-description[^\"]*\"[^>]*>.*?<div class=\"block\">(.*?)</div>",
        html,
    ));
    match first {
        Some(m) => Some(m),
        None => markdown_if_any(
            capture_first("(?s)<div class=\"description\">.*?<div class=\"block\">(.*?)</div>", html),
        ),
    }
}

// ─── Type pages ──────────────────────────────────────────────────────────────

/// Text without every trailing copy of `p` (`str::trim_end_matches`).
pub open spec fn without_suffixes(s: Seq<char>, p: Seq<char>) -> Seq<char>
    decreases s.len(),
{
    if p.len() > 0 && has_suffix(s, p) {
        without_suffixes(s.take(s.len() - p.len()), p)
    } else {
        s
    }
}

/// The qualified name of the type a page documents: its path without
/// `.html`, `/` read as `.`.
pub open spec fn page_qualified_name(path: Seq<char>) -> Seq<char> {
    replace_all(without_suffixes(path, ".html"@), "/"@, "."@)
}

/// The package of a qualified name: what comes before its last `.`.
pub open spec fn name_package(q: Seq<char>) -> Seq<char> {
    match crate::remote::last_index_of(q, '.') {
        Some(i) => q.take(i),
        None => Seq::empty(),
    }
}

/// The simple name of a qualified name: what comes after its last `.`.
pub open spec fn simple_name(q: Seq<char>) -> Seq<char> {
    match crate::remote::last_index_of(q, '.') {
        Some(i) => q.skip(i + 1),
        None => q,
    }
}

/// The kind of the documented type, by what the page's text declares.
pub open spec fn page_kind(text: Seq<char>, name: Seq<char>) -> Seq<char> {
    if crate::text::contains_seq(text, "interface "@ + name) {
        "interface"@
    } else if crate::text::contains_seq(text, "enum "@ + name) {
        "enum"@
    } else if crate::text::contains_seq(text, "record "@ + name) {
        "record"@
    } else {
        "class"@
    }
}

/// Every documented signature can be read as a declaration: it is not too
/// long and its parentheses are in order.
pub open spec fn readable_docs(docs: Seq<MemberDocView>) -> bool {
    forall|i: int|
        0 <= i < docs.len() ==> (#[trigger] docs[i]).0.len() <= i32::MAX && parens_in_order(
            member_declaration_text(docs[i].0),
        )
}

/// A type with the members its documentation declares, each with what its
/// documentation says.
pub open spec fn documented_members(
    t: TypeView,
    docs: Seq<MemberDocView>,
    package: Seq<char>,
    owner: Seq<char>,
) -> TypeView
    decreases docs.len(),
{
    if docs.len() == 0 {
        t
    } else {
        let t0 = documented_members(t, docs.drop_last(), package, owner);
        match member_declaration(docs.last().0, package, owner, Seq::empty()) {
            Some(m) => with_member(t0, enriched_member(m, docs.last())),
            None => t0,
        }
    }
}

/// The type a page documents: public, named after its path, with the
/// page's description, examples and documented members.
pub open spec fn page_type(path: Seq<char>, html: Seq<char>, docs: Seq<MemberDocView>) -> TypeView {
    let q = page_qualified_name(path);
    let package = name_package(q);
    let name = simple_name(q);
    documented_members(
        TypeView {
            kind: page_kind(doc_text(stripped(html)), name),
            name,
            qualified_name: q,
            package,
            visibility: "public"@,
            modifiers: seq!["public"@],
            annotations: Seq::empty(),
            description: type_description_of(html),
            examples: page_examples(html),
            extends: None,
            implements: Seq::empty(),
            fields: Seq::empty(),
            constructors: Seq::empty(),
            methods: Seq::empty(),
        },
        docs,
        package,
        name,
    )
}

/// The JSON of the type a page documents; none where a documented signature
/// cannot be read.
pub open spec fn page_json(path: Seq<char>, html: Seq<char>) -> Option<JsonView> {
    if readable_docs(page_member_docs(html)) {
        Some(type_json(page_type(path, html, page_member_docs(html))))
    } else {
        None
    }
}

fn strip_suffixes(s: &str, p: &str) -> (r: Vec<char>)
    ensures
        r@ == without_suffixes(s@, p@),
{
    let mut v = chars_of(s);
    let pc = chars_of(p);
    while pc.len() > 0 && ends_with(v.as_slice(), pc.as_slice())
        invariant
            pc@ == p@,
            without_suffixes(v@, p@) == without_suffixes(s@, p@),
        decreases v.len(),
    {
        let t = slice_chars(v.as_slice(), 0, v.len() - pc.len());
        assert(t@ =~= v@.take(v.len() - p@.len()));
        v = t;
    }
    v
}

fn docs_readable(docs: &Vec<JavadocMemberDoc>) -> (r: bool)
    ensures
        r == readable_docs(docs@.map_values(|d: JavadocMemberDoc| member_doc_view(d))),
{
    let ghost dv = docs@.map_values(|d: JavadocMemberDoc| member_doc_view(d));
    let mut i: usize = 0;
    while i < docs.len()
        invariant
            dv == docs@.map_values(|d: JavadocMemberDoc| member_doc_view(d)),
            i <= docs.len(),
            forall|k: int|
                0 <= k < i ==> (#[trigger] dv[k]).0.len() <= i32::MAX && parens_in_order(
                    member_declaration_text(dv[k].0),
                ),
        decreases docs.len() - i,
    {
        let c = chars_of(docs[i].signature.as_str());
        assert(dv[i as int].0 == docs@[i as int].signature@);
        if c.len() > 0x7fff_ffff || !declaration_parens_in_order(docs[i].signature.as_str()) {
            return false;
        }
        i += 1;
    }
    true
}

/// The JSON model of the type a Javadoc page documents (see [`page_json`]).
pub fn parse_javadoc_type_page(path: &str, html: &str) -> (r: Option<Json>)
    ensures
        match page_json(path@, html@) {
            Some(v) => r matches Some(j) && json_view(j) == v,
            None => r is None,
        },
{
    let docs = extract_javadoc_member_docs(html);
    let ghost dv = docs@.map_values(|d: JavadocMemberDoc| member_doc_view(d));
    if !docs_readable(&docs) {
        return None;
    }
    proof {
        reveal_strlit("/");
        reveal_strlit(".");
    }
    let base = strip_suffixes(path, ".html");
    let q = string_of(replace_text(base, "/", ".").as_slice());
    let qc = chars_of(q.as_str());
    proof {
        crate::remote::lemma_last_index_of(q@, '.');
    }
    let (package, name) = match crate::text::rfind_char(qc.as_slice(), '.') {
        Some(i) => {
            proof {
                match crate::remote::last_index_of(q@, '.') {
                    Some(li) => {
                        if li < i {
                            assert(q@[i as int] == '.');
                        } else if li > i {
                            assert(q@[li] == '.');
                        }
                    },
                    None => {
                        assert(q@[i as int] == '.');
                    },
                }
            }
            assert(i < qc.len());
            let p = slice_chars(qc.as_slice(), 0, i);
            let n = slice_chars(qc.as_slice(), i + 1, qc.len());
            assert(p@ =~= q@.take(i as int));
            assert(n@ =~= q@.skip(i + 1));
            (string_of(p.as_slice()), string_of(n.as_slice()))
        },
        None => {
            proof {
                if let Some(li) = crate::remote::last_index_of(q@, '.') {
                    assert(q@[li] == '.');
                    assert(qc@.contains('.'));
                }
            }
            (String::new(), q.clone())
        },
    };
    let text = normalize_doc_text(strip_html_tags(html).as_str());
    let kind = page_kind_text(text.as_str(), name.as_str());
    let description = extract_javadoc_type_description(html);
    let examples = extract_javadoc_examples(html);
    let mut modifiers: Vec<String> = Vec::new();
    modifiers.push("public".to_owned());
    let mut builder = DocsTypeBuilder {
        kind,
        name: name.clone(),
        qualified_name: q,
        package: package.clone(),
        visibility: "public".to_owned(),
        modifiers,
        annotations: Vec::new(),
        description,
        examples,
        extends: None,
        implements: Vec::new(),
        fields: Vec::new(),
        constructors: Vec::new(),
        methods: Vec::new(),
    };
    let ghost base_view = builder@;
    assert(base_view.modifiers =~= seq!["public"@]);
    assert(base_view.annotations =~= Seq::<JsonView>::empty());
    assert(base_view.implements =~= Seq::<Seq<char>>::empty());
    assert(base_view.fields =~= Seq::<JsonView>::empty());
    assert(base_view.constructors =~= Seq::<JsonView>::empty());
    assert(base_view.methods =~= Seq::<JsonView>::empty());
    let mut i: usize = 0;
    while i < docs.len()
        invariant
            dv == docs@.map_values(|d: JavadocMemberDoc| member_doc_view(d)),
            readable_docs(dv),
            i <= docs.len(),
            builder@ == documented_members(base_view, dv.take(i as int), package@, name@),
        decreases docs.len() - i,
    {
        assert(dv.take(i + 1).drop_last() =~= dv.take(i as int));
        assert(dv.take(i + 1).last() == dv[i as int]);
        assert(dv[i as int].0 == docs@[i as int].signature@);
        assert(dv[i as int].0.len() <= i32::MAX);
        let annotations: Vec<Json> = Vec::new();
        assert(annotations@.map_values(|j: Json| json_view(j)) =~= Seq::<JsonView>::empty());
        match parse_member_declaration(docs[i].signature.as_str(), package.as_str(), name.as_str(), annotations) {
            Some(m) => {
                let mut m = m;
                enrich_member_with_javadoc(&mut m, &docs[i]);
                builder.push_member(m);
            },
            None => {},
        }
        i += 1;
    }
    assert(dv.take(docs.len() as int) =~= dv);
    Some(builder.into_json())
}

fn page_kind_text(text: &str, name: &str) -> (r: String)
    ensures
        r@ == page_kind(text@, name@),
{
    let c = chars_of(text);
    let mut interface = "interface ".to_owned();
    interface.append(name);
    let mut enum_ = "enum ".to_owned();
    enum_.append(name);
    let mut record = "record ".to_owned();
    record.append(name);
    if crate::text::contains(c.as_slice(), chars_of(interface.as_str()).as_slice()) {
        "interface".to_owned()
    } else if crate::text::contains(c.as_slice(), chars_of(enum_.as_str()).as_slice()) {
        "enum".to_owned()
    } else if crate::text::contains(c.as_slice(), chars_of(record.as_str()).as_slice()) {
        "record".to_owned()
    } else {
        "class".to_owned()
    }
}

} // verus!
