//! Java declarations read from source text for `docs`: words, type names,
//! modifiers and the pieces of a signature.
use vstd::prelude::*;
use crate::catalog::{json_view, Json, JsonView};
use crate::directives::{lines_of, lines_spec};
use crate::docs::{jmembers, jstrs, non_empty, split_ws_words, ws_words};
use crate::remote::{index_of_any, last_index_of};
use crate::resolver::trim_end_char;
use crate::text::{
    chars_of, decimal, decimal_string, has_prefix, has_suffix, is_whitespace, is_ws, slice_chars,
    str_eq, string_of, trim, trim_chars, trim_start, trim_start_chars,
};

verus! {

// ─── Trimming characters ─────────────────────────────────────────────────────

/// `s` without its leading `c` characters.
pub open spec fn trim_start_char(s: Seq<char>, c: char) -> Seq<char>
    decreases s.len(),
{
    if s.len() > 0 && s[0] == c {
        trim_start_char(s.drop_first(), c)
    } else {
        s
    }
}

fn trim_start_c(s: &[char], c: char) -> (r: Vec<char>)
    ensures
        r@ == trim_start_char(s@, c),
{
    let mut i: usize = 0;
    assert(s@.skip(0) =~= s@);
    while i < s.len() && s[i] == c
        invariant
            i <= s.len(),
            trim_start_char(s@, c) == trim_start_char(s@.skip(i as int), c),
        decreases s.len() - i,
    {
        assert(s@.skip(i as int).drop_first() =~= s@.skip(i + 1));
        i += 1;
    }
    let r = slice_chars(s, i, s.len());
    assert(r@ =~= s@.skip(i as int));
    r
}

fn trim_end_c(s: &[char], c: char) -> (r: Vec<char>)
    ensures
        r@ == trim_end_char(s@, c),
{
    let mut i: usize = s.len();
    assert(s@.take(s.len() as int) =~= s@);
    while i > 0 && s[i - 1] == c
        invariant
            i <= s.len(),
            trim_end_char(s@, c) == trim_end_char(s@.take(i as int), c),
        decreases i,
    {
        assert(s@.take(i as int).drop_last() =~= s@.take(i - 1));
        i -= 1;
    }
    let r = slice_chars(s, 0, i);
    assert(r@ =~= s@.take(i as int));
    r
}

// ─── Words ───────────────────────────────────────────────────────────────────

/// A word without the commas around it.
pub open spec fn without_commas(w: Seq<char>) -> Seq<char> {
    trim_end_char(trim_start_char(w, ','), ',')
}

/// The views of strings.
pub open spec fn texts(v: Seq<String>) -> Seq<Seq<char>> {
    v.map_values(|s: String| s@)
}

/// The words of a declaration: split at white space, commas around each
/// word dropped, empty words left out.
pub open spec fn java_words(s: Seq<char>) -> Seq<Seq<char>> {
    non_empty(ws_words(s).map_values(|w: Seq<char>| without_commas(w)))
}

/// Splits a declaration into its words.
pub fn split_java_words(input: &str) -> (r: Vec<String>)
    ensures
        texts(r@) == java_words(input@),
{
    let words = split_ws_words(input);
    let ghost ws = texts(words@);
    assert(ws == ws_words(input@));
    let ghost mapped = ws.map_values(|w: Seq<char>| without_commas(w));
    let mut out: Vec<String> = Vec::new();
    let mut i: usize = 0;
    while i < words.len()
        invariant
            ws == texts(words@),
            mapped == ws.map_values(|w: Seq<char>| without_commas(w)),
            i <= words.len(),
            texts(out@) == non_empty(mapped.take(i as int)),
        decreases words.len() - i,
    {
        assert(mapped.take(i + 1).drop_last() =~= mapped.take(i as int));
        assert(mapped.take(i + 1).last() == without_commas(words@[i as int]@));
        let c = chars_of(words[i].as_str());
        let a = trim_start_c(c.as_slice(), ',');
        let b = trim_end_c(a.as_slice(), ',');
        if b.len() > 0 {
            let ghost before = texts(out@);
            out.push(string_of(b.as_slice()));
            assert(texts(out@) =~= before.push(b@));
        }
        i += 1;
    }
    assert(mapped.take(words.len() as int) =~= mapped);
    out
}

/// The state of splitting at top-level commas: the pieces so far, the piece
/// being read, and the depths of `<>` and `()` nesting.
pub type CommaState = (Seq<Seq<char>>, Seq<char>, int, int);

/// Reads one character of a comma-separated list.
pub open spec fn comma_step(st: CommaState, ch: char) -> CommaState {
    let (parts, cur, angle, paren) = st;
    if ch == '<' {
        (parts, cur.push(ch), angle + 1, paren)
    } else if ch == '>' {
        (parts, cur.push(ch), angle - 1, paren)
    } else if ch == '(' {
        (parts, cur.push(ch), angle, paren + 1)
    } else if ch == ')' {
        (parts, cur.push(ch), angle, paren - 1)
    } else if ch == ',' && angle == 0 && paren == 0 {
        (parts.push(trim(cur)), Seq::empty(), angle, paren)
    } else {
        (parts, cur.push(ch), angle, paren)
    }
}

/// The state after reading `s`.
pub open spec fn comma_state(s: Seq<char>) -> CommaState
    decreases s.len(),
{
    if s.len() == 0 {
        (Seq::empty(), Seq::empty(), 0, 0)
    } else {
        comma_step(comma_state(s.drop_last()), s.last())
    }
}

/// The pieces of a list between commas outside `<>` and `()`, trimmed,
/// empty ones left out.
pub open spec fn java_comma_parts(s: Seq<char>) -> Seq<Seq<char>> {
    let st = comma_state(s);
    non_empty(st.0.push(trim(st.1)))
}

/// Splits a list of parameters or types at its top-level commas.
pub fn split_java_commas(input: &str) -> (r: Vec<String>)
    requires
        input@.len() <= i32::MAX,
    ensures
        texts(r@) == java_comma_parts(input@),
{
    let c = chars_of(input);
    let mut parts: Vec<String> = Vec::new();
    let mut cur: Vec<char> = Vec::new();
    let mut angle: i64 = 0;
    let mut paren: i64 = 0;
    let mut i: usize = 0;
    while i < c.len()
        invariant
            c@ == input@,
            c.len() <= i32::MAX,
            i <= c.len(),
            -(i as int) <= angle <= i,
            -(i as int) <= paren <= i,
            (texts(parts@), cur@, angle as int, paren as int) == comma_state(input@.take(i as int)),
        decreases c.len() - i,
    {
        assert(input@.take(i + 1).drop_last() =~= input@.take(i as int));
        assert(input@.take(i + 1).last() == c@[i as int]);
        let ch = c[i];
        if ch == '<' {
            cur.push(ch);
            angle = angle + 1;
        } else if ch == '>' {
            cur.push(ch);
            angle = angle - 1;
        } else if ch == '(' {
            cur.push(ch);
            paren = paren + 1;
        } else if ch == ')' {
            cur.push(ch);
            paren = paren - 1;
        } else if ch == ',' && angle == 0 && paren == 0 {
            let ghost before = texts(parts@);
            let t = trim_chars(cur.as_slice());
            parts.push(string_of(t.as_slice()));
            assert(texts(parts@) =~= before.push(trim(cur@)));
            cur = Vec::new();
        } else {
            cur.push(ch);
        }
        i += 1;
    }
    assert(input@.take(c.len() as int) =~= input@);
    let ghost before = texts(parts@);
    let t = trim_chars(cur.as_slice());
    parts.push(string_of(t.as_slice()));
    assert(texts(parts@) =~= before.push(trim(cur@)));
    let ghost all = texts(parts@);
    let mut out: Vec<String> = Vec::new();
    let mut k: usize = 0;
    while k < parts.len()
        invariant
            all == texts(parts@),
            k <= parts.len(),
            texts(out@) == non_empty(all.take(k as int)),
        decreases parts.len() - k,
    {
        assert(all.take(k + 1).drop_last() =~= all.take(k as int));
        assert(all.take(k + 1).last() == parts@[k as int]@);
        if !parts[k].as_str().is_empty() {
            let ghost b = texts(out@);
            out.push(parts[k].clone());
            assert(texts(out@) =~= b.push(parts@[k as int]@));
        }
        k += 1;
    }
    assert(all.take(parts.len() as int) =~= all);
    out
}

// ─── Modifiers and visibility ────────────────────────────────────────────────

/// The Java modifiers.
pub open spec fn java_modifiers() -> Seq<Seq<char>> {
    seq![
        "public"@,
        "protected"@,
        "private"@,
        "static"@,
        "final"@,
        "abstract"@,
        "default"@,
        "sealed"@,
        "non-sealed"@,
        "synchronized"@,
        "native"@,
        "strictfp"@,
    ]
}

/// Whether a word is one of `words`.
fn one_of(word: &str, words: &[&str]) -> (r: bool)
    ensures
        r == exists|i: int| 0 <= i < words@.len() && word@ == (#[trigger] words@[i])@,
{
    let mut i: usize = 0;
    while i < words.len()
        invariant
            i <= words.len(),
            forall|k: int| 0 <= k < i ==> word@ != (#[trigger] words@[k])@,
        decreases words.len() - i,
    {
        if str_eq(word, words[i]) {
            return true;
        }
        i += 1;
    }
    false
}

/// Whether a word is a Java modifier.
pub fn is_java_modifier(token: &str) -> (r: bool)
    ensures
        r == java_modifiers().contains(token@),
{
    let words = [
        "public",
        "protected",
        "private",
        "static",
        "final",
        "abstract",
        "default",
        "sealed",
        "non-sealed",
        "synchronized",
        "native",
        "strictfp",
    ];
    let r = one_of(token, &words);
    proof {
        assert(words@.map_values(|w: &str| w@) =~= java_modifiers());
        if r {
            let i = choose|i: int| 0 <= i < words@.len() && token@ == (#[trigger] words@[i])@;
            assert(java_modifiers()[i] == words@[i]@);
        } else if java_modifiers().contains(token@) {
            let i = choose|i: int| 0 <= i < java_modifiers().len() && java_modifiers()[i] == token@;
            assert(java_modifiers()[i] == words@[i]@);
        }
    }
    r
}

/// The modifiers among the words, in order.
pub open spec fn modifiers_of(tokens: Seq<Seq<char>>) -> Seq<Seq<char>>
    decreases tokens.len(),
{
    if tokens.len() == 0 {
        Seq::empty()
    } else if java_modifiers().contains(tokens.last()) {
        modifiers_of(tokens.drop_last()).push(tokens.last())
    } else {
        modifiers_of(tokens.drop_last())
    }
}

/// The modifiers among the words of a declaration.
pub fn parse_modifiers(tokens: &[String]) -> (r: Vec<String>)
    ensures
        texts(r@) == modifiers_of(texts(tokens@)),
{
    let ghost ts = texts(tokens@);
    let mut out: Vec<String> = Vec::new();
    let mut i: usize = 0;
    while i < tokens.len()
        invariant
            ts == texts(tokens@),
            i <= tokens.len(),
            texts(out@) == modifiers_of(ts.take(i as int)),
        decreases tokens.len() - i,
    {
        assert(ts.take(i + 1).drop_last() =~= ts.take(i as int));
        assert(ts.take(i + 1).last() == tokens@[i as int]@);
        if is_java_modifier(tokens[i].as_str()) {
            let ghost before = texts(out@);
            out.push(tokens[i].clone());
            assert(texts(out@) =~= before.push(tokens@[i as int]@));
        }
        i += 1;
    }
    assert(ts.take(tokens.len() as int) =~= ts);
    out
}

/// The visibility that the words give: `public`, `protected` or `private`
/// in that order of precedence, else `package`.
pub open spec fn visibility_of(tokens: Seq<Seq<char>>) -> Seq<char> {
    if tokens.contains("public"@) {
        "public"@
    } else if tokens.contains("protected"@) {
        "protected"@
    } else if tokens.contains("private"@) {
        "private"@
    } else {
        "package"@
    }
}

fn has_token(tokens: &[String], word: &str) -> (r: bool)
    ensures
        r == texts(tokens@).contains(word@),
{
    let mut i: usize = 0;
    while i < tokens.len()
        invariant
            i <= tokens.len(),
            forall|k: int| 0 <= k < i ==> texts(tokens@)[k] != word@,
        decreases tokens.len() - i,
    {
        if str_eq(tokens[i].as_str(), word) {
            assert(texts(tokens@)[i as int] == word@);
            return true;
        }
        i += 1;
    }
    false
}

/// The visibility of a declaration.
pub fn parse_visibility(tokens: &[String]) -> (r: String)
    ensures
        r@ == visibility_of(texts(tokens@)),
{
    if has_token(tokens, "public") {
        "public".to_owned()
    } else if has_token(tokens, "protected") {
        "protected".to_owned()
    } else if has_token(tokens, "private") {
        "private".to_owned()
    } else {
        "package".to_owned()
    }
}

// ─── Type names ──────────────────────────────────────────────────────────────

/// A name in a package: `package.name`, or the name alone when the package
/// is empty or the name has a dot.
pub open spec fn qualified(package: Seq<char>, name: Seq<char>) -> Seq<char> {
    if package.len() == 0 || name.contains('.') {
        name
    } else {
        package + "."@ + name
    }
}

/// Qualifies a name with its package.
pub fn qualify_name(package: &str, name: &str) -> (r: String)
    ensures
        r@ == qualified(package@, name@),
{
    let n = chars_of(name);
    if package.is_empty() || crate::text::contains_char(n.as_slice(), '.') {
        name.to_owned()
    } else {
        let mut out = package.to_owned();
        out.append(".");
        out.append(name);
        out
    }
}

/// The spacing state: the text so far and whether it ends in an inserted
/// space.
pub open spec fn spacing_step(st: (Seq<char>, bool), ch: char) -> (Seq<char>, bool) {
    let (out, prev) = st;
    if ch == '<' || ch == '>' || ch == '[' || ch == ']' {
        (trim_end_char(out, ' ').push(ch), false)
    } else if ch == ',' {
        (trim_end_char(out, ' ').push(',').push(' '), true)
    } else if is_ws(ch) {
        if out.len() > 0 && !prev && out.last() != '<' && out.last() != '[' {
            (out.push(' '), true)
        } else {
            (out, prev)
        }
    } else {
        (out.push(ch), false)
    }
}

/// The spacing state after reading `s`.
pub open spec fn spacing_state(s: Seq<char>) -> (Seq<char>, bool)
    decreases s.len(),
{
    if s.len() == 0 {
        (Seq::empty(), false)
    } else {
        spacing_step(spacing_state(s.drop_last()), s.last())
    }
}

/// A type written with canonical spacing: none around `<`, `>`, `[` and `]`,
/// one space after each comma, single spaces elsewhere, trimmed.
pub open spec fn type_spacing(s: Seq<char>) -> Seq<char> {
    trim(spacing_state(s).0)
}

/// Writes a type with canonical spacing.
pub fn normalize_java_type_spacing(input: &str) -> (r: String)
    ensures
        r@ == type_spacing(input@),
{
    let c = chars_of(input);
    let mut out: Vec<char> = Vec::new();
    let mut prev = false;
    let mut i: usize = 0;
    while i < c.len()
        invariant
            c@ == input@,
            i <= c.len(),
            (out@, prev) == spacing_state(input@.take(i as int)),
        decreases c.len() - i,
    {
        assert(input@.take(i + 1).drop_last() =~= input@.take(i as int));
        assert(input@.take(i + 1).last() == c@[i as int]);
        let ch = c[i];
        if ch == '<' || ch == '>' || ch == '[' || ch == ']' {
            out = trim_end_c(out.as_slice(), ' ');
            out.push(ch);
            prev = false;
        } else if ch == ',' {
            out = trim_end_c(out.as_slice(), ' ');
            out.push(',');
            out.push(' ');
            prev = true;
        } else if is_whitespace(ch) {
            if out.len() > 0 && !prev && out[out.len() - 1] != '<' && out[out.len() - 1] != '[' {
                out.push(' ');
                prev = true;
            }
        } else {
            out.push(ch);
            prev = false;
        }
        i += 1;
    }
    assert(input@.take(c.len() as int) =~= input@);
    let t = trim_chars(out.as_slice());
    string_of(t.as_slice())
}

/// A type variable: one ASCII capital letter, after trimming.
pub open spec fn type_variable(name: Seq<char>) -> bool {
    trim(name).len() == 1 && 'A' <= trim(name)[0] <= 'Z'
}

/// Whether a name is a type variable.
pub fn is_type_variable(name: &str) -> (r: bool)
    ensures
        r == type_variable(name@),
{
    let t = trim_chars(chars_of(name).as_slice());
    t.len() == 1 && 'A' <= t[0] && t[0] <= 'Z'
}

/// An exception or error named without its package.
pub open spec fn unqualified_throwable(name: Seq<char>) -> bool {
    !name.contains('.') && (has_suffix(name, "Exception"@) || has_suffix(name, "Error"@))
}

/// Whether a name is an exception or error without its package.
pub fn is_unqualified_exception_or_error(name: &str) -> (r: bool)
    ensures
        r == unqualified_throwable(name@),
{
    let n = chars_of(name);
    let exc = chars_of("Exception");
    let err = chars_of("Error");
    !crate::text::contains_char(n.as_slice(), '.') && (crate::text::ends_with(
        n.as_slice(),
        exc.as_slice(),
    ) || crate::text::ends_with(n.as_slice(), err.as_slice()))
}

/// Types of the JDK that are left unqualified.
pub open spec fn common_jdk_types() -> Seq<Seq<char>> {
    seq![
        "File"@,
        "InputStream"@,
        "OutputStream"@,
        "Reader"@,
        "Writer"@,
        "DataInput"@,
        "DataOutput"@,
        "IOException"@,
        "URL"@,
        "URI"@,
        "List"@,
        "Set"@,
        "Map"@,
        "Collection"@,
        "Iterable"@,
        "Iterator"@,
        "ConcurrentHashMap"@,
    ]
}

/// The primitive types.
pub open spec fn primitive_types() -> Seq<Seq<char>> {
    seq!["boolean"@, "byte"@, "char"@, "short"@, "int"@, "long"@, "float"@, "double"@]
}

/// The types of `java.lang` that are named without their package.
pub open spec fn java_lang_types() -> Seq<Seq<char>> {
    seq![
        "String"@,
        "Object"@,
        "Class"@,
        "Integer"@,
        "Long"@,
        "Boolean"@,
        "Double"@,
        "Float"@,
        "Short"@,
        "Byte"@,
        "Character"@,
        "ClassLoader"@,
        "Throwable"@,
        "Exception"@,
        "RuntimeException"@,
        "IllegalArgumentException"@,
        "Deprecated"@,
        "Override"@,
        "SuppressWarnings"@,
        "FunctionalInterface"@,
    ]
}

fn in_list(name: &str, words: &[&str], ghost_list: Ghost<Seq<Seq<char>>>) -> (r: bool)
    requires
        words@.map_values(|w: &str| w@) == ghost_list@,
    ensures
        r == ghost_list@.contains(name@),
{
    let r = one_of(name, words);
    proof {
        let l = ghost_list@;
        if r {
            let i = choose|i: int| 0 <= i < words@.len() && name@ == (#[trigger] words@[i])@;
            assert(l[i] == words@[i]@);
        } else if l.contains(name@) {
            let i = choose|i: int| 0 <= i < l.len() && l[i] == name@;
            assert(l[i] == words@[i]@);
        }
    }
    r
}

/// Whether a simple name is one of the JDK types left unqualified.
pub fn is_common_jdk_simple_type(name: &str) -> (r: bool)
    ensures
        r == common_jdk_types().contains(name@),
{
    let words = [
        "File",
        "InputStream",
        "OutputStream",
        "Reader",
        "Writer",
        "DataInput",
        "DataOutput",
        "IOException",
        "URL",
        "URI",
        "List",
        "Set",
        "Map",
        "Collection",
        "Iterable",
        "Iterator",
        "ConcurrentHashMap",
    ];
    assert(words@.map_values(|w: &str| w@) =~= common_jdk_types());
    in_list(name, &words, Ghost(common_jdk_types()))
}

/// Whether a name is a primitive type.
pub fn is_primitive_type(name: &str) -> (r: bool)
    ensures
        r == primitive_types().contains(name@),
{
    let words = ["boolean", "byte", "char", "short", "int", "long", "float", "double"];
    assert(words@.map_values(|w: &str| w@) =~= primitive_types());
    in_list(name, &words, Ghost(primitive_types()))
}

/// Whether a simple name is a type of `java.lang`.
pub fn is_java_lang_type(name: &str) -> (r: bool)
    ensures
        r == java_lang_types().contains(name@),
{
    let words = [
        "String",
        "Object",
        "Class",
        "Integer",
        "Long",
        "Boolean",
        "Double",
        "Float",
        "Short",
        "Byte",
        "Character",
        "ClassLoader",
        "Throwable",
        "Exception",
        "RuntimeException",
        "IllegalArgumentException",
        "Deprecated",
        "Override",
        "SuppressWarnings",
        "FunctionalInterface",
    ];
    assert(words@.map_values(|w: &str| w@) =~= java_lang_types());
    in_list(name, &words, Ghost(java_lang_types()))
}

/// `s` without its trailing copies of `p` (`str::trim_end_matches`).
pub open spec fn trim_end_str(s: Seq<char>, p: Seq<char>) -> Seq<char>
    decreases s.len(),
{
    if p.len() > 0 && has_suffix(s, p) {
        trim_end_str(s.take(s.len() - p.len()), p)
    } else {
        s
    }
}

fn trim_end_dots(s: &[char]) -> (r: Vec<char>)
    ensures
        r@ == trim_end_str(s@, "..."@),
{
    proof {
        reveal_strlit("...");
    }
    let dots = chars_of("...");
    let mut i: usize = s.len();
    assert(s@.take(s.len() as int) =~= s@);
    loop
        invariant
            dots@ == "..."@,
            i <= s.len(),
            trim_end_str(s@, "..."@) == trim_end_str(s@.take(i as int), "..."@),
        ensures
            trim_end_str(s@, "..."@) == s@.take(i as int),
        decreases i,
    {
        proof {
            reveal_strlit("...");
        }
        let head = slice_chars(s, 0, i);
        assert(head@ =~= s@.take(i as int));
        if i < 3 || !crate::text::ends_with(head.as_slice(), dots.as_slice()) {
            assert(!has_suffix(s@.take(i as int), "..."@));
            break;
        }
        assert(has_suffix(s@.take(i as int), "..."@));
        assert(s@.take(i as int).take(i - 3) =~= s@.take(i - 3));
        i -= 3;
    }
    slice_chars(s, 0, i)
}

/// The simple part of a type: without trailing `...`, before any `<` or
/// `[`, trimmed.
pub open spec fn type_base(name: Seq<char>) -> Seq<char> {
    let t = trim_end_str(name, "..."@);
    trim(t.take(index_of_any(t, seq!['<', '['])))
}

/// A type as `docs` writes it: with canonical spacing and without trailing
/// commas; `java.lang.` dropped; qualified with the package unless it is
/// empty, `void`, a type variable, primitive, of `java.lang`, a common JDK
/// type, an exception or error, or already has a dot or type arguments.
pub open spec fn qualified_type(package: Seq<char>, name: Seq<char>) -> Seq<char> {
    let n = type_spacing(trim_end_char(trim(name), ','));
    if has_prefix(n, "java.lang."@) {
        n.skip(10)
    } else {
        let base = type_base(n);
        if n.len() == 0 || n == "void"@ || type_variable(n) || primitive_types().contains(base)
            || java_lang_types().contains(base) || common_jdk_types().contains(base)
            || unqualified_throwable(base) || n.contains('.') || n.contains('<') {
            n
        } else {
            qualified(package, n)
        }
    }
}

/// Qualifies a type with the package of the declaration it appears in.
pub fn qualify_type(package: &str, name: &str) -> (r: String)
    ensures
        r@ == qualified_type(package@, name@),
{
    let t = trim_chars(chars_of(name).as_slice());
    let t2 = trim_end_c(t.as_slice(), ',');
    let n = normalize_java_type_spacing(string_of(t2.as_slice()).as_str());
    let nc = chars_of(n.as_str());
    let lang = chars_of("java.lang.");
    proof {
        reveal_strlit("java.lang.");
    }
    if crate::text::starts_with(nc.as_slice(), lang.as_slice()) {
        return string_of(slice_chars(nc.as_slice(), 10, nc.len()).as_slice());
    }
    let undotted = trim_end_dots(nc.as_slice());
    let stops = vec!['<', '['];
    assert(stops@ =~= seq!['<', '[']);
    let cut = crate::remote::first_of_any(undotted.as_slice(), stops.as_slice());
    proof {
        crate::remote::lemma_index_of_any(undotted@, stops@);
    }
    let head = slice_chars(undotted.as_slice(), 0, cut);
    let base_chars = trim_chars(head.as_slice());
    let base = string_of(base_chars.as_slice());
    assert(head@ =~= undotted@.take(cut as int));
    assert(base@ == type_base(n@));
    if n.as_str().is_empty() || str_eq(n.as_str(), "void") || is_type_variable(n.as_str())
        || is_primitive_type(base.as_str()) || is_java_lang_type(base.as_str())
        || is_common_jdk_simple_type(base.as_str()) || is_unqualified_exception_or_error(
        base.as_str(),
    ) || crate::text::contains_char(nc.as_slice(), '.') || crate::text::contains_char(
        nc.as_slice(),
        '<',
    ) {
        n
    } else {
        qualify_name(package, n.as_str())
    }
}

// ─── Pieces of declarations ──────────────────────────────────────────────────

/// The position of the first white space in `s`, if any.
pub open spec fn first_ws(s: Seq<char>) -> Option<int>
    decreases s.len(),
{
    if s.len() == 0 {
        None
    } else if is_ws(s[0]) {
        Some(0)
    } else {
        match first_ws(s.drop_first()) {
            Some(i) => Some(i + 1),
            None => None,
        }
    }
}

proof fn lemma_first_ws(s: Seq<char>)
    ensures
        match first_ws(s) {
            Some(i) => 0 <= i < s.len() && is_ws(s[i]) && forall|j: int| 0 <= j < i ==> !is_ws(#[trigger] s[j]),
            None => forall|j: int| 0 <= j < s.len() ==> !is_ws(#[trigger] s[j]),
        },
    decreases s.len(),
{
    if s.len() > 0 && !is_ws(s[0]) {
        lemma_first_ws(s.drop_first());
        assert forall|j: int| 0 < j < s.len() implies s[j] == s.drop_first()[j - 1] by {}
    }
}

fn find_ws(s: &[char]) -> (r: Option<usize>)
    ensures
        match first_ws(s@) {
            Some(i) => r == Some(i as usize),
            None => r is None,
        },
{
    let mut i: usize = 0;
    while i < s.len()
        invariant
            i <= s.len(),
            forall|j: int| 0 <= j < i ==> !is_ws(#[trigger] s@[j]),
        decreases s.len() - i,
    {
        if is_whitespace(s[i]) {
            proof {
                lemma_first_ws(s@);
                match first_ws(s@) {
                    Some(k) => {
                        if k < i {
                            assert(!is_ws(s@[k]));
                        }
                        if k > i {
                            assert(!is_ws(s@[i as int]));
                        }
                    },
                    None => {
                        assert(!is_ws(s@[i as int]));
                    },
                }
            }
            return Some(i);
        }
        i += 1;
    }
    proof {
        lemma_first_ws(s@);
        match first_ws(s@) {
            Some(k) => {
                assert(!is_ws(s@[k]));
            },
            None => {},
        }
    }
    None
}

/// The declaration without its leading modifiers.
pub open spec fn without_modifiers(rest: Seq<char>) -> Seq<char>
    decreases rest.len(),
{
    match first_ws(rest) {
        None => rest,
        Some(i) => {
            if 0 <= i < rest.len() && java_modifiers().contains(rest.take(i)) {
                proof {
                    lemma_trim_start_shorter(rest.skip(i + 1));
                }
                without_modifiers(trim_start(rest.skip(i + 1)))
            } else {
                rest
            }
        },
    }
}

pub proof fn lemma_trim_start_shorter(s: Seq<char>)
    ensures
        trim_start(s).len() <= s.len(),
    decreases s.len(),
{
    if s.len() > 0 && is_ws(s[0]) {
        lemma_trim_start_shorter(s.drop_first());
    }
}

proof fn lemma_trim_end_shorter(s: Seq<char>)
    ensures
        crate::text::trim_end(s).len() <= s.len(),
    decreases s.len(),
{
    if s.len() > 0 && is_ws(s.last()) {
        lemma_trim_end_shorter(s.drop_last());
    }
}

proof fn lemma_trim_shorter(s: Seq<char>)
    ensures
        trim(s).len() <= s.len(),
{
    lemma_trim_start_shorter(s);
    lemma_trim_end_shorter(trim_start(s));
}

/// Drops the leading modifiers of a declaration.
pub fn strip_leading_modifiers(input: &str) -> (r: String)
    ensures
        r@ == without_modifiers(trim(input@)),
{
    let mut rest = trim_chars(chars_of(input).as_slice());
    let ghost start = rest@;
    loop
        invariant
            without_modifiers(start) == without_modifiers(rest@),
        ensures
            without_modifiers(start) == rest@,
        decreases rest.len(),
    {
        proof {
            lemma_first_ws(rest@);
        }
        let i = match find_ws(rest.as_slice()) {
            Some(i) => i,
            None => {
                break;
            },
        };
        let candidate = string_of(slice_chars(rest.as_slice(), 0, i).as_slice());
        assert(candidate@ =~= rest@.take(i as int));
        if !is_java_modifier(candidate.as_str()) {
            break;
        }
        let tail = slice_chars(rest.as_slice(), i + 1, rest.len());
        let next = trim_start_chars(tail.as_slice());
        proof {
            lemma_trim_start_shorter(tail@);
            assert(tail@ =~= rest@.skip(i + 1));
        }
        rest = next;
    }
    string_of(rest.as_slice())
}

// ─── Type parameters, names and annotations ──────────────────────────────────

/// The position of the `>` that closes the `<` at the start, scanning from
/// `i` at nesting depth `depth`.
pub open spec fn angle_close(t: Seq<char>, i: int, depth: int) -> Option<int>
    decreases t.len() - i,
{
    if i < 0 || i >= t.len() {
        None
    } else {
        let d = if t[i] == '<' {
            depth + 1
        } else if t[i] == '>' {
            depth - 1
        } else {
            depth
        };
        if t[i] == '>' && d == 0 {
            Some(i)
        } else {
            angle_close(t, i + 1, d)
        }
    }
}

/// A method's return type without the type parameters that precede it.
pub open spec fn without_type_parameters(input: Seq<char>) -> Seq<char> {
    let t = trim(input);
    if t.len() > 0 && t[0] == '<' {
        match angle_close(t, 0, 0) {
            Some(k) => trim(t.skip(k + 1)),
            None => t,
        }
    } else {
        t
    }
}

/// Drops the type parameters before a method's return type.
pub fn strip_method_type_parameters(input: &str) -> (r: String)
    requires
        input@.len() <= i32::MAX,
    ensures
        r@ == without_type_parameters(input@),
{
    let t = trim_chars(chars_of(input).as_slice());
    proof {
        lemma_trim_shorter(input@);
    }
    if t.len() == 0 || t[0] != '<' {
        return string_of(t.as_slice());
    }
    let mut depth: i64 = 0;
    let mut i: usize = 0;
    while i < t.len()
        invariant
            t@ == trim(input@),
            t@.len() > 0 && t@[0] == '<',
            t.len() <= i32::MAX,
            i <= t.len(),
            -(i as int) <= depth <= i,
            angle_close(t@, 0, 0) == angle_close(t@, i as int, depth as int),
        decreases t.len() - i,
    {
        let ch = t[i];
        let ghost d0 = depth as int;
        if ch == '<' {
            depth = depth + 1;
        } else if ch == '>' {
            depth = depth - 1;
            if depth == 0 {
                assert(angle_close(t@, i as int, d0) == Some(i as int));
                let tail = slice_chars(t.as_slice(), i + 1, t.len());
                assert(tail@ =~= t@.skip(i + 1));
                let rest = trim_chars(tail.as_slice());
                return string_of(rest.as_slice());
            }
        }
        i += 1;
    }
    string_of(t.as_slice())
}

/// The position of the last white space in `s`.
pub open spec fn last_ws(s: Seq<char>) -> Option<int>
    decreases s.len(),
{
    if s.len() == 0 {
        None
    } else if is_ws(s.last()) {
        Some(s.len() - 1)
    } else {
        last_ws(s.drop_last())
    }
}

fn find_last_ws(s: &[char]) -> (r: Option<usize>)
    ensures
        match last_ws(s@) {
            Some(k) => r == Some(k as usize) && 0 <= k < s.len(),
            None => r is None,
        },
{
    let mut i: usize = s.len();
    assert(s@.take(s.len() as int) =~= s@);
    while i > 0
        invariant
            i <= s.len(),
            last_ws(s@) == last_ws(s@.take(i as int)),
        decreases i,
    {
        assert(s@.take(i as int).last() == s@[i - 1]);
        if is_whitespace(s[i - 1]) {
            return Some(i - 1);
        }
        assert(s@.take(i as int).drop_last() =~= s@.take(i - 1));
        i -= 1;
    }
    None
}

proof fn lemma_last_ws(s: Seq<char>)
    ensures
        last_ws(s) matches Some(k) ==> 0 <= k < s.len(),
    decreases s.len(),
{
    if s.len() > 0 && !is_ws(s.last()) {
        lemma_last_ws(s.drop_last());
    }
}

/// A declaration split at its last white space into its type (with any
/// modifiers) and its name, both trimmed and not empty.
pub open spec fn type_and_name(s: Seq<char>) -> Option<(Seq<char>, Seq<char>)> {
    match last_ws(s) {
        None => None,
        Some(k) => {
            let head = trim(s.take(k));
            let name = trim(s.skip(k));
            if head.len() == 0 || name.len() == 0 {
                None
            } else {
                Some((head, name))
            }
        },
    }
}

/// Splits a declaration into its type and its name.
pub fn split_type_and_name(input: &str) -> (r: Option<(String, String)>)
    ensures
        match type_and_name(input@) {
            Some((h, n)) => r matches Some((a, b)) && a@ == h && b@ == n,
            None => r is None,
        },
{
    let c = chars_of(input);
    let k = match find_last_ws(c.as_slice()) {
        Some(k) => k,
        None => {
            return None;
        },
    };
    let before = slice_chars(c.as_slice(), 0, k);
    let after = slice_chars(c.as_slice(), k, c.len());
    assert(before@ =~= input@.take(k as int));
    assert(after@ =~= input@.skip(k as int));
    let head = trim_chars(before.as_slice());
    let name = trim_chars(after.as_slice());
    if head.len() == 0 || name.len() == 0 {
        return None;
    }
    Some((string_of(head.as_slice()), string_of(name.as_slice())))
}

/// A parameter split into its type (without `final`) and its name; none
/// when the name is missing or has a dot.
pub open spec fn parameter_type_and_name(p: Seq<char>) -> Option<(Seq<char>, Seq<char>)> {
    match last_ws(p) {
        None => None,
        Some(k) => {
            let t = trim(p.take(k));
            let n = trim(p.skip(k));
            if t.len() == 0 || n.len() == 0 || n.contains('.') {
                None
            } else {
                Some(
                    (
                        trim(
                            if has_prefix(t, "final "@) {
                                t.skip(6)
                            } else {
                                t
                            },
                        ),
                        n,
                    ),
                )
            }
        },
    }
}

/// Splits a parameter into its type and its name.
pub fn split_parameter_type_and_name(param: &str) -> (r: Option<(String, String)>)
    ensures
        match parameter_type_and_name(param@) {
            Some((t, n)) => r matches Some((a, b)) && a@ == t && b@ == n,
            None => r is None,
        },
{
    let c = chars_of(param);
    let k = match find_last_ws(c.as_slice()) {
        Some(k) => k,
        None => {
            return None;
        },
    };
    let before = slice_chars(c.as_slice(), 0, k);
    let after = slice_chars(c.as_slice(), k, c.len());
    assert(before@ =~= param@.take(k as int));
    assert(after@ =~= param@.skip(k as int));
    let t = trim_chars(before.as_slice());
    let n = trim_chars(after.as_slice());
    if t.len() == 0 || n.len() == 0 || crate::text::contains_char(n.as_slice(), '.') {
        return None;
    }
    let fin = chars_of("final ");
    proof {
        reveal_strlit("final ");
    }
    let stripped = if crate::text::starts_with(t.as_slice(), fin.as_slice()) {
        let s = slice_chars(t.as_slice(), 6, t.len());
        assert(s@ =~= t@.skip(6));
        s
    } else {
        t
    };
    let ty = trim_chars(stripped.as_slice());
    Some((string_of(ty.as_slice()), string_of(n.as_slice())))
}

/// The exceptions after `throws`, each qualified.
pub open spec fn throws_of(after: Seq<char>, package: Seq<char>) -> Seq<Seq<char>> {
    if has_prefix(after, "throws "@) {
        java_comma_parts(after.skip(7)).map_values(|n: Seq<char>| qualified_type(package, trim(n)))
    } else {
        Seq::empty()
    }
}

/// Reads the exceptions that a method declares.
pub fn parse_throws(after: &str, package: &str) -> (r: Vec<String>)
    requires
        after@.len() <= i32::MAX,
    ensures
        texts(r@) == throws_of(after@, package@),
{
    let c = chars_of(after);
    let kw = chars_of("throws ");
    proof {
        reveal_strlit("throws ");
    }
    if !crate::text::starts_with(c.as_slice(), kw.as_slice()) {
        let out: Vec<String> = Vec::new();
        assert(texts(out@) =~= Seq::<Seq<char>>::empty());
        return out;
    }
    let tail = slice_chars(c.as_slice(), 7, c.len());
    assert(tail@ =~= after@.skip(7));
    let rest = string_of(tail.as_slice());
    let parts = split_java_commas(rest.as_str());
    let ghost ps = texts(parts@);
    let mut out: Vec<String> = Vec::new();
    let mut i: usize = 0;
    while i < parts.len()
        invariant
            ps == texts(parts@),
            i <= parts.len(),
            texts(out@) == ps.take(i as int).map_values(|n: Seq<char>| qualified_type(package@, trim(n))),
        decreases parts.len() - i,
    {
        let t = trim_str_owned(parts[i].as_str());
        let q = qualify_type(package, t.as_str());
        let ghost before = texts(out@);
        out.push(q);
        assert(ps.take(i + 1).map_values(|n: Seq<char>| qualified_type(package@, trim(n))) =~= ps.take(
            i as int,
        ).map_values(|n: Seq<char>| qualified_type(package@, trim(n))).push(qualified_type(package@, trim(ps[i as int]))));
        assert(texts(out@) =~= before.push(q@));
        i += 1;
    }
    assert(ps.take(parts.len() as int) =~= ps);
    out
}

fn trim_str_owned(s: &str) -> (r: String)
    ensures
        r@ == trim(s@),
{
    string_of(trim_chars(chars_of(s).as_slice()).as_slice())
}

/// The qualified name of an annotation on a line: the name after `@` up to
/// `(`, a space or a tab; kept when it has a dot, in `java.lang` when it is
/// one of its types, else in the package.
pub open spec fn annotation_name(line: Seq<char>, package: Seq<char>) -> Seq<char> {
    let body = trim_start_char(trim(line), '@');
    let name = trim(body.take(index_of_any(body, seq!['(', ' ', '\t'])));
    if name.contains('.') {
        name
    } else if java_lang_types().contains(name) {
        "java.lang."@ + name
    } else {
        qualified(package, name)
    }
}

/// The JSON of an annotation: its qualified name and no values.
pub open spec fn annotation_view(line: Seq<char>, package: Seq<char>) -> JsonView {
    JsonView::Object(
        seq![
            ("qualifiedName"@, JsonView::Str(annotation_name(line, package))),
            ("values"@, JsonView::Object(Seq::empty())),
        ],
    )
}

/// Reads an annotation line.
pub fn parse_annotation(line: &str, package: &str) -> (r: Json)
    ensures
        json_view(r) == annotation_view(line@, package@),
{
    let t = trim_chars(chars_of(line).as_slice());
    let body = trim_start_c(t.as_slice(), '@');
    let stops = vec!['(', ' ', '\t'];
    assert(stops@ =~= seq!['(', ' ', '\t']);
    let cut = crate::remote::first_of_any(body.as_slice(), stops.as_slice());
    proof {
        crate::remote::lemma_index_of_any(body@, stops@);
    }
    let head = slice_chars(body.as_slice(), 0, cut);
    assert(head@ =~= body@.take(cut as int));
    let name_chars = trim_chars(head.as_slice());
    let name = string_of(name_chars.as_slice());
    let q = if crate::text::contains_char(name_chars.as_slice(), '.') {
        name
    } else if is_java_lang_type(name.as_str()) {
        let mut s = "java.lang.".to_owned();
        s.append(name.as_str());
        s
    } else {
        qualify_name(package, name.as_str())
    };
    let mut members: Vec<(String, Json)> = Vec::new();
    members.push(("qualifiedName".to_owned(), Json::Str(q)));
    members.push(("values".to_owned(), crate::docs::json_object(Vec::new())));
    let r = crate::docs::json_object(members);
    proof {
        let m = jmembers(members@);
        assert(m[1].1 == JsonView::Object(Seq::empty())) by {
            assert(jmembers(Seq::<(String, Json)>::empty()) =~= Seq::empty());
        }
        assert(m =~= seq![
            ("qualifiedName"@, JsonView::Str(annotation_name(line@, package@))),
            ("values"@, JsonView::Object(Seq::empty())),
        ]);
    }
    r
}

/// The package that a line declares: `package name;`.
pub open spec fn package_in_line(line: Seq<char>) -> Option<Seq<char>> {
    let t = trim(line);
    if has_prefix(t, "package "@) && t.skip(8).len() > 0 && t.skip(8).last() == ';' {
        Some(trim(t.skip(8).drop_last()))
    } else {
        None
    }
}

/// The package of the first line that declares one.
pub open spec fn package_in_lines(ls: Seq<Seq<char>>) -> Option<Seq<char>>
    decreases ls.len(),
{
    if ls.len() == 0 {
        None
    } else {
        match package_in_line(ls[0]) {
            Some(p) => Some(p),
            None => package_in_lines(ls.drop_first()),
        }
    }
}

/// Reads the package of a Java source.
pub fn parse_java_package(content: &str) -> (r: Option<String>)
    ensures
        match package_in_lines(lines_spec(content@)) {
            Some(p) => r matches Some(s) && s@ == p,
            None => r is None,
        },
{
    let lines = lines_of(chars_of(content).as_slice());
    let ghost ls = lines_spec(content@);
    let kw = chars_of("package ");
    proof {
        reveal_strlit("package ");
    }
    let mut i: usize = 0;
    assert(ls.skip(0) =~= ls);
    while i < lines.len()
        invariant
            crate::text::views(lines@) == ls,
            ls == lines_spec(content@),
            kw@ == "package "@,
            "package "@.len() == 8,
            i <= lines.len(),
            package_in_lines(ls) == package_in_lines(ls.skip(i as int)),
        decreases lines.len() - i,
    {
        let ghost sk = ls.skip(i as int);
        assert(sk[0] == lines@[i as int]@);
        assert(sk.drop_first() =~= ls.skip(i + 1));
        let t = trim_chars(lines[i].as_slice());
        proof {
            lemma_trim_shorter(lines@[i as int]@);
        }
        if crate::text::starts_with(t.as_slice(), kw.as_slice()) {
            let rest = slice_chars(t.as_slice(), 8, t.len());
            assert(rest@ =~= t@.skip(8));
            if rest.len() > 0 && rest[rest.len() - 1] == ';' {
                let inner = slice_chars(rest.as_slice(), 0, rest.len() - 1);
                assert(inner@ =~= rest@.drop_last());
                let p = trim_chars(inner.as_slice());
                assert(has_prefix(t@, "package "@));
                assert(package_in_line(lines@[i as int]@) == Some(p@));
                assert(package_in_lines(sk) == Some(p@));
                return Some(string_of(p.as_slice()));
            }
        }
        i += 1;
    }
    None
}

/// How many times `c` occurs in `s`.
pub open spec fn char_count(s: Seq<char>, c: char) -> int
    decreases s.len(),
{
    if s.len() == 0 {
        0
    } else {
        char_count(s.drop_last(), c) + (if s.last() == c {
            1int
        } else {
            0int
        })
    }
}

/// Counts a character in a line.
pub fn count_char(input: &str, needle: char) -> (r: i32)
    requires
        input@.len() <= i32::MAX,
    ensures
        r == char_count(input@, needle),
{
    let c = chars_of(input);
    let mut n: i32 = 0;
    let mut i: usize = 0;
    while i < c.len()
        invariant
            c@ == input@,
            c.len() <= i32::MAX,
            i <= c.len(),
            0 <= n <= i,
            n == char_count(input@.take(i as int), needle),
        decreases c.len() - i,
    {
        assert(input@.take(i + 1).drop_last() =~= input@.take(i as int));
        if c[i] == needle {
            n = n + 1;
        }
        i += 1;
    }
    assert(input@.take(c.len() as int) =~= input@);
    n
}

// ─── Members ─────────────────────────────────────────────────────────────────

/// The JSON of one parameter: its name (`argN` when it has none) and its
/// qualified type.
pub open spec fn parameter_view(p: Seq<char>, index: int, package: Seq<char>) -> JsonView {
    let (t, n) = match parameter_type_and_name(p) {
        Some(x) => x,
        None => (p, "arg"@ + decimal(index as nat)),
    };
    JsonView::Object(
        seq![("name"@, JsonView::Str(n)), ("type"@, JsonView::Str(qualified_type(package, t)))],
    )
}

/// The JSON of the parameters of a method: one per top-level comma piece.
pub open spec fn parameters_view(params: Seq<char>, package: Seq<char>) -> Seq<JsonView> {
    if trim(params).len() == 0 {
        Seq::empty()
    } else {
        let parts = java_comma_parts(params);
        Seq::new(parts.len(), |i: int| parameter_view(parts[i], i, package))
    }
}

fn string_pair(key: &str, value: String) -> (r: (String, Json))
    ensures
        r.0@ == key@,
        json_view(r.1) == JsonView::Str(value@),
{
    (key.to_owned(), Json::Str(value))
}

/// Reads the parameters of a method.
pub fn parse_parameters(params: &str, package: &str) -> (r: Vec<Json>)
    requires
        params@.len() <= i32::MAX,
    ensures
        r@.map_values(|j: Json| json_view(j)) == parameters_view(params@, package@),
{
    let t = trim_str_owned(params);
    if t.as_str().is_empty() {
        let out: Vec<Json> = Vec::new();
        assert(out@.map_values(|j: Json| json_view(j)) =~= Seq::<JsonView>::empty());
        return out;
    }
    let parts = split_java_commas(params);
    let ghost ps = texts(parts@);
    let mut out: Vec<Json> = Vec::new();
    let mut i: usize = 0;
    while i < parts.len()
        invariant
            ps == texts(parts@),
            ps == java_comma_parts(params@),
            i <= parts.len(),
            out@.len() == i,
            forall|k: int| 0 <= k < i ==> json_view(#[trigger] out@[k]) == parameter_view(ps[k], k, package@),
        decreases parts.len() - i,
    {
        let (ty, name) = match split_parameter_type_and_name(parts[i].as_str()) {
            Some((a, b)) => (a, b),
            None => {
                let mut n = "arg".to_owned();
                let d = decimal_string(i as u64);
                n.append(d.as_str());
                (parts[i].clone(), n)
            },
        };
        let q = qualify_type(package, ty.as_str());
        let mut members: Vec<(String, Json)> = Vec::new();
        members.push(string_pair("name", name));
        members.push(string_pair("type", q));
        let obj = crate::docs::json_object(members);
        proof {
            assert(jmembers(members@) =~= seq![
                ("name"@, JsonView::Str(name@)),
                ("type"@, JsonView::Str(q@)),
            ]);
            assert(ps[i as int] == parts@[i as int]@);
        }
        out.push(obj);
        i += 1;
    }
    assert(out@.map_values(|j: Json| json_view(j)) =~= parameters_view(params@, package@));
    out
}

/// A member of a type.
#[derive(Debug)]
pub enum DocsMember {
    Field(Json),
    Constructor(Json),
    Method(Json),
}

/// What a member of a type is, as JSON.
pub enum MemberView {
    Field(JsonView),
    Constructor(JsonView),
    Method(JsonView),
}

/// The view of a member.
pub open spec fn member_view(m: DocsMember) -> MemberView {
    match m {
        DocsMember::Field(j) => MemberView::Field(json_view(j)),
        DocsMember::Constructor(j) => MemberView::Constructor(json_view(j)),
        DocsMember::Method(j) => MemberView::Method(json_view(j)),
    }
}

/// `package.type.name`.
pub open spec fn member_qualified_name(package: Seq<char>, owner: Seq<char>, name: Seq<char>) -> Seq<char> {
    package + "."@ + owner + "."@ + name
}

/// The JSON of a field declaration: its name, qualified name, visibility,
/// modifiers, annotations and qualified type; none without a type and name.
pub open spec fn field_view(decl: Seq<char>, package: Seq<char>, owner: Seq<char>, annotations: Seq<JsonView>) -> Option<JsonView> {
    match type_and_name(decl) {
        None => None,
        Some((head, name)) => {
            let tokens = java_words(decl);
            Some(
                JsonView::Object(
                    seq![
                        ("name"@, JsonView::Str(name)),
                        ("qualifiedName"@, JsonView::Str(member_qualified_name(package, owner, name))),
                        ("visibility"@, JsonView::Str(visibility_of(tokens))),
                        ("modifiers"@, jstrs(modifiers_of(tokens))),
                        ("annotations"@, JsonView::Array(annotations)),
                        ("type"@, JsonView::Str(qualified_type(package, without_modifiers(trim(head))))),
                    ],
                ),
            )
        },
    }
}

fn member_name_text(package: &str, owner: &str, name: &str) -> (r: String)
    ensures
        r@ == member_qualified_name(package@, owner@, name@),
{
    let mut q = package.to_owned();
    q.append(".");
    q.append(owner);
    q.append(".");
    q.append(name);
    q
}

fn strings_json(v: Vec<String>) -> (r: Json)
    ensures
        json_view(r) == jstrs(texts(v@)),
{
    crate::docs::json_strings(v)
}

/// Reads a field declaration.
pub fn parse_field(declaration: &str, package: &str, owner: &str, annotations: Vec<Json>) -> (r: Option<Json>)
    ensures
        match field_view(declaration@, package@, owner@, annotations@.map_values(|j: Json| json_view(j))) {
            Some(v) => r matches Some(j) && json_view(j) == v,
            None => r is None,
        },
{
    let (head, name) = match split_type_and_name(declaration) {
        Some(p) => p,
        None => {
            return None;
        },
    };
    let type_token = strip_leading_modifiers(head.as_str());
    let tokens = split_java_words(declaration);
    let visibility = parse_visibility(tokens.as_slice());
    let modifiers = parse_modifiers(tokens.as_slice());
    let ghost ann = annotations@;
    let mut members: Vec<(String, Json)> = Vec::new();
    members.push(string_pair("name", name.clone()));
    members.push(string_pair("qualifiedName", member_name_text(package, owner, name.as_str())));
    members.push(string_pair("visibility", visibility));
    members.push(("modifiers".to_owned(), strings_json(modifiers)));
    members.push(("annotations".to_owned(), crate::docs::json_array_of(annotations)));
    members.push(string_pair("type", qualify_type(package, type_token.as_str())));
    let r = crate::docs::json_object(members);
    proof {
        assert(jmembers(members@) =~= field_view(declaration@, package@, owner@, ann.map_values(|j: Json| json_view(j)))->Some_0->Object_0);
    }
    Some(r)
}

/// The parentheses of a declaration do not close before they open: the
/// last `)` does not come before the first `(`.
pub open spec fn parens_in_order(d: Seq<char>) -> bool {
    match last_index_of(d, ')') {
        Some(close) => index_of_any(d, seq!['(']) < d.len() ==> index_of_any(d, seq!['(']) < close,
        None => true,
    }
}

/// The common members of a constructor or method: name, qualified name,
/// visibility, modifiers, annotations and parameters.
pub open spec fn callable_members(
    name: Seq<char>,
    package: Seq<char>,
    owner: Seq<char>,
    before: Seq<char>,
    annotations: Seq<JsonView>,
    params: Seq<char>,
) -> Seq<(Seq<char>, JsonView)> {
    let tokens = java_words(before);
    seq![
        ("name"@, JsonView::Str(name)),
        ("qualifiedName"@, JsonView::Str(member_qualified_name(package, owner, name))),
        ("visibility"@, JsonView::Str(visibility_of(tokens))),
        ("modifiers"@, jstrs(modifiers_of(tokens))),
        ("annotations"@, JsonView::Array(annotations)),
        ("parameters"@, JsonView::Array(parameters_view(params, package))),
    ]
}

/// The JSON of a constructor or method declaration: a constructor when its
/// name is the type's; a method gets the qualified return type without
/// modifiers and type parameters. None without both parentheses or a type
/// and name before them.
pub open spec fn callable_view(d: Seq<char>, package: Seq<char>, owner: Seq<char>, annotations: Seq<JsonView>) -> Option<MemberView> {
    let open = index_of_any(d, seq!['(']);
    if open >= d.len() {
        None
    } else {
        match last_index_of(d, ')') {
            None => None,
            Some(close) => {
                let before = trim(d.take(open));
                let params = d.subrange(open + 1, close);
                let after = trim(d.skip(close + 1));
                match type_and_name(before) {
                    None => None,
                    Some((head, name)) => {
                        let common = callable_members(name, package, owner, before, annotations, params);
                        let throws = ("throws"@, jstrs(throws_of(after, package)));
                        if name == owner {
                            Some(MemberView::Constructor(JsonView::Object(common.push(throws))))
                        } else {
                            Some(
                                MemberView::Method(
                                    JsonView::Object(
                                        common.push(
                                            (
                                                "returnType"@,
                                                JsonView::Str(
                                                    qualified_type(
                                                        package,
                                                        without_type_parameters(without_modifiers(trim(head))),
                                                    ),
                                                ),
                                            ),
                                        ).push(throws),
                                    ),
                                ),
                            )
                        }
                    },
                }
            },
        }
    }
}

/// Reads a constructor or method declaration.
pub fn parse_method_or_constructor(
    declaration: &str,
    package: &str,
    owner: &str,
    annotations: Vec<Json>,
) -> (r: Option<DocsMember>)
    requires
        declaration@.len() <= i32::MAX,
        parens_in_order(declaration@),
    ensures
        match callable_view(declaration@, package@, owner@, annotations@.map_values(|j: Json| json_view(j))) {
            Some(v) => r matches Some(m) && member_view(m) == v,
            None => r is None,
        },
{
    let d = chars_of(declaration);
    let paren = vec!['('];
    assert(paren@ =~= seq!['(']);
    let open = crate::remote::first_of_any(d.as_slice(), paren.as_slice());
    proof {
        crate::remote::lemma_index_of_any(d@, paren@);
    }
    if open >= d.len() {
        return None;
    }
    let close = match crate::remote::last_occurrence(d.as_slice(), ')') {
        Some(c) => c,
        None => {
            return None;
        },
    };
    proof {
        crate::remote::lemma_last_index_of(d@, ')');
    }
    let head_part = slice_chars(d.as_slice(), 0, open);
    let params_part = slice_chars(d.as_slice(), open + 1, close);
    let tail_part = slice_chars(d.as_slice(), close + 1, d.len());
    assert(head_part@ =~= declaration@.take(open as int));
    assert(params_part@ =~= declaration@.subrange(open + 1, close as int));
    assert(tail_part@ =~= declaration@.skip(close + 1));
    let before = string_of(trim_chars(head_part.as_slice()).as_slice());
    let params = string_of(params_part.as_slice());
    let after = string_of(trim_chars(tail_part.as_slice()).as_slice());
    proof {
        lemma_trim_shorter(tail_part@);
    }
    let (head, name) = match split_type_and_name(before.as_str()) {
        Some(p) => p,
        None => {
            return None;
        },
    };
    let tokens = split_java_words(before.as_str());
    let visibility = parse_visibility(tokens.as_slice());
    let modifiers = parse_modifiers(tokens.as_slice());
    let parameters = parse_parameters(params.as_str(), package);
    let throws = parse_throws(after.as_str(), package);
    let ghost ann = annotations@;
    let ghost pv = parameters@;
    let mut members: Vec<(String, Json)> = Vec::new();
    members.push(string_pair("name", name.clone()));
    members.push(string_pair("qualifiedName", member_name_text(package, owner, name.as_str())));
    members.push(string_pair("visibility", visibility));
    members.push(("modifiers".to_owned(), strings_json(modifiers)));
    members.push(("annotations".to_owned(), crate::docs::json_array_of(annotations)));
    members.push(("parameters".to_owned(), crate::docs::json_array_of(parameters)));
    let ghost common = jmembers(members@);
    proof {
        assert(common =~= callable_members(
            name@,
            package@,
            owner@,
            before@,
            ann.map_values(|j: Json| json_view(j)),
            params@,
        ));
    }
    if str_eq(name.as_str(), owner) {
        members.push(("throws".to_owned(), strings_json(throws)));
        let obj = crate::docs::json_object(members);
        assert(jmembers(members@) =~= common.push(("throws"@, jstrs(throws_of(after@, package@)))));
        return Some(DocsMember::Constructor(obj));
    }
    let stripped = strip_leading_modifiers(head.as_str());
    proof {
        lemma_last_ws(before@);
        let k = last_ws(before@)->Some_0;
        lemma_trim_shorter(before@.take(k));
        lemma_trim_shorter(tail_part@);
        lemma_without_modifiers_shorter(trim(head@));
        lemma_trim_shorter(head@);
        lemma_trim_shorter(before@);
        lemma_trim_shorter(head_part@);
    }
    let ret = strip_method_type_parameters(stripped.as_str());
    members.push(string_pair("returnType", qualify_type(package, ret.as_str())));
    members.push(("throws".to_owned(), strings_json(throws)));
    let obj = crate::docs::json_object(members);
    assert(jmembers(members@) =~= common.push(
        (
            "returnType"@,
            JsonView::Str(qualified_type(package@, without_type_parameters(without_modifiers(trim(head@))))),
        ),
    ).push(("throws"@, jstrs(throws_of(after@, package@)))));
    Some(DocsMember::Method(obj))
}

proof fn lemma_without_modifiers_shorter(rest: Seq<char>)
    ensures
        without_modifiers(rest).len() <= rest.len(),
    decreases rest.len(),
{
    lemma_first_ws(rest);
    match first_ws(rest) {
        None => {},
        Some(i) => {
            if 0 <= i < rest.len() && java_modifiers().contains(rest.take(i)) {
                lemma_trim_start_shorter(rest.skip(i + 1));
                lemma_without_modifiers_shorter(trim_start(rest.skip(i + 1)));
            }
        },
    }
}

/// The declaration part of a member line: before any `{` and `=`, trimmed,
/// without trailing `;`.
pub open spec fn member_declaration_text(line: Seq<char>) -> Seq<char> {
    let a = line.take(index_of_any(line, seq!['{']));
    let b = a.take(index_of_any(a, seq!['=']));
    trim(trim_end_char(trim(b), ';'))
}

/// The member that a line of a type's body declares: none for an empty
/// declaration or a `return` statement; a constructor or method when it has
/// both parentheses, else a field.
pub open spec fn member_declaration(line: Seq<char>, package: Seq<char>, owner: Seq<char>, annotations: Seq<JsonView>) -> Option<MemberView> {
    let d = member_declaration_text(line);
    if d.len() == 0 || has_prefix(d, "return "@) {
        None
    } else if d.contains('(') && d.contains(')') {
        callable_view(d, package, owner, annotations)
    } else {
        match field_view(d, package, owner, annotations) {
            Some(v) => Some(MemberView::Field(v)),
            None => None,
        }
    }
}

/// The declaration part of a member line (see [`member_declaration_text`]).
pub fn member_declaration_chars(line: &str) -> (r: Vec<char>)
    ensures
        r@ == member_declaration_text(line@),
{
    let c = chars_of(line);
    let brace = vec!['{'];
    assert(brace@ =~= seq!['{']);
    let k1 = crate::remote::first_of_any(c.as_slice(), brace.as_slice());
    proof {
        crate::remote::lemma_index_of_any(c@, brace@);
    }
    let a = slice_chars(c.as_slice(), 0, k1);
    let eq = vec!['='];
    assert(eq@ =~= seq!['=']);
    let k2 = crate::remote::first_of_any(a.as_slice(), eq.as_slice());
    proof {
        crate::remote::lemma_index_of_any(a@, eq@);
    }
    let b = slice_chars(a.as_slice(), 0, k2);
    assert(a@ =~= line@.take(k1 as int));
    assert(b@ =~= a@.take(k2 as int));
    let t1 = trim_chars(b.as_slice());
    let t2 = trim_end_c(t1.as_slice(), ';');
    trim_chars(t2.as_slice())
}

/// Whether the declaration part of a member line has its parentheses in
/// order, so that it can be read.
pub fn declaration_parens_in_order(line: &str) -> (r: bool)
    ensures
        r == parens_in_order(member_declaration_text(line@)),
{
    let d = member_declaration_chars(line);
    let open = vec!['('];
    assert(open@ =~= seq!['(']);
    let k = crate::remote::first_of_any(d.as_slice(), open.as_slice());
    proof {
        crate::remote::lemma_index_of_any(d@, open@);
        crate::remote::lemma_last_index_of(d@, ')');
    }
    match crate::text::rfind_char(d.as_slice(), ')') {
        Some(close) => {
            proof {
                let l = last_index_of(d@, ')');
                if l is None {
                    assert(d@[close as int] == ')');
                } else {
                    let li = l->0;
                    if li < close {
                        assert(d@[close as int] == ')');
                    } else if li > close {
                        assert(d@[li] == ')');
                    }
                }
            }
            k >= d.len() || k < close
        },
        None => {
            proof {
                match last_index_of(d@, ')') {
                    Some(li) => {
                        assert(d@[li] == ')');
                        assert(d@.contains(')'));
                    },
                    None => {},
                }
            }
            true
        },
    }
}


/// Reads a line of a type's body as a member declaration.
pub fn parse_member_declaration(
    line: &str,
    package: &str,
    owner: &str,
    annotations: Vec<Json>,
) -> (r: Option<DocsMember>)
    requires
        line@.len() <= i32::MAX,
        parens_in_order(member_declaration_text(line@)),
    ensures
        match member_declaration(line@, package@, owner@, annotations@.map_values(|j: Json| json_view(j))) {
            Some(v) => r matches Some(m) && member_view(m) == v,
            None => r is None,
        },
{
    let c = chars_of(line);
    let brace = vec!['{'];
    assert(brace@ =~= seq!['{']);
    let k1 = crate::remote::first_of_any(c.as_slice(), brace.as_slice());
    proof {
        crate::remote::lemma_index_of_any(c@, brace@);
    }
    let a = slice_chars(c.as_slice(), 0, k1);
    let eq = vec!['='];
    assert(eq@ =~= seq!['=']);
    let k2 = crate::remote::first_of_any(a.as_slice(), eq.as_slice());
    proof {
        crate::remote::lemma_index_of_any(a@, eq@);
    }
    let b = slice_chars(a.as_slice(), 0, k2);
    assert(a@ =~= line@.take(k1 as int));
    assert(b@ =~= a@.take(k2 as int));
    let t1 = trim_chars(b.as_slice());
    let t2 = trim_end_c(t1.as_slice(), ';');
    let d = trim_chars(t2.as_slice());
    assert(d@ == member_declaration_text(line@));
    let ret = chars_of("return ");
    proof {
        reveal_strlit("return ");
        lemma_trim_shorter(b@);
        lemma_trim_shorter(t2@);
        lemma_trim_end_char_shorter(t1@, ';');
    }
    if d.len() == 0 || crate::text::starts_with(d.as_slice(), ret.as_slice()) {
        return None;
    }
    let ds = string_of(d.as_slice());
    if crate::text::contains_char(d.as_slice(), '(') && crate::text::contains_char(d.as_slice(), ')') {
        parse_method_or_constructor(ds.as_str(), package, owner, annotations)
    } else {
        match parse_field(ds.as_str(), package, owner, annotations) {
            Some(f) => Some(DocsMember::Field(f)),
            None => None,
        }
    }
}

proof fn lemma_trim_end_char_shorter(s: Seq<char>, c: char)
    ensures
        trim_end_char(s, c).len() <= s.len(),
    decreases s.len(),
{
    if s.len() > 0 && s.last() == c {
        lemma_trim_end_char_shorter(s.drop_last(), c);
    }
}

// ─── Types ───────────────────────────────────────────────────────────────────

/// What `docs` knows of a type.
pub struct TypeView {
    pub kind: Seq<char>,
    pub name: Seq<char>,
    pub qualified_name: Seq<char>,
    pub package: Seq<char>,
    pub visibility: Seq<char>,
    pub modifiers: Seq<Seq<char>>,
    pub annotations: Seq<JsonView>,
    pub description: Option<Seq<char>>,
    pub examples: Seq<Seq<char>>,
    pub extends: Option<Seq<char>>,
    pub implements: Seq<Seq<char>>,
    pub fields: Seq<JsonView>,
    pub constructors: Seq<JsonView>,
    pub methods: Seq<JsonView>,
}

/// A type being read.
#[derive(Debug)]
pub struct DocsTypeBuilder {
    pub kind: String,
    pub name: String,
    pub qualified_name: String,
    pub package: String,
    pub visibility: String,
    pub modifiers: Vec<String>,
    pub annotations: Vec<Json>,
    pub description: Option<String>,
    pub examples: Vec<String>,
    pub extends: Option<String>,
    pub implements: Vec<String>,
    pub fields: Vec<Json>,
    pub constructors: Vec<Json>,
    pub methods: Vec<Json>,
}

/// The views of JSON values.
pub open spec fn json_views(v: Seq<Json>) -> Seq<JsonView> {
    v.map_values(|j: Json| json_view(j))
}

impl View for DocsTypeBuilder {
    type V = TypeView;

    open spec fn view(&self) -> TypeView {
        TypeView {
            kind: self.kind@,
            name: self.name@,
            qualified_name: self.qualified_name@,
            package: self.package@,
            visibility: self.visibility@,
            modifiers: texts(self.modifiers@),
            annotations: json_views(self.annotations@),
            description: crate::resolver::opt_view(self.description),
            examples: texts(self.examples@),
            extends: crate::resolver::opt_view(self.extends),
            implements: texts(self.implements@),
            fields: json_views(self.fields@),
            constructors: json_views(self.constructors@),
            methods: json_views(self.methods@),
        }
    }
}

/// A type with a member added to the list of its kind.
pub open spec fn with_member(t: TypeView, m: MemberView) -> TypeView {
    match m {
        MemberView::Field(v) => TypeView { fields: t.fields.push(v), ..t },
        MemberView::Constructor(v) => TypeView { constructors: t.constructors.push(v), ..t },
        MemberView::Method(v) => TypeView { methods: t.methods.push(v), ..t },
    }
}

/// The JSON of a type.
pub open spec fn type_json(t: TypeView) -> JsonView {
    JsonView::Object(
        seq![
            ("kind"@, JsonView::Str(t.kind)),
            ("name"@, JsonView::Str(t.name)),
            ("qualifiedName"@, JsonView::Str(t.qualified_name)),
            ("package"@, JsonView::Str(t.package)),
            ("visibility"@, JsonView::Str(t.visibility)),
            ("modifiers"@, jstrs(t.modifiers)),
            ("annotations"@, JsonView::Array(t.annotations)),
            ("description"@, crate::docs::jopt(t.description)),
            ("examples"@, jstrs(t.examples)),
            ("extends"@, crate::docs::jopt(t.extends)),
            ("implements"@, jstrs(t.implements)),
            ("fields"@, JsonView::Array(t.fields)),
            ("constructors"@, JsonView::Array(t.constructors)),
            ("methods"@, JsonView::Array(t.methods)),
        ],
    )
}

fn json_pair(key: &str, value: Json) -> (r: (String, Json))
    ensures
        r.0@ == key@,
        r.1 == value,
{
    (key.to_owned(), value)
}

impl DocsTypeBuilder {
    /// Adds a member to the list of its kind.
    pub fn push_member(&mut self, member: DocsMember)
        ensures
            final(self)@ == with_member(old(self)@, member_view(member)),
    {
        match member {
            DocsMember::Field(value) => {
                let ghost before = self@;
                self.fields.push(value);
                assert(json_views(self.fields@) =~= before.fields.push(json_view(value)));
            },
            DocsMember::Constructor(value) => {
                let ghost before = self@;
                self.constructors.push(value);
                assert(json_views(self.constructors@) =~= before.constructors.push(json_view(value)));
            },
            DocsMember::Method(value) => {
                let ghost before = self@;
                self.methods.push(value);
                assert(json_views(self.methods@) =~= before.methods.push(json_view(value)));
            },
        }
    }

    /// The JSON of the type.
    pub fn into_json(self) -> (r: Json)
        ensures
            json_view(r) == type_json(self@),
    {
        let ghost t = self@;
        let mut members: Vec<(String, Json)> = Vec::new();
        members.push(json_pair("kind", Json::Str(self.kind)));
        members.push(json_pair("name", Json::Str(self.name)));
        members.push(json_pair("qualifiedName", Json::Str(self.qualified_name)));
        members.push(json_pair("package", Json::Str(self.package)));
        members.push(json_pair("visibility", Json::Str(self.visibility)));
        members.push(json_pair("modifiers", strings_json(self.modifiers)));
        members.push(json_pair("annotations", crate::docs::json_array_of(self.annotations)));
        members.push(json_pair("description", crate::docs::json_opt(self.description)));
        members.push(json_pair("examples", strings_json(self.examples)));
        members.push(json_pair("extends", crate::docs::json_opt(self.extends)));
        members.push(json_pair("implements", strings_json(self.implements)));
        members.push(json_pair("fields", crate::docs::json_array_of(self.fields)));
        members.push(json_pair("constructors", crate::docs::json_array_of(self.constructors)));
        members.push(json_pair("methods", crate::docs::json_array_of(self.methods)));
        let r = crate::docs::json_object(members);
        assert(jmembers(members@) =~= type_json(t)->Object_0);
        r
    }
}

/// The position of the first word that names a kind of type.
pub open spec fn kind_index(tokens: Seq<Seq<char>>) -> Option<int>
    decreases tokens.len(),
{
    if tokens.len() == 0 {
        None
    } else if tokens[0] == "class"@ || tokens[0] == "interface"@ || tokens[0] == "enum"@
        || tokens[0] == "record"@ {
        Some(0)
    } else {
        match kind_index(tokens.drop_first()) {
            Some(i) => Some(i + 1),
            None => None,
        }
    }
}

/// The position of the first occurrence of a word.
pub open spec fn word_index(tokens: Seq<Seq<char>>, word: Seq<char>) -> Option<int>
    decreases tokens.len(),
{
    if tokens.len() == 0 {
        None
    } else if tokens[0] == word {
        Some(0)
    } else {
        match word_index(tokens.drop_first(), word) {
            Some(i) => Some(i + 1),
            None => None,
        }
    }
}

proof fn lemma_word_index(tokens: Seq<Seq<char>>, word: Seq<char>)
    ensures
        match word_index(tokens, word) {
            Some(i) => 0 <= i < tokens.len() && tokens[i] == word && forall|j: int| 0 <= j < i ==> tokens[j] != word,
            None => forall|j: int| 0 <= j < tokens.len() ==> tokens[j] != word,
        },
    decreases tokens.len(),
{
    if tokens.len() > 0 && tokens[0] != word {
        lemma_word_index(tokens.drop_first(), word);
        assert forall|j: int| 0 < j < tokens.len() implies tokens[j] == tokens.drop_first()[j - 1] by {}
    }
}

proof fn lemma_kind_index(tokens: Seq<Seq<char>>)
    ensures
        match kind_index(tokens) {
            Some(i) => 0 <= i < tokens.len() && (tokens[i] == "class"@ || tokens[i] == "interface"@
                || tokens[i] == "enum"@ || tokens[i] == "record"@) && forall|j: int|
                0 <= j < i ==> !(tokens[j] == "class"@ || tokens[j] == "interface"@ || tokens[j] == "enum"@
                    || tokens[j] == "record"@),
            None => forall|j: int|
                0 <= j < tokens.len() ==> !(tokens[j] == "class"@ || tokens[j] == "interface"@ || tokens[j]
                    == "enum"@ || tokens[j] == "record"@),
        },
    decreases tokens.len(),
{
    if tokens.len() > 0 && !(tokens[0] == "class"@ || tokens[0] == "interface"@ || tokens[0] == "enum"@
        || tokens[0] == "record"@) {
        lemma_kind_index(tokens.drop_first());
        assert forall|j: int| 0 < j < tokens.len() implies tokens[j] == tokens.drop_first()[j - 1] by {}
    }
}

/// The interfaces after `implements`: without trailing commas, empty ones
/// left out, each qualified.
pub open spec fn implemented(rest: Seq<Seq<char>>, package: Seq<char>) -> Seq<Seq<char>> {
    non_empty(rest.map_values(|t: Seq<char>| trim_end_char(t, ','))).map_values(
        |t: Seq<char>| qualified_type(package, t),
    )
}

/// The type that a line declares: the words before `{`; the first `class`,
/// `interface`, `enum` or `record` gives the kind, the next word (without a
/// trailing `(`) the name; the modifiers before the kind; what it extends
/// and implements, qualified. None without a kind and a name.
pub open spec fn type_declaration(line: Seq<char>, package: Seq<char>, annotations: Seq<JsonView>) -> Option<TypeView> {
    let header = trim(line.take(index_of_any(line, seq!['{'])));
    let tokens = java_words(header);
    match kind_index(tokens) {
        None => None,
        Some(k) => if k + 1 >= tokens.len() {
            None
        } else {
            let name = trim_end_char(tokens[k + 1], '(');
            Some(
                TypeView {
                    kind: tokens[k],
                    name,
                    qualified_name: qualified(package, name),
                    package,
                    visibility: visibility_of(tokens),
                    modifiers: modifiers_of(tokens.take(k)),
                    annotations,
                    description: None,
                    examples: Seq::empty(),
                    extends: match word_index(tokens, "extends"@) {
                        Some(e) => if e + 1 < tokens.len() {
                            Some(qualified_type(package, trim_end_char(tokens[e + 1], ',')))
                        } else {
                            None
                        },
                        None => None,
                    },
                    implements: match word_index(tokens, "implements"@) {
                        Some(m) => implemented(tokens.skip(m + 1), package),
                        None => Seq::empty(),
                    },
                    fields: Seq::empty(),
                    constructors: Seq::empty(),
                    methods: Seq::empty(),
                },
            )
        },
    }
}

fn find_word(tokens: &Vec<String>, word: &str) -> (r: Option<usize>)
    ensures
        match word_index(texts(tokens@), word@) {
            Some(i) => r == Some(i as usize),
            None => r is None,
        },
{
    proof {
        lemma_word_index(texts(tokens@), word@);
    }
    let mut i: usize = 0;
    while i < tokens.len()
        invariant
            i <= tokens.len(),
            forall|j: int| 0 <= j < i ==> texts(tokens@)[j] != word@,
        decreases tokens.len() - i,
    {
        if str_eq(tokens[i].as_str(), word) {
            proof {
                lemma_word_index(texts(tokens@), word@);
                assert(texts(tokens@)[i as int] == word@);
            }
            return Some(i);
        }
        i += 1;
    }
    proof {
        lemma_word_index(texts(tokens@), word@);
    }
    None
}

fn find_kind(tokens: &Vec<String>) -> (r: Option<usize>)
    ensures
        match kind_index(texts(tokens@)) {
            Some(i) => r == Some(i as usize),
            None => r is None,
        },
{
    let mut i: usize = 0;
    while i < tokens.len()
        invariant
            i <= tokens.len(),
            forall|j: int|
                0 <= j < i ==> !(texts(tokens@)[j] == "class"@ || texts(tokens@)[j] == "interface"@
                    || texts(tokens@)[j] == "enum"@ || texts(tokens@)[j] == "record"@),
        decreases tokens.len() - i,
    {
        let t = tokens[i].as_str();
        if str_eq(t, "class") || str_eq(t, "interface") || str_eq(t, "enum") || str_eq(t, "record") {
            proof {
                lemma_kind_index(texts(tokens@));
                assert(texts(tokens@)[i as int] == tokens@[i as int]@);
                match kind_index(texts(tokens@)) {
                    Some(k) => {
                        if k < i {
                        }
                        if k > i {
                        }
                    },
                    None => {},
                }
            }
            return Some(i);
        }
        assert(texts(tokens@)[i as int] == tokens@[i as int]@);
        i += 1;
    }
    proof {
        lemma_kind_index(texts(tokens@));
        match kind_index(texts(tokens@)) {
            Some(k) => {},
            None => {},
        }
    }
    None
}

/// Reads the declaration of a type.
pub fn parse_type_declaration(line: &str, package: &str, annotations: Vec<Json>) -> (r: Option<DocsTypeBuilder>)
    ensures
        match type_declaration(line@, package@, json_views(annotations@)) {
            Some(t) => r matches Some(b) && b@ == t,
            None => r is None,
        },
{
    let c = chars_of(line);
    let brace = vec!['{'];
    assert(brace@ =~= seq!['{']);
    let k1 = crate::remote::first_of_any(c.as_slice(), brace.as_slice());
    proof {
        crate::remote::lemma_index_of_any(c@, brace@);
    }
    let head = slice_chars(c.as_slice(), 0, k1);
    assert(head@ =~= line@.take(k1 as int));
    let header = string_of(trim_chars(head.as_slice()).as_slice());
    let tokens = split_java_words(header.as_str());
    let ghost ts = texts(tokens@);
    let k = match find_kind(&tokens) {
        Some(k) => k,
        None => {
            return None;
        },
    };
    proof {
        lemma_kind_index(ts);
    }
    if tokens.len() - k < 2 {
        return None;
    }
    let kind = tokens[k].clone();
    let name_chars = trim_end_c(chars_of(tokens[k + 1].as_str()).as_slice(), '(');
    let name = string_of(name_chars.as_slice());
    let visibility = parse_visibility(tokens.as_slice());
    let before_kind = slice_strings(&tokens, k);
    assert(texts(before_kind@) =~= ts.take(k as int));
    let modifiers = parse_modifiers(before_kind.as_slice());
    let qualified_name = qualify_name(package, name.as_str());
    let extends = match find_word(&tokens, "extends") {
        Some(e) => {
            proof {
                lemma_word_index(ts, "extends"@);
            }
            if e + 1 < tokens.len() {
                let t = trim_end_c(chars_of(tokens[e + 1].as_str()).as_slice(), ',');
                Some(qualify_type(package, string_of(t.as_slice()).as_str()))
            } else {
                None
            }
        },
        None => None,
    };
    let implements = match find_word(&tokens, "implements") {
        Some(m) => {
            proof {
                lemma_word_index(ts, "implements"@);
            }
            implemented_types(&tokens, m + 1, package)
        },
        None => Vec::new(),
    };
    let b = DocsTypeBuilder {
        kind,
        name,
        qualified_name,
        package: package.to_owned(),
        visibility,
        modifiers,
        annotations,
        description: None,
        examples: Vec::new(),
        extends,
        implements,
        fields: Vec::new(),
        constructors: Vec::new(),
        methods: Vec::new(),
    };
    proof {
        assert(texts(b.examples@) =~= Seq::<Seq<char>>::empty());
        assert(json_views(b.fields@) =~= Seq::<JsonView>::empty());
        assert(json_views(b.constructors@) =~= Seq::<JsonView>::empty());
        assert(json_views(b.methods@) =~= Seq::<JsonView>::empty());
        match word_index(ts, "implements"@) {
            Some(m) => {},
            None => {
                assert(texts(b.implements@) =~= Seq::<Seq<char>>::empty());
            },
        }
    }
    Some(b)
}

fn slice_strings(v: &Vec<String>, n: usize) -> (r: Vec<String>)
    requires
        n <= v.len(),
    ensures
        r@ == v@.take(n as int),
{
    let mut out: Vec<String> = Vec::new();
    let mut i: usize = 0;
    while i < n
        invariant
            n <= v.len(),
            i <= n,
            texts(out@) == texts(v@.take(i as int)),
            out@.len() == i,
            forall|k: int| 0 <= k < i ==> out@[k] == v@[k],
        decreases n - i,
    {
        out.push(v[i].clone());
        assert(texts(out@) =~= texts(v@.take(i + 1)));
        i += 1;
    }
    assert(out@ =~= v@.take(n as int));
    out
}

fn implemented_types(tokens: &Vec<String>, from: usize, package: &str) -> (r: Vec<String>)
    requires
        from <= tokens.len(),
    ensures
        texts(r@) == implemented(texts(tokens@).skip(from as int), package@),
{
    let ghost rest = texts(tokens@).skip(from as int);
    let ghost trimmed = rest.map_values(|t: Seq<char>| trim_end_char(t, ','));
    let mut kept: Vec<String> = Vec::new();
    let mut i: usize = from;
    assert(trimmed.take(0) =~= Seq::<Seq<char>>::empty());
    while i < tokens.len()
        invariant
            from <= i <= tokens.len(),
            rest == texts(tokens@).skip(from as int),
            trimmed == rest.map_values(|t: Seq<char>| trim_end_char(t, ',')),
            texts(kept@) == non_empty(trimmed.take(i - from)),
        decreases tokens.len() - i,
    {
        assert(trimmed.take(i - from + 1).drop_last() =~= trimmed.take(i - from));
        assert(trimmed.take(i - from + 1).last() == trim_end_char(tokens@[i as int]@, ','));
        let t = trim_end_c(chars_of(tokens[i].as_str()).as_slice(), ',');
        if t.len() > 0 {
            let ghost before = texts(kept@);
            kept.push(string_of(t.as_slice()));
            assert(texts(kept@) =~= before.push(t@));
        }
        i += 1;
    }
    assert(trimmed.take(tokens.len() - from) =~= trimmed);
    let ghost ks = texts(kept@);
    let mut out: Vec<String> = Vec::new();
    let mut k: usize = 0;
    while k < kept.len()
        invariant
            ks == texts(kept@),
            k <= kept.len(),
            texts(out@) == ks.take(k as int).map_values(|t: Seq<char>| qualified_type(package@, t)),
        decreases kept.len() - k,
    {
        let ghost before = texts(out@);
        let q = qualify_type(package, kept[k].as_str());
        out.push(q);
        assert(texts(out@) =~= before.push(q@));
        assert(ks.take(k + 1).map_values(|t: Seq<char>| qualified_type(package@, t)) =~= ks.take(
            k as int,
        ).map_values(|t: Seq<char>| qualified_type(package@, t)).push(qualified_type(package@, ks[k as int])));
        k += 1;
    }
    assert(ks.take(kept.len() as int) =~= ks);
    out
}

// ─── Reading a source ────────────────────────────────────────────────────────

/// The total length of some lines.
pub open spec fn total_len(ls: Seq<Seq<char>>) -> int
    decreases ls.len(),
{
    if ls.len() == 0 {
        0
    } else {
        total_len(ls.drop_last()) + ls.last().len()
    }
}

proof fn lemma_split_total(s: Seq<char>, seps: Seq<char>)
    ensures
        total_len(crate::text::split_on(s, seps)) + crate::text::split_on(s, seps).len() - 1 == s.len(),
    decreases s.len(),
{
    crate::text::lemma_split_on_len(s, seps);
    if s.len() > 0 {
        lemma_split_total(s.drop_last(), seps);
        crate::text::lemma_split_on_len(s.drop_last(), seps);
        let prev = crate::text::split_on(s.drop_last(), seps);
        assert(total_len(prev) == total_len(prev.drop_last()) + prev.last().len());
        if !seps.contains(s.last()) {
            let up = prev.update(prev.len() - 1, prev.last().push(s.last()));
            assert(up.drop_last() =~= prev.drop_last());
            assert(up.last() == prev.last().push(s.last()));
            assert(crate::text::split_on(s, seps) == up);
            assert(total_len(up) == total_len(up.drop_last()) + up.last().len());
        } else {
            let pu = prev.push(Seq::<char>::empty());
            assert(pu.drop_last() =~= prev);
            assert(crate::text::split_on(s, seps) == pu);
            assert(total_len(pu) == total_len(pu.drop_last()) + pu.last().len());
        }
    } else {
        let e = seq![Seq::<char>::empty()];
        assert(e.drop_last() =~= Seq::<Seq<char>>::empty());
        assert(total_len(e) == total_len(e.drop_last()) + e.last().len());
    }
}

proof fn lemma_total_le(a: Seq<Seq<char>>, b: Seq<Seq<char>>)
    requires
        a.len() <= b.len(),
        forall|i: int| 0 <= i < a.len() ==> a[i].len() <= b[i].len(),
    ensures
        total_len(a) <= total_len(b),
    decreases b.len(),
{
    if b.len() > 0 {
        if a.len() == b.len() {
            lemma_total_le(a.drop_last(), b.drop_last());
        } else {
            lemma_total_le(a, b.drop_last());
        }
    }
}

proof fn lemma_line_le_total(ls: Seq<Seq<char>>, i: int)
    requires
        0 <= i < ls.len(),
    ensures
        ls[i].len() <= total_len(ls),
        total_len(ls.take(i)) + ls[i].len() == total_len(ls.take(i + 1)),
        total_len(ls.take(i + 1)) <= total_len(ls),
{
    assert(ls.take(i + 1).drop_last() =~= ls.take(i));
    lemma_total_le(ls.take(i + 1), ls);
    assert(total_len(ls.take(i)) >= 0) by {
        lemma_total_nonneg(ls.take(i));
    }
}

pub proof fn lemma_total_nonneg(ls: Seq<Seq<char>>)
    ensures
        total_len(ls) >= 0,
    decreases ls.len(),
{
    if ls.len() > 0 {
        lemma_total_nonneg(ls.drop_last());
    }
}

pub proof fn lemma_lines_total(s: Seq<char>)
    ensures
        total_len(lines_spec(s)) <= s.len(),
{
    let p = crate::text::split_on(s, seq!['\n']);
    lemma_split_total(s, seq!['\n']);
    crate::text::lemma_split_on_len(s, seq!['\n']);
    let ls = lines_spec(s);
    if s.len() > 0 {
        assert forall|i: int| 0 <= i < ls.len() implies ls[i].len() <= p[i].len() by {}
        lemma_total_le(ls, p);
    }
}

proof fn lemma_char_count_le(s: Seq<char>, c: char)
    ensures
        0 <= char_count(s, c) <= s.len(),
    decreases s.len(),
{
    if s.len() > 0 {
        lemma_char_count_le(s.drop_last(), c);
    }
}

/// A line that is not read: empty, or a comment.
pub open spec fn skipped_line(line: Seq<char>) -> bool {
    line.len() == 0 || has_prefix(line, "//"@) || has_prefix(line, "/*"@) || has_prefix(line, "*"@)
}

/// How much a line changes the brace depth.
pub open spec fn braces(line: Seq<char>) -> int {
    char_count(line, '{') - char_count(line, '}')
}

/// The reader's state: the types read, the annotations waiting for a
/// declaration, the type being read and the brace depth inside it.
pub type ExtractState = (Seq<JsonView>, Seq<JsonView>, Option<TypeView>, int);

/// Reads one line of a source: comments are skipped, annotations wait for
/// the next declaration; outside a type a line may open one; inside, a line
/// may declare a member, and the type ends when its braces close.
pub open spec fn extract_step(st: ExtractState, raw: Seq<char>, package: Seq<char>) -> ExtractState {
    let (types, pending, current, depth) = st;
    let line = trim(raw);
    if skipped_line(line) {
        st
    } else if has_prefix(line, "@"@) {
        (types, pending.push(annotation_view(line, package)), current, depth)
    } else {
        match current {
            None => match type_declaration(line, package, pending) {
                Some(b) => (types, Seq::empty(), Some(b), depth + braces(line)),
                None => (types, Seq::empty(), None, depth),
            },
            Some(cur) => {
                let d2 = depth + braces(line);
                let cur2 = match member_declaration(line, package, cur.name, pending) {
                    Some(m) => with_member(cur, m),
                    None => cur,
                };
                if d2 <= 0 {
                    (types.push(type_json(cur2)), Seq::empty(), None, 0)
                } else {
                    (types, Seq::empty(), Some(cur2), d2)
                }
            },
        }
    }
}

/// The reader's state after some lines.
pub open spec fn extract_state(lines: Seq<Seq<char>>, package: Seq<char>) -> ExtractState
    decreases lines.len(),
{
    if lines.len() == 0 {
        (Seq::empty(), Seq::empty(), None, 0)
    } else {
        extract_step(extract_state(lines.drop_last(), package), lines.last(), package)
    }
}

/// The types that a Java source declares, as JSON: a type still open at
/// the end is included.
pub open spec fn docs_types_of(content: Seq<char>) -> Seq<JsonView> {
    let package = crate::docs::or_text(package_in_lines(lines_spec(content)), Seq::empty());
    let st = extract_state(lines_spec(content), package);
    match st.2 {
        Some(cur) => st.0.push(type_json(cur)),
        None => st.0,
    }
}

/// Every line's member declaration has its parentheses in order.
pub open spec fn readable_source(content: Seq<char>) -> bool {
    forall|i: int|
        0 <= i < lines_spec(content).len() ==> parens_in_order(
            member_declaration_text(trim(#[trigger] lines_spec(content)[i])),
        )
}

/// The view of the type being read, if any.
pub open spec fn opt_type_view(b: Option<DocsTypeBuilder>) -> Option<TypeView> {
    match b {
        Some(x) => Some(x@),
        None => None,
    }
}

fn read_source_line(
    types: &mut Vec<Json>,
    pending: &mut Vec<Json>,
    current: &mut Option<DocsTypeBuilder>,
    depth: &mut i64,
    raw: &Vec<char>,
    package: &str,
    bound: Ghost<int>,
)
    requires
        bound@ + raw@.len() <= i32::MAX,
        -bound@ <= *old(depth) <= bound@,
        parens_in_order(member_declaration_text(trim(raw@))),
    ensures
        -(bound@ + raw@.len()) <= *final(depth) <= bound@ + raw@.len(),
        (json_views(final(types)@), json_views(final(pending)@), opt_type_view(*final(current)), *final(depth) as int)
            == extract_step(
            (json_views(old(types)@), json_views(old(pending)@), opt_type_view(*old(current)), *old(depth) as int),
            raw@,
            package@,
        ),
{
    proof {
        lemma_trim_shorter(raw@);
        lemma_char_count_le(trim(raw@), '{');
        lemma_char_count_le(trim(raw@), '}');
    }
    let line = string_of(trim_chars(raw.as_slice()).as_slice());
    let lc = chars_of(line.as_str());
    let slashes = chars_of("//");
    let open_comment = chars_of("/*");
    let at = chars_of("@");
    let star = chars_of("*");
    if lc.len() == 0 || crate::text::starts_with(lc.as_slice(), slashes.as_slice())
        || crate::text::starts_with(lc.as_slice(), open_comment.as_slice())
        || crate::text::starts_with(lc.as_slice(), star.as_slice()) {
        return;
    }
    if crate::text::starts_with(lc.as_slice(), at.as_slice()) {
        let ghost before = json_views(pending@);
        pending.push(parse_annotation(line.as_str(), package));
        assert(json_views(pending@) =~= before.push(annotation_view(line@, package@)));
        return;
    }
    let mut taken: Vec<Json> = Vec::new();
    std::mem::swap(&mut taken, pending);
    assert(json_views(pending@) =~= Seq::<JsonView>::empty());
    let mut cur: Option<DocsTypeBuilder> = None;
    std::mem::swap(&mut cur, current);
    match cur {
        None => {
            match parse_type_declaration(line.as_str(), package, taken) {
                Some(b) => {
                    let opens = count_char(line.as_str(), '{');
                    let closes = count_char(line.as_str(), '}');
                    *depth = *depth + opens as i64 - closes as i64;
                    *current = Some(b);
                },
                None => {},
            }
        },
        Some(mut b) => {
            let opens = count_char(line.as_str(), '{');
            let closes = count_char(line.as_str(), '}');
            *depth = *depth + opens as i64 - closes as i64;
            let owner = b.name.clone();
            match parse_member_declaration(line.as_str(), package, owner.as_str(), taken) {
                Some(m) => {
                    b.push_member(m);
                },
                None => {},
            }
            if *depth <= 0 {
                let ghost before = json_views(types@);
                let ghost bv = b@;
                let j = b.into_json();
                types.push(j);
                assert(json_views(types@) =~= before.push(type_json(bv)));
                *depth = 0;
            } else {
                *current = Some(b);
            }
        },
    }
}

/// Reads the types that a Java source declares.
pub fn extract_docs_types_from_source(content: &str) -> (r: Vec<Json>)
    requires
        content@.len() <= i32::MAX,
        readable_source(content@),
    ensures
        json_views(r@) == docs_types_of(content@),
{
    let package = match parse_java_package(content) {
        Some(p) => p,
        None => {
            proof {
                reveal_strlit("");
            }
            String::new()
        },
    };
    assert(package@ == crate::docs::or_text(package_in_lines(lines_spec(content@)), Seq::empty()));
    let lines = lines_of(chars_of(content).as_slice());
    let ghost ls = lines_spec(content@);
    proof {
        lemma_lines_total(content@);
    }
    let mut types: Vec<Json> = Vec::new();
    let mut pending: Vec<Json> = Vec::new();
    let mut current: Option<DocsTypeBuilder> = None;
    let mut depth: i64 = 0;
    let mut i: usize = 0;
    assert(ls.take(0) =~= Seq::<Seq<char>>::empty());
    assert(json_views(types@) =~= Seq::<JsonView>::empty());
    assert(json_views(pending@) =~= Seq::<JsonView>::empty());
    while i < lines.len()
        invariant
            crate::text::views(lines@) == ls,
            ls == lines_spec(content@),
            readable_source(content@),
            total_len(ls) <= content@.len() <= i32::MAX,
            i <= lines.len(),
            -total_len(ls.take(i as int)) <= depth <= total_len(ls.take(i as int)),
            (json_views(types@), json_views(pending@), opt_type_view(current), depth as int)
                == extract_state(ls.take(i as int), package@),
        decreases lines.len() - i,
    {
        proof {
            assert(ls.take(i + 1).drop_last() =~= ls.take(i as int));
            assert(ls.take(i + 1).last() == lines@[i as int]@);
            lemma_line_le_total(ls, i as int);
            assert(ls[i as int] == lines@[i as int]@);
        }
        read_source_line(
            &mut types,
            &mut pending,
            &mut current,
            &mut depth,
            &lines[i],
            package.as_str(),
            Ghost(total_len(ls.take(i as int))),
        );
        i += 1;
    }
    assert(ls.take(lines.len() as int) =~= ls);
    match current {
        Some(b) => {
            let ghost before = json_views(types@);
            let ghost bv = b@;
            let j = b.into_json();
            types.push(j);
            assert(json_views(types@) =~= before.push(type_json(bv)));
        },
        None => {},
    }
    types
}

// ─── javap output ────────────────────────────────────────────────────────────

/// A line of `javap` that declares a method: it ends in `;`, has a `(`, and
/// is no descriptor or constant.
pub open spec fn javap_signature_line(line: Seq<char>) -> bool {
    has_suffix(line, ";"@) && line.contains('(') && !has_prefix(line, "descriptor:"@) && !has_prefix(
        line,
        "#"@,
    )
}

/// The name of the method that a signature line declares: the last word
/// before its `(`.
pub open spec fn javap_method_name(line: Seq<char>) -> Option<Seq<char>> {
    let words = java_words(line.take(index_of_any(line, seq!['('])));
    if words.len() == 0 {
        None
    } else {
        Some(words.last())
    }
}

/// The parameter names listed from line `j` on: the first word of each
/// line up to an empty line, a line ending in `:` or one with `;`; and the
/// position of the line that ends the list.
pub open spec fn names_block(ls: Seq<Seq<char>>, j: int) -> (Seq<Seq<char>>, int)
    decreases ls.len() - j,
{
    if j < 0 || j >= ls.len() {
        (Seq::empty(), j)
    } else {
        let c = trim(ls[j]);
        if c.len() == 0 || has_suffix(c, ":"@) || c.contains(';') {
            (Seq::empty(), j)
        } else {
            let (rest, k) = names_block(ls, j + 1);
            (
                if ws_words(c).len() > 0 {
                    seq![ws_words(c)[0]] + rest
                } else {
                    rest
                },
                k,
            )
        }
    }
}

pub proof fn lemma_names_block(ls: Seq<Seq<char>>, j: int)
    ensures
        names_block(ls, j).1 >= j,
        names_block(ls, j).1 <= (if j > ls.len() {
            j
        } else {
            ls.len() as int
        }),
    decreases ls.len() - j,
{
    if 0 <= j < ls.len() {
        lemma_names_block(ls, j + 1);
    }
}

/// The parameter names of the methods in `javap -v` output from line `i`
/// on, given the method last declared; each `MethodParameters:` table names
/// the parameters of that method.
pub open spec fn javap_names_from(
    ls: Seq<Seq<char>>,
    i: int,
    current: Option<Seq<char>>,
    acc: Seq<(Seq<char>, Seq<Seq<char>>)>,
) -> Seq<(Seq<char>, Seq<Seq<char>>)>
    decreases ls.len() + 3 - i,
{
    if i < 0 || i >= ls.len() {
        acc
    } else {
        let line = trim(ls[i]);
        if javap_signature_line(line) {
            javap_names_from(ls, i + 1, javap_method_name(line), acc)
        } else if line == "MethodParameters:"@ {
            match current {
                None => javap_names_from(ls, i + 1, current, acc),
                Some(m) => {
                    proof {
                        lemma_names_block(ls, i + 2);
                    }
                    let (names, j) = names_block(ls, i + 2);
                    javap_names_from(ls, j + 1, current, acc.push((m, names)))
                },
            }
        } else {
            javap_names_from(ls, i + 1, current, acc)
        }
    }
}

/// The parameter names of the methods in `javap -v` output.
pub open spec fn javap_names(output: Seq<char>) -> Seq<(Seq<char>, Seq<Seq<char>>)> {
    javap_names_from(lines_spec(output), 0, None, Seq::empty())
}

/// The names recorded last for a method.
pub open spec fn names_for(table: Seq<(Seq<char>, Seq<Seq<char>>)>, method: Seq<char>) -> Option<Seq<Seq<char>>>
    decreases table.len(),
{
    if table.len() == 0 {
        None
    } else if table.last().0 == method {
        Some(table.last().1)
    } else {
        names_for(table.drop_last(), method)
    }
}

/// The views of a name table.
pub open spec fn table_views(t: Seq<(String, Vec<String>)>) -> Seq<(Seq<char>, Seq<Seq<char>>)> {
    t.map_values(|e: (String, Vec<String>)| (e.0@, texts(e.1@)))
}

fn first_word(c: &str) -> (r: Option<String>)
    ensures
        match r {
            Some(w) => ws_words(c@).len() > 0 && w@ == ws_words(c@)[0],
            None => ws_words(c@).len() == 0,
        },
{
    let words = split_ws_words(c);
    if words.len() > 0 {
        assert(words@.map_values(|w: String| w@)[0] == words@[0]@);
        Some(words[0].clone())
    } else {
        None
    }
}

fn read_names_block(lines: &Vec<Vec<char>>, start: usize) -> (r: (Vec<String>, usize))
    ensures
        (texts(r.0@), r.1 as int) == names_block(crate::text::views(lines@), start as int),
    decreases lines.len() - start,
{
    let ghost ls = crate::text::views(lines@);
    if start >= lines.len() {
        let v: Vec<String> = Vec::new();
        assert(texts(v@) =~= Seq::<Seq<char>>::empty());
        return (v, start);
    }
    assert(ls[start as int] == lines@[start as int]@);
    let c = string_of(trim_chars(lines[start].as_slice()).as_slice());
    let cc = chars_of(c.as_str());
    let colon = chars_of(":");
    if cc.len() == 0 || crate::text::ends_with(cc.as_slice(), colon.as_slice()) || crate::text::contains_char(
        cc.as_slice(),
        ';',
    ) {
        let v: Vec<String> = Vec::new();
        assert(texts(v@) =~= Seq::<Seq<char>>::empty());
        return (v, start);
    }
    let (rest, k) = read_names_block(lines, start + 1);
    match first_word(c.as_str()) {
        Some(w) => {
            let mut v: Vec<String> = Vec::new();
            v.push(w);
            let mut rest = rest;
            let ghost r0 = texts(rest@);
            let ghost v0 = texts(v@);
            v.append(&mut rest);
            assert(texts(v@) =~= v0 + r0);
            assert(v0 =~= seq![ws_words(c@)[0]]);
            (v, k)
        },
        None => (rest, k),
    }
}

/// Reads the parameter names that `javap -v` lists for each method.
pub fn javap_parameter_names(output: &str) -> (r: Vec<(String, Vec<String>)>)
    ensures
        table_views(r@) == javap_names(output@),
{
    let lines = lines_of(chars_of(output).as_slice());
    let ghost ls = lines_spec(output@);
    let mut table: Vec<(String, Vec<String>)> = Vec::new();
    let mut current: Option<String> = None;
    let mut index: usize = 0;
    assert(table_views(table@) =~= Seq::<(Seq<char>, Seq<Seq<char>>)>::empty());
    while index < lines.len()
        invariant
            crate::text::views(lines@) == ls,
            ls == lines_spec(output@),
            index <= lines.len(),
            javap_names(output@) == javap_names_from(ls, index as int, crate::resolver::opt_view(current), table_views(table@)),
        decreases lines.len() - index,
    {
        assert(ls[index as int] == lines@[index as int]@);
        let line = string_of(trim_chars(lines[index].as_slice()).as_slice());
        let lc = chars_of(line.as_str());
        let semi = chars_of(";");
        let desc = chars_of("descriptor:");
        let hash = chars_of("#");
        if crate::text::ends_with(lc.as_slice(), semi.as_slice()) && crate::text::contains_char(lc.as_slice(), '(')
            && !crate::text::starts_with(lc.as_slice(), desc.as_slice()) && !crate::text::starts_with(
            lc.as_slice(),
            hash.as_slice(),
        ) {
            let paren = vec!['('];
            assert(paren@ =~= seq!['(']);
            let cut = crate::remote::first_of_any(lc.as_slice(), paren.as_slice());
            proof {
                crate::remote::lemma_index_of_any(lc@, paren@);
            }
            let head = slice_chars(lc.as_slice(), 0, cut);
            assert(head@ =~= lc@.take(cut as int));
            let words = split_java_words(string_of(head.as_slice()).as_str());
            let ghost acc = table_views(table@);
            let ghost cur0 = crate::resolver::opt_view(current);
            current = if words.len() > 0 {
                assert(texts(words@).last() == words@[words.len() - 1]@);
                Some(words[words.len() - 1].clone())
            } else {
                None
            };
            assert(javap_signature_line(line@));
            assert(javap_method_name(line@) == crate::resolver::opt_view(current));
            assert(javap_names_from(ls, index as int, cur0, acc) == javap_names_from(
                ls,
                index + 1,
                crate::resolver::opt_view(current),
                acc,
            ));
            index += 1;
        } else if str_eq(line.as_str(), "MethodParameters:") {
            let ghost acc = table_views(table@);
            let ghost cur0 = crate::resolver::opt_view(current);
            assert(!javap_signature_line(line@));
            match &current {
                Some(method) => {
                    if lines.len() - index < 2 {
                        proof {
                            lemma_names_block(ls, index + 2);
                        }
                        let ghost before = table_views(table@);
                        let empty: Vec<String> = Vec::new();
                        assert(texts(empty@) =~= Seq::<Seq<char>>::empty());
                        table.push((method.clone(), empty));
                        assert(table_views(table@) =~= before.push((method@, Seq::<Seq<char>>::empty())));
                        assert(names_block(ls, index + 2) == (Seq::<Seq<char>>::empty(), index + 2));
                        assert(javap_names_from(ls, index + 3, cur0, table_views(table@)) == table_views(table@));
                        assert(cur0 == Some(method@));
                        assert(javap_names_from(ls, index as int, cur0, acc) == javap_names_from(
                            ls,
                            index + 3,
                            cur0,
                            table_views(table@),
                        ));
                        index = lines.len();
                    } else {
                        proof {
                            lemma_names_block(ls, index + 2);
                        }
                        let (names, j) = read_names_block(&lines, index + 2);
                        let ghost before = table_views(table@);
                        table.push((method.clone(), names));
                        assert(table_views(table@) =~= before.push((method@, texts(names@))));
                        assert(javap_names_from(ls, index as int, cur0, acc) == javap_names_from(
                            ls,
                            j + 1,
                            cur0,
                            table_views(table@),
                        ));
                        if j >= lines.len() {
                            index = lines.len();
                        } else {
                            index = j + 1;
                        }
                    }
                },
                None => {
                    index += 1;
                },
            }
        } else {
            assert(!javap_signature_line(line@));
            index += 1;
        }
    }
    table
}

/// A parameter with its name set (`value["name"] = name`): an object gets
/// or replaces its `name` member; `null` becomes an object with it.
pub open spec fn with_name(p: JsonView, name: Seq<char>) -> JsonView {
    match p {
        JsonView::Object(ms) => JsonView::Object(set_member(ms, "name"@, JsonView::Str(name))),
        JsonView::Null => JsonView::Object(seq![("name"@, JsonView::Str(name))]),
        _ => p,
    }
}

/// The position of the first member named `key`.
pub open spec fn member_index(ms: Seq<(Seq<char>, JsonView)>, key: Seq<char>) -> Option<int>
    decreases ms.len(),
{
    if ms.len() == 0 {
        None
    } else if ms[0].0 == key {
        Some(0)
    } else {
        match member_index(ms.drop_first(), key) {
            Some(i) => Some(i + 1),
            None => None,
        }
    }
}

proof fn lemma_member_index(ms: Seq<(Seq<char>, JsonView)>, key: Seq<char>)
    ensures
        match member_index(ms, key) {
            Some(i) => 0 <= i < ms.len() && ms[i].0 == key && forall|j: int| 0 <= j < i ==> ms[j].0 != key,
            None => forall|j: int| 0 <= j < ms.len() ==> ms[j].0 != key,
        },
    decreases ms.len(),
{
    if ms.len() > 0 && ms[0].0 != key {
        lemma_member_index(ms.drop_first(), key);
        assert forall|j: int| 0 < j < ms.len() implies ms[j] == ms.drop_first()[j - 1] by {}
    }
}

/// The members with `key` set to `v`: the first member of that name
/// replaced, or a new member added at the end.
pub open spec fn set_member(ms: Seq<(Seq<char>, JsonView)>, key: Seq<char>, v: JsonView) -> Seq<(Seq<char>, JsonView)> {
    match member_index(ms, key) {
        Some(i) => ms.update(i, (key, v)),
        None => ms.push((key, v)),
    }
}

/// The parameters with the names given, in order, as far as there are names.
pub open spec fn named_params(ps: Seq<JsonView>, names: Seq<Seq<char>>) -> Seq<JsonView> {
    Seq::new(
        ps.len(),
        |i: int|
            if i < names.len() {
                with_name(ps[i], names[i])
            } else {
                ps[i]
            },
    )
}

/// A member with the names of its parameters set.
pub open spec fn member_with_names(m: JsonView, names: Seq<Seq<char>>) -> JsonView {
    match m {
        JsonView::Object(ms) => match member_index(ms, "parameters"@) {
            Some(k) => match ms[k].1 {
                JsonView::Array(ps) => JsonView::Object(
                    ms.update(k, ("parameters"@, JsonView::Array(named_params(ps, names)))),
                ),
                _ => m,
            },
            None => m,
        },
        _ => m,
    }
}

/// Every parameter is an object or `null`.
pub open spec fn params_nameable(m: JsonView) -> bool {
    match m {
        JsonView::Object(ms) => match member_index(ms, "parameters"@) {
            Some(k) => match ms[k].1 {
                JsonView::Array(ps) => forall|i: int|
                    0 <= i < ps.len() ==> (#[trigger] ps[i] is Object || ps[i] is Null),
                _ => true,
            },
            None => true,
        },
        _ => true,
    }
}

fn find_member_index(members: &Vec<(String, Json)>, key: &str) -> (r: Option<usize>)
    ensures
        r matches Some(i) ==> member_index(jmembers(members@), key@) == Some(i as int),
        r is None ==> member_index(jmembers(members@), key@) is None,
{
    let ghost mv = jmembers(members@);
    proof {
        lemma_member_index(mv, key@);
    }
    let mut i: usize = 0;
    while i < members.len()
        invariant
            mv == jmembers(members@),
            i <= members.len(),
            forall|j: int| 0 <= j < i ==> mv[j].0 != key@,
        decreases members.len() - i,
    {
        assert(mv[i as int].0 == members@[i as int].0@);
        if str_eq(members[i].0.as_str(), key) {
            proof {
                lemma_member_index(mv, key@);
                match member_index(mv, key@) {
                    Some(f) => {
                        if f < i {
                        }
                        if f > i {
                        }
                    },
                    None => {},
                }
            }
            return Some(i);
        }
        i += 1;
    }
    proof {
        lemma_member_index(mv, key@);
        match member_index(mv, key@) {
            Some(f) => {},
            None => {},
        }
    }
    None
}

fn set_name(p: Json, name: &String) -> (r: Json)
    requires
        json_view(p) is Object || json_view(p) is Null,
    ensures
        json_view(r) == with_name(json_view(p), name@),
{
    match p {
        Json::Object(members) => {
            proof {
                crate::docs::lemma_object_view(members);
            }
            let mut members = members;
            let ghost mv = jmembers(members@);
            assert(json_view(p) == JsonView::Object(mv));
            match find_member_index(&members, "name") {
                Some(i) => {
                    proof {
                        lemma_member_index(mv, "name"@);
                    }
                    members.set(i, ("name".to_owned(), Json::Str(name.clone())));
                    assert(jmembers(members@) =~= mv.update(i as int, ("name"@, JsonView::Str(name@))));
                    assert(set_member(mv, "name"@, JsonView::Str(name@)) == jmembers(members@));
                },
                None => {
                    members.push(("name".to_owned(), Json::Str(name.clone())));
                    assert(jmembers(members@) =~= mv.push(("name"@, JsonView::Str(name@))));
                    assert(set_member(mv, "name"@, JsonView::Str(name@)) == jmembers(members@));
                },
            }
            let r = crate::docs::json_object(members);
            assert(json_view(r) == with_name(json_view(p), name@));
            r
        },
        _ => {
            let mut out: Vec<(String, Json)> = Vec::new();
            out.push(("name".to_owned(), Json::Str(name.clone())));
            assert(jmembers(out@) =~= seq![("name"@, JsonView::Str(name@))]);
            crate::docs::json_object(out)
        },
    }
}

fn name_params(ps: Vec<Json>, names: &Vec<String>) -> (r: Vec<Json>)
    requires
        forall|i: int| 0 <= i < ps@.len() ==> (json_view(#[trigger] ps@[i]) is Object || json_view(ps@[i]) is Null),
    ensures
        json_views(r@) == named_params(json_views(ps@), texts(names@)),
{
    let ghost all = ps@;
    let ghost target = named_params(json_views(all), texts(names@));
    let mut rest = ps;
    let mut out: Vec<Json> = Vec::new();
    let mut k: usize = 0;
    assert(all.len() == rest.len());
    assert(all.skip(0) =~= all);
    while rest.len() > 0
        invariant
            k <= all.len(),
            all.len() <= usize::MAX,
            rest@ == all.skip(k as int),
            target == named_params(json_views(all), texts(names@)),
            forall|i: int| 0 <= i < all.len() ==> (json_view(#[trigger] all[i]) is Object || json_view(all[i]) is Null),
            out@.len() == k,
            forall|i: int| 0 <= i < k ==> json_view(#[trigger] out@[i]) == target[i],
        decreases rest.len(),
    {
        assert(all.skip(k as int).len() == all.len() - k);
        let p = rest.remove(0);
        assert(p == all[k as int]);
        assert(rest@ =~= all.skip(k + 1));
        if k < names.len() {
            let named = set_name(p, &names[k]);
            assert(texts(names@)[k as int] == names@[k as int]@);
            out.push(named);
        } else {
            out.push(p);
        }
        k += 1;
    }
    assert(json_views(out@) =~= target);
    out
}

/// Sets the names of a member's parameters, in order.
pub fn apply_parameter_names(value: &mut Json, names: &Vec<String>)
    requires
        params_nameable(json_view(*old(value))),
    ensures
        json_view(*final(value)) == member_with_names(json_view(*old(value)), texts(names@)),
{
    let mut v = Json::Null;
    std::mem::swap(&mut v, value);
    match v {
        Json::Object(members) => {
            proof {
                crate::docs::lemma_object_view(members);
            }
            let mut members = members;
            let ghost mv = jmembers(members@);
            let found = find_member_index(&members, "parameters");
            proof {
                lemma_member_index(mv, "parameters"@);
            }
            match found {
                Some(k) => {
                    assert(member_index(mv, "parameters"@) == Some(k as int));
                    let ghost before = members@;
                    let (key, pv) = members.remove(k);
                    assert(mv[k as int] == (key@, json_view(pv)));
                    assert(json_view(v) == JsonView::Object(mv));
                    match pv {
                        Json::Array(ps) => {
                            proof {
                                crate::docs::lemma_array_view(ps);
                                assert(mv[k as int].1 == crate::docs::jarray(ps@));
                                assert forall|i: int| 0 <= i < ps@.len() implies (json_view(#[trigger] ps@[i]) is Object
                                    || json_view(ps@[i]) is Null) by {
                                    assert(json_views(ps@)[i] == json_view(ps@[i]));
                                    assert(v == *old(value));
                                    assert(params_nameable(JsonView::Object(mv)));
                                    assert(member_index(mv, "parameters"@) == Some(k as int));
                                    assert(mv[k as int].1 == JsonView::Array(json_views(ps@)));
                                    assert(json_views(ps@)[i] is Object || json_views(ps@)[i] is Null);
                                }
                            }
                            let ghost psv = json_views(ps@);
                            let named = name_params(ps, names);
                            let arr = crate::docs::json_array_of(named);
                            members.insert(k, (key, arr));
                            assert(members@ =~= before.update(k as int, (key, arr)));
                            assert(json_views(named@) == named_params(psv, texts(names@)));
                            assert(json_view(arr) == JsonView::Array(named_params(psv, texts(names@))));
                            assert(jmembers(members@) =~= mv.update(
                                k as int,
                                ("parameters"@, JsonView::Array(named_params(psv, texts(names@)))),
                            ));
                        },
                        other => {
                            members.insert(k, (key, other));
                            assert(members@ =~= before);
                            assert(jmembers(members@) =~= mv);
                        },
                    }
                },
                None => {},
            }
            *value = crate::docs::json_object(members);
        },
        other => {
            *value = other;
        },
    }
}

// ─── Types from javap ────────────────────────────────────────────────────────

/// A line of `javap` output that `docs` reads: a declaration (ending in `;`
/// or `{`, or opening a class, interface or enum) that is no descriptor,
/// flags, constant or file information.
pub open spec fn javap_kept_line(l: Seq<char>) -> bool {
    (has_suffix(l, ";"@) || has_suffix(l, "{"@) || has_prefix(l, "public class "@) || has_prefix(
        l,
        "protected class "@,
    ) || has_prefix(l, "class "@) || has_prefix(l, "public interface "@) || has_prefix(
        l,
        "public enum "@,
    )) && !has_prefix(l, "descriptor:"@) && !has_prefix(l, "flags:"@) && !has_prefix(l, "#"@)
        && !has_prefix(l, "Classfile "@) && !has_prefix(l, "Last modified "@) && !has_prefix(
        l,
        "SHA-256 "@,
    ) && !has_prefix(l, "Compiled from "@)
}

/// The trimmed lines that `docs` reads, in order.
pub open spec fn javap_signature_lines(ls: Seq<Seq<char>>) -> Seq<Seq<char>>
    decreases ls.len(),
{
    if ls.len() == 0 {
        Seq::empty()
    } else {
        let rest = javap_signature_lines(ls.drop_last());
        let t = trim(ls.last());
        if javap_kept_line(t) {
            rest.push(t)
        } else {
            rest
        }
    }
}

/// A line that declares a class, interface or enum.
pub open spec fn mentions_type(l: Seq<char>) -> bool {
    crate::text::contains_seq(l, " class "@) || crate::text::contains_seq(l, " interface "@)
        || crate::text::contains_seq(l, " enum "@)
}

/// The first line that declares a type.
pub open spec fn first_type_line(sl: Seq<Seq<char>>) -> Option<Seq<char>>
    decreases sl.len(),
{
    if sl.len() == 0 {
        None
    } else if mentions_type(sl[0]) {
        Some(sl[0])
    } else {
        first_type_line(sl.drop_first())
    }
}

/// The position of the first `class`, `interface` or `enum` word.
pub open spec fn javap_kind_index(tokens: Seq<Seq<char>>) -> Option<int>
    decreases tokens.len(),
{
    if tokens.len() == 0 {
        None
    } else if tokens[0] == "class"@ || tokens[0] == "interface"@ || tokens[0] == "enum"@ {
        Some(0)
    } else {
        match javap_kind_index(tokens.drop_first()) {
            Some(i) => Some(i + 1),
            None => None,
        }
    }
}

proof fn lemma_javap_kind_index(tokens: Seq<Seq<char>>)
    ensures
        match javap_kind_index(tokens) {
            Some(i) => 0 <= i < tokens.len() && (tokens[i] == "class"@ || tokens[i] == "interface"@
                || tokens[i] == "enum"@) && forall|j: int|
                0 <= j < i ==> !(tokens[j] == "class"@ || tokens[j] == "interface"@ || tokens[j] == "enum"@),
            None => forall|j: int|
                0 <= j < tokens.len() ==> !(tokens[j] == "class"@ || tokens[j] == "interface"@ || tokens[j]
                    == "enum"@),
        },
    decreases tokens.len(),
{
    if tokens.len() > 0 && !(tokens[0] == "class"@ || tokens[0] == "interface"@ || tokens[0] == "enum"@) {
        lemma_javap_kind_index(tokens.drop_first());
        assert forall|j: int| 0 < j < tokens.len() implies tokens[j] == tokens.drop_first()[j - 1] by {}
    }
}

/// The type that `javap` output declares, with the header line of its
/// declaration: its kind, its qualified name split at the last dot into
/// package and name, its visibility and modifiers; no members yet.
pub open spec fn javap_type_base(output: Seq<char>) -> Option<(TypeView, Seq<char>)> {
    let sl = javap_signature_lines(lines_spec(output));
    match first_type_line(sl) {
        None => None,
        Some(tl) => {
            let header = trim(trim_end_char(tl, '{'));
            let tokens = java_words(header);
            match javap_kind_index(tokens) {
                None => None,
                Some(k) => if k + 1 >= tokens.len() {
                    None
                } else {
                    let qn = tokens[k + 1];
                    let (package, name) = match last_index_of(qn, '.') {
                        Some(d) => (qn.take(d), qn.skip(d + 1)),
                        None => (Seq::empty(), qn),
                    };
                    Some(
                        (
                            TypeView {
                                kind: tokens[k],
                                name,
                                qualified_name: qn,
                                package,
                                visibility: visibility_of(tokens),
                                modifiers: modifiers_of(tokens.take(k)),
                                annotations: Seq::empty(),
                                description: None,
                                examples: Seq::empty(),
                                extends: None,
                                implements: Seq::empty(),
                                fields: Seq::empty(),
                                constructors: Seq::empty(),
                                methods: Seq::empty(),
                            },
                            header,
                        ),
                    )
                },
            }
        },
    }
}

/// The text of a member of an object view.
pub open spec fn view_text(v: JsonView, key: Seq<char>) -> Option<Seq<char>> {
    match v {
        JsonView::Object(ms) => match member_index(ms, key) {
            Some(i) => match ms[i].1 {
                JsonView::Str(s) => Some(s),
                _ => None,
            },
            None => None,
        },
        _ => None,
    }
}

/// A member with the parameter names that `javap` listed for its name.
pub open spec fn named_member(v: JsonView, table: Seq<(Seq<char>, Seq<Seq<char>>)>) -> JsonView {
    match view_text(v, "name"@) {
        Some(n) => match names_for(table, n) {
            Some(ns) => member_with_names(v, ns),
            None => v,
        },
        None => v,
    }
}

/// The declaration that a `javap` line holds: without its `;`, trimmed.
pub open spec fn javap_declaration(line: Seq<char>) -> Seq<char> {
    trim(trim_end_char(line, ';'))
}

/// The type with the member that one `javap` line declares, if any.
pub open spec fn javap_member_step(
    t: TypeView,
    line: Seq<char>,
    header: Seq<char>,
    table: Seq<(Seq<char>, Seq<Seq<char>>)>,
) -> TypeView {
    let l = javap_declaration(line);
    if l == header || has_suffix(l, "{"@) {
        t
    } else if l.contains('(') && l.contains(')') {
        match callable_view(l, t.package, t.name, Seq::empty()) {
            Some(MemberView::Method(v)) => with_member(t, MemberView::Method(named_member(v, table))),
            Some(MemberView::Constructor(v)) => with_member(
                t,
                MemberView::Constructor(named_member(v, table)),
            ),
            _ => t,
        }
    } else {
        match field_view(l, t.package, t.name, Seq::empty()) {
            Some(f) => with_member(t, MemberView::Field(f)),
            None => t,
        }
    }
}

/// The type with the members of the lines.
pub open spec fn javap_members(
    t: TypeView,
    sl: Seq<Seq<char>>,
    header: Seq<char>,
    table: Seq<(Seq<char>, Seq<Seq<char>>)>,
) -> TypeView
    decreases sl.len(),
{
    if sl.len() == 0 {
        t
    } else {
        javap_member_step(javap_members(t, sl.drop_last(), header, table), sl.last(), header, table)
    }
}

/// The JSON of the type that `javap -v` output describes.
pub open spec fn javap_type_view(output: Seq<char>) -> Option<JsonView> {
    match javap_type_base(output) {
        None => None,
        Some((t, header)) => Some(
            type_json(
                javap_members(t, javap_signature_lines(lines_spec(output)), header, javap_names(output)),
            ),
        ),
    }
}

/// Every declaration line that is read as a member (a kept line holding
/// both parentheses) has them in order.
pub open spec fn readable_javap(output: Seq<char>) -> bool {
    forall|i: int|
        0 <= i < lines_spec(output).len() && javap_kept_line(trim(#[trigger] lines_spec(output)[i]))
            ==> parens_in_order(javap_declaration(trim(lines_spec(output)[i])))
}

proof fn lemma_signature_lines_kept(ls: Seq<Seq<char>>)
    ensures
        forall|k: int|
            0 <= k < javap_signature_lines(ls).len() ==> javap_kept_line(
                #[trigger] javap_signature_lines(ls)[k],
            ),
    decreases ls.len(),
{
    if ls.len() > 0 {
        lemma_signature_lines_kept(ls.drop_last());
        let rest = javap_signature_lines(ls.drop_last());
        assert forall|k: int| 0 <= k < javap_signature_lines(ls).len() implies javap_kept_line(
            #[trigger] javap_signature_lines(ls)[k],
        ) by {
            if k < rest.len() {
                assert(javap_signature_lines(ls)[k] == rest[k]);
            }
        }
    }
}

proof fn lemma_callable_nameable(d: Seq<char>, package: Seq<char>, owner: Seq<char>, ann: Seq<JsonView>)
    ensures
        callable_view(d, package, owner, ann) matches Some(MemberView::Method(v)) ==> params_nameable(v),
        callable_view(d, package, owner, ann) matches Some(MemberView::Constructor(v)) ==> params_nameable(v),
{
    reveal_strlit("name");
    reveal_strlit("qualifiedName");
    reveal_strlit("visibility");
    reveal_strlit("modifiers");
    reveal_strlit("annotations");
    reveal_strlit("parameters");
    let open = index_of_any(d, seq!['(']);
    if open < d.len() {
        match last_index_of(d, ')') {
            None => {},
            Some(close) => {
                let before = trim(d.take(open));
                let params = d.subrange(open + 1, close);
                match type_and_name(before) {
                    None => {},
                    Some((head, name)) => {
                        let common = callable_members(name, package, owner, before, ann, params);
                        assert("parameters"@.len() == 10);
                        assert("name"@.len() == 4);
                        assert("qualifiedName"@.len() == 13);
                        assert("modifiers"@.len() == 9);
                        assert("annotations"@.len() == 11);
                        assert("name"@ != "parameters"@);
                        assert("qualifiedName"@ != "parameters"@);
                        assert("visibility"@[0] != "parameters"@[0]);
                        assert("visibility"@ != "parameters"@);
                        assert("modifiers"@ != "parameters"@);
                        assert("annotations"@ != "parameters"@);
                        let pv = parameters_view(params, package);
                        assert forall|i: int| 0 <= i < pv.len() implies (#[trigger] pv[i] is Object || pv[i] is Null) by {
                        }
                        let extra = if name == owner {
                            Seq::<(Seq<char>, JsonView)>::empty()
                        } else {
                            seq![(
                                "returnType"@,
                                JsonView::Str(
                                    qualified_type(package, without_type_parameters(without_modifiers(trim(head)))),
                                ),
                            )]
                        };
                        let ms = common + extra + seq![("throws"@, jstrs(throws_of(trim(d.skip(close + 1)), package)))];
                        assert(member_index(ms, "parameters"@) == Some(5int)) by {
                            reveal_with_fuel(member_index, 7);
                            let m1 = ms.drop_first();
                            let m2 = m1.drop_first();
                            let m3 = m2.drop_first();
                            let m4 = m3.drop_first();
                            let m5 = m4.drop_first();
                            assert(m1[0] == ms[1]);
                            assert(m2[0] == ms[2]);
                            assert(m3[0] == ms[3]);
                            assert(m4[0] == ms[4]);
                            assert(m5[0] == ms[5]);
                            assert(ms[0].0 == "name"@);
                            assert(ms[1].0 == "qualifiedName"@);
                            assert(ms[2].0 == "visibility"@);
                            assert(ms[3].0 == "modifiers"@);
                            assert(ms[4].0 == "annotations"@);
                            assert(ms[5].0 == "parameters"@);
                            assert(ms.drop_first().drop_first().drop_first().drop_first().drop_first()[0].0 == "parameters"@);
                        }
                        if name == owner {
                            assert(common.push(("throws"@, jstrs(throws_of(trim(d.skip(close + 1)), package)))) =~= ms);
                        } else {
                            assert(common.push(extra[0]).push(("throws"@, jstrs(throws_of(trim(d.skip(close + 1)), package)))) =~= ms);
                        }
                    },
                }
            },
        }
    }
}

fn member_name(j: &Json) -> (r: Option<String>)
    ensures
        match view_text(json_view(*j), "name"@) {
            Some(n) => r matches Some(s) && s@ == n,
            None => r is None,
        },
{
    match j {
        Json::Object(members) => {
            proof {
                crate::docs::lemma_object_view(*members);
                lemma_member_index(jmembers(members@), "name"@);
            }
            match find_member_index(members, "name") {
                Some(i) => {
                    assert(jmembers(members@)[i as int] == (members@[i as int].0@, json_view(members@[i as int].1)));
                    match &members[i].1 {
                        Json::Str(s) => Some(s.clone()),
                        _ => None,
                    }
                },
                None => None,
            }
        },
        _ => None,
    }
}

fn lookup_names<'a>(table: &'a Vec<(String, Vec<String>)>, name: &str) -> (r: Option<&'a Vec<String>>)
    ensures
        match names_for(table_views(table@), name@) {
            Some(ns) => r matches Some(v) && texts(v@) == ns,
            None => r is None,
        },
{
    let ghost tv = table_views(table@);
    let mut i: usize = table.len();
    assert(tv.take(table.len() as int) =~= tv);
    while i > 0
        invariant
            tv == table_views(table@),
            i <= table.len(),
            names_for(tv, name@) == names_for(tv.take(i as int), name@),
        decreases i,
    {
        assert(tv.take(i as int).last() == (table@[i - 1].0@, texts(table@[i - 1].1@)));
        if str_eq(table[i - 1].0.as_str(), name) {
            return Some(&table[i - 1].1);
        }
        assert(tv.take(i as int).drop_last() =~= tv.take(i - 1));
        i -= 1;
    }
    None
}

fn javap_lines(lines: &Vec<Vec<char>>) -> (r: Vec<String>)
    ensures
        texts(r@) == javap_signature_lines(crate::text::views(lines@)),
        forall|k: int| 0 <= k < r@.len() ==> exists|i: int| 0 <= i < lines@.len() && (#[trigger] r@[k])@ == trim(lines@[i]@),
{
    let ghost ls = crate::text::views(lines@);
    let mut out: Vec<String> = Vec::new();
    let mut i: usize = 0;
    assert(ls.take(0) =~= Seq::<Seq<char>>::empty());
    while i < lines.len()
        invariant
            ls == crate::text::views(lines@),
            i <= lines.len(),
            texts(out@) == javap_signature_lines(ls.take(i as int)),
            forall|k: int| 0 <= k < out@.len() ==> exists|j: int| 0 <= j < lines@.len() && (#[trigger] out@[k])@ == trim(lines@[j]@),
        decreases lines.len() - i,
    {
        assert(ls.take(i + 1).drop_last() =~= ls.take(i as int));
        assert(ls.take(i + 1).last() == lines@[i as int]@);
        let t = string_of(trim_chars(lines[i].as_slice()).as_slice());
        if is_javap_kept_line(t.as_str()) {
            let ghost before = texts(out@);
            out.push(t);
            assert(texts(out@) =~= before.push(trim(lines@[i as int]@)));
            assert(out@[out@.len() - 1]@ == trim(lines@[i as int]@));
        }
        i += 1;
    }
    assert(ls.take(lines.len() as int) =~= ls);
    out
}

fn is_javap_kept_line(l: &str) -> (r: bool)
    ensures
        r == javap_kept_line(l@),
{
    let c = chars_of(l);
    let ends = crate::text::ends_with(c.as_slice(), chars_of(";").as_slice()) || crate::text::ends_with(
        c.as_slice(),
        chars_of("{").as_slice(),
    );
    let starts = crate::text::starts_with(c.as_slice(), chars_of("public class ").as_slice())
        || crate::text::starts_with(c.as_slice(), chars_of("protected class ").as_slice())
        || crate::text::starts_with(c.as_slice(), chars_of("class ").as_slice())
        || crate::text::starts_with(c.as_slice(), chars_of("public interface ").as_slice())
        || crate::text::starts_with(c.as_slice(), chars_of("public enum ").as_slice());
    let excluded = crate::text::starts_with(c.as_slice(), chars_of("descriptor:").as_slice())
        || crate::text::starts_with(c.as_slice(), chars_of("flags:").as_slice())
        || crate::text::starts_with(c.as_slice(), chars_of("#").as_slice())
        || crate::text::starts_with(c.as_slice(), chars_of("Classfile ").as_slice())
        || crate::text::starts_with(c.as_slice(), chars_of("Last modified ").as_slice())
        || crate::text::starts_with(c.as_slice(), chars_of("SHA-256 ").as_slice())
        || crate::text::starts_with(c.as_slice(), chars_of("Compiled from ").as_slice());
    (ends || starts) && !excluded
}

fn mentions_type_exec(l: &str) -> (r: bool)
    ensures
        r == mentions_type(l@),
{
    let c = chars_of(l);
    crate::text::contains(c.as_slice(), chars_of(" class ").as_slice()) || crate::text::contains(
        c.as_slice(),
        chars_of(" interface ").as_slice(),
    ) || crate::text::contains(c.as_slice(), chars_of(" enum ").as_slice())
}

fn find_javap_kind(tokens: &Vec<String>) -> (r: Option<usize>)
    ensures
        match javap_kind_index(texts(tokens@)) {
            Some(i) => r == Some(i as usize),
            None => r is None,
        },
{
    let mut i: usize = 0;
    while i < tokens.len()
        invariant
            i <= tokens.len(),
            forall|j: int|
                0 <= j < i ==> !(texts(tokens@)[j] == "class"@ || texts(tokens@)[j] == "interface"@
                    || texts(tokens@)[j] == "enum"@),
        decreases tokens.len() - i,
    {
        let t = tokens[i].as_str();
        assert(texts(tokens@)[i as int] == tokens@[i as int]@);
        if str_eq(t, "class") || str_eq(t, "interface") || str_eq(t, "enum") {
            proof {
                lemma_javap_kind_index(texts(tokens@));
                match javap_kind_index(texts(tokens@)) {
                    Some(k) => {
                        if k < i {
                        }
                        if k > i {
                        }
                    },
                    None => {},
                }
            }
            return Some(i);
        }
        i += 1;
    }
    proof {
        lemma_javap_kind_index(texts(tokens@));
        match javap_kind_index(texts(tokens@)) {
            Some(k) => {},
            None => {},
        }
    }
    None
}

fn read_javap_member(
    b: &mut DocsTypeBuilder,
    line: &String,
    header: &String,
    table: &Vec<(String, Vec<String>)>,
)
    requires
        javap_declaration(line@).len() <= i32::MAX,
        parens_in_order(javap_declaration(line@)),
    ensures
        final(b)@ == javap_member_step(old(b)@, line@, header@, table_views(table@)),
{
    let t1 = trim_end_c(chars_of(line.as_str()).as_slice(), ';');
    let l = string_of(trim_chars(t1.as_slice()).as_slice());
    let lc = chars_of(l.as_str());
    if str_eq(l.as_str(), header.as_str()) || crate::text::ends_with(lc.as_slice(), chars_of("{").as_slice()) {
        return;
    }
    let package = b.package.clone();
    let owner = b.name.clone();
    if crate::text::contains_char(lc.as_slice(), '(') && crate::text::contains_char(lc.as_slice(), ')') {
        proof {
            lemma_callable_nameable(l@, package@, owner@, Seq::empty());
        }
        let empty: Vec<Json> = Vec::new();
        assert(json_views(empty@) =~= Seq::<JsonView>::empty());
        match parse_method_or_constructor(l.as_str(), package.as_str(), owner.as_str(), empty) {
            Some(DocsMember::Method(v)) => {
                let mut v = v;
                let ghost v0 = json_view(v);
                match member_name(&v) {
                    Some(n) => {
                        match lookup_names(table, n.as_str()) {
                            Some(ns) => {
                                apply_parameter_names(&mut v, ns);
                            },
                            None => {},
                        }
                    },
                    None => {},
                }
                assert(json_view(v) == named_member(v0, table_views(table@)));
                b.push_member(DocsMember::Method(v));
            },
            Some(DocsMember::Constructor(v)) => {
                let mut v = v;
                let ghost v0 = json_view(v);
                match member_name(&v) {
                    Some(n) => {
                        match lookup_names(table, n.as_str()) {
                            Some(ns) => {
                                apply_parameter_names(&mut v, ns);
                            },
                            None => {},
                        }
                    },
                    None => {},
                }
                assert(json_view(v) == named_member(v0, table_views(table@)));
                b.push_member(DocsMember::Constructor(v));
            },
            _ => {},
        }
    } else {
        let empty: Vec<Json> = Vec::new();
        assert(json_views(empty@) =~= Seq::<JsonView>::empty());
        match parse_field(l.as_str(), package.as_str(), owner.as_str(), empty) {
            Some(f) => {
                b.push_member(DocsMember::Field(f));
            },
            None => {},
        }
    }
}

fn find_type_line(sig: &Vec<String>) -> (r: Option<usize>)
    ensures
        match first_type_line(texts(sig@)) {
            Some(l) => r matches Some(k) && k < sig@.len() && sig@[k as int]@ == l,
            None => r is None,
        },
{
    let ghost sl = texts(sig@);
    let mut k: usize = 0;
    assert(sl.skip(0) =~= sl);
    while k < sig.len()
        invariant
            sl == texts(sig@),
            k <= sig.len(),
            first_type_line(sl) == first_type_line(sl.skip(k as int)),
        decreases sig.len() - k,
    {
        let ghost rest = sl.skip(k as int);
        assert(rest[0] == sig@[k as int]@);
        if mentions_type_exec(sig[k].as_str()) {
            return Some(k);
        }
        assert(rest.drop_first() =~= sl.skip(k + 1));
        k += 1;
    }
    None
}

/// Reads the type that `javap -v` output describes, with the parameter
/// names that it lists.
pub fn parse_javap_type(output: &str) -> (r: Option<Json>)
    requires
        output@.len() <= i32::MAX,
        readable_javap(output@),
    ensures
        match javap_type_view(output@) {
            Some(v) => r matches Some(j) && json_view(j) == v,
            None => r is None,
        },
{
    let lines = lines_of(chars_of(output).as_slice());
    let ghost ls = lines_spec(output@);
    let sig = javap_lines(&lines);
    let ghost sl = texts(sig@);
    proof {
        lemma_lines_total(output@);
    }
    let k = match find_type_line(&sig) {
        Some(k) => k,
        None => {
            return None;
        },
    };
    assert(first_type_line(sl) == Some(sig@[k as int]@));
    let h1 = trim_end_c(chars_of(sig[k].as_str()).as_slice(), '{');
    let header = string_of(trim_chars(h1.as_slice()).as_slice());
    let tokens = split_java_words(header.as_str());
    let ghost ts = texts(tokens@);
    let ki = match find_javap_kind(&tokens) {
        Some(i) => i,
        None => {
            return None;
        },
    };
    proof {
        lemma_javap_kind_index(ts);
    }
    if tokens.len() - ki < 2 {
        return None;
    }
    let qn = tokens[ki + 1].clone();
    let qc = chars_of(qn.as_str());
    let (package, name) = match crate::remote::last_occurrence(qc.as_slice(), '.') {
        Some(d) => {
            proof {
                crate::remote::lemma_last_index_of(qc@, '.');
            }
            assert(d < qc.len());
            let p = slice_chars(qc.as_slice(), 0, d);
            let n = slice_chars(qc.as_slice(), d + 1, qc.len());
            assert(p@ =~= qn@.take(d as int));
            assert(n@ =~= qn@.skip(d + 1));
            (string_of(p.as_slice()), string_of(n.as_slice()))
        },
        None => {
            proof {
                reveal_strlit("");
            }
            (String::new(), qn.clone())
        },
    };
    let visibility = parse_visibility(tokens.as_slice());
    let before_kind = slice_strings(&tokens, ki);
    assert(texts(before_kind@) =~= ts.take(ki as int));
    let modifiers = parse_modifiers(before_kind.as_slice());
    let mut b = DocsTypeBuilder {
        kind: tokens[ki].clone(),
        name,
        qualified_name: qn,
        package,
        visibility,
        modifiers,
        annotations: Vec::new(),
        description: None,
        examples: Vec::new(),
        extends: None,
        implements: Vec::new(),
        fields: Vec::new(),
        constructors: Vec::new(),
        methods: Vec::new(),
    };
    proof {
        assert(json_views(b.annotations@) =~= Seq::<JsonView>::empty());
        assert(texts(b.examples@) =~= Seq::<Seq<char>>::empty());
        assert(texts(b.implements@) =~= Seq::<Seq<char>>::empty());
        assert(json_views(b.fields@) =~= Seq::<JsonView>::empty());
        assert(json_views(b.constructors@) =~= Seq::<JsonView>::empty());
        assert(json_views(b.methods@) =~= Seq::<JsonView>::empty());
        assert(javap_type_base(output@) == Some((b@, header@)));
    }
    let ghost t0 = b@;
    let table = javap_parameter_names(output);
    let mut i: usize = 0;
    assert(sl.take(0) =~= Seq::<Seq<char>>::empty());
    while i < sig.len()
        invariant
            sl == texts(sig@),
            sl == javap_signature_lines(ls),
            ls == lines_spec(output@),
            crate::text::views(lines@) == ls,
            readable_javap(output@),
            total_len(ls) <= output@.len() <= i32::MAX,
            forall|q: int| 0 <= q < sig@.len() ==> exists|j: int| 0 <= j < lines@.len() && (#[trigger] sig@[q])@ == trim(lines@[j]@),
            i <= sig.len(),
            b@ == javap_members(t0, sl.take(i as int), header@, table_views(table@)),
        decreases sig.len() - i,
    {
        assert(sl.take(i + 1).drop_last() =~= sl.take(i as int));
        assert(sl.take(i + 1).last() == sig@[i as int]@);
        proof {
            let j = choose|j: int| 0 <= j < lines@.len() && sig@[i as int]@ == trim(lines@[j]@);
            assert(ls[j] == lines@[j]@);
            lemma_signature_lines_kept(ls);
            assert(sl[i as int] == sig@[i as int]@);
            assert(javap_kept_line(trim(ls[j])));
            assert(parens_in_order(javap_declaration(trim(ls[j]))));
            lemma_line_le_total(ls, j);
            lemma_trim_shorter(ls[j]);
            lemma_trim_end_char_shorter(trim(ls[j]), ';');
            lemma_trim_shorter(trim_end_char(trim(ls[j]), ';'));
        }
        read_javap_member(&mut b, &sig[i], &header, &table);
        i += 1;
    }
    assert(sl.take(sig.len() as int) =~= sl);
    Some(b.into_json())
}

} // verus!
