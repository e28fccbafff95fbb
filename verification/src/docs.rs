//! API documentation: the Markdown that `docs` writes from the JSON model of
//! a script's sources and types.
use vstd::prelude::*;
use crate::catalog::{json_get, json_str, json_view, strings_of, Json, JsonView};
use crate::text::{is_whitespace, is_ws, trim, trim_str};

verus! {

// ─── Joining and words ───────────────────────────────────────────────────────

/// The parts with `sep` between each two.
pub open spec fn join_with(p: Seq<Seq<char>>, sep: Seq<char>) -> Seq<char>
    decreases p.len(),
{
    if p.len() == 0 {
        Seq::empty()
    } else if p.len() == 1 {
        p[0]
    } else {
        join_with(p.drop_last(), sep) + sep + p.last()
    }
}

/// Joins texts with a separator (`[String]::join`).
pub fn join_strings(parts: &Vec<String>, sep: &str) -> (r: String)
    ensures
        r@ == join_with(parts@.map_values(|s: String| s@), sep@),
{
    let ghost ps = parts@.map_values(|s: String| s@);
    let mut out = String::new();
    let mut i: usize = 0;
    while i < parts.len()
        invariant
            ps == parts@.map_values(|s: String| s@),
            i <= parts.len(),
            out@ == join_with(ps.take(i as int), sep@),
        decreases parts.len() - i,
    {
        assert(ps.take(i + 1).drop_last() =~= ps.take(i as int));
        assert(ps.take(i + 1).last() == parts@[i as int]@);
        if i > 0 {
            out.append(sep);
        } else {
            assert(ps.take(0) =~= Seq::<Seq<char>>::empty());
        }
        out.append(parts[i].as_str());
        i += 1;
    }
    assert(ps.take(parts.len() as int) =~= ps);
    out
}

/// The parts that are not empty, in order.
pub open spec fn non_empty(p: Seq<Seq<char>>) -> Seq<Seq<char>>
    decreases p.len(),
{
    if p.len() == 0 {
        Seq::empty()
    } else if p.last().len() == 0 {
        non_empty(p.drop_last())
    } else {
        non_empty(p.drop_last()).push(p.last())
    }
}

/// The words of `s` between white space (`str::split_whitespace`), read
/// from the left: the finished words and the word being read.
pub open spec fn ws_state(s: Seq<char>) -> (Seq<Seq<char>>, Seq<char>)
    decreases s.len(),
{
    if s.len() == 0 {
        (Seq::empty(), Seq::empty())
    } else {
        let (done, cur) = ws_state(s.drop_last());
        if is_ws(s.last()) {
            if cur.len() > 0 {
                (done.push(cur), Seq::empty())
            } else {
                (done, cur)
            }
        } else {
            (done, cur.push(s.last()))
        }
    }
}

/// The words of `s` between white space.
pub open spec fn ws_words(s: Seq<char>) -> Seq<Seq<char>> {
    let (done, cur) = ws_state(s);
    if cur.len() > 0 {
        done.push(cur)
    } else {
        done
    }
}

/// Splits a text at white space into its words.
pub fn split_ws_words(s: &str) -> (r: Vec<String>)
    ensures
        r@.map_values(|w: String| w@) == ws_words(s@),
{
    let c = crate::text::chars_of(s);
    let mut done: Vec<String> = Vec::new();
    let mut cur: Vec<char> = Vec::new();
    let mut i: usize = 0;
    while i < c.len()
        invariant
            c@ == s@,
            i <= c.len(),
            (done@.map_values(|w: String| w@), cur@) == ws_state(s@.take(i as int)),
        decreases c.len() - i,
    {
        assert(s@.take(i + 1).drop_last() =~= s@.take(i as int));
        assert(s@.take(i + 1).last() == c@[i as int]);
        if is_whitespace(c[i]) {
            if cur.len() > 0 {
                let ghost before = done@.map_values(|w: String| w@);
                let w = crate::text::string_of(cur.as_slice());
                done.push(w);
                assert(done@.map_values(|w: String| w@) =~= before.push(cur@));
                cur = Vec::new();
            }
        } else {
            cur.push(c[i]);
        }
        i += 1;
    }
    assert(s@.take(c.len() as int) =~= s@);
    if cur.len() > 0 {
        let ghost before = done@.map_values(|w: String| w@);
        done.push(crate::text::string_of(cur.as_slice()));
        assert(done@.map_values(|w: String| w@) =~= before.push(cur@));
    }
    done
}

/// Markdown on one line: its words joined by single spaces.
pub open spec fn inline_text(s: Seq<char>) -> Seq<char> {
    join_with(ws_words(s), " "@)
}

/// Puts Markdown on one line.
pub fn inline_markdown(markdown: &str) -> (r: String)
    ensures
        r@ == inline_text(markdown@),
{
    let words = split_ws_words(markdown);
    join_strings(&words, " ")
}

// ─── JSON access ─────────────────────────────────────────────────────────────

/// The items of an array value.
pub open spec fn json_array(j: Option<Json>) -> Option<Seq<Json>> {
    match j {
        Some(Json::Array(items)) => Some(items@),
        _ => None,
    }
}

/// The text of the member `key`, if it is a string.
pub open spec fn text_of(j: Json, key: Seq<char>) -> Option<Seq<char>> {
    json_str(json_get(j, key))
}

/// The text, or `default`.
pub open spec fn or_text(t: Option<Seq<char>>, default: Seq<char>) -> Seq<char> {
    match t {
        Some(s) => s,
        None => default,
    }
}

fn member_text<'a>(j: &'a Json, key: &str) -> (r: Option<&'a str>)
    ensures
        match text_of(*j, key@) {
            Some(s) => r matches Some(t) && t@ == s,
            None => r is None,
        },
{
    match j.get(key) {
        Some(v) => v.as_str(),
        None => None,
    }
}

fn member_items<'a>(j: &'a Json, key: &str) -> (r: Option<&'a Vec<Json>>)
    ensures
        match json_array(json_get(*j, key@)) {
            Some(s) => r matches Some(v) && v@ == s,
            None => r is None,
        },
{
    match j.get(key) {
        Some(Json::Array(items)) => Some(items),
        _ => None,
    }
}

fn text_items(items: &Vec<Json>) -> (r: Vec<String>)
    ensures
        r@.map_values(|s: String| s@) == strings_of(items@),
{
    let mut out: Vec<String> = Vec::new();
    let mut i: usize = 0;
    while i < items.len()
        invariant
            i <= items.len(),
            out@.map_values(|s: String| s@) == strings_of(items@.take(i as int)),
        decreases items.len() - i,
    {
        assert(items@.take(i + 1).drop_last() =~= items@.take(i as int));
        match &items[i] {
            Json::Str(s) => {
                let ghost before = out@.map_values(|s: String| s@);
                out.push(s.clone());
                assert(out@.map_values(|s: String| s@) =~= before.push(s@));
            },
            _ => {},
        }
        i += 1;
    }
    assert(items@.take(items.len() as int) =~= items@);
    out
}

// ─── Signatures ──────────────────────────────────────────────────────────────

/// The non-empty parts joined by spaces.
pub open spec fn signature_of_parts(parts: Seq<Seq<char>>) -> Seq<char> {
    join_with(non_empty(parts), " "@)
}

/// Joins the non-empty parts of a signature with spaces.
pub fn join_signature_parts(parts: &Vec<String>) -> (r: String)
    ensures
        r@ == signature_of_parts(parts@.map_values(|s: String| s@)),
{
    let ghost ps = parts@.map_values(|s: String| s@);
    let mut kept: Vec<String> = Vec::new();
    let mut i: usize = 0;
    while i < parts.len()
        invariant
            ps == parts@.map_values(|s: String| s@),
            i <= parts.len(),
            kept@.map_values(|s: String| s@) == non_empty(ps.take(i as int)),
        decreases parts.len() - i,
    {
        assert(ps.take(i + 1).drop_last() =~= ps.take(i as int));
        assert(ps.take(i + 1).last() == parts@[i as int]@);
        if !parts[i].as_str().is_empty() {
            let ghost before = kept@.map_values(|s: String| s@);
            kept.push(parts[i].clone());
            assert(kept@.map_values(|s: String| s@) =~= before.push(parts@[i as int]@));
        }
        i += 1;
    }
    assert(ps.take(parts.len() as int) =~= ps);
    join_strings(&kept, " ")
}

/// The modifiers of a member, joined by spaces.
pub open spec fn modifiers_text(m: Json) -> Seq<char> {
    match json_array(json_get(m, "modifiers"@)) {
        Some(items) => join_with(strings_of(items), " "@),
        None => Seq::empty(),
    }
}

/// Joins the modifiers of a member.
pub fn member_modifiers(member: &Json) -> (r: String)
    ensures
        r@ == modifiers_text(*member),
{
    match member_items(member, "modifiers") {
        Some(items) => {
            let texts = text_items(items);
            join_strings(&texts, " ")
        },
        None => String::new(),
    }
}

/// `type name` for each parameter with both as strings.
pub open spec fn parameter_texts(ps: Seq<Json>) -> Seq<Seq<char>>
    decreases ps.len(),
{
    if ps.len() == 0 {
        Seq::empty()
    } else {
        let rest = parameter_texts(ps.drop_last());
        match (text_of(ps.last(), "type"@), text_of(ps.last(), "name"@)) {
            (Some(t), Some(n)) => rest.push(t + " "@ + n),
            _ => rest,
        }
    }
}

/// The parameters of a member, separated by commas.
pub open spec fn parameters_text(v: Option<Json>) -> Seq<char> {
    match json_array(v) {
        Some(ps) => join_with(parameter_texts(ps), ", "@),
        None => Seq::empty(),
    }
}

/// Writes the parameters of a member.
pub fn render_parameters(value: Option<&Json>) -> (r: String)
    ensures
        r@ == parameters_text(
            match value {
                Some(v) => Some(*v),
                None => None,
            },
        ),
{
    let items = match value {
        Some(Json::Array(items)) => items,
        _ => {
            return String::new();
        },
    };
    let mut texts: Vec<String> = Vec::new();
    let mut i: usize = 0;
    while i < items.len()
        invariant
            i <= items.len(),
            texts@.map_values(|s: String| s@) == parameter_texts(items@.take(i as int)),
        decreases items.len() - i,
    {
        assert(items@.take(i + 1).drop_last() =~= items@.take(i as int));
        assert(items@.take(i + 1).last() == items@[i as int]);
        match (member_text(&items[i], "type"), member_text(&items[i], "name")) {
            (Some(t), Some(n)) => {
                let ghost before = texts@.map_values(|s: String| s@);
                let mut p = t.to_owned();
                p.append(" ");
                p.append(n);
                texts.push(p);
                assert(texts@.map_values(|s: String| s@) =~= before.push(t@ + " "@ + n@));
            },
            _ => {},
        }
        i += 1;
    }
    assert(items@.take(items.len() as int) =~= items@);
    join_strings(&texts, ", ")
}

/// The exceptions a member throws, separated by commas; none when there
/// are none.
pub open spec fn throws_text(v: Option<Json>) -> Option<Seq<char>> {
    match json_array(v) {
        Some(items) => if strings_of(items).len() == 0 {
            None
        } else {
            Some(join_with(strings_of(items), ", "@))
        },
        None => None,
    }
}

/// Writes the exceptions a member throws.
pub fn render_throws(value: Option<&Json>) -> (r: Option<String>)
    ensures
        match throws_text(
            match value {
                Some(v) => Some(*v),
                None => None,
            },
        ) {
            Some(t) => r matches Some(s) && s@ == t,
            None => r is None,
        },
{
    match value {
        Some(Json::Array(items)) => {
            let texts = text_items(items);
            if texts.len() == 0 {
                None
            } else {
                Some(join_strings(&texts, ", "))
            }
        },
        _ => None,
    }
}

/// The signature of a constructor or method: its return type if any, its
/// name with its parameters, and what it throws.
pub open spec fn callable_signature(ret: Option<Seq<char>>, name: Seq<char>, m: Json) -> Seq<char> {
    let head = match ret {
        Some(t) => seq![t],
        None => Seq::empty(),
    } + seq![name + "("@ + parameters_text(json_get(m, "parameters"@)) + ")"@];
    signature_of_parts(head) + match throws_text(json_get(m, "throws"@)) {
        Some(t) => " throws "@ + t,
        None => Seq::empty(),
    }
}

/// Writes the signature of a constructor or method.
pub fn render_callable_signature(return_type: Option<&str>, name: &str, member: &Json) -> (r: String)
    ensures
        r@ == callable_signature(
            match return_type {
                Some(t) => Some(t@),
                None => None,
            },
            name@,
            *member,
        ),
{
    let mut head: Vec<String> = Vec::new();
    match return_type {
        Some(t) => {
            head.push(t.to_owned());
        },
        None => {},
    }
    let mut call = name.to_owned();
    call.append("(");
    let params = render_parameters(member.get("parameters"));
    call.append(params.as_str());
    call.append(")");
    let ghost before = head@.map_values(|s: String| s@);
    head.push(call);
    let mut signature = join_signature_parts(&head);
    proof {
        let ghost ret = match return_type {
            Some(t) => Some(t@),
            None => None::<Seq<char>>,
        };
        assert(head@.map_values(|s: String| s@) =~= match ret {
            Some(t) => seq![t],
            None => Seq::<Seq<char>>::empty(),
        } + seq![name@ + "("@ + parameters_text(json_get(*member, "parameters"@)) + ")"@]);
    }
    match render_throws(member.get("throws")) {
        Some(t) => {
            signature.append(" throws ");
            signature.append(t.as_str());
        },
        None => {},
    }
    signature
}

/// What kind of member a section lists.
#[derive(Debug, Clone, Copy, PartialEq, Eq)]
pub enum MemberKind {
    Field,
    Constructor,
    Method,
}

/// The signature of a member: a field's modifiers, type and name; a
/// constructor's name and parameters; a method's return type (`void` when
/// it is not a string), name and parameters. None without a name, a field
/// without a type, or a method without a return type member.
pub open spec fn member_signature(kind: MemberKind, m: Json) -> Option<Seq<char>> {
    match text_of(m, "name"@) {
        None => None,
        Some(name) => match kind {
            MemberKind::Field => match text_of(m, "type"@) {
                Some(ty) => Some(signature_of_parts(seq![modifiers_text(m), ty, name])),
                None => None,
            },
            MemberKind::Constructor => Some(callable_signature(None, name, m)),
            MemberKind::Method => match json_get(m, "returnType"@) {
                Some(rt) => Some(
                    callable_signature(Some(or_text(json_str(Some(rt)), "void"@)), name, m),
                ),
                None => None,
            },
        },
    }
}

/// Writes the signature of a member.
pub fn render_member_signature(kind: MemberKind, member: &Json) -> (r: Option<String>)
    ensures
        match member_signature(kind, *member) {
            Some(s) => r matches Some(t) && t@ == s,
            None => r is None,
        },
{
    let name = match member_text(member, "name") {
        Some(n) => n,
        None => {
            return None;
        },
    };
    match kind {
        MemberKind::Field => {
            let ty = match member_text(member, "type") {
                Some(t) => t,
                None => {
                    return None;
                },
            };
            let mut parts: Vec<String> = Vec::new();
            parts.push(member_modifiers(member));
            parts.push(ty.to_owned());
            parts.push(name.to_owned());
            assert(parts@.map_values(|s: String| s@) =~= seq![modifiers_text(*member), ty@, name@]);
            Some(join_signature_parts(&parts))
        },
        MemberKind::Constructor => Some(render_callable_signature(None, name, member)),
        MemberKind::Method => {
            match member.get("returnType") {
                Some(rt) => {
                    let ret = match rt.as_str() {
                        Some(t) => t,
                        None => "void",
                    };
                    Some(render_callable_signature(Some(ret), name, member))
                },
                None => None,
            }
        },
    }
}

// ─── Sections ────────────────────────────────────────────────────────────────

/// The text is more than white space.
pub open spec fn has_words(s: Seq<char>) -> bool {
    trim(s).len() > 0
}

fn not_blank(s: &str) -> (r: bool)
    ensures
        r == has_words(s@),
{
    let t = trim_str(s);
    !t.as_str().is_empty()
}

/// The line that describes one parameter, if it has a description that is
/// more than white space.
pub open spec fn parameter_line(p: Json) -> Seq<char> {
    match text_of(p, "description"@) {
        Some(d) => if has_words(d) {
            "  - `"@ + or_text(text_of(p, "name"@), "parameter"@) + "`: "@ + inline_text(d) + "\n"@
        } else {
            Seq::empty()
        },
        None => Seq::empty(),
    }
}

/// The lines that describe the parameters.
pub open spec fn parameter_lines(ps: Seq<Json>) -> Seq<char>
    decreases ps.len(),
{
    if ps.len() == 0 {
        Seq::empty()
    } else {
        parameter_lines(ps.drop_last()) + parameter_line(ps.last())
    }
}

/// The lines that describe a member's parameters.
pub open spec fn member_parameter_lines(m: Json) -> Seq<char> {
    match json_array(json_get(m, "parameters"@)) {
        Some(ps) => parameter_lines(ps),
        None => Seq::empty(),
    }
}

/// Writes the descriptions of a member's parameters.
pub fn render_parameter_descriptions(out: &mut String, member: &Json)
    ensures
        final(out)@ == old(out)@ + member_parameter_lines(*member),
{
    let params = match member_items(member, "parameters") {
        Some(ps) => ps,
        None => {
            return;
        },
    };
    let ghost start = out@;
    let mut i: usize = 0;
    while i < params.len()
        invariant
            i <= params.len(),
            out@ == start + parameter_lines(params@.take(i as int)),
        decreases params.len() - i,
    {
        assert(params@.take(i + 1).drop_last() =~= params@.take(i as int));
        assert(params@.take(i + 1).last() == params@[i as int]);
        let ghost before = out@;
        match member_text(&params[i], "description") {
            Some(d) => {
                if not_blank(d) {
                    let name = match member_text(&params[i], "name") {
                        Some(n) => n,
                        None => "parameter",
                    };
                    out.append("  - `");
                    out.append(name);
                    out.append("`: ");
                    let text = inline_markdown(d);
                    out.append(text.as_str());
                    out.append("\n");
                }
            },
            None => {},
        }
        assert(out@ =~= before + parameter_line(params@[i as int]));
        i += 1;
    }
    assert(params@.take(params.len() as int) =~= params@);
}

/// The entry of a member: its signature, its description on one line, its
/// parameters and what it returns; nothing when it has no signature.
pub open spec fn member_entry(kind: MemberKind, m: Json) -> Seq<char> {
    match member_signature(kind, m) {
        None => Seq::empty(),
        Some(sig) => "- `"@ + sig + "`"@ + (match text_of(m, "description"@) {
            Some(d) => if has_words(d) {
                " — "@ + inline_text(d)
            } else {
                Seq::empty()
            },
            None => Seq::empty(),
        }) + "\n"@ + member_parameter_lines(m) + (match text_of(m, "returnDescription"@) {
            Some(d) => if has_words(d) {
                "  - Returns: "@ + inline_text(d) + "\n"@
            } else {
                Seq::empty()
            },
            None => Seq::empty(),
        }),
    }
}

/// The entries of the members.
pub open spec fn member_entries(kind: MemberKind, ms: Seq<Json>) -> Seq<char>
    decreases ms.len(),
{
    if ms.len() == 0 {
        Seq::empty()
    } else {
        member_entries(kind, ms.drop_last()) + member_entry(kind, ms.last())
    }
}

/// The heading of a section of members.
pub open spec fn section_title(kind: MemberKind) -> Seq<char> {
    match kind {
        MemberKind::Field => "Fields"@,
        MemberKind::Constructor => "Constructors"@,
        MemberKind::Method => "Methods"@,
    }
}

/// The section of the members that have a signature; nothing when none has.
#[verifier::opaque]
pub open spec fn member_section(kind: MemberKind, v: Option<Json>) -> Seq<char> {
    match json_array(v) {
        None => Seq::empty(),
        Some(ms) => if exists|i: int| 0 <= i < ms.len() && (#[trigger] member_signature(kind, ms[i])) is Some {
            "### "@ + section_title(kind) + "\n\n"@ + member_entries(kind, ms) + "\n"@
        } else {
            Seq::empty()
        },
    }
}

fn write_member_entry(out: &mut String, kind: MemberKind, member: &Json)
    ensures
        final(out)@ == old(out)@ + member_entry(kind, *member),
{
    let signature = match render_member_signature(kind, member) {
        Some(s) => s,
        None => {
            return;
        },
    };
    out.append("- `");
    out.append(signature.as_str());
    out.append("`");
    match member_text(member, "description") {
        Some(d) => {
            if not_blank(d) {
                out.append(" — ");
                let text = inline_markdown(d);
                out.append(text.as_str());
            }
        },
        None => {},
    }
    out.append("\n");
    render_parameter_descriptions(out, member);
    match member_text(member, "returnDescription") {
        Some(d) => {
            if not_blank(d) {
                out.append("  - Returns: ");
                let text = inline_markdown(d);
                out.append(text.as_str());
                out.append("\n");
            }
        },
        None => {},
    }
}

/// Writes a section of members.
pub fn render_member_section(out: &mut String, kind: MemberKind, value: Option<&Json>)
    ensures
        final(out)@ == old(out)@ + member_section(
            kind,
            match value {
                Some(v) => Some(*v),
                None => None,
            },
        ),
{
    proof {
        reveal(member_section);
    }
    let members = match value {
        Some(Json::Array(ms)) => ms,
        _ => {
            return;
        },
    };
    let mut any = false;
    let mut k: usize = 0;
    while k < members.len() && !any
        invariant
            k <= members.len(),
            any ==> exists|i: int| 0 <= i < members@.len() && (#[trigger] member_signature(kind, members@[i])) is Some,
            !any ==> forall|i: int| 0 <= i < k ==> (#[trigger] member_signature(kind, members@[i])) is None,
        decreases members.len() - k + (if any { 0int } else { 1int }),
    {
        if render_member_signature(kind, &members[k]).is_some() {
            any = true;
        } else {
            k += 1;
        }
    }
    if !any {
        return;
    }
    out.append("### ");
    match kind {
        MemberKind::Field => out.append("Fields"),
        MemberKind::Constructor => out.append("Constructors"),
        MemberKind::Method => out.append("Methods"),
    }
    out.append("\n\n");
    let ghost start = out@;
    let mut i: usize = 0;
    while i < members.len()
        invariant
            i <= members.len(),
            out@ == start + member_entries(kind, members@.take(i as int)),
        decreases members.len() - i,
    {
        assert(members@.take(i + 1).drop_last() =~= members@.take(i as int));
        assert(members@.take(i + 1).last() == members@[i as int]);
        write_member_entry(out, kind, &members[i]);
        i += 1;
    }
    assert(members@.take(members.len() as int) =~= members@);
    out.append("\n");
}

/// The examples: the strings that are more than white space.
pub open spec fn example_texts(items: Seq<Json>) -> Seq<Seq<char>>
    decreases items.len(),
{
    if items.len() == 0 {
        Seq::empty()
    } else {
        let rest = example_texts(items.drop_last());
        match items.last() {
            Json::Str(s) => if has_words(s@) {
                rest.push(s@)
            } else {
                rest
            },
            _ => rest,
        }
    }
}

/// A Java code block for each example, trimmed.
pub open spec fn example_blocks(ex: Seq<Seq<char>>) -> Seq<char>
    decreases ex.len(),
{
    if ex.len() == 0 {
        Seq::empty()
    } else {
        example_blocks(ex.drop_last()) + "```java\n"@ + trim(ex.last()) + "\n```\n\n"@
    }
}

/// The section of examples; nothing without any.
#[verifier::opaque]
pub open spec fn examples_section(v: Option<Json>) -> Seq<char> {
    match json_array(v) {
        None => Seq::empty(),
        Some(items) => if example_texts(items).len() == 0 {
            Seq::empty()
        } else {
            "### Examples\n\n"@ + example_blocks(example_texts(items))
        },
    }
}

/// Writes the section of examples.
pub fn render_examples_section(out: &mut String, value: Option<&Json>)
    ensures
        final(out)@ == old(out)@ + examples_section(
            match value {
                Some(v) => Some(*v),
                None => None,
            },
        ),
{
    proof {
        reveal(examples_section);
    }
    let items = match value {
        Some(Json::Array(items)) => items,
        _ => {
            return;
        },
    };
    let mut examples: Vec<String> = Vec::new();
    let mut i: usize = 0;
    while i < items.len()
        invariant
            i <= items.len(),
            examples@.map_values(|s: String| s@) == example_texts(items@.take(i as int)),
        decreases items.len() - i,
    {
        assert(items@.take(i + 1).drop_last() =~= items@.take(i as int));
        match &items[i] {
            Json::Str(s) => {
                if not_blank(s.as_str()) {
                    let ghost before = examples@.map_values(|s: String| s@);
                    examples.push(s.clone());
                    assert(examples@.map_values(|s: String| s@) =~= before.push(s@));
                }
            },
            _ => {},
        }
        i += 1;
    }
    assert(items@.take(items.len() as int) =~= items@);
    if examples.len() == 0 {
        return;
    }
    out.append("### Examples\n\n");
    let ghost ex = examples@.map_values(|s: String| s@);
    let ghost start = out@;
    let mut k: usize = 0;
    while k < examples.len()
        invariant
            ex == examples@.map_values(|s: String| s@),
            k <= examples.len(),
            out@ == start + example_blocks(ex.take(k as int)),
        decreases examples.len() - k,
    {
        assert(ex.take(k + 1).drop_last() =~= ex.take(k as int));
        assert(ex.take(k + 1).last() == examples@[k as int]@);
        out.append("```java\n");
        let t = trim_str(examples[k].as_str());
        out.append(t.as_str());
        out.append("\n```\n\n");
        k += 1;
    }
    assert(ex.take(examples.len() as int) =~= ex);
}

// ─── Documents ───────────────────────────────────────────────────────────────

/// The Maven coordinates of documented artifacts.
#[derive(Debug, Clone)]
pub struct DocsCoordinate {
    pub group: String,
    pub id: String,
    pub version: String,
}

/// The line of one `//DOCS` entry: `- key: value`, or `- key`.
pub open spec fn doc_line(d: Json) -> Seq<char> {
    let key = or_text(text_of(d, "key"@), Seq::empty());
    match text_of(d, "value"@) {
        Some(v) => "- "@ + key + ": "@ + v + "\n"@,
        None => "- "@ + key + "\n"@,
    }
}

/// The lines of `//DOCS` entries.
pub open spec fn doc_lines(ds: Seq<Json>) -> Seq<char>
    decreases ds.len(),
{
    if ds.len() == 0 {
        Seq::empty()
    } else {
        doc_lines(ds.drop_last()) + doc_line(ds.last())
    }
}

/// A line for each dependency.
pub open spec fn dependency_lines(deps: Seq<Seq<char>>) -> Seq<char>
    decreases deps.len(),
{
    if deps.len() == 0 {
        Seq::empty()
    } else {
        dependency_lines(deps.drop_last()) + "- `"@ + deps.last() + "`\n"@
    }
}

/// The heading of a source's section, when sections are headed.
pub open spec fn source_heading(s: Json, headed: bool) -> Seq<char> {
    if headed {
        "## "@ + or_text(text_of(s, "name"@), "source"@) + "\n\n"@
    } else {
        Seq::empty()
    }
}

/// The description of a source.
pub open spec fn source_description(s: Json) -> Seq<char> {
    match text_of(s, "description"@) {
        Some(d) => d + "\n\n"@,
        None => Seq::empty(),
    }
}

/// The `//DOCS` entries of a source, followed by an empty line.
pub open spec fn source_docs(s: Json) -> Seq<char> {
    match json_array(json_get(s, "docs"@)) {
        Some(ds) => doc_lines(ds) + (if ds.len() > 0 {
            "\n"@
        } else {
            Seq::empty()
        }),
        None => Seq::empty(),
    }
}

/// The dependencies of a source.
pub open spec fn source_dependencies(s: Json) -> Seq<char> {
    match json_array(json_get(s, "dependencies"@)) {
        Some(ds) => if ds.len() > 0 {
            "Dependencies:\n"@ + dependency_lines(strings_of(ds)) + "\n"@
        } else {
            Seq::empty()
        },
        None => Seq::empty(),
    }
}

/// The section of one source: a heading with its name when `headed`, its
/// description, its `//DOCS` entries and its dependencies.
#[verifier::opaque]
pub open spec fn source_section(s: Json, headed: bool) -> Seq<char> {
    source_heading(s, headed) + source_description(s) + source_docs(s) + source_dependencies(s)
}

/// The sections of the sources.
pub open spec fn source_sections(ss: Seq<Json>, headed: bool) -> Seq<char>
    decreases ss.len(),
{
    if ss.len() == 0 {
        Seq::empty()
    } else {
        source_sections(ss.drop_last(), headed) + source_section(ss.last(), headed)
    }
}

/// The head of a type's section: its qualified name, kind and description
/// (when not empty).
pub open spec fn type_head(t: Json, q: Seq<char>) -> Seq<char> {
    "## `"@ + q + "`\n\n"@ + (match text_of(t, "kind"@) {
        Some(k) => "Kind: "@ + k + "\n\n"@,
        None => Seq::empty(),
    }) + (match text_of(t, "description"@) {
        Some(d) => if d.len() > 0 {
            d + "\n\n"@
        } else {
            Seq::empty()
        },
        None => Seq::empty(),
    })
}

/// The examples and members of a type.
pub open spec fn type_body(t: Json) -> Seq<char> {
    examples_section(json_get(t, "examples"@)) + member_section(
        MemberKind::Field,
        json_get(t, "fields"@),
    ) + member_section(MemberKind::Constructor, json_get(t, "constructors"@)) + member_section(
        MemberKind::Method,
        json_get(t, "methods"@),
    )
}

/// The section of one type: its qualified name, kind, description (when not
/// empty), examples, fields, constructors and methods; nothing without a
/// qualified name.
#[verifier::opaque]
pub open spec fn type_section(t: Json) -> Seq<char> {
    match text_of(t, "qualifiedName"@) {
        None => Seq::empty(),
        Some(q) => type_head(t, q) + type_body(t),
    }
}

/// The sections of the types.
pub open spec fn type_sections(ts: Seq<Json>) -> Seq<char>
    decreases ts.len(),
{
    if ts.len() == 0 {
        Seq::empty()
    } else {
        type_sections(ts.drop_last()) + type_section(ts.last())
    }
}

/// The Markdown documentation: a title, the artifact when there is one, the
/// sources (with headings when there are several or an artifact) and the
/// types.
pub open spec fn docs_markdown(
    title: Seq<char>,
    artifact: Option<(Seq<char>, Seq<char>, Seq<char>)>,
    sources: Seq<Json>,
    types: Seq<Json>,
) -> Seq<char> {
    "# "@ + title + "\n\n"@ + (match artifact {
        Some((g, i, v)) => "Artifact: `"@ + g + ":"@ + i + ":"@ + v + "`\n\n"@,
        None => Seq::empty(),
    }) + source_sections(sources, sources.len() > 1 || artifact is Some) + type_sections(types)
}

fn write_source_docs(out: &mut String, source: &Json)
    ensures
        final(out)@ == old(out)@ + source_docs(*source),
{
    let docs = match member_items(source, "docs") {
        Some(d) => d,
        None => {
            return;
        },
    };
    let ghost start = out@;
    let mut i: usize = 0;
    while i < docs.len()
        invariant
            i <= docs.len(),
            out@ == start + doc_lines(docs@.take(i as int)),
        decreases docs.len() - i,
    {
        assert(docs@.take(i + 1).drop_last() =~= docs@.take(i as int));
        assert(docs@.take(i + 1).last() == docs@[i as int]);
        let ghost before = out@;
        let key = match member_text(&docs[i], "key") {
            Some(k) => k,
            None => {
                proof {
                    reveal_strlit("");
                }
                ""
            },
        };
        out.append("- ");
        out.append(key);
        match member_text(&docs[i], "value") {
            Some(v) => {
                out.append(": ");
                out.append(v);
                out.append("\n");
            },
            None => {
                out.append("\n");
            },
        }
        assert(out@ =~= before + doc_line(docs@[i as int]));
        i += 1;
    }
    assert(docs@.take(docs.len() as int) =~= docs@);
    if docs.len() > 0 {
        out.append("\n");
    }
}

fn write_source_dependencies(out: &mut String, source: &Json)
    ensures
        final(out)@ == old(out)@ + source_dependencies(*source),
{
    let deps = match member_items(source, "dependencies") {
        Some(d) => d,
        None => {
            return;
        },
    };
    if deps.len() == 0 {
        return;
    }
    out.append("Dependencies:\n");
    let texts = text_items(deps);
    let ghost ds = texts@.map_values(|s: String| s@);
    let ghost mid = out@;
    let mut k: usize = 0;
    while k < texts.len()
        invariant
            ds == texts@.map_values(|s: String| s@),
            k <= texts.len(),
            out@ == mid + dependency_lines(ds.take(k as int)),
        decreases texts.len() - k,
    {
        assert(ds.take(k + 1).drop_last() =~= ds.take(k as int));
        assert(ds.take(k + 1).last() == texts@[k as int]@);
        out.append("- `");
        out.append(texts[k].as_str());
        out.append("`\n");
        k += 1;
    }
    assert(ds.take(texts.len() as int) =~= ds);
    out.append("\n");
}

fn write_source_section(out: &mut String, source: &Json, headed: bool)
    ensures
        final(out)@ == old(out)@ + source_section(*source, headed),
{
    let ghost start = out@;
    if headed {
        out.append("## ");
        match member_text(source, "name") {
            Some(n) => out.append(n),
            None => out.append("source"),
        }
        out.append("\n\n");
    }
    let ghost a = out@;
    assert(a =~= start + source_heading(*source, headed));
    match member_text(source, "description") {
        Some(d) => {
            out.append(d);
            out.append("\n\n");
        },
        None => {},
    }
    let ghost b = out@;
    assert(b =~= a + source_description(*source));
    write_source_docs(out, source);
    write_source_dependencies(out, source);
    proof {
        reveal(source_section);
    }
    assert(out@ =~= start + source_section(*source, headed));
}

fn write_type_head(out: &mut String, ty: &Json, q: &str)
    ensures
        final(out)@ == old(out)@ + type_head(*ty, q@),
{
    let ghost start = out@;
    out.append("## `");
    out.append(q);
    out.append("`\n\n");
    match member_text(ty, "kind") {
        Some(k) => {
            out.append("Kind: ");
            out.append(k);
            out.append("\n\n");
        },
        None => {},
    }
    match member_text(ty, "description") {
        Some(d) => {
            if !d.is_empty() {
                out.append(d);
                out.append("\n\n");
            }
        },
        None => {},
    }
    assert(out@ =~= start + type_head(*ty, q@));
}

fn write_type_section(out: &mut String, ty: &Json)
    ensures
        final(out)@ == old(out)@ + type_section(*ty),
{
    proof {
        reveal(type_section);
    }
    let q = match member_text(ty, "qualifiedName") {
        Some(q) => q,
        None => {
            return;
        },
    };
    let ghost start = out@;
    write_type_head(out, ty, q);
    let ghost head = out@;
    render_examples_section(out, ty.get("examples"));
    render_member_section(out, MemberKind::Field, ty.get("fields"));
    render_member_section(out, MemberKind::Constructor, ty.get("constructors"));
    render_member_section(out, MemberKind::Method, ty.get("methods"));
    assert(out@ =~= head + type_body(*ty));
    assert(out@ =~= start + type_section(*ty));
}

/// Writes the Markdown documentation of sources and types.
pub fn render_docs_markdown(
    title: &str,
    artifact: Option<&DocsCoordinate>,
    sources: &[Json],
    types: &[Json],
) -> (r: String)
    ensures
        r@ == docs_markdown(
            title@,
            match artifact {
                Some(c) => Some((c.group@, c.id@, c.version@)),
                None => None,
            },
            sources@,
            types@,
        ),
{
    let mut out = "# ".to_owned();
    out.append(title);
    out.append("\n\n");
    match artifact {
        Some(c) => {
            out.append("Artifact: `");
            out.append(c.group.as_str());
            out.append(":");
            out.append(c.id.as_str());
            out.append(":");
            out.append(c.version.as_str());
            out.append("`\n\n");
        },
        None => {},
    }
    let headed = sources.len() > 1 || artifact.is_some();
    let ghost after_head = out@;
    let mut i: usize = 0;
    while i < sources.len()
        invariant
            i <= sources.len(),
            out@ == after_head + source_sections(sources@.take(i as int), headed),
        decreases sources.len() - i,
    {
        assert(sources@.take(i + 1).drop_last() =~= sources@.take(i as int));
        assert(sources@.take(i + 1).last() == sources@[i as int]);
        write_source_section(&mut out, &sources[i], headed);
        i += 1;
    }
    assert(sources@.take(sources.len() as int) =~= sources@);
    let ghost after_sources = out@;
    let mut k: usize = 0;
    while k < types.len()
        invariant
            k <= types.len(),
            out@ == after_sources + type_sections(types@.take(k as int)),
        decreases types.len() - k,
    {
        assert(types@.take(k + 1).drop_last() =~= types@.take(k as int));
        assert(types@.take(k + 1).last() == types@[k as int]);
        write_type_section(&mut out, &types[k]);
        k += 1;
    }
    assert(types@.take(types.len() as int) =~= types@);
    out
}

// ─── Building JSON ───────────────────────────────────────────────────────────

/// A string value.
pub open spec fn jstr(s: Seq<char>) -> JsonView {
    JsonView::Str(s)
}

/// An array of string values.
pub open spec fn jstrs(ss: Seq<Seq<char>>) -> JsonView {
    JsonView::Array(ss.map_values(|s: Seq<char>| JsonView::Str(s)))
}

/// A string value, or `null`.
pub open spec fn jopt(o: Option<Seq<char>>) -> JsonView {
    match o {
        Some(s) => JsonView::Str(s),
        None => JsonView::Null,
    }
}

/// An array of the values' views.
pub open spec fn jarray(items: Seq<Json>) -> JsonView {
    JsonView::Array(items.map_values(|j: Json| json_view(j)))
}

/// An array of strings as a JSON value.
pub fn json_strings(v: Vec<String>) -> (r: Json)
    ensures
        json_view(r) == jstrs(v@.map_values(|s: String| s@)),
{
    let mut items: Vec<Json> = Vec::new();
    let mut rest = v;
    let ghost all = rest@;
    let mut k: usize = 0;
    assert(all.skip(0) =~= all);
    assert(all.len() == rest.len());
    while rest.len() > 0
        invariant
            k <= all.len(),
            all.len() <= usize::MAX,
            rest@ == all.skip(k as int),
            items@.len() == k,
            forall|i: int| 0 <= i < k ==> json_view(#[trigger] items@[i]) == JsonView::Str(all[i]@),
        decreases rest.len(),
    {
        assert(all.skip(k as int).len() == all.len() - k);
        let x = rest.remove(0);
        assert(x == all[k as int]);
        assert(rest@ =~= all.skip(k + 1));
        items.push(Json::Str(x));
        k += 1;
    }
    let ghost iv = items@;
    let r = Json::Array(items);
    proof {
        let target = all.map_values(|s: String| s@).map_values(|s: Seq<char>| JsonView::Str(s));
        let x = json_view(r)->Array_0;
        assert(x.len() == iv.len());
        assert forall|i: int| 0 <= i < x.len() implies x[i] == target[i] by {
            assert(x[i] == json_view(iv[i]));
        }
        assert(x =~= target);
    }
    r
}

/// An optional string as a JSON value.
pub fn json_opt(o: Option<String>) -> (r: Json)
    ensures
        json_view(r) == jopt(match o {
            Some(s) => Some(s@),
            None => None,
        }),
{
    match o {
        Some(s) => Json::Str(s),
        None => Json::Null,
    }
}

/// An array of values.
pub fn json_array_of(items: Vec<Json>) -> (r: Json)
    ensures
        json_view(r) == jarray(items@),
{
    let ghost v = items@;
    let r = Json::Array(items);
    proof {
        let target = v.map_values(|j: Json| json_view(j));
        let x = json_view(r)->Array_0;
        assert(x.len() == v.len());
        assert forall|i: int| 0 <= i < x.len() implies x[i] == target[i] by {
            assert(x[i] == json_view(v[i]));
        }
        assert(x =~= target);
    }
    r
}

/// The members' views.
pub open spec fn jmembers(members: Seq<(String, Json)>) -> Seq<(Seq<char>, JsonView)> {
    members.map_values(|m: (String, Json)| (m.0@, json_view(m.1)))
}

/// The view of an object is the views of its members.
pub proof fn lemma_object_view(members: Vec<(String, Json)>)
    ensures
        json_view(Json::Object(members)) == JsonView::Object(jmembers(members@)),
{
    let v = members@;
    let target = jmembers(v);
    let x = json_view(Json::Object(members))->Object_0;
    assert(x.len() == v.len());
    assert forall|i: int| 0 <= i < x.len() implies x[i] == target[i] by {
        assert(x[i] == (v[i].0@, json_view(v[i].1)));
    }
    assert(x =~= target);
}

/// The view of an array is the views of its items.
pub proof fn lemma_array_view(items: Vec<Json>)
    ensures
        json_view(Json::Array(items)) == jarray(items@),
{
    let v = items@;
    let target = v.map_values(|j: Json| json_view(j));
    let x = json_view(Json::Array(items))->Array_0;
    assert(x.len() == v.len());
    assert forall|i: int| 0 <= i < x.len() implies x[i] == target[i] by {
        assert(x[i] == json_view(v[i]));
    }
    assert(x =~= target);
}

/// An object with these members, in order.
pub fn json_object(members: Vec<(String, Json)>) -> (r: Json)
    ensures
        json_view(r) == JsonView::Object(jmembers(members@)),
{
    let ghost v = members@;
    let r = Json::Object(members);
    proof {
        let target = jmembers(v);
        let x = json_view(r)->Object_0;
        assert(x.len() == v.len());
        assert forall|i: int| 0 <= i < x.len() implies x[i] == target[i] by {
            assert(x[i] == (v[i].0@, json_view(v[i].1)));
        }
        assert(x =~= target);
    }
    r
}

} // verus!
