//! Installed commands: small shell wrappers that run a script with jbx.
use vstd::prelude::*;
use crate::directives::{lines_of, lines_spec};
use crate::remote::index_of_seq;
use crate::text::{
    chars_of, contains_char, has_prefix, has_suffix, is_whitespace, is_ws, push_char, replace_all,
    replace_seq, slice_chars, split_on, starts_with, ends_with, str_eq, string_of, trim,
    trim_chars, trim_end, trim_start, views, contains_seq, occurs_at,
};

verus! {

/// What `app install` is asked to do.
#[derive(Debug)]
pub struct AppInstallOptions {
    pub script: std::path::PathBuf,
    pub name: Option<String>,
    pub force: bool,
}

/// An installed command and the script it runs.
#[derive(Debug, Clone)]
pub struct AppEntry {
    pub name: String,
    pub target: String,
}

impl crate::catalog::Named for AppEntry {
    open spec fn name_of(&self) -> Seq<char> {
        self.name@
    }

    fn name_str(&self) -> (r: &str) {
        self.name.as_str()
    }
}

/// Why a command name is refused.
#[derive(Debug)]
pub enum AppError {
    /// The name is empty.
    EmptyName,
    /// `jbx` itself cannot be replaced.
    ReservedName,
    /// The name is not a portable file name.
    InvalidName(String),
}

/// Checks a command name: not empty, not `jbx`, not `.` or `..`, and
/// without `/`, `\` or NUL.
pub fn validate_app_name(name: &str) -> (r: Result<(), AppError>)
    ensures
        name@.len() == 0 ==> r matches Err(AppError::EmptyName),
        name@.len() > 0 && name@ == "jbx"@ ==> r matches Err(AppError::ReservedName),
        name@.len() > 0 && name@ != "jbx"@ ==> (r is Ok <==> !(name@.contains('/') || name@.contains(
            '\\',
        ) || name@.contains('\0') || name@ == "."@ || name@ == ".."@)),
        name@.len() > 0 && name@ != "jbx"@ && r is Err ==> (r matches Err(AppError::InvalidName(n))
            && n@ == name@),
{
    if name.is_empty() {
        return Err(AppError::EmptyName);
    }
    if str_eq(name, "jbx") {
        return Err(AppError::ReservedName);
    }
    let c = chars_of(name);
    let valid = !(contains_char(c.as_slice(), '/') || contains_char(c.as_slice(), '\\') || contains_char(
        c.as_slice(),
        '\0',
    )) && !str_eq(name, ".") && !str_eq(name, "..");
    if !valid {
        return Err(AppError::InvalidName(name.to_owned()));
    }
    Ok(())
}

/// A path quoted for a POSIX shell: in single quotes when it holds a quote
/// (each quote written `'\''`), whitespace or `$`; as it is otherwise.
pub open spec fn shell_quoted(s: Seq<char>) -> Seq<char> {
    if s.contains('\'') {
        seq!['\''] + replace_all(s, seq!['\''], "'\\''"@) + seq!['\'']
    } else if exists|i: int| 0 <= i < s.len() && (is_ws(#[trigger] s[i]) || s[i] == '$') {
        seq!['\''] + s + seq!['\'']
    } else {
        s
    }
}

/// Quotes a path for a POSIX shell.
pub fn shell_quote(s: &str) -> (r: String)
    ensures
        r@ == shell_quoted(s@),
{
    let c = chars_of(s);
    if contains_char(c.as_slice(), '\'') {
        let q = vec!['\''];
        let esc = chars_of("'\\''");
        let body = replace_seq(c.as_slice(), q.as_slice(), esc.as_slice());
        assert(q@ =~= seq!['\'']);
        let mut out = String::new();
        push_char(&mut out, '\'');
        let b = string_of(body.as_slice());
        out.append(b.as_str());
        push_char(&mut out, '\'');
        assert(out@ =~= shell_quoted(s@));
        return out;
    }
    let mut i: usize = 0;
    let mut special = false;
    while i < c.len() && !special
        invariant
            c@ == s@,
            i <= c.len(),
            special ==> exists|k: int| 0 <= k < c.len() && (is_ws(#[trigger] c@[k]) || c@[k] == '$'),
            !special ==> forall|k: int| 0 <= k < i ==> !(is_ws(#[trigger] c@[k]) || c@[k] == '$'),
        decreases c.len() - i + (if special { 0int } else { 1int }),
    {
        if is_whitespace(c[i]) || c[i] == '$' {
            special = true;
        } else {
            i += 1;
        }
    }
    if special {
        let mut out = String::new();
        push_char(&mut out, '\'');
        out.append(s);
        push_char(&mut out, '\'');
        assert(out@ =~= shell_quoted(s@));
        out
    } else {
        s.to_owned()
    }
}

/// Quotes a path, given as text, for a POSIX shell.
pub fn shell_quote_path(path: &str) -> (r: String)
    ensures
        r@ == shell_quoted(path@),
{
    shell_quote(path)
}

/// The wrapper script of an installed command: it runs `script` with the
/// `jbx` binary, passing its arguments on.
pub open spec fn wrapper_script(jbx: Seq<char>, script: Seq<char>) -> Seq<char> {
    "#!/bin/sh\nexec "@ + shell_quoted(jbx) + " run -- "@ + shell_quoted(script) + " \"$@\"\n"@
}

/// Writes the wrapper script of an installed command.
pub fn render_wrapper_script(jbx: &str, script: &str) -> (r: String)
    ensures
        r@ == wrapper_script(jbx@, script@),
{
    let mut out = "#!/bin/sh\nexec ".to_owned();
    let j = shell_quote(jbx);
    out.append(j.as_str());
    out.append(" run -- ");
    let s = shell_quote(script);
    out.append(s.as_str());
    out.append(" \"$@\"\n");
    out
}

/// The script that one line of a wrapper runs: an `exec ... run -- target`
/// line, the target taken without the trailing `"$@"`, trimmed, and
/// without enclosing single quotes.
pub open spec fn line_target(line: Seq<char>) -> Option<Seq<char>> {
    if has_prefix(line, "exec "@) {
        let rest = line.skip("exec "@.len() as int);
        match index_of_seq(rest, " run -- "@) {
            Some(idx) => {
                let after = rest.skip(idx + " run -- "@.len());
                let t0 = if has_suffix(after, " \"$@\""@) {
                    after.take(after.len() - " \"$@\""@.len())
                } else {
                    after
                };
                let t1 = trim(t0);
                let t2 = if t1.len() >= 2 && t1[0] == '\'' && t1.last() == '\'' {
                    t1.subrange(1, t1.len() - 1)
                } else {
                    t1
                };
                Some(trim(t2))
            },
            None => None,
        }
    } else {
        None
    }
}

/// The script that the first `exec` line of a wrapper runs.
pub open spec fn target_in_lines(ls: Seq<Seq<char>>) -> Option<Seq<char>>
    decreases ls.len(),
{
    if ls.len() == 0 {
        None
    } else {
        match line_target(ls[0]) {
            Some(t) => Some(t),
            None => target_in_lines(ls.drop_first()),
        }
    }
}

fn line_target_of(line: &[char]) -> (r: Option<String>)
    ensures
        match line_target(line@) {
            Some(t) => r matches Some(s) && s@ == t,
            None => r is None,
        },
{
    let exec = chars_of("exec ");
    if !starts_with(line, exec.as_slice()) {
        return None;
    }
    let rest = slice_chars(line, exec.len(), line.len());
    assert(rest@ =~= line@.skip("exec "@.len() as int));
    let marker = chars_of(" run -- ");
    let idx = match crate::remote::first_occurrence(rest.as_slice(), marker.as_slice()) {
        Some(i) => i,
        None => {
            return None;
        },
    };
    proof {
        crate::remote::lemma_index_of_seq(rest@, marker@);
    }
    let after = slice_chars(rest.as_slice(), idx + marker.len(), rest.len());
    assert(after@ =~= rest@.skip(idx + " run -- "@.len()));
    let tail = chars_of(" \"$@\"");
    let t0 = if ends_with(after.as_slice(), tail.as_slice()) {
        slice_chars(after.as_slice(), 0, after.len() - tail.len())
    } else {
        after
    };
    let t1 = trim_chars(t0.as_slice());
    let t2 = if t1.len() >= 2 && t1[0] == '\'' && t1[t1.len() - 1] == '\'' {
        slice_chars(t1.as_slice(), 1, t1.len() - 1)
    } else {
        t1
    };
    let t3 = trim_chars(t2.as_slice());
    Some(string_of(t3.as_slice()))
}

/// The script that a wrapper runs, if it has an `exec ... run -- ...` line.
pub fn wrapper_target(content: &str) -> (r: Option<String>)
    ensures
        match target_in_lines(lines_spec(content@)) {
            Some(t) => r matches Some(s) && s@ == t,
            None => r is None,
        },
{
    let c = chars_of(content);
    let lines = lines_of(c.as_slice());
    let ghost ls = lines_spec(content@);
    let mut i: usize = 0;
    assert(ls.skip(0) =~= ls);
    while i < lines.len()
        invariant
            views(lines@) == ls,
            ls == lines_spec(content@),
            i <= lines.len(),
            target_in_lines(ls) == target_in_lines(ls.skip(i as int)),
        decreases lines.len() - i,
    {
        let ghost s = ls.skip(i as int);
        assert(s[0] == lines@[i as int]@);
        assert(s.drop_first() =~= ls.skip(i + 1));
        match line_target_of(lines[i].as_slice()) {
            Some(t) => {
                return Some(t);
            },
            None => {},
        }
        i += 1;
    }
    None
}

/// A text that neither starts nor ends with white space is its own trim.
proof fn lemma_trim_plain(s: Seq<char>)
    requires
        s.len() > 0 ==> !is_ws(s[0]) && !is_ws(s.last()),
    ensures
        trim(s) == s,
{
    assert(trim_start(s) == s);
}

/// The marker ` run -- ` first occurs in `q + " run -- " + tail` right after
/// `q`, where `q` is a quoted path that does not hold the marker.
proof fn lemma_marker_after_quoted(jbx: Seq<char>, tail: Seq<char>)
    requires
        !jbx.contains('\''),
        !contains_seq(jbx, " run -- "@),
    ensures
        index_of_seq(shell_quoted(jbx) + " run -- "@ + tail, " run -- "@) == Some(
            shell_quoted(jbx).len() as int,
        ),
{
    reveal_strlit(" run -- ");
    let m = " run -- "@;
    let q = shell_quoted(jbx);
    let rest = q + m + tail;
    crate::remote::lemma_index_of_seq(rest, m);
    assert(rest.subrange(q.len() as int, (q.len() + m.len()) as int) =~= m);
    assert(occurs_at(rest, m, q.len() as int));
    let quoted = exists|i: int| 0 <= i < jbx.len() && (is_ws(#[trigger] jbx[i]) || jbx[i] == '$');
    assert forall|j: int| 0 <= j < q.len() implies !occurs_at(rest, m, j) by {
        if occurs_at(rest, m, j) {
            assert(rest.subrange(j, j + m.len())[0] == rest[j]);
            assert(rest[j] == ' ');
            if quoted {
                assert(q =~= seq!['\''] + jbx + seq!['\'']);
                if j == 0 {
                    assert(rest[0] == '\'');
                } else if j + m.len() <= q.len() - 1 {
                    assert(jbx.subrange(j - 1, j - 1 + m.len()) =~= rest.subrange(j, j + m.len()));
                    assert(occurs_at(jbx, m, j - 1));
                } else {
                    let k = q.len() - 1 - j;
                    assert(rest[q.len() - 1] == '\'');
                    assert(rest.subrange(j, j + m.len())[k] == rest[j + k]);
                    assert(m[k] != '\'');
                }
            } else {
                assert(q == jbx);
                assert(rest[j] == jbx[j]);
                assert(is_ws(' '));
            }
        }
    }
    match index_of_seq(rest, m) {
        Some(i) => {
            if i < q.len() {
                assert(!occurs_at(rest, m, i));
            }
        },
        None => {},
    }
}

/// What `app list` reads back from a wrapper is the script that `app install`
/// wrote into it, for a `jbx` path without quotes, line breaks or the
/// ` run -- ` marker, and a script path without quotes or line breaks that
/// does not start or end with white space.
pub proof fn law_wrapper_names_its_script(jbx: Seq<char>, script: Seq<char>)
    requires
        !jbx.contains('\n'),
        !jbx.contains('\''),
        !contains_seq(jbx, " run -- "@),
        !script.contains('\n'),
        !script.contains('\''),
        trim(script) == script,
    ensures
        target_in_lines(lines_spec(wrapper_script(jbx, script))) == Some(script),
{
    reveal_strlit("#!/bin/sh\nexec ");
    reveal_strlit(" run -- ");
    reveal_strlit(" \"$@\"\n");
    reveal_strlit(" \"$@\"");
    reveal_strlit("exec ");
    reveal_strlit("#!/bin/sh");
    let qj = shell_quoted(jbx);
    let qs = shell_quoted(script);
    let first = "#!/bin/sh"@;
    let line = "exec "@ + qj + " run -- "@ + qs + " \"$@\""@;
    let w = wrapper_script(jbx, script);
    let nl = seq!['\n'];
    assert(w =~= first + nl + line + nl);
    assert(w =~= (first + nl + line) + nl + Seq::<char>::empty());
    // The two lines of the wrapper.
    let qj_quoted = exists|i: int| 0 <= i < jbx.len() && (is_ws(#[trigger] jbx[i]) || jbx[i] == '$');
    let qs_quoted = exists|i: int| 0 <= i < script.len() && (is_ws(#[trigger] script[i]) || script[i]
        == '$');
    assert(forall|i: int| 0 <= i < qj.len() ==> #[trigger] qj[i] != '\n') by {
        if qj_quoted {
            assert(qj =~= seq!['\''] + jbx + seq!['\'']);
            assert forall|i: int| 0 <= i < qj.len() implies #[trigger] qj[i] != '\n' by {
                if 0 < i < qj.len() - 1 {
                    assert(qj[i] == jbx[i - 1]);
                }
            }
        }
    }
    assert(forall|i: int| 0 <= i < qs.len() ==> #[trigger] qs[i] != '\n') by {
        if qs_quoted {
            assert(qs =~= seq!['\''] + script + seq!['\'']);
            assert forall|i: int| 0 <= i < qs.len() implies #[trigger] qs[i] != '\n' by {
                if 0 < i < qs.len() - 1 {
                    assert(qs[i] == script[i - 1]);
                }
            }
        }
    }
    assert forall|i: int| 0 <= i < line.len() implies !nl.contains(#[trigger] line[i]) by {
        if nl.contains(line[i]) {
            assert(nl[0] == '\n');
            let k = choose|k: int| 0 <= k < nl.len() && nl[k] == line[i];
            assert(line[i] == '\n');
            if i < 5 {
                assert(line[i] == "exec "@[i]);
            } else if i < 5 + qj.len() {
                assert(line[i] == qj[i - 5]);
            } else if i < 13 + qj.len() {
                assert(line[i] == " run -- "@[i - 5 - qj.len()]);
            } else if i < 13 + qj.len() + qs.len() {
                assert(line[i] == qs[i - 13 - qj.len()]);
            } else {
                assert(line[i] == " \"$@\""@[i - 13 - qj.len() - qs.len()]);
            }
        }
    }
    assert forall|i: int| 0 <= i < first.len() implies !nl.contains(#[trigger] first[i]) by {
        if nl.contains(first[i]) {
            let k = choose|k: int| 0 <= k < nl.len() && nl[k] == first[i];
        }
    }
    crate::text::lemma_split_on_plain(first, nl);
    crate::text::lemma_split_on_after_sep(first, '\n', line, nl);
    crate::text::lemma_split_on_after_sep(first + nl + line, '\n', Seq::<char>::empty(), nl);
    let parts = split_on(w, nl);
    assert(parts =~= seq![first, line, Seq::<char>::empty()]);
    let ls = lines_spec(w);
    assert(w.last() == '\n');
    assert(ls.len() == 2);
    assert(ls[0] == first);
    assert(ls[1] == line);
    assert(!has_prefix(first, "exec "@)) by {
        assert(first.take(5)[0] == '#');
    }
    assert(line_target(ls[0]) is None);
    assert(ls.drop_first() =~= seq![line]);
    assert(seq![line].drop_first() =~= Seq::<Seq<char>>::empty());
    // The target of the second line.
    assert(line.take(5) =~= "exec "@);
    let rest = line.skip(5);
    let tail = qs + " \"$@\""@;
    assert(rest =~= qj + " run -- "@ + tail);
    lemma_marker_after_quoted(jbx, tail);
    let after = rest.skip((qj.len() + 8) as int);
    assert(after =~= tail);
    assert(has_suffix(after, " \"$@\""@)) by {
        assert(after.skip(after.len() - 5) =~= " \"$@\""@);
    }
    assert(after.take(after.len() - 5) =~= qs);
    if qs_quoted {
        assert(qs =~= seq!['\''] + script + seq!['\'']);
        assert(!is_ws('\''));
        lemma_trim_plain(qs);
        assert(qs.subrange(1, qs.len() - 1) =~= script);
    } else {
        assert(qs == script);
        if script.len() > 0 {
            assert(!is_ws(script[0]));
            assert(!is_ws(script[script.len() - 1]));
        }
        lemma_trim_plain(script);
        if script.len() >= 2 && script[0] == '\'' {
            assert(script.contains('\''));
        }
    }
    assert(line_target(line) == Some(script));
    assert(target_in_lines(ls.drop_first()) == Some(script));
    assert(target_in_lines(ls) == Some(script));
}

} // verus!
