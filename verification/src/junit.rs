//! JUnit XML reports: merging the files of a run, reading the attributes
//! of their elements, and summarising them as JSON.
use vstd::prelude::*;
use crate::catalog::{json_view, Json, JsonView};
use crate::docs::{json_array_of, json_object, jmembers, jarray};
use crate::pattern::{capture_groups, regex_groups};
use crate::resolver::opt_view;
use crate::directives::{kvs, strs, KeyValue};
use crate::remote::{format_java_agent, java_agent_option};
use crate::text::{ends_with, has_suffix, split_on, contains, contains_seq, decimal, decimal_string, find_seq, has_prefix, occurs_at, parse_decimal, parse_unsigned, starts_with};
use crate::remote::index_of_any;
use crate::text::{chars_of, is_whitespace, is_ws, slice_chars, str_eq, string_of, trim, trim_chars, trim_start, trim_start_chars};

verus! {

/// Trimming the start never makes text longer.
pub proof fn lemma_trim_start_len(s: Seq<char>)
    ensures
        trim_start(s).len() <= s.len(),
    decreases s.len(),
{
    if s.len() > 0 && is_ws(s[0]) {
        lemma_trim_start_len(s.drop_first());
    }
}

/// The position of the first white-space character of `s`, or its length.
pub open spec fn first_ws(s: Seq<char>) -> int
    decreases s.len(),
{
    if s.len() == 0 {
        0
    } else if is_ws(s[0]) {
        0
    } else {
        1 + first_ws(s.drop_first())
    }
}

/// `first_ws` lies within the text.
pub proof fn lemma_first_ws(s: Seq<char>)
    ensures
        0 <= first_ws(s) <= s.len(),
        first_ws(s) < s.len() ==> is_ws(s[first_ws(s)]),
        forall|j: int| 0 <= j < first_ws(s) ==> !is_ws(#[trigger] s[j]),
    decreases s.len(),
{
    if s.len() > 0 && !is_ws(s[0]) {
        lemma_first_ws(s.drop_first());
        assert forall|j: int| 0 <= j < first_ws(s) implies !is_ws(#[trigger] s[j]) by {
            if j > 0 {
                assert(s[j] == s.drop_first()[j - 1]);
            }
        }
    }
}

/// The value of attribute `name` in the attribute text that starts at
/// `rest`: attributes are `name=value`, the value in double or single
/// quotes or running to the next white space. `None` when the attribute is
/// not there or the text is malformed before it.
pub open spec fn xml_attr_in(rest: Seq<char>, name: Seq<char>) -> Option<Seq<char>>
    decreases rest.len(),
{
    let eq = index_of_any(rest, seq!['=']);
    if rest.len() == 0 || eq >= rest.len() {
        None
    } else {
        let attr_name = trim(rest.take(eq));
        let after_eq = trim_start(rest.skip(eq + 1));
        if after_eq.len() == 0 {
            None
        } else {
            let quote = after_eq[0];
            let body = after_eq.skip(1);
            let qend = index_of_any(body, seq![quote]);
            let wend = first_ws(after_eq);
            if (quote == '"' || quote == '\'') && qend >= body.len() {
                None
            } else {
                let value = if quote == '"' || quote == '\'' {
                    body.take(qend)
                } else {
                    after_eq.take(wend)
                };
                let next = if quote == '"' || quote == '\'' {
                    body.skip(qend + 1)
                } else {
                    after_eq.skip(wend)
                };
                if attr_name == name {
                    Some(value)
                } else {
                    proof {
                        crate::remote::lemma_index_of_any(rest, seq!['=']);
                        crate::remote::lemma_index_of_any(body, seq![quote]);
                        lemma_first_ws(after_eq);
                        lemma_trim_start_len(rest.skip(eq + 1));
                        lemma_trim_start_len(next);
                    }
                    xml_attr_in(trim_start(next), name)
                }
            }
        }
    }
}

/// The value of attribute `name` in the attributes of an XML tag.
pub fn xml_attr(attrs: &str, name: &str) -> (r: Option<String>)
    ensures
        match xml_attr_in(trim_start(attrs@), name@) {
            Some(v) => r matches Some(s) && s@ == v,
            None => r is None,
        },
{
    let c = chars_of(attrs);
    let mut rest = trim_start_chars(c.as_slice());
    let eq_set = vec!['='];
    assert(eq_set@ =~= seq!['=']);
    loop
        invariant
            eq_set@ == seq!['='],
            xml_attr_in(trim_start(attrs@), name@) == xml_attr_in(rest@, name@),
        decreases rest.len(),
    {
        if rest.len() == 0 {
            return None;
        }
        let eq = crate::remote::first_of_any(rest.as_slice(), eq_set.as_slice());
        proof {
            crate::remote::lemma_index_of_any(rest@, seq!['=']);
        }
        if eq >= rest.len() {
            return None;
        }
        let name_part = slice_chars(rest.as_slice(), 0, eq);
        let attr_name = trim_chars(name_part.as_slice());
        let tail = slice_chars(rest.as_slice(), eq + 1, rest.len());
        assert(tail@ =~= rest@.skip(eq + 1));
        let after_eq = trim_start_chars(tail.as_slice());
        if after_eq.len() == 0 {
            return None;
        }
        let quote = after_eq[0];
        let body = slice_chars(after_eq.as_slice(), 1, after_eq.len());
        assert(body@ =~= after_eq@.skip(1));
        let value: Vec<char>;
        let next: Vec<char>;
        if quote == '"' || quote == '\'' {
            let qs = vec![quote];
            assert(qs@ =~= seq![quote]);
            let qend = crate::remote::first_of_any(body.as_slice(), qs.as_slice());
            proof {
                crate::remote::lemma_index_of_any(body@, seq![quote]);
            }
            if qend >= body.len() {
                return None;
            }
            value = slice_chars(body.as_slice(), 0, qend);
            next = slice_chars(body.as_slice(), qend + 1, body.len());
            assert(next@ =~= body@.skip(qend + 1));
        } else {
            let wend = first_ws_index(after_eq.as_slice());
            proof {
                lemma_first_ws(after_eq@);
            }
            value = slice_chars(after_eq.as_slice(), 0, wend);
            next = slice_chars(after_eq.as_slice(), wend, after_eq.len());
            assert(next@ =~= after_eq@.skip(wend as int));
        }
        let an = string_of(attr_name.as_slice());
        if str_eq(an.as_str(), name) {
            return Some(string_of(value.as_slice()));
        }
        proof {
            lemma_trim_start_len(rest@.skip(eq + 1));
            lemma_trim_start_len(next@);
        }
        rest = trim_start_chars(next.as_slice());
    }
}

pub(crate) fn first_ws_index(s: &[char]) -> (r: usize)
    ensures
        r == first_ws(s@),
{
    proof {
        lemma_first_ws(s@);
    }
    let mut i: usize = 0;
    while i < s.len() && !is_whitespace(s[i])
        invariant
            i <= s.len(),
            i <= first_ws(s@),
            0 <= first_ws(s@) <= s.len(),
            first_ws(s@) < s.len() ==> is_ws(s@[first_ws(s@)]),
        decreases s.len() - i,
    {
        i += 1;
    }
    i
}

// ─── Merging report files ────────────────────────────────────────────────────

/// A report without its leading `<?xml … ?>` declaration (and the white
/// space after it); unchanged when it has none or the declaration is not
/// closed.
#[verifier::opaque]
pub open spec fn without_xml_declaration(xml: Seq<char>) -> Seq<char> {
    if has_prefix(xml, "<?xml"@) {
        let rest = xml.skip(5);
        if contains_seq(rest, "?>"@) {
            let end = choose|i: int| occurs_at(rest, "?>"@, i) && forall|j: int|
                0 <= j < i ==> !occurs_at(rest, "?>"@, j);
            trim_start(rest.skip(end + 2))
        } else {
            xml
        }
    } else {
        xml
    }
}

/// Removes the XML declaration at the start of a report.
pub fn strip_xml_declaration(xml: &str) -> (r: String)
    ensures
        r@ == without_xml_declaration(xml@),
{
    reveal(without_xml_declaration);
    let c = chars_of(xml);
    let decl = chars_of("<?xml");
    if !starts_with(c.as_slice(), decl.as_slice()) {
        return xml.to_owned();
    }
    proof {
        reveal_strlit("<?xml");
        reveal_strlit("?>");
    }
    let rest = slice_chars(c.as_slice(), 5, c.len());
    assert(rest@ =~= xml@.skip(5));
    let close = chars_of("?>");
    match find_seq(rest.as_slice(), close.as_slice()) {
        Some(end) => {
            proof {
                let e = choose|i: int| occurs_at(rest@, "?>"@, i) && forall|j: int|
                    0 <= j < i ==> !occurs_at(rest@, "?>"@, j);
                assert(occurs_at(rest@, "?>"@, end as int));
                if e < end {
                } else if e > end {
                    assert(!occurs_at(rest@, "?>"@, end as int));
                }
                assert(e == end);
            }
            let after = slice_chars(rest.as_slice(), end + 2, rest.len());
            assert(after@ =~= rest@.skip(end + 2));
            let t = trim_start_chars(after.as_slice());
            string_of(t.as_slice())
        },
        None => xml.to_owned(),
    }
}

/// The reports of a run as one document: none gives nothing, one is kept
/// as it is, several are put in a `<testsuites>` element, each without its
/// XML declaration and on lines of its own.
pub open spec fn merged_reports(reports: Seq<Seq<char>>) -> Seq<char> {
    if reports.len() == 0 {
        Seq::empty()
    } else if reports.len() == 1 {
        reports[0]
    } else {
        "<testsuites>\n"@ + report_bodies(reports) + "</testsuites>\n"@
    }
}

/// The reports, each without its declaration and followed by a line break.
pub open spec fn report_bodies(reports: Seq<Seq<char>>) -> Seq<char>
    decreases reports.len(),
{
    if reports.len() == 0 {
        Seq::empty()
    } else {
        report_bodies(reports.drop_last()) + without_xml_declaration(trim_start(reports.last()))
            + "\n"@
    }
}

fn report_body(report: &str) -> (r: String)
    ensures
        r@ == without_xml_declaration(trim_start(report@)),
{
    let c = chars_of(report);
    let t = trim_start_chars(c.as_slice());
    let ts = string_of(t.as_slice());
    strip_xml_declaration(ts.as_str())
}

/// Merges the reports of a run, in the order given.
pub fn merge_junit_reports(reports: &Vec<String>) -> (r: String)
    ensures
        r@ == merged_reports(reports@.map_values(|s: String| s@)),
{
    let ghost rv = reports@.map_values(|s: String| s@);
    if reports.len() == 0 {
        return String::new();
    }
    if reports.len() == 1 {
        return reports[0].clone();
    }
    let mut out = "<testsuites>\n".to_owned();
    let ghost head = out@;
    let mut i: usize = 0;
    while i < reports.len()
        invariant
            rv == reports@.map_values(|s: String| s@),
            i <= reports.len(),
            out@ == head + report_bodies(rv.take(i as int)),
        decreases reports.len() - i,
    {
        assert(rv.take(i + 1).drop_last() =~= rv.take(i as int));
        assert(rv.take(i + 1).last() == reports@[i as int]@);
        let body = report_body(reports[i].as_str());
        out.append(body.as_str());
        out.append("\n");
        assert(out@ =~= head + report_bodies(rv.take(i + 1)));
        i += 1;
    }
    assert(rv.take(reports.len() as int) =~= rv);
    out.append("</testsuites>\n");
    out
}

// ─── Summarising ─────────────────────────────────────────────────────────────

/// The test-suite expression: a `<testsuite …>` start tag, its attribute
/// text as first group.
pub open spec fn suite_pattern() -> Seq<char> {
    "<testsuite\\b([^>]*)>"@
}

/// The test-case expression: a `<testcase …/>` or `<testcase …>…</testcase>`
/// element, its attribute text as first group and its body as second.
pub open spec fn case_pattern() -> Seq<char> {
    "(?s)<testcase\\b([^>]*?)(?:/>|>(.*?)</testcase>)"@
}

/// The groups of a run's test suites, in order.
pub open spec fn suite_tags(xml: Seq<char>) -> Seq<(Option<Seq<char>>, Option<Seq<char>>)> {
    regex_groups(suite_pattern(), xml)
}

/// The groups of a run's test cases, in order.
pub open spec fn case_tags(xml: Seq<char>) -> Seq<(Option<Seq<char>>, Option<Seq<char>>)> {
    regex_groups(case_pattern(), xml)
}

/// Text that is not there counts as empty.
pub open spec fn or_empty(o: Option<Seq<char>>) -> Seq<char> {
    match o {
        Some(s) => s,
        None => Seq::empty(),
    }
}

/// The count that attribute `name` gives: its value as a `u64`, else 0.
pub open spec fn attr_count(attrs: Seq<char>, name: Seq<char>) -> nat {
    match xml_attr_in(trim_start(attrs), name) {
        Some(v) => match parse_unsigned(v, 0xffff_ffff_ffff_ffff) {
            Some(n) => n,
            None => 0,
        },
        None => 0,
    }
}

/// `a + b` as a `u64` adds, wrapping around.
pub open spec fn wrap_add(a: nat, b: nat) -> nat {
    if a + b > 0xffff_ffff_ffff_ffff {
        (a + b - 0x1_0000_0000_0000_0000) as nat
    } else {
        a + b
    }
}

/// The sum of attribute `name` over the test suites (their attribute texts
/// are the first groups), added as `u64`s.
pub open spec fn suite_total(
    suites: Seq<(Option<Seq<char>>, Option<Seq<char>>)>,
    name: Seq<char>,
) -> nat
    decreases suites.len(),
{
    if suites.len() == 0 {
        0
    } else {
        wrap_add(suite_total(suites.drop_last(), name), attr_count(or_empty(suites.last().0), name))
    }
}

/// The status of a test case by its body: `failed`, `errored`, `skipped`
/// or `passed`.
pub open spec fn case_status(body: Seq<char>) -> Seq<char> {
    if contains_seq(body, "<failure"@) {
        "failed"@
    } else if contains_seq(body, "<error"@) {
        "errored"@
    } else if contains_seq(body, "<skipped"@) {
        "skipped"@
    } else {
        "passed"@
    }
}

/// A test case as JSON: class name, name, time and status.
pub open spec fn case_json(c: (Option<Seq<char>>, Option<Seq<char>>)) -> JsonView {
    let attrs = or_empty(c.0);
    JsonView::Object(
        seq![
            ("className"@, JsonView::Str(or_empty(xml_attr_in(trim_start(attrs), "classname"@)))),
            ("name"@, JsonView::Str(or_empty(xml_attr_in(trim_start(attrs), "name"@)))),
            ("time"@, JsonView::Str(or_empty(xml_attr_in(trim_start(attrs), "time"@)))),
            ("status"@, JsonView::Str(case_status(or_empty(c.1)))),
        ],
    )
}

/// The JSON summary of a run: the totals of the suites' `tests`,
/// `failures`, `errors` and `skipped` attributes, and the test cases.
pub open spec fn junit_summary(
    suites: Seq<(Option<Seq<char>>, Option<Seq<char>>)>,
    cases: Seq<(Option<Seq<char>>, Option<Seq<char>>)>,
) -> JsonView {
    JsonView::Object(
        seq![
            ("tests"@, JsonView::Number(decimal(suite_total(suites, "tests"@)))),
            ("failures"@, JsonView::Number(decimal(suite_total(suites, "failures"@)))),
            ("errors"@, JsonView::Number(decimal(suite_total(suites, "errors"@)))),
            ("skipped"@, JsonView::Number(decimal(suite_total(suites, "skipped"@)))),
            ("testCases"@, JsonView::Array(cases.map_values(|c: (Option<Seq<char>>, Option<Seq<char>>)| case_json(c)))),
        ],
    )
}

fn attr_value(attrs: &str, name: &str) -> (r: u64)
    ensures
        r == attr_count(attrs@, name@),
{
    match xml_attr(attrs, name) {
        Some(v) => {
            let c = chars_of(v.as_str());
            match parse_decimal(c.as_slice(), 0xffff_ffff_ffff_ffff) {
                Some(n) => n,
                None => 0,
            }
        },
        None => 0,
    }
}

fn suite_totals(suites: &Vec<(Option<String>, Option<String>)>, name: &str) -> (r: u64)
    ensures
        r == suite_total(
            suites@.map_values(|c: (Option<String>, Option<String>)| (opt_view(c.0), opt_view(c.1))),
            name@,
        ),
{
    let ghost sv = suites@.map_values(
        |c: (Option<String>, Option<String>)| (opt_view(c.0), opt_view(c.1)),
    );
    let mut total: u64 = 0;
    let mut i: usize = 0;
    while i < suites.len()
        invariant
            sv == suites@.map_values(
                |c: (Option<String>, Option<String>)| (opt_view(c.0), opt_view(c.1)),
            ),
            i <= suites.len(),
            total == suite_total(sv.take(i as int), name@),
        decreases suites.len() - i,
    {
        assert(sv.take(i + 1).drop_last() =~= sv.take(i as int));
        assert(sv.take(i + 1).last() == (opt_view(suites@[i as int].0), opt_view(suites@[i as int].1)));
        let empty = String::new();
        let n = match &suites[i].0 {
            Some(a) => attr_value(a.as_str(), name),
            None => attr_value(empty.as_str(), name),
        };
        total = total.wrapping_add(n);
        i += 1;
    }
    assert(sv.take(suites.len() as int) =~= sv);
    total
}

fn text_or_empty(o: &Option<String>) -> (r: String)
    ensures
        r@ == or_empty(opt_view(*o)),
{
    match o {
        Some(s) => s.clone(),
        None => String::new(),
    }
}

fn attr_text(attrs: &str, name: &str) -> (r: Json)
    ensures
        json_view(r) == JsonView::Str(or_empty(xml_attr_in(trim_start(attrs@), name@))),
{
    match xml_attr(attrs, name) {
        Some(v) => Json::Str(v),
        None => Json::Str(String::new()),
    }
}

fn status_of(body: &str) -> (r: &'static str)
    ensures
        r@ == case_status(body@),
{
    let c = chars_of(body);
    let failure = chars_of("<failure");
    let error = chars_of("<error");
    let skipped = chars_of("<skipped");
    if contains(c.as_slice(), failure.as_slice()) {
        "failed"
    } else if contains(c.as_slice(), error.as_slice()) {
        "errored"
    } else if contains(c.as_slice(), skipped.as_slice()) {
        "skipped"
    } else {
        "passed"
    }
}

fn case_entry(case: &(Option<String>, Option<String>)) -> (r: Json)
    ensures
        json_view(r) == case_json((opt_view(case.0), opt_view(case.1))),
{
    let attrs = text_or_empty(&case.0);
    let body = text_or_empty(&case.1);
    let status = status_of(body.as_str());
    let mut members: Vec<(String, Json)> = Vec::new();
    members.push(("className".to_owned(), attr_text(attrs.as_str(), "classname")));
    members.push(("name".to_owned(), attr_text(attrs.as_str(), "name")));
    members.push(("time".to_owned(), attr_text(attrs.as_str(), "time")));
    members.push(("status".to_owned(), Json::Str(status.to_owned())));
    let r = json_object(members);
    assert(jmembers(members@) =~= json_view(r)->Object_0);
    assert(json_view(r)->Object_0 =~= case_json((opt_view(case.0), opt_view(case.1)))->Object_0);
    r
}

/// Summarises the test suites and test cases found in a run's reports (see
/// [`junit_summary`]).
pub fn junit_summary_json(
    suites: &Vec<(Option<String>, Option<String>)>,
    cases: &Vec<(Option<String>, Option<String>)>,
) -> (r: Json)
    ensures
        json_view(r) == junit_summary(
            suites@.map_values(|c: (Option<String>, Option<String>)| (opt_view(c.0), opt_view(c.1))),
            cases@.map_values(|c: (Option<String>, Option<String>)| (opt_view(c.0), opt_view(c.1))),
        ),
{
    let ghost cv = cases@.map_values(|c: (Option<String>, Option<String>)| (opt_view(c.0), opt_view(c.1)));
    let mut items: Vec<Json> = Vec::new();
    let mut i: usize = 0;
    while i < cases.len()
        invariant
            cv == cases@.map_values(|c: (Option<String>, Option<String>)| (opt_view(c.0), opt_view(c.1))),
            i <= cases.len(),
            items.len() == i,
            forall|k: int| 0 <= k < i ==> json_view(#[trigger] items@[k]) == case_json(cv[k]),
        decreases cases.len() - i,
    {
        let e = case_entry(&cases[i]);
        items.push(e);
        i += 1;
    }
    let case_list = json_array_of(items);
    assert(jarray(items@)->Array_0 =~= cv.map_values(|c: (Option<Seq<char>>, Option<Seq<char>>)| case_json(c)));
    let mut members: Vec<(String, Json)> = Vec::new();
    members.push(("tests".to_owned(), Json::Number(decimal_string(suite_totals(suites, "tests")))));
    members.push(("failures".to_owned(), Json::Number(decimal_string(suite_totals(suites, "failures")))));
    members.push(("errors".to_owned(), Json::Number(decimal_string(suite_totals(suites, "errors")))));
    members.push(("skipped".to_owned(), Json::Number(decimal_string(suite_totals(suites, "skipped")))));
    members.push(("testCases".to_owned(), case_list));
    let r = json_object(members);
    assert(json_view(r)->Object_0 =~= junit_summary(
        suites@.map_values(|c: (Option<String>, Option<String>)| (opt_view(c.0), opt_view(c.1))),
        cv,
    )->Object_0);
    r
}

/// The JSON summary of a run's merged JUnit XML reports: the totals of its
/// test suites and its test cases, as the report expressions find them.
pub fn junit_xml_to_json(xml: &str) -> (r: Json)
    ensures
        json_view(r) == junit_summary(suite_tags(xml@), case_tags(xml@)),
{
    let suites = capture_groups("<testsuite\\b([^>]*)>", xml);
    let cases = capture_groups("(?s)<testcase\\b([^>]*?)(?:/>|>(.*?)</testcase>)", xml);
    junit_summary_json(&suites, &cases)
}

// ─── The test command ────────────────────────────────────────────────────────

/// The Maven coordinate of the JUnit console launcher at `version`.
pub open spec fn junit_launcher_coordinate_of(version: Seq<char>) -> Seq<char> {
    "org.junit.platform:junit-platform-console-standalone:"@ + version
}

/// The Maven coordinate of the JUnit console launcher at `version`.
pub fn junit_launcher_coordinate(version: &str) -> (r: String)
    ensures
        r@ == junit_launcher_coordinate_of(version@),
{
    let mut out = "org.junit.platform:junit-platform-console-standalone:".to_owned();
    out.append(version);
    out
}

/// Whether a JAR file name is the JUnit console launcher's.
pub fn is_junit_launcher(file_name: &str) -> (r: bool)
    ensures
        r == has_prefix(file_name@, "junit-platform-console-standalone-"@),
{
    let c = chars_of(file_name);
    let p = chars_of("junit-platform-console-standalone-");
    starts_with(c.as_slice(), p.as_slice())
}

/// A source whose file stem ends in `Test`, `Tests` or `IT` holds tests.
pub open spec fn test_stem(stem: Seq<char>) -> bool {
    has_suffix(stem, "Test"@) || has_suffix(stem, "Tests"@) || has_suffix(stem, "IT"@)
}

/// Whether a file stem names a test source.
pub fn is_test_stem(stem: &str) -> (r: bool)
    ensures
        r == test_stem(stem@),
{
    let c = chars_of(stem);
    let t = chars_of("Test");
    let ts = chars_of("Tests");
    let it = chars_of("IT");
    ends_with(c.as_slice(), t.as_slice()) || ends_with(c.as_slice(), ts.as_slice()) || ends_with(
        c.as_slice(),
        it.as_slice(),
    )
}

/// The script among the sources of a test directory, by file stem in
/// sorted order: the first test source, else the first source.
pub open spec fn test_script_choice(stems: Seq<Seq<char>>) -> Option<int> {
    if exists|i: int| 0 <= i < stems.len() && test_stem(#[trigger] stems[i]) {
        Some(
            choose|i: int|
                0 <= i < stems.len() && test_stem(stems[i]) && forall|j: int|
                    0 <= j < i ==> !test_stem(#[trigger] stems[j]),
        )
    } else if stems.len() > 0 {
        Some(0)
    } else {
        None
    }
}

/// Picks the script of a test directory from the file stems of its
/// sources, in sorted order.
pub fn test_script_index(stems: &Vec<String>) -> (r: Option<usize>)
    ensures
        match test_script_choice(strs(stems@)) {
            Some(i) => r == Some(i as usize),
            None => r is None,
        },
{
    let ghost sv = strs(stems@);
    let mut i: usize = 0;
    while i < stems.len()
        invariant
            sv == strs(stems@),
            i <= stems.len(),
            forall|j: int| 0 <= j < i ==> !test_stem(#[trigger] sv[j]),
        decreases stems.len() - i,
    {
        if is_test_stem(stems[i].as_str()) {
            proof {
                assert(test_stem(sv[i as int]));
                let c = choose|k: int|
                    0 <= k < sv.len() && test_stem(sv[k]) && forall|j: int|
                        0 <= j < k ==> !test_stem(#[trigger] sv[j]);
                if c < i {
                    assert(!test_stem(sv[c]));
                } else if c > i {
                    assert(!test_stem(sv[i as int]));
                }
            }
            return Some(i);
        }
        i += 1;
    }
    if stems.len() > 0 {
        Some(0)
    } else {
        None
    }
}

/// The names of the sources that a test source may test: its stem without
/// `Tests`, `Test` or `IT` (in that order of trying), where something is
/// left, with `.java`.
pub open spec fn companion_names(stem: Seq<char>) -> Seq<Seq<char>> {
    companion_name(stem, "Tests"@) + companion_name(stem, "Test"@) + companion_name(stem, "IT"@)
}

/// The source that a test source may test, by one suffix.
pub open spec fn companion_name(stem: Seq<char>, suffix: Seq<char>) -> Seq<Seq<char>> {
    if has_suffix(stem, suffix) && stem.len() > suffix.len() {
        seq![stem.take(stem.len() - suffix.len()) + ".java"@]
    } else {
        Seq::empty()
    }
}

fn push_companion(out: &mut Vec<String>, stem: &str, suffix: &str)
    ensures
        strs(final(out)@) == strs(old(out)@) + companion_name(stem@, suffix@),
{
    let c = chars_of(stem);
    let x = chars_of(suffix);
    if ends_with(c.as_slice(), x.as_slice()) && c.len() > x.len() {
        let base = slice_chars(c.as_slice(), 0, c.len() - x.len());
        assert(base@ =~= stem@.take(stem@.len() - suffix@.len()));
        let mut name = string_of(base.as_slice());
        name.append(".java");
        let ghost before = strs(out@);
        out.push(name);
        assert(strs(out@) =~= before + companion_name(stem@, suffix@));
    } else {
        assert(strs(out@) =~= strs(out@) + companion_name(stem@, suffix@));
    }
}

/// The names of the sources that a test source with file stem `stem` may
/// test; those that exist beside it are compiled with it.
pub fn test_companion_names(stem: &str) -> (r: Vec<String>)
    ensures
        strs(r@) == companion_names(stem@),
{
    let mut out: Vec<String> = Vec::new();
    assert(strs(out@) =~= Seq::<Seq<char>>::empty());
    push_companion(&mut out, stem, "Tests");
    push_companion(&mut out, stem, "Test");
    push_companion(&mut out, stem, "IT");
    assert(strs(out@) =~= companion_names(stem@));
    out
}

/// A script argument that names a Maven tool (`group:artifact[:version
/// [:classifier]]`): not a URL, two to four `:`-separated parts, none of
/// them empty. Whether the argument is an existing file is asked first.
pub open spec fn maven_tool_shorthand(value: Seq<char>) -> bool {
    !has_prefix(value, "http://"@) && !has_prefix(value, "https://"@) && 2 <= split_on(
        value,
        seq![':'],
    ).len() <= 4 && forall|i: int|
        0 <= i < split_on(value, seq![':']).len() ==> (#[trigger] split_on(value, seq![':'])[i]).len()
            > 0
}

/// Whether a script argument names a Maven tool.
pub fn is_maven_tool_shorthand(value: &str) -> (r: bool)
    ensures
        r == maven_tool_shorthand(value@),
{
    let c = chars_of(value);
    let http = chars_of("http://");
    let https = chars_of("https://");
    if starts_with(c.as_slice(), http.as_slice()) || starts_with(c.as_slice(), https.as_slice()) {
        return false;
    }
    let colon = vec![':'];
    assert(colon@ =~= seq![':']);
    let parts = crate::text::split_chars(c.as_slice(), colon.as_slice());
    if parts.len() < 2 || parts.len() > 4 {
        assert(crate::text::views(parts@).len() == parts.len());
        return false;
    }
    let mut i: usize = 0;
    while i < parts.len()
        invariant
            crate::text::views(parts@) == split_on(value@, seq![':']),
            i <= parts.len(),
            forall|k: int| 0 <= k < i ==> (#[trigger] split_on(value@, seq![':'])[k]).len() > 0,
        decreases parts.len() - i,
    {
        assert(split_on(value@, seq![':'])[i as int] == parts@[i as int]@);
        if parts[i].len() == 0 {
            return false;
        }
        i += 1;
    }
    true
}

/// The `java` arguments that run the JUnit console launcher: an option per
/// agent, the script's runtime options and the command line's, then
/// `-jar <launcher> execute --class-path <cp> --scan-class-path
/// --reports-dir <dir>`, `--details=none --disable-banner` when the output
/// is a report, and the remaining arguments.
pub open spec fn junit_java_args(
    agents: Seq<(Seq<char>, Option<Seq<char>>)>,
    runtime_options: Seq<Seq<char>>,
    cli_runtime_options: Seq<Seq<char>>,
    launcher: Seq<char>,
    classpath: Seq<char>,
    reports_dir: Seq<char>,
    quiet: bool,
    args: Seq<Seq<char>>,
) -> Seq<Seq<char>> {
    agents.map_values(|a: (Seq<char>, Option<Seq<char>>)| java_agent_option(a)) + runtime_options
        + cli_runtime_options + seq![
        "-jar"@,
        launcher,
        "execute"@,
        "--class-path"@,
        classpath,
        "--scan-class-path"@,
        "--reports-dir"@,
        reports_dir,
    ] + (if quiet {
        seq!["--details=none"@, "--disable-banner"@]
    } else {
        Seq::empty()
    }) + args
}

/// The `java` arguments that run the JUnit console launcher.
pub fn junit_java_arguments(
    agents: &Vec<KeyValue>,
    runtime_options: &Vec<String>,
    cli_runtime_options: &Vec<String>,
    launcher: &str,
    classpath: &str,
    reports_dir: &str,
    quiet: bool,
    args: &Vec<String>,
) -> (r: Vec<String>)
    ensures
        strs(r@) == junit_java_args(
            kvs(agents@),
            strs(runtime_options@),
            strs(cli_runtime_options@),
            launcher@,
            classpath@,
            reports_dir@,
            quiet,
            strs(args@),
        ),
{
    let ghost av = kvs(agents@);
    let mut out: Vec<String> = Vec::new();
    let mut i: usize = 0;
    while i < agents.len()
        invariant
            av == kvs(agents@),
            i <= agents.len(),
            strs(out@) == av.take(i as int).map_values(
                |a: (Seq<char>, Option<Seq<char>>)| java_agent_option(a),
            ),
        decreases agents.len() - i,
    {
        let ghost before = strs(out@);
        let opt = format_java_agent(&agents[i]);
        out.push(opt);
        assert(strs(out@) =~= before.push(java_agent_option(av[i as int])));
        assert(av.take(i + 1).map_values(|a: (Seq<char>, Option<Seq<char>>)| java_agent_option(a))
            =~= av.take(i as int).map_values(
            |a: (Seq<char>, Option<Seq<char>>)| java_agent_option(a),
        ).push(java_agent_option(av[i as int])));
        i += 1;
    }
    assert(av.take(agents.len() as int) =~= av);
    crate::compile::append_strings(&mut out, runtime_options);
    crate::compile::append_strings(&mut out, cli_runtime_options);
    let ghost head = strs(out@);
    out.push("-jar".to_owned());
    out.push(launcher.to_owned());
    out.push("execute".to_owned());
    out.push("--class-path".to_owned());
    out.push(classpath.to_owned());
    out.push("--scan-class-path".to_owned());
    out.push("--reports-dir".to_owned());
    out.push(reports_dir.to_owned());
    let ghost mid = strs(out@);
    assert(mid =~= head + seq![
        "-jar"@,
        launcher@,
        "execute"@,
        "--class-path"@,
        classpath@,
        "--scan-class-path"@,
        "--reports-dir"@,
        reports_dir@,
    ]);
    if quiet {
        out.push("--details=none".to_owned());
        out.push("--disable-banner".to_owned());
    }
    let ghost with_quiet = strs(out@);
    assert(with_quiet =~= mid + (if quiet {
        seq!["--details=none"@, "--disable-banner"@]
    } else {
        Seq::<Seq<char>>::empty()
    }));
    crate::compile::append_strings(&mut out, args);
    out
}

} // verus!
