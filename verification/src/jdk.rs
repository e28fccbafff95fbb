//! JDK version selection: reading Java version strings and `//JAVA`
//! directives, and the Adoptium names of a platform.
use vstd::prelude::*;
use crate::text::{
    all_digits, chars_of, contains, decimal, decimal_string, find_any, has_prefix, is_digit,
    lemma_split_on_len, parse_decimal, parse_unsigned, slice_chars, split_chars, split_on,
    starts_with, string_of, trim, trim_chars, views,
};
use crate::directives::{lines_of, lines_spec};

verus! {

/// Errors of JDK version selection.
#[derive(Debug, Clone, PartialEq, Eq)]
pub enum JdkError {
    /// A `//JAVA` directive (or `--java` value) has no leading major version.
    InvalidVersionDirective(String),
    /// A checksum is not 64 hexadecimal digits.
    InvalidChecksum(String),
    /// A downloaded archive does not have the published checksum: the
    /// expected and the actual SHA-256, in hexadecimal.
    ChecksumMismatch(String, String),
    /// The operating system has no Adoptium build.
    UnsupportedOs,
    /// The architecture has no Adoptium build.
    UnsupportedArch,
    /// Adoptium's checksum metadata is not a JSON document.
    UnreadableChecksumMetadata,
    /// Adoptium's checksum metadata has no `binary.package.checksum`.
    NoPublishedChecksum,
}

/// Whether the regex class `\d` matches `c`: among ASCII characters exactly
/// `0` to `9` (`\d` is the Unicode class `Nd`, whose only ASCII members these
/// are); any other character where the regex `^\d$` matches it.
pub open spec fn decimal_digit(c: char) -> bool {
    if (c as u32) < 128 {
        is_digit(c)
    } else {
        crate::pattern::regex_matches("^\\d$"@, seq![c])
    }
}

/// Whether `\d` matches `c`.
fn is_regex_digit(c: char) -> (r: bool)
    ensures
        r == decimal_digit(c),
{
    if (c as u32) < 128 {
        '0' <= c && c <= '9'
    } else {
        let mut s = String::new();
        crate::text::push_char(&mut s, c);
        assert(s@ =~= seq![c]);
        crate::pattern::is_match("^\\d$", s.as_str())
    }
}

/// The end of the run of `\d` characters of `s` that starts at `i`.
pub open spec fn digit_run(s: Seq<char>, i: int) -> int
    decreases s.len() - i,
{
    if 0 <= i < s.len() && decimal_digit(s[i]) {
        digit_run(s, i + 1)
    } else {
        i
    }
}

/// The major version of a Java version string: after a leading `1.` (Java 8
/// and older, `1.8.0_432`) or else at the start (`21.0.3`, `25`, `17.0.11+10`),
/// the run of digits, read as a `u32`.
pub open spec fn major_of(v: Seq<char>) -> Option<nat> {
    let start: int = if has_prefix(v, "1."@) {
        2
    } else {
        0
    };
    let e = digit_run(v, start);
    if e == start {
        None
    } else {
        parse_unsigned(v.subrange(start, e), u32::MAX as nat)
    }
}

fn digit_run_end(s: &[char], i: usize) -> (r: usize)
    requires
        i <= s.len(),
    ensures
        r as int == digit_run(s@, i as int),
        i <= r <= s.len(),
{
    let mut j = i;
    while j < s.len() && is_regex_digit(s[j])
        invariant
            i <= j <= s.len(),
            digit_run(s@, i as int) == digit_run(s@, j as int),
        decreases s.len() - j,
    {
        j += 1;
    }
    j
}

/// The major version of a Java version string.
pub fn parse_major_from_version_string(version: &str) -> (r: Option<u32>)
    ensures
        match major_of(version@) {
            Some(m) => r == Some(m as u32),
            None => r is None,
        },
{
    let v = chars_of(version);
    let prefix = chars_of("1.");
    let start: usize = if starts_with(v.as_slice(), prefix.as_slice()) {
        assert(prefix@.len() == 2) by {
            reveal_strlit("1.");
        }
        2
    } else {
        0
    };
    let e = digit_run_end(v.as_slice(), start);
    if e == start {
        return None;
    }
    let run = slice_chars(v.as_slice(), start, e);
    match parse_decimal(run.as_slice(), 0xffff_ffff) {
        Some(n) => Some(n as u32),
        None => None,
    }
}

/// Parses a JBang-style `//JAVA` value such as `25`, `25+` or `17.0.11+10`
/// into the requested major version.
pub fn parse_java_version_directive(version: &str) -> (r: Result<u32, JdkError>)
    ensures
        match major_of(version@) {
            Some(m) => r == Ok::<u32, JdkError>(m as u32),
            None => r matches Err(JdkError::InvalidVersionDirective(t)) && t@ == version@,
        },
{
    match parse_major_from_version_string(version) {
        Some(m) => Ok(m),
        None => Err(JdkError::InvalidVersionDirective(version.to_owned())),
    }
}

/// The Java version used when a script names none.
pub open spec fn default_java_spec() -> u32 {
    25
}

/// The Java version used when a script names none: Java 25.
pub fn default_java_version() -> (r: u32)
    ensures
        r == default_java_spec(),
{
    25
}

/// The major version that a script requests: its `//JAVA` directive, or the
/// default.
pub fn requested_java_major(java_version: &Option<String>) -> (r: Result<u32, JdkError>)
    ensures
        match java_version {
            None => r == Ok::<u32, JdkError>(default_java_spec()),
            Some(v) => match major_of(v@) {
                Some(m) => r == Ok::<u32, JdkError>(m as u32),
                None => r matches Err(JdkError::InvalidVersionDirective(t)) && t@ == v@,
            },
        },
{
    match java_version {
        Some(v) => parse_java_version_directive(v.as_str()),
        None => Ok(default_java_version()),
    }
}

// ─── `java -version` output ─────────────────────────────────────────────────

/// The major version that one line of `java -version` output reports: on a
/// line holding `version "`, the text between the line's first two `"`.
pub open spec fn line_major(line: Seq<char>) -> Option<nat> {
    if !crate::text::contains_seq(line, "version \""@) {
        None
    } else {
        match crate::text::split_first(line, '"') {
            None => None,
            Some((_, rest)) => match crate::text::split_first(rest, '"') {
                None => None,
                Some((inner, _)) => major_of(inner),
            },
        }
    }
}

/// `s` without the characters `c` at its start and at its end
/// (`str::trim_matches` with one character).
pub open spec fn strip_edges(s: Seq<char>, c: char) -> Seq<char>
    decreases s.len(),
{
    if s.len() > 0 && s[0] == c {
        strip_edges(s.drop_first(), c)
    } else if s.len() > 0 && s.last() == c {
        strip_edges(s.drop_last(), c)
    } else {
        s
    }
}

/// The major version that a JDK's `release` file states: the value of its
/// first `JAVA_VERSION=` line, quotes and white space around it removed.
pub open spec fn release_major(lines: Seq<Seq<char>>) -> Option<nat>
    decreases lines.len(),
{
    if lines.len() == 0 {
        None
    } else if has_prefix(lines[0], "JAVA_VERSION="@) {
        major_of(trim(strip_edges(lines[0].skip(13), '"')))
    } else {
        release_major(lines.drop_first())
    }
}

fn strip_quotes(s: &[char]) -> (r: Vec<char>)
    ensures
        r@ == strip_edges(s@, '"'),
{
    let mut a: usize = 0;
    let mut b: usize = s.len();
    assert(s@.subrange(0, s.len() as int) =~= s@);
    while a < b && (s[a] == '"' || s[b - 1] == '"')
        invariant
            a <= b <= s.len(),
            strip_edges(s@, '"') == strip_edges(s@.subrange(a as int, b as int), '"'),
        decreases b - a,
    {
        let ghost t = s@.subrange(a as int, b as int);
        if s[a] == '"' {
            assert(t.drop_first() =~= s@.subrange(a + 1, b as int));
            a += 1;
        } else {
            assert(t.drop_last() =~= s@.subrange(a as int, b - 1));
            b -= 1;
        }
    }
    let ghost t = s@.subrange(a as int, b as int);
    if a < b {
        assert(t[0] == s@[a as int] && t.last() == s@[b - 1]);
    }
    assert(strip_edges(t, '"') == t);
    slice_chars(s, a, b)
}

/// The major version that the `release` file of a JDK states.
pub fn release_java_major(content: &str) -> (r: Option<u32>)
    ensures
        match release_major(lines_spec(content@)) {
            Some(m) => r == Some(m as u32),
            None => r is None,
        },
{
    let text = chars_of(content);
    let lines = lines_of(text.as_slice());
    let ghost ls = lines_spec(content@);
    let key = chars_of("JAVA_VERSION=");
    assert(key@.len() == 13) by {
        reveal_strlit("JAVA_VERSION=");
    }
    let mut i: usize = 0;
    assert(ls.skip(0) =~= ls);
    while i < lines.len()
        invariant
            views(lines@) == ls,
            ls == lines_spec(content@),
            key@ == "JAVA_VERSION="@,
            key@.len() == 13,
            i <= lines.len(),
            release_major(ls) == release_major(ls.skip(i as int)),
        decreases lines.len() - i,
    {
        proof {
            assert(ls.skip(i as int)[0] == lines@[i as int]@);
            assert(ls.skip(i as int).drop_first() =~= ls.skip(i + 1));
        }
        if starts_with(lines[i].as_slice(), key.as_slice()) {
            let value = slice_chars(lines[i].as_slice(), 13, lines[i].len());
            assert(value@ =~= lines@[i as int]@.skip(13));
            let unquoted = strip_quotes(value.as_slice());
            let trimmed = trim_chars(unquoted.as_slice());
            let v = string_of(trimmed.as_slice());
            return parse_major_from_version_string(v.as_str());
        }
        i += 1;
    }
    None
}

/// The first major version that a line of the output reports.
pub open spec fn first_line_major(lines: Seq<Seq<char>>) -> Option<nat>
    decreases lines.len(),
{
    if lines.len() == 0 {
        None
    } else {
        match line_major(lines[0]) {
            Some(m) => Some(m),
            None => first_line_major(lines.drop_first()),
        }
    }
}

fn line_major_of(line: &[char]) -> (r: Option<u32>)
    ensures
        match line_major(line@) {
            Some(m) => r == Some(m as u32),
            None => r is None,
        },
{
    let marker = chars_of("version \"");
    if !contains(line, marker.as_slice()) {
        return None;
    }
    match crate::text::split_first_char(line, '"') {
        None => None,
        Some((_, rest)) => match crate::text::split_first_char(rest.as_slice(), '"') {
            None => None,
            Some((inner, _)) => {
                let s = string_of(inner.as_slice());
                parse_major_from_version_string(s.as_str())
            },
        },
    }
}

/// The major version that `java -version` output reports. Notices that a JVM
/// prints first, such as `Picked up JAVA_TOOL_OPTIONS: -Xmx4g`, are skipped:
/// only lines holding `version "` are read.
pub fn parse_major_from_java_version_output(output: &str) -> (r: Option<u32>)
    ensures
        match first_line_major(lines_spec(output@)) {
            Some(m) => r == Some(m as u32),
            None => r is None,
        },
{
    let text = chars_of(output);
    let lines = lines_of(text.as_slice());
    let ghost ls = lines_spec(output@);
    let mut i: usize = 0;
    assert(ls.skip(0) =~= ls);
    while i < lines.len()
        invariant
            views(lines@) == ls,
            ls == lines_spec(output@),
            i <= lines.len(),
            first_line_major(ls) == first_line_major(ls.skip(i as int)),
        decreases lines.len() - i,
    {
        proof {
            assert(ls.skip(i as int)[0] == lines@[i as int]@);
            assert(ls.skip(i as int).drop_first() =~= ls.skip(i + 1));
        }
        match line_major_of(lines[i].as_slice()) {
            Some(m) => return Some(m),
            None => {},
        }
        i += 1;
    }
    None
}

// ─── Checksums ──────────────────────────────────────────────────────────────

/// An ASCII hexadecimal digit.
pub open spec fn is_hex(c: char) -> bool {
    ('0' <= c && c <= '9') || ('a' <= c && c <= 'f') || ('A' <= c && c <= 'F')
}

/// `s` without `-` and with ASCII letters in lower case.
pub open spec fn checksum_text(s: Seq<char>) -> Seq<char>
    decreases s.len(),
{
    if s.len() == 0 {
        s
    } else {
        let rest = checksum_text(s.drop_last());
        if s.last() == '-' {
            rest
        } else {
            rest.push(crate::text::ascii_lower(s.last()))
        }
    }
}

/// The normalized form of a SHA-256 checksum: trimmed, without dashes, in
/// lower case; it must then be 64 hexadecimal digits.
pub open spec fn normalized_sha256(s: Seq<char>) -> Option<Seq<char>> {
    let n = checksum_text(trim(s));
    if n.len() == 64 && (forall|i: int| 0 <= i < n.len() ==> is_hex(#[trigger] n[i])) {
        Some(n)
    } else {
        None
    }
}

/// Normalizes a SHA-256 checksum as published by Adoptium.
pub fn normalize_sha256(checksum: &str) -> (r: Result<String, JdkError>)
    ensures
        match normalized_sha256(checksum@) {
            Some(n) => r matches Ok(x) && x@ == n,
            None => r matches Err(JdkError::InvalidChecksum(t)) && t@ == checksum@,
        },
{
    let c = chars_of(checksum);
    let t = trim_chars(c.as_slice());
    let mut n: Vec<char> = Vec::new();
    let mut i: usize = 0;
    assert(t@.take(0) =~= Seq::<char>::empty());
    while i < t.len()
        invariant
            i <= t.len(),
            n@ == checksum_text(t@.take(i as int)),
        decreases t.len() - i,
    {
        let ch = t[i];
        assert(t@.take(i + 1).drop_last() =~= t@.take(i as int));
        if ch != '-' {
            let lower = if 'A' <= ch && ch <= 'Z' {
                crate::text::ascii_lower_char(ch)
            } else {
                ch
            };
            n.push(lower);
        }
        i += 1;
    }
    assert(t@.take(t.len() as int) =~= t@);
    if n.len() != 64 {
        return Err(JdkError::InvalidChecksum(checksum.to_owned()));
    }
    let mut k: usize = 0;
    while k < n.len()
        invariant
            k <= n.len(),
            n.len() == 64,
            n@ == checksum_text(trim(checksum@)),
            forall|j: int| 0 <= j < k ==> is_hex(#[trigger] n@[j]),
        decreases n.len() - k,
    {
        let ch = n[k];
        if !(('0' <= ch && ch <= '9') || ('a' <= ch && ch <= 'f') || ('A' <= ch && ch <= 'F')) {
            assert(!is_hex(n@[k as int]));
            return Err(JdkError::InvalidChecksum(checksum.to_owned()));
        }
        k += 1;
    }
    Ok(string_of(n.as_slice()))
}

/// Checks a downloaded JDK archive against the SHA-256 checksum that
/// Adoptium publishes for it: the checksum must be valid, and then equal to
/// the archive's digest.
pub fn check_jdk_archive(published: &str, archive: &[u8]) -> (r: Result<(), JdkError>)
    ensures
        match normalized_sha256(published@) {
            None => r matches Err(JdkError::InvalidChecksum(t)) && t@ == published@,
            Some(n) => if crate::trust::sha256_hex_of(archive@) == n {
                r is Ok
            } else {
                r matches Err(JdkError::ChecksumMismatch(e, a)) && e@ == n && a@
                    == crate::trust::sha256_hex_of(archive@)
            },
        },
{
    let expected = normalize_sha256(published)?;
    let actual = crate::trust::sha256_hex(archive);
    if crate::text::str_eq(actual.as_str(), expected.as_str()) {
        Ok(())
    } else {
        Err(JdkError::ChecksumMismatch(expected, actual))
    }
}

/// The checksum that Adoptium's asset metadata publishes for a package: the
/// string at `[0].binary.package.checksum`.
pub open spec fn adoptium_checksum_of(j: crate::catalog::Json) -> Option<Seq<char>> {
    match j {
        crate::catalog::Json::Array(items) => if items.len() > 0 {
            match crate::catalog::json_get(items@[0], "binary"@) {
                Some(b) => match crate::catalog::json_get(b, "package"@) {
                    Some(p) => crate::catalog::json_str(crate::catalog::json_get(p, "checksum"@)),
                    None => None,
                },
                None => None,
            }
        } else {
            None
        },
        _ => None,
    }
}

/// The checksum that Adoptium's asset metadata publishes for a package.
pub fn adoptium_checksum(metadata: &crate::catalog::Json) -> (r: Option<String>)
    ensures
        crate::resolver::opt_view(r) == adoptium_checksum_of(*metadata),
{
    match metadata {
        crate::catalog::Json::Array(items) => {
            if items.len() == 0 {
                return None;
            }
            let binary = match items[0].get("binary") {
                Some(b) => b,
                None => {
                    return None;
                },
            };
            let package = match binary.get("package") {
                Some(p) => p,
                None => {
                    return None;
                },
            };
            match package.get("checksum") {
                Some(c) => match c.as_str() {
                    Some(t) => Some(t.to_owned()),
                    None => None,
                },
                None => None,
            }
        },
        _ => None,
    }
}

/// The SHA-256 that Adoptium's checksum metadata text publishes, in the
/// form `check_jdk_archive` compares: the metadata must be a JSON document
/// that has a checksum, and the checksum must be 64 hexadecimal digits.
pub fn expected_adoptium_sha256(metadata_text: &str) -> (r: Result<String, JdkError>)
    ensures
        match crate::json_text::json_text_value(metadata_text@) {
            None => r matches Err(JdkError::UnreadableChecksumMetadata),
            Some(v) => exists|j: crate::catalog::Json|
                #![trigger crate::catalog::json_view(j)]
                crate::catalog::json_view(j) == v && match adoptium_checksum_of(j) {
                    None => r matches Err(JdkError::NoPublishedChecksum),
                    Some(c) => match normalized_sha256(c) {
                        Some(n) => r matches Ok(x) && x@ == n,
                        None => r matches Err(JdkError::InvalidChecksum(t)) && t@ == c,
                    },
                },
        },
{
    let metadata = match crate::json_text::parse_json_text(metadata_text) {
        Some(j) => j,
        None => {
            return Err(JdkError::UnreadableChecksumMetadata);
        },
    };
    let published = match adoptium_checksum(&metadata) {
        Some(c) => c,
        None => {
            return Err(JdkError::NoPublishedChecksum);
        },
    };
    normalize_sha256(published.as_str())
}

// ─── Platforms ──────────────────────────────────────────────────────────────

/// The Adoptium operating-system name of a target, if Adoptium builds for it.
pub open spec fn adoptium_os(os: Seq<char>, env: Seq<char>) -> Option<Seq<char>> {
    if os == "linux"@ {
        if env == "musl"@ {
            Some("alpine-linux"@)
        } else {
            Some("linux"@)
        }
    } else if os == "macos"@ {
        Some("mac"@)
    } else if os == "windows"@ {
        Some("windows"@)
    } else {
        None
    }
}

/// The Adoptium architecture name of a target, if Adoptium builds for it.
pub open spec fn adoptium_arch(arch: Seq<char>, little_endian: bool) -> Option<Seq<char>> {
    if arch == "x86_64"@ {
        Some("x64"@)
    } else if arch == "aarch64"@ {
        Some("aarch64"@)
    } else if arch == "arm"@ {
        Some("arm"@)
    } else if arch == "riscv64"@ {
        Some("riscv64"@)
    } else if arch == "powerpc64"@ {
        if little_endian {
            Some("ppc64le"@)
        } else {
            Some("ppc64"@)
        }
    } else if arch == "s390x"@ {
        Some("s390x"@)
    } else {
        None
    }
}

fn lit_eq(s: &str, lit: &str) -> (r: bool)
    ensures
        r == (s@ == lit@),
{
    crate::text::str_eq(s, lit)
}

/// The Adoptium `(os, arch)` names of a target, given as Rust names its
/// operating system, C environment and architecture (`target_os`,
/// `target_env`, `target_arch`) and its byte order.
pub fn detect_platform(os: &str, env: &str, arch: &str, little_endian: bool) -> (r: Result<
    (String, String),
    JdkError,
>)
    ensures
        match (adoptium_os(os@, env@), adoptium_arch(arch@, little_endian)) {
            (None, _) => r == Err::<(String, String), JdkError>(JdkError::UnsupportedOs),
            (Some(_), None) => r == Err::<(String, String), JdkError>(JdkError::UnsupportedArch),
            (Some(o), Some(a)) => r matches Ok((ro, ra)) && ro@ == o && ra@ == a,
        },
{
    let o = if lit_eq(os, "linux") {
        if lit_eq(env, "musl") {
            "alpine-linux"
        } else {
            "linux"
        }
    } else if lit_eq(os, "macos") {
        "mac"
    } else if lit_eq(os, "windows") {
        "windows"
    } else {
        return Err(JdkError::UnsupportedOs);
    };
    let a = if lit_eq(arch, "x86_64") {
        "x64"
    } else if lit_eq(arch, "aarch64") {
        "aarch64"
    } else if lit_eq(arch, "arm") {
        "arm"
    } else if lit_eq(arch, "riscv64") {
        "riscv64"
    } else if lit_eq(arch, "powerpc64") {
        if little_endian {
            "ppc64le"
        } else {
            "ppc64"
        }
    } else if lit_eq(arch, "s390x") {
        "s390x"
    } else {
        return Err(JdkError::UnsupportedArch);
    };
    Ok((o.to_owned(), a.to_owned()))
}

/// The Adoptium download URL of the latest GA JDK of a major version.
pub open spec fn adoptium_archive_url(major: u32, os: Seq<char>, arch: Seq<char>) -> Seq<char> {
    "https://api.adoptium.net/v3/binary/latest/"@ + decimal(major as nat) + "/ga/"@ + os + "/"@
        + arch + "/jdk/hotspot/normal/eclipse"@
}

/// The Adoptium URL of the checksum metadata of that download.
pub open spec fn adoptium_checksum_url(major: u32, os: Seq<char>, arch: Seq<char>) -> Seq<char> {
    "https://api.adoptium.net/v3/assets/latest/"@ + decimal(major as nat)
        + "/hotspot?architecture="@ + arch + "&image_type=jdk&os="@ + os + "&vendor=eclipse"@
}

fn cat(parts: &[&str]) -> (r: String)
    ensures
        r@ == concat_views(parts@),
{
    let mut out: Vec<char> = Vec::new();
    let mut i: usize = 0;
    while i < parts.len()
        invariant
            i <= parts.len(),
            out@ == concat_views(parts@.take(i as int)),
        decreases parts.len() - i,
    {
        let c = chars_of(parts[i]);
        crate::text::append_chars(&mut out, c.as_slice());
        assert(parts@.take(i + 1).drop_last() =~= parts@.take(i as int));
        i += 1;
    }
    assert(parts@.take(parts.len() as int) =~= parts@);
    string_of(out.as_slice())
}

/// The concatenation of the views of some string slices.
pub open spec fn concat_views(parts: Seq<&str>) -> Seq<char>
    decreases parts.len(),
{
    if parts.len() == 0 {
        Seq::empty()
    } else {
        concat_views(parts.drop_last()) + parts.last()@
    }
}

/// The Adoptium URLs of a JDK archive and of its checksum metadata.
pub fn adoptium_urls(major: u32, os: &str, arch: &str) -> (r: (String, String))
    ensures
        r.0@ == adoptium_archive_url(major, os@, arch@),
        r.1@ == adoptium_checksum_url(major, os@, arch@),
{
    let m = decimal_string(major as u64);
    let archive = cat(
        &[
            "https://api.adoptium.net/v3/binary/latest/",
            m.as_str(),
            "/ga/",
            os,
            "/",
            arch,
            "/jdk/hotspot/normal/eclipse",
        ],
    );
    let checksum = cat(
        &[
            "https://api.adoptium.net/v3/assets/latest/",
            m.as_str(),
            "/hotspot?architecture=",
            arch,
            "&image_type=jdk&os=",
            os,
            "&vendor=eclipse",
        ],
    );
    proof {
        reveal_with_fuel(concat_views, 8);
    }
    (archive, checksum)
}

} // verus!
