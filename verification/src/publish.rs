//! Publishing a script as a Maven artifact: coordinates, the POM and the
//! repository metadata that describe it.
use vstd::prelude::*;
use crate::export::pct_encode;
use crate::pom::str_views;
use crate::resolver::{coordinate_dep, opt_view, parse_coordinate};
use crate::text::{
    chars_of, has_prefix, has_suffix, replace_all, replace_seq, slice_chars, split_chars, split_on,
    starts_with, ends_with, str_eq, string_of, views,
};

verus! {

/// Maven coordinates of a published artifact.
#[derive(Debug, Clone)]
pub struct PublishCoordinates {
    pub group: String,
    pub id: String,
    pub version: String,
}

/// A license of a published artifact.
#[derive(Debug, Clone)]
pub struct PublishLicense {
    pub name: String,
    pub url: String,
}

/// A developer of a published artifact.
#[derive(Debug, Clone)]
pub struct PublishDeveloper {
    pub name: String,
    pub email: Option<String>,
    pub organization: Option<String>,
    pub organization_url: Option<String>,
}

/// Where the sources of a published artifact are kept.
#[derive(Debug, Clone)]
pub struct PublishScm {
    pub connection: String,
    pub developer_connection: Option<String>,
    pub url: String,
}

/// What is published, and how.
#[derive(Debug)]
pub struct PublishDescriptor {
    pub script: std::path::PathBuf,
    pub descriptor_dir: std::path::PathBuf,
    pub coordinates: PublishCoordinates,
    pub package_name: Option<String>,
    pub name: Option<String>,
    pub description: Option<String>,
    pub url: Option<String>,
    pub licenses: Vec<PublishLicense>,
    pub developers: Vec<PublishDeveloper>,
    pub scm: Option<PublishScm>,
    pub java_version: Option<String>,
    pub deps: Vec<String>,
    pub sources: Vec<String>,
    pub auto_discover_sources: bool,
    pub repos: Vec<String>,
}

/// Why publishing metadata is refused.
#[derive(Debug)]
pub enum PublishError {
    /// A `//GAV` directive is not `group:artifact:version`.
    BadGav(String),
    /// A coordinate part (named first) is empty or has other characters than
    /// ASCII letters, digits, `.`, `-` and `_`.
    InvalidPart(String, String),
    /// A group has an empty segment.
    InvalidGroup(String),
    /// A package name is not a dotted Java identifier.
    InvalidPackage(String),
    /// A descriptor member (named) is missing, not a string or blank.
    Required(String),
    /// A descriptor member (named) is not an array of strings.
    NotStrings(String),
    /// A descriptor member (named) is not an array of objects.
    NotObjects(String),
    /// Neither the descriptor nor a `//GAV` directive gives coordinates.
    NoCoordinates,
    /// The version ends in `-SNAPSHOT`, which Maven Central refuses.
    Snapshot,
    /// Metadata (named) that Maven Central needs is missing or blank.
    MissingMetadata(String),
    /// Maven Central needs at least one license.
    NoLicense,
    /// Maven Central needs at least one developer.
    NoDeveloper,
    /// Maven Central needs SCM metadata.
    NoScm,
    /// A descriptor file is not a JSON document.
    UnreadableDescriptor,
}

/// What a [`PublishError`] says, with its texts as character sequences.
pub enum PublishErrorView {
    BadGav(Seq<char>),
    InvalidPart(Seq<char>, Seq<char>),
    InvalidGroup(Seq<char>),
    InvalidPackage(Seq<char>),
    Required(Seq<char>),
    NotStrings(Seq<char>),
    NotObjects(Seq<char>),
    NoCoordinates,
    Snapshot,
    MissingMetadata(Seq<char>),
    NoLicense,
    NoDeveloper,
    NoScm,
    UnreadableDescriptor,
}

impl View for PublishError {
    type V = PublishErrorView;

    open spec fn view(&self) -> PublishErrorView {
        match self {
            PublishError::BadGav(s) => PublishErrorView::BadGav(s@),
            PublishError::InvalidPart(n, v) => PublishErrorView::InvalidPart(n@, v@),
            PublishError::InvalidGroup(s) => PublishErrorView::InvalidGroup(s@),
            PublishError::InvalidPackage(s) => PublishErrorView::InvalidPackage(s@),
            PublishError::Required(s) => PublishErrorView::Required(s@),
            PublishError::NotStrings(s) => PublishErrorView::NotStrings(s@),
            PublishError::NotObjects(s) => PublishErrorView::NotObjects(s@),
            PublishError::NoCoordinates => PublishErrorView::NoCoordinates,
            PublishError::Snapshot => PublishErrorView::Snapshot,
            PublishError::MissingMetadata(s) => PublishErrorView::MissingMetadata(s@),
            PublishError::NoLicense => PublishErrorView::NoLicense,
            PublishError::NoDeveloper => PublishErrorView::NoDeveloper,
            PublishError::NoScm => PublishErrorView::NoScm,
            PublishError::UnreadableDescriptor => PublishErrorView::UnreadableDescriptor,
        }
    }
}

// ─── Text ────────────────────────────────────────────────────────────────────

/// Text escaped for XML: `&`, `<`, `>`, `"` and `'` as entities.
pub open spec fn xml_escaped(s: Seq<char>) -> Seq<char> {
    replace_all(
        replace_all(
            replace_all(replace_all(replace_all(s, seq!['&'], "&amp;"@), seq!['<'], "&lt;"@), seq!['>'], "&gt;"@),
            seq!['"'],
            "&quot;"@,
        ),
        seq!['\''],
        "&apos;"@,
    )
}

fn replace_char(s: Vec<char>, c: char, t: &str) -> (r: Vec<char>)
    ensures
        r@ == replace_all(s@, seq![c], t@),
{
    let p = vec![c];
    assert(p@ =~= seq![c]);
    let tc = chars_of(t);
    replace_seq(s.as_slice(), p.as_slice(), tc.as_slice())
}

/// Escapes text for XML.
pub fn xml_escape(value: &str) -> (r: String)
    ensures
        r@ == xml_escaped(value@),
{
    let c = chars_of(value);
    let c = replace_char(c, '&', "&amp;");
    let c = replace_char(c, '<', "&lt;");
    let c = replace_char(c, '>', "&gt;");
    let c = replace_char(c, '"', "&quot;");
    let c = replace_char(c, '\'', "&apos;");
    string_of(c.as_slice())
}

/// Percent-encodes a URL component: ASCII letters, digits and `-_.~` are
/// kept, every other byte of its UTF-8 form becomes `%XX`.
pub fn url_encode(value: &str) -> (r: String)
    ensures
        r@ == pct_encode(vstd::utf8::encode_utf8(value@), false),
{
    crate::export::percent_encode_manifest_segment(value)
}

// ─── Coordinates ─────────────────────────────────────────────────────────────

/// Parses a `//GAV` directive: exactly `group:artifact:version`.
pub fn parse_gav_directive(raw: &str) -> (r: Result<PublishCoordinates, PublishError>)
    ensures
        split_on(raw@, seq![':']).len() == 3 ==> (r matches Ok(c) && c.group@ == split_on(
            raw@,
            seq![':'],
        )[0] && c.id@ == split_on(raw@, seq![':'])[1] && c.version@ == split_on(raw@, seq![':'])[2]),
        split_on(raw@, seq![':']).len() != 3 ==> (r matches Err(PublishError::BadGav(t)) && t@ == raw@),
{
    let c = chars_of(raw);
    let colon = vec![':'];
    assert(colon@ =~= seq![':']);
    let parts = split_chars(c.as_slice(), colon.as_slice());
    if parts.len() != 3 {
        return Err(PublishError::BadGav(raw.to_owned()));
    }
    assert(views(parts@)[0] == parts@[0]@ && views(parts@)[1] == parts@[1]@ && views(parts@)[2]
        == parts@[2]@);
    Ok(
        PublishCoordinates {
            group: string_of(parts[0].as_slice()),
            id: string_of(parts[1].as_slice()),
            version: string_of(parts[2].as_slice()),
        },
    )
}

/// The `owner/repo` of a GitHub remote URL (SSH or HTTPS form, with or
/// without `.git`).
pub open spec fn github_slug_of(remote: Seq<char>) -> Option<Seq<char>> {
    let w = if has_suffix(remote, ".git"@) {
        remote.take(remote.len() - ".git"@.len())
    } else {
        remote
    };
    if has_prefix(w, "git@github.com:"@) {
        Some(w.skip("git@github.com:"@.len() as int))
    } else if has_prefix(w, "https://github.com/"@) {
        Some(w.skip("https://github.com/"@.len() as int))
    } else {
        None
    }
}

/// The `owner/repo` of a GitHub remote URL.
pub fn github_repo_slug(remote: &str) -> (r: Option<String>)
    ensures
        opt_view(r) == github_slug_of(remote@),
{
    let c = chars_of(remote);
    let git = chars_of(".git");
    let w = if ends_with(c.as_slice(), git.as_slice()) {
        slice_chars(c.as_slice(), 0, c.len() - git.len())
    } else {
        c
    };
    let ssh = chars_of("git@github.com:");
    let https = chars_of("https://github.com/");
    if starts_with(w.as_slice(), ssh.as_slice()) {
        let rest = slice_chars(w.as_slice(), ssh.len(), w.len());
        assert(rest@ =~= w@.skip(ssh@.len() as int));
        Some(string_of(rest.as_slice()))
    } else if starts_with(w.as_slice(), https.as_slice()) {
        let rest = slice_chars(w.as_slice(), https.len(), w.len());
        assert(rest@ =~= w@.skip(https@.len() as int));
        Some(string_of(rest.as_slice()))
    } else {
        None
    }
}

/// A character allowed in a coordinate part.
pub open spec fn coordinate_char(c: char) -> bool {
    crate::init::is_ascii_alnum(c) || c == '.' || c == '-' || c == '_'
}

/// A coordinate part: not empty, of allowed characters only.
pub open spec fn coordinate_part(s: Seq<char>) -> bool {
    s.len() > 0 && forall|i: int| 0 <= i < s.len() ==> coordinate_char(#[trigger] s[i])
}

/// Checks a coordinate part; `name` says which part it is.
pub fn validate_coordinate_part(value: &str, name: &str) -> (r: Result<(), PublishError>)
    ensures
        coordinate_part(value@) ==> r is Ok,
        !coordinate_part(value@) ==> (r matches Err(PublishError::InvalidPart(n, v)) && n@ == name@
            && v@ == value@),
{
    let c = chars_of(value);
    let mut ok = c.len() > 0;
    let mut i: usize = 0;
    while ok && i < c.len()
        invariant
            c@ == value@,
            i <= c.len(),
            ok ==> c.len() > 0 && forall|k: int| 0 <= k < i ==> coordinate_char(#[trigger] c@[k]),
            !ok ==> !coordinate_part(value@),
        decreases c.len() - i + (if ok { 1int } else { 0int }),
    {
        let ch = c[i];
        if !(('a' <= ch && ch <= 'z') || ('A' <= ch && ch <= 'Z') || ('0' <= ch && ch <= '9') || ch
            == '.' || ch == '-' || ch == '_') {
            ok = false;
        } else {
            i += 1;
        }
    }
    if !ok {
        return Err(PublishError::InvalidPart(name.to_owned(), value.to_owned()));
    }
    Ok(())
}

/// Checks a coordinate part that becomes a path segment: also not `.` or
/// `..`.
pub fn validate_path_safe_coordinate_part(value: &str, name: &str) -> (r: Result<(), PublishError>)
    ensures
        r is Ok <==> (coordinate_part(value@) && value@ != "."@ && value@ != ".."@),
        r is Err ==> (r matches Err(PublishError::InvalidPart(n, v)) && n@ == name@ && v@ == value@),
{
    validate_coordinate_part(value, name)?;
    if str_eq(value, ".") || str_eq(value, "..") {
        return Err(PublishError::InvalidPart(name.to_owned(), value.to_owned()));
    }
    Ok(())
}

/// No `.`-separated segment of a group is empty, `.` or `..`.
pub open spec fn group_segments_ok(s: Seq<char>) -> bool {
    forall|i: int|
        0 <= i < split_on(s, seq!['.']).len() ==> !crate::remote::bad_segment(
            #[trigger] split_on(s, seq!['.'])[i],
        )
}

/// Checks a group id: a coordinate part whose `.`-separated segments are
/// not empty.
pub fn validate_group(value: &str) -> (r: Result<(), PublishError>)
    ensures
        r is Ok <==> (coordinate_part(value@) && group_segments_ok(value@)),
        !coordinate_part(value@) ==> (r matches Err(PublishError::InvalidPart(n, v)) && n@ == "group"@
            && v@ == value@),
        coordinate_part(value@) && !group_segments_ok(value@) ==> (r matches Err(
            PublishError::InvalidGroup(v),
        ) && v@ == value@),
{
    let checked = validate_coordinate_part(value, "group");
    if checked.is_err() {
        return checked;
    }
    assert(coordinate_part(value@));
    let c = chars_of(value);
    let dot = vec!['.'];
    assert(dot@ =~= seq!['.']);
    let parts = split_chars(c.as_slice(), dot.as_slice());
    let mut i: usize = 0;
    while i < parts.len()
        invariant
            coordinate_part(value@),
            views(parts@) == split_on(value@, seq!['.']),
            i <= parts.len(),
            forall|k: int| 0 <= k < i ==> !crate::remote::bad_segment(
                #[trigger] split_on(value@, seq!['.'])[k],
            ),
        decreases parts.len() - i,
    {
        let part = string_of(parts[i].as_slice());
        assert(part@ == split_on(value@, seq!['.'])[i as int]);
        if parts[i].len() == 0 || str_eq(part.as_str(), ".") || str_eq(part.as_str(), "..") {
            return Err(PublishError::InvalidGroup(value.to_owned()));
        }
        i += 1;
    }
    Ok(())
}

/// Every `.`-separated part of `s` is a Java identifier.
pub open spec fn package_parts_ok(s: Seq<char>) -> bool {
    forall|i: int|
        0 <= i < split_on(s, seq!['.']).len() ==> crate::init::java_ident(
            #[trigger] split_on(s, seq!['.'])[i],
        )
}

fn parts_are_identifiers(value: &str) -> (r: bool)
    ensures
        r == package_parts_ok(value@),
{
    let c = chars_of(value);
    let dot = vec!['.'];
    assert(dot@ =~= seq!['.']);
    let parts = split_chars(c.as_slice(), dot.as_slice());
    let mut i: usize = 0;
    while i < parts.len()
        invariant
            views(parts@) == split_on(value@, seq!['.']),
            i <= parts.len(),
            forall|k: int| 0 <= k < i ==> crate::init::java_ident(
                #[trigger] split_on(value@, seq!['.'])[k],
            ),
        decreases parts.len() - i,
    {
        let part = string_of(parts[i].as_slice());
        assert(part@ == split_on(value@, seq!['.'])[i as int]);
        if !crate::init::is_java_identifier(part.as_str()) {
            return false;
        }
        i += 1;
    }
    true
}

/// Checks a package name: every `.`-separated part a Java identifier.
pub fn validate_package_name(value: &str) -> (r: Result<(), PublishError>)
    ensures
        r is Ok <==> package_parts_ok(value@),
        r is Err ==> (r matches Err(PublishError::InvalidPackage(v)) && v@ == value@),
{
    if parts_are_identifiers(value) {
        Ok(())
    } else {
        Err(PublishError::InvalidPackage(value.to_owned()))
    }
}

/// A fully qualified Java name: at least two parts, each an identifier.
pub open spec fn java_fqn(s: Seq<char>) -> bool {
    split_on(s, seq!['.']).len() >= 2 && package_parts_ok(s)
}

/// Whether `value` is a fully qualified Java name.
pub fn is_java_fqn(value: &str) -> (r: bool)
    ensures
        r == java_fqn(value@),
{
    let c = chars_of(value);
    let dot = vec!['.'];
    assert(dot@ =~= seq!['.']);
    let parts = split_chars(c.as_slice(), dot.as_slice());
    assert(views(parts@).len() == parts.len());
    parts.len() >= 2 && parts_are_identifiers(value)
}

// ─── The POM ─────────────────────────────────────────────────────────────────

/// An element: its opening text, the escaped value, its closing text.
pub open spec fn tag_text(open: Seq<char>, value: Seq<char>, close: Seq<char>) -> Seq<char> {
    open + xml_escaped(value) + close
}

/// An element for an optional value: nothing when there is none.
pub open spec fn opt_tag(open: Seq<char>, value: Option<Seq<char>>, close: Seq<char>) -> Seq<char> {
    match value {
        Some(v) => tag_text(open, v, close),
        None => Seq::empty(),
    }
}

fn push_tag(out: &mut String, open: &str, value: &str, close: &str)
    ensures
        final(out)@ == old(out)@ + tag_text(open@, value@, close@),
{
    out.append(open);
    let e = xml_escape(value);
    out.append(e.as_str());
    out.append(close);
}

fn push_opt_tag(out: &mut String, open: &str, value: &Option<String>, close: &str)
    ensures
        final(out)@ == old(out)@ + opt_tag(open@, opt_view(*value), close@),
{
    match value {
        Some(v) => push_tag(out, open, v.as_str(), close),
        None => {
            assert(out@ =~= out@ + Seq::<char>::empty());
        },
    }
}

/// The licenses of a POM, one element each.
pub open spec fn license_items(ls: Seq<PublishLicense>) -> Seq<char>
    decreases ls.len(),
{
    if ls.len() == 0 {
        Seq::empty()
    } else {
        let l = ls.last();
        license_items(ls.drop_last()) + "\n    <license>"@ + tag_text("\n      <name>"@, l.name@, "</name>"@)
            + tag_text("\n      <url>"@, l.url@, "</url>"@) + "\n    </license>"@
    }
}

/// The `licenses` section of a POM; nothing without licenses.
pub open spec fn licenses_xml(ls: Seq<PublishLicense>) -> Seq<char> {
    if ls.len() == 0 {
        Seq::empty()
    } else {
        "\n  <licenses>"@ + license_items(ls) + "\n  </licenses>"@
    }
}

/// Writes the `licenses` section of a POM.
pub fn render_pom_licenses(licenses: &[PublishLicense]) -> (r: String)
    ensures
        r@ == licenses_xml(licenses@),
{
    if licenses.len() == 0 {
        return String::new();
    }
    let mut out = "\n  <licenses>".to_owned();
    let ghost o = out@;
    let mut i: usize = 0;
    while i < licenses.len()
        invariant
            i <= licenses.len(),
            out@ == o + license_items(licenses@.take(i as int)),
        decreases licenses.len() - i,
    {
        assert(licenses@.take(i + 1).drop_last() =~= licenses@.take(i as int));
        out.append("\n    <license>");
        push_tag(&mut out, "\n      <name>", licenses[i].name.as_str(), "</name>");
        push_tag(&mut out, "\n      <url>", licenses[i].url.as_str(), "</url>");
        out.append("\n    </license>");
        assert(out@ =~= o + license_items(licenses@.take(i + 1)));
        i += 1;
    }
    assert(licenses@.take(licenses.len() as int) =~= licenses@);
    out.append("\n  </licenses>");
    out
}

/// One developer of a POM.
pub open spec fn developer_item(d: PublishDeveloper) -> Seq<char> {
    "\n    <developer>"@ + tag_text("\n      <name>"@, d.name@, "</name>"@) + opt_tag(
        "\n      <email>"@,
        opt_view(d.email),
        "</email>"@,
    ) + opt_tag("\n      <organization>"@, opt_view(d.organization), "</organization>"@)
        + opt_tag("\n      <organizationUrl>"@, opt_view(d.organization_url), "</organizationUrl>"@)
        + "\n    </developer>"@
}

/// The developers of a POM.
pub open spec fn developer_items(ds: Seq<PublishDeveloper>) -> Seq<char>
    decreases ds.len(),
{
    if ds.len() == 0 {
        Seq::empty()
    } else {
        developer_items(ds.drop_last()) + developer_item(ds.last())
    }
}

/// The `developers` section of a POM; nothing without developers.
pub open spec fn developers_xml(ds: Seq<PublishDeveloper>) -> Seq<char> {
    if ds.len() == 0 {
        Seq::empty()
    } else {
        "\n  <developers>"@ + developer_items(ds) + "\n  </developers>"@
    }
}

/// Writes the `developers` section of a POM.
pub fn render_pom_developers(developers: &[PublishDeveloper]) -> (r: String)
    ensures
        r@ == developers_xml(developers@),
{
    if developers.len() == 0 {
        return String::new();
    }
    let mut out = "\n  <developers>".to_owned();
    let ghost o = out@;
    let mut i: usize = 0;
    while i < developers.len()
        invariant
            i <= developers.len(),
            out@ == o + developer_items(developers@.take(i as int)),
        decreases developers.len() - i,
    {
        assert(developers@.take(i + 1).drop_last() =~= developers@.take(i as int));
        let d = &developers[i];
        out.append("\n    <developer>");
        push_tag(&mut out, "\n      <name>", d.name.as_str(), "</name>");
        push_opt_tag(&mut out, "\n      <email>", &d.email, "</email>");
        push_opt_tag(&mut out, "\n      <organization>", &d.organization, "</organization>");
        push_opt_tag(&mut out, "\n      <organizationUrl>", &d.organization_url, "</organizationUrl>");
        out.append("\n    </developer>");
        assert(out@ =~= o + developer_items(developers@.take(i + 1)));
        i += 1;
    }
    assert(developers@.take(developers.len() as int) =~= developers@);
    out.append("\n  </developers>");
    out
}

/// The `scm` section of a POM.
pub open spec fn scm_xml(scm: PublishScm) -> Seq<char> {
    "\n  <scm>"@ + tag_text("\n    <connection>"@, scm.connection@, "</connection>"@) + opt_tag(
        "\n    <developerConnection>"@,
        opt_view(scm.developer_connection),
        "</developerConnection>"@,
    ) + tag_text("\n    <url>"@, scm.url@, "</url>"@) + "\n  </scm>"@
}

/// Writes the `scm` section of a POM.
pub fn render_pom_scm(scm: &PublishScm) -> (r: String)
    ensures
        r@ == scm_xml(*scm),
{
    let mut out = "\n  <scm>".to_owned();
    push_tag(&mut out, "\n    <connection>", scm.connection.as_str(), "</connection>");
    push_opt_tag(&mut out, "\n    <developerConnection>", &scm.developer_connection, "</developerConnection>");
    push_tag(&mut out, "\n    <url>", scm.url.as_str(), "</url>");
    out.append("\n  </scm>");
    out
}

/// One dependency of a POM.
pub open spec fn dependency_item(d: crate::resolver::DepView) -> Seq<char> {
    "\n    <dependency>"@ + tag_text("\n      <groupId>"@, d.module.0, "</groupId>"@) + tag_text(
        "\n      <artifactId>"@,
        d.module.1,
        "</artifactId>"@,
    ) + tag_text("\n      <version>"@, d.version, "</version>"@) + opt_tag(
        "\n      <classifier>"@,
        d.classifier,
        "</classifier>"@,
    ) + "\n    </dependency>"@
}

/// The dependencies of a POM: one element for each coordinate that parses.
pub open spec fn dependency_items(deps: Seq<Seq<char>>) -> (Seq<char>, nat)
    decreases deps.len(),
{
    if deps.len() == 0 {
        (Seq::empty(), 0)
    } else {
        let (items, n) = dependency_items(deps.drop_last());
        match coordinate_dep(deps.last()) {
            Some(d) => (items + dependency_item(d), n + 1),
            None => (items, n),
        }
    }
}

/// The `dependencies` section of a POM; nothing when no coordinate parses.
pub open spec fn dependencies_xml(deps: Seq<Seq<char>>) -> Seq<char> {
    let (items, n) = dependency_items(deps);
    if n == 0 {
        Seq::empty()
    } else {
        "\n  <dependencies>"@ + items + "\n  </dependencies>"@
    }
}

/// Writes the `dependencies` section of a POM.
pub fn render_pom_dependencies(deps: &[String]) -> (r: String)
    ensures
        r@ == dependencies_xml(str_views(deps@)),
{
    let ghost dv = str_views(deps@);
    let mut items = String::new();
    let mut n: usize = 0;
    let mut i: usize = 0;
    while i < deps.len()
        invariant
            dv == str_views(deps@),
            i <= deps.len(),
            n <= i,
            dependency_items(dv.take(i as int)) == (items@, n as nat),
        decreases deps.len() - i,
    {
        assert(dv.take(i + 1).drop_last() =~= dv.take(i as int));
        assert(dv.take(i + 1).last() == deps@[i as int]@);
        match parse_coordinate(deps[i].as_str()) {
            Ok(d) => {
                let ghost before = items@;
                items.append("\n    <dependency>");
                push_tag(&mut items, "\n      <groupId>", d.module.org.as_str(), "</groupId>");
                push_tag(&mut items, "\n      <artifactId>", d.module.name.as_str(), "</artifactId>");
                push_tag(&mut items, "\n      <version>", d.version.as_str(), "</version>");
                push_opt_tag(&mut items, "\n      <classifier>", &d.classifier, "</classifier>");
                items.append("\n    </dependency>");
                assert(items@ =~= before + dependency_item(d@));
                n += 1;
            },
            Err(_) => {},
        }
        i += 1;
    }
    assert(dv.take(deps.len() as int) =~= dv);
    if n == 0 {
        return String::new();
    }
    let mut out = "\n  <dependencies>".to_owned();
    out.append(items.as_str());
    out.append("\n  </dependencies>");
    out
}

/// The POM of a published artifact: coordinates, packaging `jar`, name
/// (the artifact id unless given), then description, URL, licenses,
/// developers, SCM and dependencies where there are any.
pub open spec fn pom_xml(d: PublishDescriptor) -> Seq<char> {
    "<?xml version=\"1.0\" encoding=\"UTF-8\"?>\n<project xmlns=\"http://maven.apache.org/POM/4.0.0\" xmlns:xsi=\"http://www.w3.org/2001/XMLSchema-instance\" xsi:schemaLocation=\"http://maven.apache.org/POM/4.0.0 https://maven.apache.org/xsd/maven-4.0.0.xsd\">\n  <modelVersion>4.0.0</modelVersion>\n  <groupId>"@
        + xml_escaped(d.coordinates.group@) + "</groupId>\n  <artifactId>"@ + xml_escaped(
        d.coordinates.id@,
    ) + "</artifactId>\n  <version>"@ + xml_escaped(d.coordinates.version@)
        + "</version>\n  <packaging>jar</packaging>\n  <name>"@ + xml_escaped(
        match d.name {
            Some(n) => n@,
            None => d.coordinates.id@,
        },
    ) + "</name>"@ + opt_tag("\n  <description>"@, opt_view(d.description), "</description>"@)
        + opt_tag("\n  <url>"@, opt_view(d.url), "</url>"@) + licenses_xml(d.licenses@)
        + developers_xml(d.developers@) + match d.scm {
        Some(s) => scm_xml(s),
        None => Seq::empty(),
    } + dependencies_xml(str_views(d.deps@)) + "\n</project>\n"@
}

/// Writes the POM of a published artifact.
pub fn render_pom(descriptor: &PublishDescriptor) -> (r: String)
    ensures
        r@ == pom_xml(*descriptor),
{
    let mut out = "<?xml version=\"1.0\" encoding=\"UTF-8\"?>\n<project xmlns=\"http://maven.apache.org/POM/4.0.0\" xmlns:xsi=\"http://www.w3.org/2001/XMLSchema-instance\" xsi:schemaLocation=\"http://maven.apache.org/POM/4.0.0 https://maven.apache.org/xsd/maven-4.0.0.xsd\">\n  <modelVersion>4.0.0</modelVersion>\n  <groupId>".to_owned();
    let c = &descriptor.coordinates;
    let e = xml_escape(c.group.as_str());
    out.append(e.as_str());
    out.append("</groupId>\n  <artifactId>");
    let e = xml_escape(c.id.as_str());
    out.append(e.as_str());
    out.append("</artifactId>\n  <version>");
    let e = xml_escape(c.version.as_str());
    out.append(e.as_str());
    out.append("</version>\n  <packaging>jar</packaging>\n  <name>");
    let name: &str = match &descriptor.name {
        Some(n) => n.as_str(),
        None => c.id.as_str(),
    };
    let e = xml_escape(name);
    out.append(e.as_str());
    out.append("</name>");
    push_opt_tag(&mut out, "\n  <description>", &descriptor.description, "</description>");
    push_opt_tag(&mut out, "\n  <url>", &descriptor.url, "</url>");
    let l = render_pom_licenses(descriptor.licenses.as_slice());
    out.append(l.as_str());
    let d = render_pom_developers(descriptor.developers.as_slice());
    out.append(d.as_str());
    match &descriptor.scm {
        Some(scm) => {
            let s = render_pom_scm(scm);
            out.append(s.as_str());
        },
        None => {},
    }
    let deps = render_pom_dependencies(descriptor.deps.as_slice());
    out.append(deps.as_str());
    out.append("\n</project>\n");
    assert(out@ =~= pom_xml(*descriptor));
    out
}

/// The versions of a `maven-metadata.xml`, one element each.
pub open spec fn version_items(vs: Seq<Seq<char>>) -> Seq<char>
    decreases vs.len(),
{
    if vs.len() == 0 {
        Seq::empty()
    } else {
        version_items(vs.drop_last()) + tag_text("\n      <version>"@, vs.last(), "</version>"@)
    }
}

/// The `maven-metadata.xml` of a published artifact: its coordinates, the
/// published version as latest and release, the versions, and when it was
/// last updated.
pub open spec fn maven_metadata_xml(
    d: PublishDescriptor,
    versions: Seq<Seq<char>>,
    last_updated: Seq<char>,
) -> Seq<char> {
    "<?xml version=\"1.0\" encoding=\"UTF-8\"?>\n<metadata>\n  <groupId>"@ + xml_escaped(d.coordinates.group@)
        + "</groupId>\n  <artifactId>"@ + xml_escaped(d.coordinates.id@)
        + "</artifactId>\n  <versioning>\n    <latest>"@ + xml_escaped(d.coordinates.version@)
        + "</latest>\n    <release>"@ + xml_escaped(d.coordinates.version@)
        + "</release>\n    <versions>"@ + version_items(versions)
        + "\n    </versions>\n    <lastUpdated>"@ + last_updated
        + "</lastUpdated>\n  </versioning>\n</metadata>\n"@
}

/// Writes the `maven-metadata.xml` of a published artifact.
pub fn render_maven_metadata(descriptor: &PublishDescriptor, versions: &[String], last_updated: &str) -> (r:
    String)
    ensures
        r@ == maven_metadata_xml(*descriptor, str_views(versions@), last_updated@),
{
    let c = &descriptor.coordinates;
    let mut out = "<?xml version=\"1.0\" encoding=\"UTF-8\"?>\n<metadata>\n  <groupId>".to_owned();
    let e = xml_escape(c.group.as_str());
    out.append(e.as_str());
    out.append("</groupId>\n  <artifactId>");
    let e = xml_escape(c.id.as_str());
    out.append(e.as_str());
    out.append("</artifactId>\n  <versioning>\n    <latest>");
    let v = xml_escape(c.version.as_str());
    out.append(v.as_str());
    out.append("</latest>\n    <release>");
    out.append(v.as_str());
    out.append("</release>\n    <versions>");
    let ghost o = out@;
    let ghost vv = str_views(versions@);
    let mut i: usize = 0;
    while i < versions.len()
        invariant
            vv == str_views(versions@),
            i <= versions.len(),
            out@ == o + version_items(vv.take(i as int)),
        decreases versions.len() - i,
    {
        assert(vv.take(i + 1).drop_last() =~= vv.take(i as int));
        assert(vv.take(i + 1).last() == versions@[i as int]@);
        push_tag(&mut out, "\n      <version>", versions[i].as_str(), "</version>");
        assert(out@ =~= o + version_items(vv.take(i + 1)));
        i += 1;
    }
    assert(vv.take(versions.len() as int) =~= vv);
    out.append("\n    </versions>\n    <lastUpdated>");
    out.append(last_updated);
    out.append("</lastUpdated>\n  </versioning>\n</metadata>\n");
    assert(out@ =~= maven_metadata_xml(*descriptor, vv, last_updated@));
    out
}

} // verus!
