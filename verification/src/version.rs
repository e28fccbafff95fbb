//! Maven version ordering: the comparison used to pick between conflicting
//! versions, to find the highest published version and to select a version
//! from a range such as `[1.80,1.81)`.
use vstd::prelude::*;
use crate::text::{
    slice_chars, split_first, split_first_char, trim, trim_chars, chars_eq, chars_lt, chars_of, ends_with, has_prefix, has_suffix, lowercase, parse_decimal,
    parse_unsigned, seq_lt, split_chars, split_on, starts_with, str_eq, string_of, to_lowercase,
    views,
};

verus! {

/// The characters that separate the parts of a version.
pub open spec fn version_seps() -> Seq<char> {
    seq!['.', '-']
}

/// The parts of a version: its pieces between `.` and `-`.
pub open spec fn version_parts(v: Seq<char>) -> Seq<Seq<char>> {
    split_on(v, version_seps())
}

/// The maturity rank of a lower-cased version part: snapshots lowest, then
/// alpha, beta, milestone, release candidate; everything else ranks as a release.
pub open spec fn qualifier_rank(lower: Seq<char>) -> u32 {
    if lower == "snapshot"@ || has_suffix(lower, "-snapshot"@) {
        0
    } else if has_prefix(lower, "alpha"@) || lower == "a"@ {
        1
    } else if has_prefix(lower, "beta"@) || lower == "b"@ {
        2
    } else if has_prefix(lower, "milestone"@) || lower == "m"@ {
        3
    } else if has_prefix(lower, "rc"@) || has_prefix(lower, "cr"@) {
        4
    } else {
        10
    }
}

/// The maturity rank of a version part, compared case-insensitively.
pub open spec fn qualifier_order_spec(part: Seq<char>) -> u32 {
    qualifier_rank(lowercase(part))
}

/// How two parts at the same position compare: `1` when the first wins,
/// `-1` when the second wins, `0` when they tie. Parts of different maturity
/// compare by maturity; parts that both parse as `u64` compare numerically;
/// other parts compare lexicographically.
pub open spec fn part_decision(sa: Seq<char>, sb: Seq<char>) -> int {
    let oa = qualifier_order_spec(sa);
    let ob = qualifier_order_spec(sb);
    if oa != ob {
        if oa > ob {
            1
        } else {
            -1
        }
    } else {
        match (parse_unsigned(sa, u64::MAX as nat), parse_unsigned(sb, u64::MAX as nat)) {
            (Some(na), Some(nb)) => if na > nb {
                1
            } else if nb > na {
                -1
            } else {
                0
            },
            _ => if seq_lt(sb, sa) {
                1
            } else if seq_lt(sa, sb) {
                -1
            } else {
                0
            },
        }
    }
}

/// The first non-tie among the parts at positions `i`, `i + 1`, … that both
/// versions have.
pub open spec fn first_decision(pa: Seq<Seq<char>>, pb: Seq<Seq<char>>, i: int) -> int
    decreases pa.len() - i,
{
    if i < 0 || i >= pa.len() || i >= pb.len() {
        0
    } else {
        let d = part_decision(pa[i], pb[i]);
        if d != 0 {
            d
        } else {
            first_decision(pa, pb, i + 1)
        }
    }
}

/// The higher of two versions. The first position where the parts differ
/// decides; when all shared parts tie, an extra part on one side wins if it is
/// release-like and loses if it is a pre-release qualifier; otherwise the
/// version with more parts (or `a`) is taken.
pub open spec fn higher_version(a: Seq<char>, b: Seq<char>) -> Seq<char> {
    if a == b {
        a
    } else {
        let pa = version_parts(a);
        let pb = version_parts(b);
        let d = first_decision(pa, pb, 0);
        if d == 1 {
            a
        } else if d == -1 {
            b
        } else if pb.len() < pa.len() {
            if qualifier_order_spec(pa[pb.len() as int]) >= 10 {
                a
            } else {
                b
            }
        } else if pa.len() < pb.len() {
            if qualifier_order_spec(pb[pa.len() as int]) >= 10 {
                b
            } else {
                a
            }
        } else {
            a
        }
    }
}

/// The order of two versions induced by `higher_version`: `0` when equal,
/// `1` when `a` is higher, `-1` when `b` is higher.
pub open spec fn version_order(a: Seq<char>, b: Seq<char>) -> int {
    if a == b {
        0
    } else if higher_version(a, b) == a {
        1
    } else {
        -1
    }
}

/// Whether `s` is one of the characters of `lit`'s view.
fn is_lit(s: &[char], lit: &str) -> (r: bool)
    ensures
        r == (s@ == lit@),
{
    let l = chars_of(lit);
    chars_eq(s, l.as_slice())
}

fn starts_lit(s: &[char], lit: &str) -> (r: bool)
    ensures
        r == has_prefix(s@, lit@),
{
    let l = chars_of(lit);
    starts_with(s, l.as_slice())
}

fn ends_lit(s: &[char], lit: &str) -> (r: bool)
    ensures
        r == has_suffix(s@, lit@),
{
    let l = chars_of(lit);
    ends_with(s, l.as_slice())
}

/// The maturity rank of a version part.
pub fn qualifier_order(part: &str) -> (r: u32)
    ensures
        r == qualifier_order_spec(part@),
{
    let lower_s = to_lowercase(part);
    let lower = chars_of(lower_s.as_str());
    let l = lower.as_slice();
    if is_lit(l, "snapshot") || ends_lit(l, "-snapshot") {
        0
    } else if starts_lit(l, "alpha") || is_lit(l, "a") {
        1
    } else if starts_lit(l, "beta") || is_lit(l, "b") {
        2
    } else if starts_lit(l, "milestone") || is_lit(l, "m") {
        3
    } else if starts_lit(l, "rc") || starts_lit(l, "cr") {
        4
    } else {
        10
    }
}

/// The parts of a version.
pub fn parse_version_parts(v: &str) -> (r: Vec<Vec<char>>)
    ensures
        views(r@) == version_parts(v@),
{
    let c = chars_of(v);
    let seps = vec!['.', '-'];
    assert(seps@ =~= version_seps());
    split_chars(c.as_slice(), seps.as_slice())
}

fn decide_part(sa: &[char], sb: &[char]) -> (r: i8)
    ensures
        r as int == part_decision(sa@, sb@),
{
    let sa_s = string_of(sa);
    let sb_s = string_of(sb);
    let oa = qualifier_order(sa_s.as_str());
    let ob = qualifier_order(sb_s.as_str());
    if oa != ob {
        return if oa > ob {
            1
        } else {
            -1
        };
    }
    match (parse_decimal(sa, u64::MAX), parse_decimal(sb, u64::MAX)) {
        (Some(na), Some(nb)) => {
            if na > nb {
                1
            } else if nb > na {
                -1
            } else {
                0
            }
        },
        _ => {
            if chars_lt(sb, sa) {
                1
            } else if chars_lt(sa, sb) {
                -1
            } else {
                0
            }
        },
    }
}

/// The higher of two Maven versions.
pub fn pick_higher_version(a: &str, b: &str) -> (r: String)
    ensures
        r@ == higher_version(a@, b@),
{
    if str_eq(a, b) {
        return a.to_owned();
    }
    let pa = parse_version_parts(a);
    let pb = parse_version_parts(b);
    let ghost va = views(pa@);
    let ghost vb = views(pb@);
    let mut i: usize = 0;
    while i < pa.len() && i < pb.len()
        invariant
            a@ != b@,
            va == version_parts(a@),
            vb == version_parts(b@),
            va == views(pa@),
            vb == views(pb@),
            i <= pa.len(),
            i <= pb.len(),
            first_decision(va, vb, 0) == first_decision(va, vb, i as int),
        decreases pa.len() - i,
    {
        assert(va[i as int] == pa@[i as int]@ && vb[i as int] == pb@[i as int]@);
        let d = decide_part(pa[i].as_slice(), pb[i].as_slice());
        if d == 1 {
            return a.to_owned();
        } else if d == -1 {
            return b.to_owned();
        }
        i += 1;
    }
    assert(first_decision(va, vb, i as int) == 0);
    if pb.len() < pa.len() {
        assert(va[pb.len() as int] == pa@[pb.len() as int]@);
        let tail = string_of(pa[pb.len()].as_slice());
        if qualifier_order(tail.as_str()) >= 10 {
            a.to_owned()
        } else {
            b.to_owned()
        }
    } else if pa.len() < pb.len() {
        assert(vb[pa.len() as int] == pb@[pa.len() as int]@);
        let tail = string_of(pb[pa.len()].as_slice());
        if qualifier_order(tail.as_str()) >= 10 {
            b.to_owned()
        } else {
            a.to_owned()
        }
    } else {
        a.to_owned()
    }
}

/// Compares two Maven versions by `pick_higher_version`: `0` when equal, `1`
/// when `a` is higher, `-1` when `b` is higher.
pub fn compare_versions(a: &str, b: &str) -> (r: i8)
    ensures
        r as int == version_order(a@, b@),
{
    if str_eq(a, b) {
        return 0;
    }
    let h = pick_higher_version(a, b);
    if str_eq(h.as_str(), a) {
        1
    } else {
        -1
    }
}

/// `pick_higher_version` returns one of its two arguments.
pub proof fn lemma_higher_version_is_an_argument(a: Seq<char>, b: Seq<char>)
    ensures
        higher_version(a, b) == a || higher_version(a, b) == b,
{
}

/// Comparing two parts the other way round gives the opposite decision.
proof fn lemma_part_decision_antisymmetric(sa: Seq<char>, sb: Seq<char>)
    ensures
        part_decision(sb, sa) == -part_decision(sa, sb),
{
    if seq_lt(sa, sb) && seq_lt(sb, sa) {
        crate::text::lemma_seq_lt_transitive(sa, sb, sa);
        crate::text::lemma_seq_lt_irreflexive(sa);
    }
}

/// Comparing two lists of parts the other way round gives the opposite
/// decision.
proof fn lemma_first_decision_antisymmetric(pa: Seq<Seq<char>>, pb: Seq<Seq<char>>, i: int)
    ensures
        first_decision(pb, pa, i) == -first_decision(pa, pb, i),
    decreases pa.len() - i,
{
    if !(i < 0 || i >= pa.len() || i >= pb.len()) {
        lemma_part_decision_antisymmetric(pa[i], pb[i]);
        lemma_first_decision_antisymmetric(pa, pb, i + 1);
    }
}

proof fn lemma_first_decision_range(pa: Seq<Seq<char>>, pb: Seq<Seq<char>>, i: int)
    ensures
        -1 <= first_decision(pa, pb, i) <= 1,
    decreases pa.len() - i,
{
    if !(i < 0 || i >= pa.len() || i >= pb.len()) {
        lemma_first_decision_range(pa, pb, i + 1);
    }
}

/// Two different versions that no part tells apart and that have as many
/// parts: `pick_higher_version` then keeps the first one given.
pub open spec fn versions_tie(a: Seq<char>, b: Seq<char>) -> bool {
    a != b && first_decision(version_parts(a), version_parts(b), 0) == 0 && version_parts(a).len()
        == version_parts(b).len()
}

/// Which of two versions wins does not depend on the order in which they
/// are compared, unless they tie.
pub proof fn law_higher_version_commutes(a: Seq<char>, b: Seq<char>)
    requires
        !versions_tie(a, b),
    ensures
        higher_version(a, b) == higher_version(b, a),
{
    let pa = version_parts(a);
    let pb = version_parts(b);
    lemma_first_decision_antisymmetric(pa, pb, 0);
    lemma_first_decision_range(pa, pb, 0);
}

/// A strict win does not depend on the order of the arguments: where
/// `pick_higher_version(a, b)` is `b` for distinct versions,
/// `pick_higher_version(b, a)` is `b` too.
pub proof fn law_higher_version_strict_win(a: Seq<char>, b: Seq<char>)
    requires
        a != b,
        higher_version(a, b) == b,
    ensures
        higher_version(b, a) == b,
{
    lemma_first_decision_antisymmetric(version_parts(a), version_parts(b), 0);
}

/// A version compared with itself is equal, and `pick_higher_version` of a
/// version with itself returns it.
pub proof fn lemma_higher_version_reflexive(a: Seq<char>)
    ensures
        higher_version(a, a) == a,
        version_order(a, a) == 0,
{
}


/// The views of a sequence of strings.
pub open spec fn string_views(v: Seq<String>) -> Seq<Seq<char>> {
    v.map_values(|x: String| x@)
}

/// The highest of `vs` under `higher_version`, combined from left to right
/// (`Iterator::reduce`); `None` for no versions.
pub open spec fn highest_of(vs: Seq<Seq<char>>) -> Option<Seq<char>>
    decreases vs.len(),
{
    if vs.len() == 0 {
        None
    } else {
        match highest_of(vs.drop_last()) {
            None => Some(vs.last()),
            Some(p) => Some(higher_version(p, vs.last())),
        }
    }
}

/// The winner of two versions is at least each of them.
proof fn lemma_higher_at_least_both(a: Seq<char>, b: Seq<char>)
    ensures
        version_order(higher_version(a, b), a) != -1,
        version_order(higher_version(a, b), b) != -1,
{
    lemma_higher_version_is_an_argument(a, b);
    lemma_higher_version_reflexive(a);
    lemma_higher_version_reflexive(b);
    if a != b && higher_version(a, b) == b {
        law_higher_version_commutes(a, b);
    }
}

/// Adding a version to a list keeps the highest at least what it was, makes
/// it at least the added version, and picks one of the two.
pub proof fn law_highest_grows(vs: Seq<Seq<char>>, x: Seq<char>)
    ensures
        highest_of(vs.push(x)) matches Some(h) && (h == x || highest_of(vs) == Some(h)) && version_order(
            h,
            x,
        ) != -1 && (highest_of(vs) matches Some(p) ==> version_order(h, p) != -1),
{
    assert(vs.push(x).drop_last() =~= vs);
    lemma_higher_version_reflexive(x);
    match highest_of(vs) {
        Some(p) => {
            lemma_higher_at_least_both(p, x);
            lemma_higher_version_is_an_argument(p, x);
        },
        None => {},
    }
}

/// A range selection, as versions are listed one after another: a version
/// outside the range changes nothing; one inside makes the selection at
/// least that version and at least the selection before it.
pub proof fn law_range_selection_grows(range: Seq<char>, vs: Seq<Seq<char>>, x: Seq<char>)
    requires
        range_bounds(range) is Some,
    ensures
        !in_bounds(x, range_bounds(range)->Some_0) ==> select_from_range(range, vs.push(x))
            == select_from_range(range, vs),
        in_bounds(x, range_bounds(range)->Some_0) ==> (select_from_range(range, vs.push(x)) matches Some(h)
            && version_order(h, x) != -1 && (select_from_range(range, vs) matches Some(p)
            ==> version_order(h, p) != -1)),
{
    let b = range_bounds(range)->Some_0;
    assert(vs.push(x).drop_last() =~= vs);
    law_highest_grows(within(vs, b), x);
}

/// The bounds of a version range.
pub struct SpecBounds {
    pub include_lower: bool,
    pub include_upper: bool,
    pub lower: Option<Seq<char>>,
    pub upper: Option<Seq<char>>,
}

/// `None` for an empty text, the text otherwise.
pub open spec fn none_if_empty(s: Seq<char>) -> Option<Seq<char>> {
    if s.len() == 0 {
        None
    } else {
        Some(s)
    }
}

/// `version` has the shape of a range: it opens with `[` or `(` and closes
/// with `]` or `)`.
pub open spec fn is_range_spec(v: Seq<char>) -> bool {
    v.len() > 0 && (v[0] == '[' || v[0] == '(') && (v.last() == ']' || v.last() == ')')
}

/// The bounds that a range denotes: `[` and `]` include their bound, `(` and
/// `)` exclude it; the bounds are separated by the first comma and trimmed, an
/// empty bound is open; a range without a comma, such as `[1.2.3]`, has the
/// same text as both bounds.
pub open spec fn range_bounds(range: Seq<char>) -> Option<SpecBounds> {
    if range.len() >= 2 && (range[0] == '[' || range[0] == '(') && (range.last() == ']'
        || range.last() == ')') {
        let body = range.subrange(1, range.len() - 1);
        let (lower, upper) = match split_first(body, ',') {
            Some((l, u)) => (none_if_empty(trim(l)), none_if_empty(trim(u))),
            None => (none_if_empty(trim(body)), none_if_empty(trim(body))),
        };
        Some(
            SpecBounds {
                include_lower: range[0] == '[',
                include_upper: range.last() == ']',
                lower,
                upper,
            },
        )
    } else {
        None
    }
}

/// `v` lies within the bounds `b`.
pub open spec fn in_bounds(v: Seq<char>, b: SpecBounds) -> bool {
    (match b.lower {
        None => true,
        Some(lo) => if b.include_lower {
            version_order(v, lo) != -1
        } else {
            version_order(v, lo) == 1
        },
    }) && (match b.upper {
        None => true,
        Some(hi) => if b.include_upper {
            version_order(v, hi) != 1
        } else {
            version_order(v, hi) == -1
        },
    })
}

/// The versions of `vs` that lie within `b`, in their order.
pub open spec fn within(vs: Seq<Seq<char>>, b: SpecBounds) -> Seq<Seq<char>>
    decreases vs.len(),
{
    if vs.len() == 0 {
        Seq::<Seq<char>>::empty()
    } else {
        let p = within(vs.drop_last(), b);
        if in_bounds(vs.last(), b) {
            p.push(vs.last())
        } else {
            p
        }
    }
}

/// The version that a range selects from the published versions: the highest
/// of those within its bounds.
pub open spec fn select_from_range(range: Seq<char>, vs: Seq<Seq<char>>) -> Option<Seq<char>> {
    match range_bounds(range) {
        None => None,
        Some(b) => highest_of(within(vs, b)),
    }
}

/// The highest of the given versions.
pub fn highest_version(versions: &[String]) -> (r: Option<String>)
    ensures
        match highest_of(string_views(versions@)) {
            None => r is None,
            Some(h) => r matches Some(x) && x@ == h,
        },
{
    let ghost vs = string_views(versions@);
    let mut best: Option<String> = None;
    let mut i: usize = 0;
    while i < versions.len()
        invariant
            vs == string_views(versions@),
            i <= versions.len(),
            match highest_of(vs.take(i as int)) {
                None => best is None,
                Some(h) => best matches Some(x) && x@ == h,
            },
        decreases versions.len() - i,
    {
        proof {
            assert(vs.take(i + 1).drop_last() =~= vs.take(i as int));
            assert(vs.take(i + 1).last() == versions@[i as int]@);
        }
        let next = match &best {
            None => versions[i].clone(),
            Some(p) => pick_higher_version(p.as_str(), versions[i].as_str()),
        };
        best = Some(next);
        i += 1;
    }
    assert(vs.take(versions.len() as int) =~= vs);
    best
}

/// Whether a version text is a range.
pub fn is_version_range(version: &str) -> (r: bool)
    ensures
        r == is_range_spec(version@),
{
    let v = chars_of(version);
    if v.len() == 0 {
        return false;
    }
    (v[0] == '[' || v[0] == '(') && (v[v.len() - 1] == ']' || v[v.len() - 1] == ')')
}

/// `None` for an empty text, the text otherwise.
pub fn empty_to_none(value: String) -> (r: Option<String>)
    ensures
        match none_if_empty(value@) {
            None => r is None,
            Some(v) => r matches Some(x) && x@ == v,
        },
{
    if value.as_str().is_empty() {
        None
    } else {
        Some(value)
    }
}

fn satisfies_bound(
    version: &str,
    bound: &Option<String>,
    inclusive: bool,
    below: bool,
) -> (r: bool)
    ensures
        r == match bound {
            None => true,
            Some(x) => if below {
                if inclusive {
                    version_order(version@, x@) != 1
                } else {
                    version_order(version@, x@) == -1
                }
            } else {
                if inclusive {
                    version_order(version@, x@) != -1
                } else {
                    version_order(version@, x@) == 1
                }
            },
        },
{
    match bound {
        None => true,
        Some(x) => {
            let c = compare_versions(version, x.as_str());
            if c == 0 {
                inclusive
            } else if c == 1 {
                !below
            } else {
                below
            }
        },
    }
}

/// Selects the version that a Maven range such as `[1.80,1.81)` picks from the
/// published versions: the highest one within the bounds.
pub fn select_version_from_range(range: &str, versions: &[String]) -> (r: Option<String>)
    ensures
        match select_from_range(range@, string_views(versions@)) {
            None => r is None,
            Some(v) => r matches Some(x) && x@ == v,
        },
{
    let rc = chars_of(range);
    if rc.len() < 2 {
        return None;
    }
    let first = rc[0];
    let last = rc[rc.len() - 1];
    if !((first == '[' || first == '(') && (last == ']' || last == ')')) {
        return None;
    }
    let include_lower = first == '[';
    let include_upper = last == ']';
    let body = slice_chars(rc.as_slice(), 1, rc.len() - 1);
    let (lower, upper) = match split_first_char(body.as_slice(), ',') {
        Some((l, u)) => {
            let lt = trim_chars(l.as_slice());
            let ut = trim_chars(u.as_slice());
            (empty_to_none(string_of(lt.as_slice())), empty_to_none(string_of(ut.as_slice())))
        },
        None => {
            let bt = trim_chars(body.as_slice());
            (empty_to_none(string_of(bt.as_slice())), empty_to_none(string_of(bt.as_slice())))
        },
    };
    let ghost b = range_bounds(range@).unwrap();
    assert(b.lower == match lower {
        None => None::<Seq<char>>,
        Some(x) => Some(x@),
    });
    assert(b.upper == match upper {
        None => None::<Seq<char>>,
        Some(x) => Some(x@),
    });
    let ghost vs = string_views(versions@);
    let mut kept: Vec<String> = Vec::new();
    let mut i: usize = 0;
    while i < versions.len()
        invariant
            vs == string_views(versions@),
            i <= versions.len(),
            string_views(kept@) == within(vs.take(i as int), b),
            b.include_lower == include_lower,
            b.include_upper == include_upper,
            b.lower == match lower {
                None => None::<Seq<char>>,
                Some(x) => Some(x@),
            },
            b.upper == match upper {
                None => None::<Seq<char>>,
                Some(x) => Some(x@),
            },
        decreases versions.len() - i,
    {
        proof {
            assert(vs.take(i + 1).drop_last() =~= vs.take(i as int));
            assert(vs.take(i + 1).last() == versions@[i as int]@);
        }
        let v = versions[i].as_str();
        let ok = satisfies_bound(v, &lower, include_lower, false) && satisfies_bound(
            v,
            &upper,
            include_upper,
            true,
        );
        if ok {
            let ghost before = string_views(kept@);
            kept.push(versions[i].clone());
            assert(string_views(kept@) =~= before.push(versions@[i as int]@));
        }
        i += 1;
    }
    assert(vs.take(versions.len() as int) =~= vs);
    highest_version(kept.as_slice())
}

} // verus!

verus! {

/// The highest of some versions is one of them, and there is one exactly when
/// the list is not empty.
pub proof fn law_highest_is_one_of(vs: Seq<Seq<char>>)
    ensures
        highest_of(vs) is Some <==> vs.len() > 0,
        highest_of(vs) matches Some(h) ==> vs.contains(h),
    decreases vs.len(),
{
    if vs.len() > 0 {
        law_highest_is_one_of(vs.drop_last());
        match highest_of(vs.drop_last()) {
            None => {
                assert(vs[vs.len() - 1] == vs.last());
            },
            Some(p) => {
                lemma_higher_version_is_an_argument(p, vs.last());
                let k = choose|k: int| 0 <= k < vs.drop_last().len() && vs.drop_last()[k] == p;
                assert(vs[k] == p);
                assert(vs[vs.len() - 1] == vs.last());
            },
        }
    }
}

/// Every version kept by `within` is one of the given versions and lies
/// within the bounds.
proof fn lemma_within(vs: Seq<Seq<char>>, b: SpecBounds)
    ensures
        forall|v: Seq<char>| within(vs, b).contains(v) ==> vs.contains(v) && in_bounds(v, b),
    decreases vs.len(),
{
    if vs.len() > 0 {
        lemma_within(vs.drop_last(), b);
        let p = within(vs.drop_last(), b);
        assert forall|v: Seq<char>| within(vs, b).contains(v) implies vs.contains(v) && in_bounds(
            v,
            b,
        ) by {
            let w = within(vs, b);
            let k = choose|k: int| 0 <= k < w.len() && w[k] == v;
            if k < p.len() {
                if in_bounds(vs.last(), b) {
                    assert(w == p.push(vs.last()));
                    assert(w[k] == p[k]);
                } else {
                    assert(w == p);
                }
                assert(p[k] == v);
                assert(p.contains(v));
                assert(vs.drop_last().contains(v));
                let j = choose|j: int| 0 <= j < vs.drop_last().len() && vs.drop_last()[j] == v;
                assert(vs[j] == v);
            } else {
                assert(v == vs.last());
                assert(vs[vs.len() - 1] == v);
            }
        }
    }
}

/// The version that a range selects is one of the published versions and lies
/// within the range's bounds; a range selects nothing only where no published
/// version lies within it (or the text is no range).
pub proof fn law_range_selection_within(range: Seq<char>, vs: Seq<Seq<char>>)
    ensures
        select_from_range(range, vs) matches Some(v) ==> vs.contains(v) && in_bounds(
            v,
            range_bounds(range).unwrap(),
        ),
        select_from_range(range, vs) is None ==> range_bounds(range) is None || (forall|v: Seq<
            char,
        >| vs.contains(v) ==> !in_bounds(v, range_bounds(range).unwrap())),
{
    if let Some(b) = range_bounds(range) {
        lemma_within(vs, b);
        law_highest_is_one_of(within(vs, b));
        lemma_within_complete(vs, b);
    }
}

/// A version within the bounds is kept by `within`.
proof fn lemma_within_complete(vs: Seq<Seq<char>>, b: SpecBounds)
    ensures
        forall|v: Seq<char>| vs.contains(v) && in_bounds(v, b) ==> within(vs, b).contains(v),
    decreases vs.len(),
{
    if vs.len() > 0 {
        lemma_within_complete(vs.drop_last(), b);
        let p = within(vs.drop_last(), b);
        assert forall|v: Seq<char>| vs.contains(v) && in_bounds(v, b) implies within(
            vs,
            b,
        ).contains(v) by {
            let k = choose|k: int| 0 <= k < vs.len() && vs[k] == v;
            if k < vs.len() - 1 {
                assert(vs.drop_last()[k] == v);
                assert(vs.drop_last().contains(v));
                let j = choose|j: int| 0 <= j < p.len() && p[j] == v;
                if in_bounds(vs.last(), b) {
                    assert(within(vs, b)[j] == v);
                }
            } else {
                assert(within(vs, b) == p.push(v));
                assert(within(vs, b)[p.len() as int] == v);
            }
        }
    }
}

} // verus!
