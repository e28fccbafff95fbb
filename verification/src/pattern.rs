//! Regular expressions of the `regex` crate, as the parsers of this crate
//! use them: the groups of every match, whether a text matches, and
//! replacing every match.
use vstd::prelude::*;
use crate::resolver::opt_view;

verus! {

/// The first and second group of each match of `pattern` in `text`, in
/// order (`Regex::captures_iter`); no matches when `pattern` does not
/// compile.
pub uninterp spec fn regex_groups(pattern: Seq<char>, text: Seq<char>) -> Seq<
    (Option<Seq<char>>, Option<Seq<char>>),
>;

/// `Regex::new` and `Regex::captures_iter` (crate `regex`): the first and
/// second group of each match, in order. The result is named
/// `regex_groups(pattern, text)`.
#[verifier::external_body]
pub(crate) fn capture_groups(pattern: &str, text: &str) -> (r: Vec<(Option<String>, Option<String>)>)
    ensures
        r@.map_values(|c: (Option<String>, Option<String>)| (opt_view(c.0), opt_view(c.1)))
            == regex_groups(pattern@, text@),
{
    match regex::Regex::new(pattern) {
        Ok(re) => re.captures_iter(text).map(
            |c| (c.get(1).map(|m| m.as_str().to_owned()), c.get(2).map(|m| m.as_str().to_owned())),
        ).collect(),
        Err(_) => Vec::new(),
    }
}

/// Whether `pattern` matches somewhere in `text` (`Regex::is_match`); false
/// when `pattern` does not compile.
pub uninterp spec fn regex_matches(pattern: Seq<char>, text: Seq<char>) -> bool;

/// `Regex::new` and `Regex::is_match` (crate `regex`). The result is named
/// `regex_matches(pattern, text)`.
#[verifier::external_body]
pub(crate) fn is_match(pattern: &str, text: &str) -> (r: bool)
    ensures
        r == regex_matches(pattern@, text@),
{
    match regex::Regex::new(pattern) {
        Ok(re) => re.is_match(text),
        Err(_) => false,
    }
}

/// `text` with every match of `pattern` replaced by `with`
/// (`Regex::replace_all`); unchanged when `pattern` does not compile.
pub uninterp spec fn regex_replaced(pattern: Seq<char>, text: Seq<char>, with: Seq<char>) -> Seq<
    char,
>;

/// `Regex::new` and `Regex::replace_all` (crate `regex`). The result is
/// named `regex_replaced(pattern, text, with)`.
#[verifier::external_body]
pub(crate) fn replace_all_matches(pattern: &str, text: &str, with: &str) -> (r: String)
    ensures
        r@ == regex_replaced(pattern@, text@, with@),
{
    match regex::Regex::new(pattern) {
        Ok(re) => re.replace_all(text, with).into_owned(),
        Err(_) => text.to_owned(),
    }
}

} // verus!
