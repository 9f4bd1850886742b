//! Regular-expression matching, done by the `regex` crate.
use vstd::prelude::*;

verus! {

/// What searching `text` for `pattern` gives: `None` when the pattern does
/// not compile, otherwise whether it matches somewhere in the text.
pub uninterp spec fn regex_search(pattern: Seq<char>, text: Seq<char>) -> Option<bool>;

/// Relies on `regex::Regex::new`, which fails on an invalid pattern, and on
/// `Regex::is_match`, which tells whether the pattern matches anywhere in
/// the text.
#[verifier::external_body]
pub(crate) fn regex_is_match(pattern: &str, text: &str) -> (r: Option<bool>)
    ensures
        r == regex_search(pattern@, text@),
{
    regex::Regex::new(pattern).ok().map(|re| re.is_match(text))
}

/// `pattern` made to match only the whole text.
pub open spec fn anchored(pattern: Seq<char>) -> Seq<char> {
    seq!['^', '(', '?', ':'] + pattern + seq![')', '$']
}

/// Whether `pattern` compiles: compiling does not depend on the text.
pub open spec fn compiles(pattern: Seq<char>) -> bool {
    regex_search(pattern, Seq::empty()) is Some
}

/// Whether `text` as a whole matches `pattern`; a pattern that does not
/// compile on its own matches nothing.
pub open spec fn full_match(pattern: Seq<char>, text: Seq<char>) -> bool {
    compiles(pattern) && regex_search(anchored(pattern), text) == Some(true)
}

/// Whether `pattern` compiles.
pub fn pattern_compiles(pattern: &str) -> (r: bool)
    ensures
        r == compiles(pattern@),
{
    let empty: Vec<char> = Vec::new();
    let nothing = crate::text::string_of(&empty);
    regex_is_match(pattern, nothing.as_str()).is_some()
}

/// `pattern` made to match only the whole text.
pub fn anchor(pattern: &str) -> (r: String)
    ensures
        r@ == anchored(pattern@),
{
    let mut cs: Vec<char> = vec!['^', '(', '?', ':'];
    let mut body = crate::text::chars_of(pattern);
    cs.append(&mut body);
    cs.push(')');
    cs.push('$');
    assert(cs@ =~= anchored(pattern@));
    crate::text::string_of(&cs)
}

/// Whether `pattern` can serve for whole-text matching: it compiles alone
/// and once anchored (a trailing comment in verbose mode, for one, would
/// swallow the anchor).
pub open spec fn usable(pattern: Seq<char>) -> bool {
    compiles(pattern) && compiles(anchored(pattern))
}

/// Whether `pattern` can serve for whole-text matching.
pub fn pattern_usable(pattern: &str) -> (r: bool)
    ensures
        r == usable(pattern@),
{
    pattern_compiles(pattern) && pattern_compiles(anchor(pattern).as_str())
}

/// Whether `text` as a whole matches `pattern`.
pub fn matches_whole(pattern: &String, text: &String) -> (r: bool)
    ensures
        r == full_match(pattern@, text@),
{
    if !pattern_compiles(pattern.as_str()) {
        return false;
    }
    let anchored_pattern = anchor(pattern.as_str());
    match regex_is_match(anchored_pattern.as_str(), text.as_str()) {
        Some(found) => found,
        None => false,
    }
}

} // verus!
