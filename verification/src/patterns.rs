//! Regular expressions.
use vstd::prelude::*;
use vstd::string::*;

verus! {

/// `regex::Regex`: a compiled regular expression.
#[verifier::external_type_specification]
#[verifier::external_body]
pub struct ExRegex(regex::Regex);

/// The pattern that a regular expression was compiled from.
pub uninterp spec fn pattern_of(re: regex::Regex) -> Seq<char>;

/// Whether a pattern is a regular expression that `regex` compiles.
pub uninterp spec fn compiles(pattern: Seq<char>) -> bool;

/// Whether a pattern matches somewhere in a text.
pub uninterp spec fn matches_in(pattern: Seq<char>, text: Seq<char>) -> bool;

/// A text with every match of a pattern replaced.
pub uninterp spec fn replaced(pattern: Seq<char>, text: Seq<char>, with: Seq<char>) -> Seq<char>;

/// The matches of a pattern in a text: for each, what its groups matched, the
/// whole match being the first group.
pub uninterp spec fn captures(pattern: Seq<char>, text: Seq<char>) -> Seq<Seq<Option<Seq<char>>>>;

/// What stands before, between and after the matches of a pattern in a text.
pub uninterp spec fn gaps(pattern: Seq<char>, text: Seq<char>) -> Seq<Seq<char>>;

/// The whole matches of a pattern in a text.
pub open spec fn matches_of(pattern: Seq<char>, text: Seq<char>) -> Seq<Seq<char>> {
    captures(pattern, text).map_values(|groups: Seq<Option<Seq<char>>>| groups[0]->0)
}

/// The gaps with one part in each place between two of them.
pub open spec fn woven(between: Seq<Seq<char>>, parts: Seq<Seq<char>>) -> Seq<char>
    decreases parts.len(),
{
    if parts.len() == 0 {
        between[0]
    } else {
        woven(between, parts.drop_last()) + parts.last() + between[parts.len() as int]
    }
}

pub open spec fn string_views(texts: Seq<String>) -> Seq<Seq<char>> {
    texts.map_values(|s: String| s@)
}

pub open spec fn group_view(group: Option<String>) -> Option<Seq<char>> {
    match group {
        Some(s) => Some(s@),
        None => None,
    }
}

pub open spec fn group_views(groups: Seq<Option<String>>) -> Seq<Option<Seq<char>>> {
    groups.map_values(|g: Option<String>| group_view(g))
}

pub open spec fn capture_views(found: Seq<Vec<Option<String>>>) -> Seq<Seq<Option<Seq<char>>>> {
    found.map_values(|groups: Vec<Option<String>>| group_views(groups@))
}

/// Calls `Regex::new`. Whether it compiles depends on the pattern alone.
#[verifier::external_body]
pub(crate) fn compile(pattern: &str) -> (r: Option<regex::Regex>)
    ensures
        r is Some <==> compiles(pattern@),
        r matches Some(re) ==> pattern_of(re) == pattern@,
{
    regex::Regex::new(pattern).ok()
}

/// Calls `Regex::is_match`.
#[verifier::external_body]
pub(crate) fn is_match(re: &regex::Regex, text: &str) -> (r: bool)
    ensures
        r == matches_in(pattern_of(*re), text@),
{
    re.is_match(text)
}

/// Calls `Regex::replace_all` with a text for the replacement, in which `$1`
/// stands for what the first group matched.
#[verifier::external_body]
pub(crate) fn replace_all(re: &regex::Regex, text: &str, with: &str) -> (r: String)
    ensures
        r@ == replaced(pattern_of(*re), text@, with@),
{
    re.replace_all(text, with).into_owned()
}

/// Calls `Regex::captures_iter`. The first group, which is the whole match,
/// takes part in every match.
#[verifier::external_body]
pub(crate) fn find_captures(re: &regex::Regex, text: &str) -> (r: Vec<Vec<Option<String>>>)
    ensures
        capture_views(r@) == captures(pattern_of(*re), text@),
        forall|i: int|
            0 <= i < r@.len() ==> (#[trigger] r@[i])@.len() > 0 && r@[i]@[0] is Some,
{
    re.captures_iter(text)
        .map(|c| c.iter().map(|g| g.map(|m| m.as_str().to_string())).collect())
        .collect()
}

/// Calls `Regex::split`, which gives the substrings of the text that the
/// matches leave: one more than there are matches. With the matches between
/// them they make the text.
#[verifier::external_body]
pub(crate) fn split(re: &regex::Regex, text: &str) -> (r: Vec<String>)
    ensures
        string_views(r@) == gaps(pattern_of(*re), text@),
        r@.len() == captures(pattern_of(*re), text@).len() + 1,
        woven(string_views(r@), matches_of(pattern_of(*re), text@)) == text@,
{
    re.split(text).map(|s| s.to_string()).collect()
}

} // verus!
