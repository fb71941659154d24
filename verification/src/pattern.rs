//! Regular-expression searches, made with the `regex` crate.
//!
//! Each search compiles its pattern with `regex::Regex::new`.  Positions are
//! byte offsets into the haystack; the library only compares them with
//! one another.  A pattern that does not compile finds no match.

use vstd::prelude::*;

verus! {

/// One capture group of a match: its start and end byte offsets and its text.
pub type Group = (usize, usize, String);

/// The abstract view of a group.
pub type GroupView = (usize, usize, Seq<char>);

/// What `Regex::captures_iter` yields for `pattern` on `haystack`: for each
/// successive non-overlapping match, leftmost first, the groups in the order
/// of their opening parenthesis (group 0 is the whole match), each absent
/// when it took no part in the match.
pub uninterp spec fn regex_captures(pattern: Seq<char>, haystack: Seq<char>) -> Seq<
    Seq<Option<GroupView>>,
>;

/// What `Regex::split` yields for `pattern` on `haystack`: the pieces of the
/// haystack between successive matches.
pub uninterp spec fn regex_split(pattern: Seq<char>, haystack: Seq<char>) -> Seq<Seq<char>>;

/// What `Regex::is_match` answers for `pattern` on `haystack`.
pub uninterp spec fn regex_is_match(pattern: Seq<char>, haystack: Seq<char>) -> bool;

/// The whole-match group of one set of captures.
pub open spec fn whole(c: Seq<Option<GroupView>>) -> GroupView {
    match c[0] {
        Some(g) => g,
        None => (0, 0, seq![]),
    }
}

/// The texts of the whole matches.
pub open spec fn match_texts(caps: Seq<Seq<Option<GroupView>>>) -> Seq<Seq<char>> {
    caps.map_values(|c: Seq<Option<GroupView>>| whole(c).2)
}

/// `gaps[0] + fills[0] + gaps[1] + ... + fills[n-1] + gaps[n]` where
/// `n == fills.len()`.
pub open spec fn interleave(gaps: Seq<Seq<char>>, fills: Seq<Seq<char>>) -> Seq<char>
    decreases fills.len(),
{
    if fills.len() == 0 {
        if gaps.len() > 0 {
            gaps[0]
        } else {
            seq![]
        }
    } else {
        interleave(gaps.take(fills.len() as int), fills.drop_last()) + fills.last() + gaps[fills.len()
            as int]
    }
}

/// `Regex::captures_iter` on `haystack` with the pattern `pattern`, each
/// group given as its byte offsets and its text.  The claim: the result is
/// the name `regex_captures` of the two arguments, and every set of
/// captures holds its group 0 (the regex documentation guarantees that
/// group 0 always participates).
#[verifier::external_body]
pub fn captures(pattern: &str, haystack: &str) -> (res: Vec<Vec<Option<Group>>>)
    ensures
        res.deep_view() == regex_captures(pattern@, haystack@),
        forall|i: int|
            0 <= i < res.len() ==> (#[trigger] res.deep_view()[i]).len() > 0 && res.deep_view()[i][0]
                is Some,
{
    match regex::Regex::new(pattern) {
        Ok(re) => re.captures_iter(haystack).map(|c| {
            c.iter().map(|g| g.map(|m| (m.start(), m.end(), m.as_str().to_string()))).collect()
        }).collect(),
        Err(_) => Vec::new(),
    }
}

/// `Regex::split` on `haystack` with the pattern `pattern`.  The claim: the
/// result is the name `regex_split` of the two arguments; there is one
/// piece more than there are matches; and the pieces with the matched texts
/// between them make up the haystack (the split iterator yields the text
/// from the end of one match to the start of the next, then the rest).
#[verifier::external_body]
pub fn split(pattern: &str, haystack: &str) -> (res: Vec<String>)
    ensures
        res.deep_view() == regex_split(pattern@, haystack@),
        res.len() == regex_captures(pattern@, haystack@).len() + 1,
        haystack@ == interleave(res.deep_view(), match_texts(regex_captures(pattern@, haystack@))),
{
    match regex::Regex::new(pattern) {
        Ok(re) => re.split(haystack).map(|s| s.to_string()).collect(),
        Err(_) => vec![haystack.to_string()],
    }
}

/// `Regex::is_match` on `haystack` with the pattern `pattern`.  The claim:
/// the result is the name `regex_is_match` of the two arguments.
#[verifier::external_body]
pub fn is_match(pattern: &str, haystack: &str) -> (res: bool)
    ensures
        res == regex_is_match(pattern@, haystack@),
{
    match regex::Regex::new(pattern) {
        Ok(re) => re.is_match(haystack),
        Err(_) => false,
    }
}

} // verus!
