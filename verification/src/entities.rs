//! HTML character references, through the `htmlize` crate.

use vstd::prelude::*;

verus! {

/// What `htmlize::unescape` makes of `input`: every valid named or numeric
/// character reference expanded, by the HTML5 rules for text outside
/// attributes.
pub uninterp spec fn html_unescape(input: Seq<char>) -> Seq<char>;

/// `htmlize::escape_text` applied to one character.
pub open spec fn escape_char(c: char) -> Seq<char> {
    if c == '&' {
        seq!['&', 'a', 'm', 'p', ';']
    } else if c == '<' {
        seq!['&', 'l', 't', ';']
    } else if c == '>' {
        seq!['&', 'g', 't', ';']
    } else {
        seq![c]
    }
}

/// `htmlize::escape_text`: `&`, `<` and `>` replaced by `&amp;`, `&lt;`
/// and `&gt;`; every other character kept.
pub open spec fn escape_text(s: Seq<char>) -> Seq<char>
    decreases s.len(),
{
    if s.len() == 0 {
        seq![]
    } else {
        escape_text(s.drop_last()) + escape_char(s.last())
    }
}

/// Decodes HTML entities (`&gt;`, `&mdash;`, numeric references, ...) with
/// the full entity table of `htmlize::unescape`.  The claim: the result is
/// the name `html_unescape` of the input, and text without `&` comes back
/// unchanged (`htmlize` only looks for references at `&`, and returns its
/// input when it expands none).
#[verifier::external_body]
pub fn decode_html_entities(input: &str) -> (res: String)
    ensures
        res@ == html_unescape(input@),
        !input@.contains('&') ==> res@ == input@,
{
    htmlize::unescape(input).into_owned()
}

/// Escapes text for an HTML text node with `htmlize::escape_text`.  The
/// claim: the result is `escape_text` of the input, as the crate's
/// documentation and source state it.
#[verifier::external_body]
pub fn escape_html(s: &str) -> (res: String)
    ensures
        res@ == escape_text(s@),
{
    htmlize::escape_text(s).into_owned()
}

} // verus!
