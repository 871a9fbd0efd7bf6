//! Scanning text with regular expressions.

use vstd::prelude::*;

verus! {

/// The successive matches of a regular expression in a text, in the order
/// in which they stand there. `None` where the pattern is no regular
/// expression.
pub uninterp spec fn regex_matches(pattern: Seq<char>, text: Seq<char>) -> Option<Seq<Seq<char>>>;

/// Whether a regular expression matches somewhere in a text. `None` where
/// the pattern is no regular expression.
pub uninterp spec fn regex_holds(pattern: Seq<char>, text: Seq<char>) -> Option<bool>;

/// The texts of the pieces that a scan handed out.
pub open spec fn texts(r: Option<Vec<String>>) -> Option<Seq<Seq<char>>> {
    match r {
        Some(pieces) => Some(piece_texts(pieces@)),
        None => None,
    }
}

/// The texts of a sequence of strings.
pub open spec fn piece_texts(pieces: Seq<String>) -> Seq<Seq<char>> {
    Seq::new(pieces.len(), |i: int| pieces[i]@)
}

/// `regex::Regex::new` on the pattern, then `Regex::find_iter` on the text:
/// the pieces of the text that the successive non-overlapping matches cover,
/// or `None` where the pattern does not compile. The contract only names the
/// result; which pieces match is the regex crate's business.
#[verifier::external_body]
pub(crate) fn find_all(pattern: &str, text: &str) -> (r: Option<Vec<String>>)
    ensures
        texts(r) == regex_matches(pattern@, text@),
{
    match regex::Regex::new(pattern) {
        Ok(re) => Some(re.find_iter(text).map(|m| m.as_str().to_string()).collect()),
        Err(_) => None,
    }
}

/// `regex::Regex::new` on the pattern, then `Regex::is_match` on the text,
/// or `None` where the pattern does not compile. The contract only names the
/// result.
#[verifier::external_body]
pub(crate) fn is_match(pattern: &str, text: &str) -> (r: Option<bool>)
    ensures
        r == regex_holds(pattern@, text@),
{
    match regex::Regex::new(pattern) {
        Ok(re) => Some(re.is_match(text)),
        Err(_) => None,
    }
}

} // verus!
