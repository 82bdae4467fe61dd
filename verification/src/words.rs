//! Splitting a line into words as a shell would, done by the `shell_words`
//! crate.

use crate::text::views;
use vstd::prelude::*;

verus! {

/// The error of `shell_words::split`.
#[verifier::external_type_specification]
#[verifier::external_body]
pub struct ExParseError(shell_words::ParseError);

/// The words that `shell_words::split` makes of a line, or nothing where
/// the line has a quote that is not closed.
pub uninterp spec fn shell_words_of(line: Seq<char>) -> Option<Seq<Seq<char>>>;

/// `shell_words::split`: the words of `line`, which depend on its
/// characters alone; the error where a quote is not closed.
#[verifier::external_body]
pub(crate) fn split_words(line: &str) -> (r: Result<Vec<String>, shell_words::ParseError>)
    ensures
        match r {
            Ok(words) => shell_words_of(line@) == Some(views(words@)),
            Err(_) => shell_words_of(line@) is None,
        },
{
    shell_words::split(line)
}

/// What `shell_words::ParseError` says of itself.
pub const UNCLOSED_QUOTE: &'static str = "missing closing quote";

/// The `Display` text of `shell_words::ParseError`, which is the same for
/// every such error.
#[verifier::external_body]
pub(crate) fn parse_error_text(error: &shell_words::ParseError) -> (r: String)
    ensures
        r@ == UNCLOSED_QUOTE@,
{
    error.to_string()
}

} // verus!
