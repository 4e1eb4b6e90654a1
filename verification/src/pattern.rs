//! Searching a text with a regular expression.

use vstd::prelude::*;
use crate::text::opt_string_chars;

verus! {

/// What the group named `group` holds in the first match of the regular
/// expression `pattern` in `text`; `None` where `text` has no match, where the
/// group took no part in it, or where `pattern` gives no regular expression.
pub uninterp spec fn captured(pattern: Seq<char>, group: Seq<char>, text: Seq<char>) -> Option<
    Seq<char>,
>;

/// Searches `text` with `regex::Regex::captures`, on the expression that
/// `regex::Regex::new` makes of `pattern`, and copies what the group named
/// `group` matched. The contract only gives the result its name: it is the
/// same for the same three texts.
#[verifier::external_body]
pub(crate) fn capture_group(pattern: &str, group: &str, text: &str) -> (found: Option<String>)
    ensures
        opt_string_chars(found) == captured(pattern@, group@, text@),
{
    let expression = match regex::Regex::new(pattern) {
        Ok(expression) => expression,
        Err(_) => return None,
    };
    let captures = expression.captures(text)?;
    let found = captures.name(group)?;
    Some(found.as_str().to_string())
}

} // verus!
