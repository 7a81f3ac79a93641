//! Regular expressions of the schema, compiled and matched by the `regex` crate.

use vstd::prelude::*;

verus! {

/// The message with which `regex::Regex::new` refuses a pattern; `None` for a
/// pattern that it compiles.
pub uninterp spec fn pattern_error(pattern: Seq<char>) -> Option<Seq<char>>;

/// Whether the compiled pattern matches somewhere in the text, as
/// `regex::Regex::is_match` decides it.
pub uninterp spec fn pattern_matches(pattern: Seq<char>, text: Seq<char>) -> bool;

/// Compiles a pattern with `regex::Regex::new` and hands back the error's message
/// where the crate refuses it: a syntax error, or a program over the size limit.
/// The contract names the outcome; it says nothing of which patterns compile.
#[verifier::external_body]
pub(crate) fn compile_fault(pattern: &str) -> (r: Option<String>)
    ensures
        match r {
            Some(message) => pattern_error(pattern@) == Some(message@),
            None => pattern_error(pattern@) is None,
        },
{
    regex::Regex::new(pattern).err().map(|e| e.to_string())
}

/// Compiles a pattern and searches the text with `regex::Regex::is_match`. The
/// contract names the answer for a pattern that compiles and hands back the
/// compile error's message for one that does not.
#[verifier::external_body]
pub(crate) fn search(pattern: &str, text: &str) -> (r: Result<bool, String>)
    ensures
        match r {
            Ok(found) => pattern_error(pattern@) is None && found == pattern_matches(
                pattern@,
                text@,
            ),
            Err(message) => pattern_error(pattern@) == Some(message@),
        },
{
    regex::Regex::new(pattern).map(|re| re.is_match(text)).map_err(|e| e.to_string())
}

} // verus!
