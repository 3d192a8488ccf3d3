//! Regular expressions, as the `regex` crate compiles and matches them.

use regex::Regex;
use vstd::prelude::*;

verus! {

/// `regex::Regex`, a compiled regular expression.
#[verifier::external_type_specification]
#[verifier::external_body]
pub struct ExRegex(regex::Regex);

/// `regex::Error`, the reason why a pattern does not compile.
#[verifier::external_type_specification]
#[verifier::external_body]
pub struct ExRegexError(regex::Error);

/// What `regex::Regex::new` returns for a pattern on a machine whose pointers
/// are `pointer_bits` wide.
///
/// The width matters only to patterns close to the default size limit: a
/// program's size is counted in bytes, and its states hold pointers.
pub uninterp spec fn regex_new(pattern: Seq<char>, pointer_bits: nat) -> Result<
    Regex,
    regex::Error,
>;

/// Whether the regular expression written `pattern` matches anywhere in
/// `haystack`.
pub uninterp spec fn regex_is_match(pattern: Seq<char>, haystack: Seq<char>) -> bool;

/// What a pattern compiles to on this machine.
pub open spec fn compiled(pattern: Seq<char>) -> Result<Regex, regex::Error> {
    regex_new(pattern, usize::BITS as nat)
}

/// `pattern` compiles, and to `expression`.
pub open spec fn compiles_to(pattern: Seq<char>, expression: Regex) -> bool {
    compiled(pattern) matches Ok(found) && found == expression
}

/// `regex::Regex::new`: the outcome of a compilation, the error included, is
/// fixed by the pattern and the pointer width. Which patterns compile is left
/// unsaid.
pub assume_specification[ regex::Regex::new ](re: &str) -> (result: Result<Regex, regex::Error>)
    ensures
        result == regex_new(re@, usize::BITS as nat),
;

/// `regex::Regex::is_match`: the answer is fixed by the haystack and the
/// pattern that the expression was compiled from, which it holds. What a
/// pattern matches is left unsaid.
pub assume_specification[ regex::Regex::is_match ](expression: &Regex, haystack: &str) -> (found: bool)
    ensures
        forall|pattern: Seq<char>|
            #[trigger] compiles_to(pattern, *expression)
                ==> found == regex_is_match(pattern, haystack@),
;

/// `<regex::Regex as Clone>::clone`: the same expression once more.
pub assume_specification[ <regex::Regex as Clone>::clone ](expression: &Regex) -> (copy: Regex)
    ensures
        copy == *expression,
;

} // verus!
