//! What the library asks of the `regex` crate: whether a pattern compiles,
//! whether it matches, what a capture group holds, and literal replacement.
//! Each question is asked of a pattern text, so nothing compiled is kept.

use vstd::prelude::*;
use vstd::string::StringExecFns;
use crate::error::ResourceError;

verus! {

/// `regex::Error`, the error of an expression that does not compile. It is
/// carried through as it is; nothing is claimed of what it holds.
#[verifier::external_type_specification]
#[verifier::external_body]
pub struct ExRegexError(regex::Error);

/// Whether `regex::Regex::new` accepts `pattern`.
pub uninterp spec fn regex_compiles(pattern: Seq<char>) -> bool;

/// What `Regex::is_match` answers for `text`, on the expression compiled from
/// `pattern`.
pub uninterp spec fn regex_is_match(pattern: Seq<char>, text: Seq<char>) -> bool;

/// What `Captures::name` finds for the group called `name` in the first match
/// of `pattern` in `text`; `None` where there is no match, no such group, or
/// the group took no part in the match.
pub uninterp spec fn regex_named_capture(
    pattern: Seq<char>,
    text: Seq<char>,
    name: Seq<char>,
) -> Option<Seq<char>>;

/// What `Captures::get` finds for the group number `index` in the first match
/// of `pattern` in `text`; `None` where there is no match, no such group, or
/// the group took no part in the match.
pub uninterp spec fn regex_group_capture(pattern: Seq<char>, text: Seq<char>, index: nat) -> Option<
    Seq<char>,
>;

/// What `Regex::replace_all` makes of `text` when every non-overlapping match
/// of `pattern` is replaced by `replacement`, taken literally.
pub uninterp spec fn regex_replace_all(
    pattern: Seq<char>,
    text: Seq<char>,
    replacement: Seq<char>,
) -> Seq<char>;

/// Compiles `pattern` with `Regex::new` and drops the result.
///
/// Trusted: the call succeeds exactly on the patterns that compile.
#[verifier::external_body]
pub(crate) fn check_regex(pattern: &str) -> (r: Result<(), regex::Error>)
    ensures
        r is Ok <==> regex_compiles(pattern@),
{
    match regex::Regex::new(pattern) {
        Ok(_) => Ok(()),
        Err(e) => Err(e),
    }
}

/// Compiles `pattern` and asks `Regex::is_match` about `text`.
///
/// Trusted: the call succeeds exactly on the patterns that compile, and then
/// answers as the compiled expression does.
#[verifier::external_body]
pub(crate) fn is_match(pattern: &str, text: &str) -> (r: Result<bool, regex::Error>)
    ensures
        r is Ok <==> regex_compiles(pattern@),
        r matches Ok(b) ==> b == regex_is_match(pattern@, text@),
{
    let compiled = regex::Regex::new(pattern)?;
    Ok(compiled.is_match(text))
}

/// Compiles `pattern`, runs `Regex::captures` on `text` and reads the group
/// called `name` with `Captures::name`.
///
/// Trusted: the call succeeds exactly on the patterns that compile, and then
/// hands out the text of that group, if it has one.
#[verifier::external_body]
pub(crate) fn named_capture(pattern: &str, text: &str, name: &str) -> (r: Result<
    Option<String>,
    regex::Error,
>)
    ensures
        r is Ok <==> regex_compiles(pattern@),
        r matches Ok(found) ==> found.deep_view() == regex_named_capture(pattern@, text@, name@),
{
    let compiled = regex::Regex::new(pattern)?;
    Ok(
        match compiled.captures(text) {
            Some(groups) => match groups.name(name) {
                Some(group) => Some(group.as_str().to_string()),
                None => None,
            },
            None => None,
        },
    )
}

/// Compiles `pattern`, runs `Regex::captures` on `text` and reads the group
/// number `index` with `Captures::get`.
///
/// Trusted: the call succeeds exactly on the patterns that compile, and then
/// hands out the text of that group, if it has one.
#[verifier::external_body]
pub(crate) fn group_capture(pattern: &str, text: &str, index: usize) -> (r: Result<
    Option<String>,
    regex::Error,
>)
    ensures
        r is Ok <==> regex_compiles(pattern@),
        r matches Ok(found) ==> found.deep_view() == regex_group_capture(
            pattern@,
            text@,
            index as nat,
        ),
{
    let compiled = regex::Regex::new(pattern)?;
    Ok(
        match compiled.captures(text) {
            Some(groups) => match groups.get(index) {
                Some(group) => Some(group.as_str().to_string()),
                None => None,
            },
            None => None,
        },
    )
}

/// Compiles `pattern` and replaces each of its matches in `text` by
/// `replacement` with `Regex::replace_all`, the replacement wrapped in
/// `regex::NoExpand` so that no `$` in it is read as a group reference.
///
/// Trusted: the call succeeds exactly on the patterns that compile, and then
/// hands out the replaced text.
#[verifier::external_body]
pub(crate) fn replace_all_literal(pattern: &str, text: &str, replacement: &str) -> (r: Result<
    String,
    regex::Error,
>)
    ensures
        r is Ok <==> regex_compiles(pattern@),
        r matches Ok(replaced) ==> replaced@ == regex_replace_all(pattern@, text@, replacement@),
{
    let compiled = regex::Regex::new(pattern)?;
    Ok(compiled.replace_all(text, regex::NoExpand(replacement)).into_owned())
}

/// The text of a compile error, as `regex::Error` displays it.
///
/// Trusted: nothing is claimed of the text.
#[verifier::external_body]
fn regex_error_text(error: &regex::Error) -> (r: String) {
    error.to_string()
}

/// The error for the expression `pattern`, whatever the reason given.
pub open spec fn is_invalid_regex(error: ResourceError, pattern: Seq<char>) -> bool {
    error matches ResourceError::InvalidRegex { pattern: p, .. } && p@ == pattern
}

/// The library's error for the expression `pattern`, which `error` is the
/// compile error of.
pub(crate) fn invalid_regex(pattern: &str, error: &regex::Error) -> (r: ResourceError)
    ensures
        is_invalid_regex(r, pattern@),
{
    ResourceError::InvalidRegex {
        pattern: String::from_str(pattern),
        reason: regex_error_text(error),
    }
}

} // verus!
