//! The remote path template: the configured remote path, in which the token
//! `$VERSION` stands for the version of the run.

use vstd::prelude::*;
use crate::error::ResourceError;
use crate::path::{normalize_path, normalized};
use crate::regexp::{
    invalid_regex,
    is_invalid_regex,
    regex_compiles,
    regex_replace_all,
    replace_all_literal,
};

verus! {

/// The regular expression of the token: `$VERSION`, ending at a word boundary.
pub open spec fn version_token() -> Seq<char> {
    "\\$VERSION\\b"@
}

/// `template` with each `$VERSION` token replaced by `version`, before it is
/// normalized.
pub open spec fn substituted(template: Seq<char>, version: Seq<char>) -> Seq<char> {
    regex_replace_all(version_token(), template, version)
}

/// The remote path prefix of the run: `template` with each `$VERSION` token
/// replaced by `version`, taken literally, in normal form.
///
/// The token is found by its regular expression; the error is for the case
/// that the expression is refused.
pub fn expand_remote_path(template: &str, version: &str) -> (r: Result<String, ResourceError>)
    ensures
        match r {
            Ok(prefix) => regex_compiles(version_token()) && prefix@ == normalized(
                substituted(template@, version@),
            ),
            Err(e) => !regex_compiles(version_token()) && is_invalid_regex(e, version_token()),
        },
{
    let token = "\\$VERSION\\b";
    match replace_all_literal(token, template, version) {
        Ok(replaced) => Ok(normalize_path(replaced.as_str())),
        Err(e) => Err(invalid_regex(token, &e)),
    }
}

} // verus!
