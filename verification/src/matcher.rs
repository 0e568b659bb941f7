//! Glob matching of a path against a list of patterns, with union semantics.
//! Compiling and matching a single pattern is the `glob` crate's work; the
//! rest is decided here.

use vstd::prelude::*;
use vstd::string::StringExecFns;
use crate::error::ResourceError;

verus! {

/// `glob::PatternError`, the syntax error of a pattern. It is carried through
/// as it is; nothing is claimed of what it holds.
#[verifier::external_type_specification]
#[verifier::external_body]
pub struct ExPatternError(glob::PatternError);

/// Whether `glob::Pattern::new` accepts `pattern`.
pub uninterp spec fn glob_compiles(pattern: Seq<char>) -> bool;

/// What `glob::Pattern::matches` answers for `text`, on the pattern compiled
/// from `pattern`.
pub uninterp spec fn glob_matches(pattern: Seq<char>, text: Seq<char>) -> bool;

/// A pattern without any of the characters `*`, `?` and `[`, which are the
/// only ones that the pattern syntax gives a meaning of their own.
pub open spec fn is_literal_pattern(pattern: Seq<char>) -> bool {
    forall|i: int|
        0 <= i < pattern.len() ==> pattern[i] != '*' && pattern[i] != '?' && pattern[i] != '['
}

/// Compiles `pattern` with `glob::Pattern::new` and asks `Pattern::matches`
/// about `text`.
///
/// Trusted: the call fails exactly on the patterns that do not compile, and
/// otherwise answers as the compiled pattern does. Of literal patterns it is
/// taken from the crate's source that they always compile (only `*` and `[`
/// can raise a syntax error) and that a non-empty one does not match the
/// empty text (its first character finds nothing to match).
#[verifier::external_body]
fn pattern_matches(pattern: &str, text: &str) -> (r: Result<bool, glob::PatternError>)
    ensures
        r is Ok <==> glob_compiles(pattern@),
        r matches Ok(b) ==> b == glob_matches(pattern@, text@),
        is_literal_pattern(pattern@) ==> r is Ok,
        is_literal_pattern(pattern@) && pattern@.len() > 0 && text@.len() == 0
            ==> r is Ok && r->Ok_0 == false,
{
    let compiled = glob::Pattern::new(pattern)?;
    Ok(compiled.matches(text))
}

/// The text of a pattern syntax error, as `glob::PatternError` displays it.
///
/// Trusted: nothing is claimed of the text.
#[verifier::external_body]
fn pattern_error_text(error: &glob::PatternError) -> (r: String) {
    error.to_string()
}

/// What matching `text` against `patterns` comes to. The patterns are tried
/// in order and the first that matches settles it; a pattern that does not
/// compile is an error, unless an earlier pattern has matched already.
/// `Err(i)` names the offending pattern by its index.
pub open spec fn match_outcome(patterns: Seq<Seq<char>>, text: Seq<char>) -> Result<bool, int>
    decreases patterns.len(),
{
    if patterns.len() == 0 {
        Ok(false)
    } else if !glob_compiles(patterns[0]) {
        Err(0)
    } else if glob_matches(patterns[0], text) {
        Ok(true)
    } else {
        match match_outcome(patterns.drop_first(), text) {
            Ok(b) => Ok(b),
            Err(i) => Err(i + 1),
        }
    }
}

/// Every pattern compiles.
pub open spec fn all_compile(patterns: Seq<Seq<char>>) -> bool {
    forall|i: int| 0 <= i < patterns.len() ==> glob_compiles(#[trigger] patterns[i])
}

/// At least one pattern matches `text`.
pub open spec fn any_matches(patterns: Seq<Seq<char>>, text: Seq<char>) -> bool {
    exists|i: int| 0 <= i < patterns.len() && glob_matches(#[trigger] patterns[i], text)
}

/// The error for the pattern `pattern`, whatever the reason given.
pub open spec fn is_invalid_glob(error: ResourceError, pattern: Seq<char>) -> bool {
    error matches ResourceError::InvalidGlob { pattern: p, .. } && p@ == pattern
}

/// Union semantics: where all patterns compile, the outcome is a match
/// exactly if at least one pattern matches.
pub proof fn lemma_match_outcome_is_union(patterns: Seq<Seq<char>>, text: Seq<char>)
    requires
        all_compile(patterns),
    ensures
        match_outcome(patterns, text) == Ok::<bool, int>(any_matches(patterns, text)),
    decreases patterns.len(),
{
    if patterns.len() > 0 {
        let rest = patterns.drop_first();
        assert forall|i: int| 0 <= i < rest.len() implies glob_compiles(#[trigger] rest[i]) by {
            assert(rest[i] == patterns[i + 1]);
        }
        lemma_match_outcome_is_union(rest, text);
        assert(glob_compiles(patterns[0]));
        if glob_matches(patterns[0], text) {
        } else if any_matches(rest, text) {
            let i = choose|i: int| 0 <= i < rest.len() && glob_matches(#[trigger] rest[i], text);
            assert(glob_matches(patterns[i + 1], text));
        } else if any_matches(patterns, text) {
            let i = choose|i: int|
                0 <= i < patterns.len() && glob_matches(#[trigger] patterns[i], text);
            assert(glob_matches(rest[i - 1], text));
        }
    }
}

/// Where the outcome is an error, it names a pattern that does not compile,
/// and every pattern before it compiles and does not match.
pub proof fn lemma_match_outcome_error(patterns: Seq<Seq<char>>, text: Seq<char>)
    ensures
        match_outcome(patterns, text) matches Err(i) ==> {
            &&& 0 <= i < patterns.len()
            &&& !glob_compiles(patterns[i])
            &&& forall|j: int|
                0 <= j < i ==> glob_compiles(#[trigger] patterns[j]) && !glob_matches(
                    patterns[j],
                    text,
                )
        },
    decreases patterns.len(),
{
    if patterns.len() > 0 && glob_compiles(patterns[0]) && !glob_matches(patterns[0], text) {
        let rest = patterns.drop_first();
        lemma_match_outcome_error(rest, text);
        if let Err(i) = match_outcome(rest, text) {
            assert(patterns[i + 1] == rest[i]);
            assert forall|j: int| 0 <= j < i + 1 implies glob_compiles(#[trigger] patterns[j])
                && !glob_matches(patterns[j], text) by {
                if j > 0 {
                    assert(patterns[j] == rest[j - 1]);
                }
            }
        }
    }
}

/// The items that are accepted, in their order, where `outcomes` holds for
/// each item what matching it came to. The items are gone through in order,
/// and the first error ends it.
pub open spec fn keep_accepted<T>(items: Seq<T>, outcomes: Seq<Result<bool, int>>) -> Result<
    Seq<T>,
    int,
>
    decreases items.len(),
{
    if items.len() == 0 {
        Ok(Seq::empty())
    } else {
        match keep_accepted(items.drop_last(), outcomes.drop_last()) {
            Err(i) => Err(i),
            Ok(kept) => match outcomes.last() {
                Err(i) => Err(i),
                Ok(true) => Ok(kept.push(items.last())),
                Ok(false) => Ok(kept),
            },
        }
    }
}

/// Once going through the first `upto` items has met an error, going through
/// all of them meets the same error.
pub proof fn lemma_keep_accepted_error<T>(
    items: Seq<T>,
    outcomes: Seq<Result<bool, int>>,
    upto: int,
)
    requires
        0 <= upto <= items.len(),
        items.len() == outcomes.len(),
        keep_accepted(items.take(upto), outcomes.take(upto)) is Err,
    ensures
        keep_accepted(items, outcomes) == keep_accepted(items.take(upto), outcomes.take(upto)),
    decreases items.len() - upto,
{
    if upto < items.len() {
        assert(items.take(upto + 1).drop_last() =~= items.take(upto));
        assert(outcomes.take(upto + 1).drop_last() =~= outcomes.take(upto));
        lemma_keep_accepted_error(items, outcomes, upto + 1);
    } else {
        assert(items.take(upto) =~= items);
        assert(outcomes.take(upto) =~= outcomes);
    }
}

/// The patterns to go by: those of the filter, or the one default pattern
/// where no filter is given.
pub open spec fn effective_patterns(
    filter: Option<Seq<Seq<char>>>,
    default_pattern: Seq<char>,
) -> Seq<Seq<char>> {
    match filter {
        Some(patterns) => patterns,
        None => seq![default_pattern],
    }
}

/// The pattern that stands for a missing filter on files: every file, at any depth.
pub open spec fn any_file_pattern() -> Seq<char> {
    "**/*"@
}

/// The pattern that stands for a missing filter on versions: every version.
pub open spec fn any_version_pattern() -> Seq<char> {
    "*"@
}

/// The patterns of `filter`, or `default_pattern` alone where there is no filter.
pub fn patterns_or(filter: &Option<Vec<String>>, default_pattern: &str) -> (r: Vec<String>)
    ensures
        r.deep_view() == effective_patterns(filter.deep_view(), default_pattern@),
{
    match filter {
        Some(patterns) => {
            let r = crate::text::clone_strings(patterns);
            proof {
                assert(filter.deep_view() == Some(patterns.deep_view()));
            }
            r
        },
        None => {
            let mut r: Vec<String> = Vec::new();
            r.push(String::from_str(default_pattern));
            proof {
                assert(r.deep_view() =~= seq![default_pattern@]);
            }
            r
        },
    }
}

/// The patterns for files: those of `filter`, or `**/*`.
pub fn file_patterns(filter: &Option<Vec<String>>) -> (r: Vec<String>)
    ensures
        r.deep_view() == effective_patterns(filter.deep_view(), any_file_pattern()),
{
    patterns_or(filter, "**/*")
}

/// The patterns for versions: those of `filter`, or `*`.
pub fn version_patterns(filter: &Option<Vec<String>>) -> (r: Vec<String>)
    ensures
        r.deep_view() == effective_patterns(filter.deep_view(), any_version_pattern()),
{
    patterns_or(filter, "*")
}

/// Whether one of `patterns` matches `text`.
///
/// The patterns are tried in order. `Ok(true)` as soon as one matches,
/// `Ok(false)` if none does, and `ResourceError::InvalidGlob` for the first pattern
/// that does not compile where none before it has matched.
pub fn matches_any(patterns: &Vec<String>, text: &str) -> (r: Result<bool, ResourceError>)
    ensures
        match r {
            Ok(b) => match_outcome(patterns.deep_view(), text@) == Ok::<bool, int>(b),
            Err(e) => match_outcome(patterns.deep_view(), text@) matches Err(i) && 0 <= i
                < patterns.len() && is_invalid_glob(e, patterns.deep_view()[i]),
        },
        all_compile(patterns.deep_view()) ==> r == Ok::<bool, ResourceError>(
            any_matches(patterns.deep_view(), text@),
        ),
        text@.len() == 0 && (forall|i: int|
            0 <= i < patterns.len() ==> is_literal_pattern(#[trigger] patterns.deep_view()[i])
                && patterns.deep_view()[i].len() > 0) ==> r == Ok::<bool, ResourceError>(false),
{
    let ghost all = patterns.deep_view();
    let mut i: usize = 0;
    proof {
        assert(all.skip(0) =~= all);
    }
    while i < patterns.len()
        invariant
            i <= patterns.len(),
            all == patterns.deep_view(),
            match match_outcome(all.skip(i as int), text@) {
                Ok(b) => match_outcome(all, text@) == Ok::<bool, int>(b),
                Err(k) => match_outcome(all, text@) == Err::<bool, int>(k + i),
            },
        decreases patterns.len() - i,
    {
        let ghost rest = all.skip(i as int);
        proof {
            assert(rest[0] == all[i as int]);
            assert(all[i as int] == patterns[i as int]@);
            assert(rest.drop_first() =~= all.skip(i + 1));
        }
        match pattern_matches(patterns[i].as_str(), text) {
            Err(e) => {
                let error = ResourceError::InvalidGlob {
                    pattern: patterns[i].clone(),
                    reason: pattern_error_text(&e),
                };
                proof {
                    if text@.len() == 0 && (forall|i: int|
                        0 <= i < patterns.len() ==> is_literal_pattern(#[trigger] all[i])
                            && all[i].len() > 0) {
                        assert(is_literal_pattern(all[i as int]));
                    }
                }
                return Err(error);
            },
            Ok(true) => {
                proof {
                    if all_compile(all) {
                        lemma_match_outcome_is_union(all, text@);
                    }
                    if text@.len() == 0 && (forall|i: int|
                        0 <= i < patterns.len() ==> is_literal_pattern(#[trigger] all[i])
                            && all[i].len() > 0) {
                        assert(is_literal_pattern(all[i as int]));
                    }
                }
                return Ok(true);
            },
            Ok(false) => {},
        }
        i = i + 1;
    }
    proof {
        if all_compile(all) {
            lemma_match_outcome_is_union(all, text@);
        }
    }
    Ok(false)
}

} // verus!
