//! Version resolution: the version of a run is given literally, read from a
//! file, or captured by a regular expression from the names of the files that
//! were found.

use vstd::prelude::*;
use crate::error::ResourceError;
use crate::regexp::{
    check_regex,
    group_capture,
    invalid_regex,
    is_invalid_regex,
    named_capture,
    regex_compiles,
    regex_group_capture,
    regex_named_capture,
};
use crate::text::{trim, trimmed};

verus! {

/// Where the version comes from.
#[derive(Debug, Clone, PartialEq, Eq)]
pub enum VersionSource {
    /// The version itself.
    Literal(String),
    /// The contents of the file that holds the version.
    FileContents(String),
    /// A regular expression to try on the candidate file names.
    Pattern(String),
}

/// The name of the capture group that is asked first.
pub open spec fn version_group() -> Seq<char> {
    "version"@
}

/// The named capture where there is one, else the positional one.
pub open spec fn prefer_named(named: Option<Seq<char>>, positional: Option<Seq<char>>) -> Option<
    Seq<char>,
> {
    if named is Some {
        named
    } else {
        positional
    }
}

/// The version that `pattern` captures in `name`: the group called `version`
/// where the match has it, else the first group.
pub open spec fn version_capture(pattern: Seq<char>, name: Seq<char>) -> Option<Seq<char>> {
    prefer_named(
        regex_named_capture(pattern, name, version_group()),
        regex_group_capture(pattern, name, 1),
    )
}

/// The version captured in the first of `names` that yields one.
pub open spec fn first_capture(pattern: Seq<char>, names: Seq<Seq<char>>) -> Option<Seq<char>>
    decreases names.len(),
{
    if names.len() == 0 {
        None
    } else if version_capture(pattern, names[0]) is Some {
        version_capture(pattern, names[0])
    } else {
        first_capture(pattern, names.drop_first())
    }
}

/// The version that `source` and `names` determine.
pub open spec fn resolved_version(source: VersionSource, names: Seq<Seq<char>>) -> Option<
    Seq<char>,
> {
    match source {
        VersionSource::Literal(version) => Some(version@),
        VersionSource::FileContents(contents) => Some(trimmed(contents@)),
        VersionSource::Pattern(pattern) => if regex_compiles(pattern@) {
            first_capture(pattern@, names)
        } else {
            None
        },
    }
}

/// The error that a source without a version gives: only a pattern can fail,
/// by not compiling or by capturing nothing in any name.
pub open spec fn is_resolution_failure(source: VersionSource, error: ResourceError) -> bool {
    match source {
        VersionSource::Pattern(pattern) => if regex_compiles(pattern@) {
            error == ResourceError::NoVersion
        } else {
            is_invalid_regex(error, pattern@)
        },
        _ => false,
    }
}

/// Where a file yields a version, it is the first such file that decides, and
/// no file before it yields one.
pub proof fn lemma_first_capture(pattern: Seq<char>, names: Seq<Seq<char>>)
    ensures
        first_capture(pattern, names) is Some <==> exists|i: int|
            0 <= i < names.len() && version_capture(pattern, #[trigger] names[i]) is Some,
        first_capture(pattern, names) is Some ==> exists|i: int|
            0 <= i < names.len() && first_capture(pattern, names) == version_capture(
                pattern,
                #[trigger] names[i],
            ) && forall|j: int| 0 <= j < i ==> version_capture(pattern, #[trigger] names[j]) is None,
    decreases names.len(),
{
    if names.len() > 0 {
        let rest = names.drop_first();
        lemma_first_capture(pattern, rest);
        if version_capture(pattern, names[0]) is Some {
            assert(first_capture(pattern, names) == version_capture(pattern, names[0]));
        } else {
            if first_capture(pattern, rest) is Some {
                let i = choose|i: int|
                    0 <= i < rest.len() && first_capture(pattern, rest) == version_capture(
                        pattern,
                        #[trigger] rest[i],
                    ) && forall|j: int|
                        0 <= j < i ==> version_capture(pattern, #[trigger] rest[j]) is None;
                assert(names[i + 1] == rest[i]);
                assert forall|j: int| 0 <= j < i + 1 implies version_capture(
                    pattern,
                    #[trigger] names[j],
                ) is None by {
                    if j > 0 {
                        assert(names[j] == rest[j - 1]);
                    }
                }
            }
            if exists|i: int|
                0 <= i < names.len() && version_capture(pattern, #[trigger] names[i]) is Some {
                let i = choose|i: int|
                    0 <= i < names.len() && version_capture(pattern, #[trigger] names[i]) is Some;
                assert(rest[i - 1] == names[i]);
            }
        }
    }
}

/// The named capture where there is one, else the positional one.
pub fn choose_capture(named: Option<String>, positional: Option<String>) -> (r: Option<String>)
    ensures
        r.deep_view() == prefer_named(named.deep_view(), positional.deep_view()),
{
    match named {
        Some(version) => Some(version),
        None => positional,
    }
}

/// The version that `pattern` captures in the file name `name`, if any.
pub fn capture_version(pattern: &str, name: &str) -> (r: Result<Option<String>, ResourceError>)
    ensures
        match r {
            Ok(found) => regex_compiles(pattern@) && found.deep_view() == version_capture(
                pattern@,
                name@,
            ),
            Err(e) => !regex_compiles(pattern@) && is_invalid_regex(e, pattern@),
        },
{
    let named = match named_capture(pattern, name, "version") {
        Ok(found) => found,
        Err(e) => {
            return Err(invalid_regex(pattern, &e));
        },
    };
    let positional = match group_capture(pattern, name, 1) {
        Ok(found) => found,
        Err(e) => {
            return Err(invalid_regex(pattern, &e));
        },
    };
    Ok(choose_capture(named, positional))
}

/// The version of the run.
///
/// A literal is taken as it is and file contents are trimmed. A pattern is
/// tried on `names` in their order and the first name that yields a capture
/// gives the version; the pattern must compile even where there is no name to
/// try it on. Where no name yields a capture the result is
/// `ResourceError::NoVersion`.
pub fn determine_version(source: &VersionSource, names: &Vec<String>) -> (r: Result<
    String,
    ResourceError,
>)
    ensures
        match r {
            Ok(version) => resolved_version(*source, names.deep_view()) == Some(version@),
            Err(e) => resolved_version(*source, names.deep_view()) is None && is_resolution_failure(
                *source,
                e,
            ),
        },
{
    match source {
        VersionSource::Literal(version) => Ok(version.clone()),
        VersionSource::FileContents(contents) => Ok(trim(contents.as_str())),
        VersionSource::Pattern(pattern) => {
            match check_regex(pattern.as_str()) {
                Ok(()) => {},
                Err(e) => {
                    return Err(invalid_regex(pattern.as_str(), &e));
                },
            }
            let ghost all = names.deep_view();
            let mut i: usize = 0;
            proof {
                assert(all.skip(0) =~= all);
            }
            while i < names.len()
                invariant
                    i <= names.len(),
                    all == names.deep_view(),
                    *source == VersionSource::Pattern(*pattern),
                    regex_compiles(pattern@),
                    first_capture(pattern@, all) == first_capture(pattern@, all.skip(i as int)),
                decreases names.len() - i,
            {
                proof {
                    let rest = all.skip(i as int);
                    assert(rest[0] == names[i as int]@);
                    assert(rest.drop_first() =~= all.skip(i + 1));
                }
                match capture_version(pattern.as_str(), names[i].as_str()) {
                    Ok(Some(version)) => {
                        proof {
                            assert(Some(version).deep_view() == Some(version@));
                        }
                        return Ok(version);
                    },
                    Ok(None) => {},
                    Err(e) => {
                        return Err(e);
                    },
                }
                i = i + 1;
            }
            Err(ResourceError::NoVersion)
        },
    }
}

} // verus!
