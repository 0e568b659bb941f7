//! The `check` operation: which versions of a package to report.

use vstd::prelude::*;
use crate::error::ResourceError;
use crate::matcher::{
    any_version_pattern,
    effective_patterns,
    is_invalid_glob,
    keep_accepted,
    lemma_keep_accepted_error,
    match_outcome,
    matches_any,
    version_patterns,
};
use crate::text::clone_optional;

verus! {

/// A version as the pipeline knows it.
#[derive(Debug, Clone, PartialEq, Eq)]
pub struct CheckVersion {
    /// The name of the version.
    pub version: String,
    /// When the version was last updated, if known.
    pub updated: Option<String>,
}

/// The model of a `CheckVersion`.
pub struct CheckVersionView {
    pub version: Seq<char>,
    pub updated: Option<Seq<char>>,
}

impl DeepView for CheckVersion {
    type V = CheckVersionView;

    open spec fn deep_view(&self) -> CheckVersionView {
        CheckVersionView { version: self.version@, updated: self.updated.deep_view() }
    }
}

impl CheckVersion {
    /// A copy of this version.
    pub fn duplicate(&self) -> (r: CheckVersion)
        ensures
            r.deep_view() == self.deep_view(),
    {
        CheckVersion { version: self.version.clone(), updated: clone_optional(&self.updated) }
    }
}

/// What matching each version's name against `patterns` comes to.
pub open spec fn version_outcomes(versions: Seq<CheckVersionView>, patterns: Seq<Seq<char>>) -> Seq<
    Result<bool, int>,
> {
    versions.map_values(|v: CheckVersionView| match_outcome(patterns, v.version))
}

/// The versions whose name one of `patterns` matches, in their order.
pub open spec fn matching_versions(
    versions: Seq<CheckVersionView>,
    patterns: Seq<Seq<char>>,
) -> Result<Seq<CheckVersionView>, int> {
    keep_accepted(versions, version_outcomes(versions, patterns))
}

/// The last of `versions` alone, or nothing where there is none.
pub open spec fn last_only(versions: Seq<CheckVersionView>) -> Seq<CheckVersionView> {
    if versions.len() == 0 {
        versions
    } else {
        seq![versions.last()]
    }
}

/// What `check` reports of `versions` under `patterns`: the matching
/// versions, or only the last of them.
pub open spec fn check_result(
    versions: Seq<CheckVersionView>,
    patterns: Seq<Seq<char>>,
    only_last: bool,
) -> Result<Seq<CheckVersionView>, int> {
    match matching_versions(versions, patterns) {
        Ok(kept) => Ok(
            if only_last {
                last_only(kept)
            } else {
                kept
            },
        ),
        Err(i) => Err(i),
    }
}

/// Whether one of `globs` matches the name `version`.
pub fn version_match_globs(version: &str, globs: &Vec<String>) -> (r: Result<bool, ResourceError>)
    ensures
        match r {
            Ok(b) => match_outcome(globs.deep_view(), version@) == Ok::<bool, int>(b),
            Err(e) => match_outcome(globs.deep_view(), version@) matches Err(i) && 0 <= i
                < globs.len() && is_invalid_glob(e, globs.deep_view()[i]),
        },
{
    matches_any(globs, version)
}

/// The versions whose name one of `globs` matches, in their order.
pub fn filter_matching_versions(versions: &Vec<CheckVersion>, globs: &Vec<String>) -> (r: Result<
    Vec<CheckVersion>,
    ResourceError,
>)
    ensures
        match r {
            Ok(kept) => matching_versions(versions.deep_view(), globs.deep_view()) == Ok::<
                Seq<CheckVersionView>,
                int,
            >(kept.deep_view()),
            Err(e) => matching_versions(versions.deep_view(), globs.deep_view()) matches Err(i)
                && 0 <= i < globs.len() && is_invalid_glob(e, globs.deep_view()[i]),
        },
{
    let ghost all = versions.deep_view();
    let ghost outcomes = version_outcomes(all, globs.deep_view());
    let mut kept: Vec<CheckVersion> = Vec::new();
    let mut i: usize = 0;
    proof {
        assert(all.take(0) =~= Seq::<CheckVersionView>::empty());
        assert(kept.deep_view() =~= Seq::<CheckVersionView>::empty());
    }
    while i < versions.len()
        invariant
            i <= versions.len(),
            all == versions.deep_view(),
            outcomes == version_outcomes(all, globs.deep_view()),
            keep_accepted(all.take(i as int), outcomes.take(i as int)) == Ok::<
                Seq<CheckVersionView>,
                int,
            >(kept.deep_view()),
        decreases versions.len() - i,
    {
        let ghost before = kept.deep_view();
        proof {
            assert(all.take(i + 1).drop_last() =~= all.take(i as int));
            assert(outcomes.take(i + 1).drop_last() =~= outcomes.take(i as int));
            assert(all.take(i + 1).last() == versions[i as int].deep_view());
            assert(outcomes.take(i + 1).last() == match_outcome(
                globs.deep_view(),
                versions[i as int].version@,
            ));
        }
        match version_match_globs(versions[i].version.as_str(), globs) {
            Ok(true) => {
                let copy = versions[i].duplicate();
                kept.push(copy);
                proof {
                    assert(kept.deep_view() =~= before.push(copy.deep_view()));
                }
            },
            Ok(false) => {},
            Err(e) => {
                proof {
                    lemma_keep_accepted_error(all, outcomes, i + 1);
                }
                return Err(e);
            },
        }
        i = i + 1;
    }
    proof {
        assert(all.take(i as int) =~= all);
        assert(outcomes.take(i as int) =~= outcomes);
    }
    Ok(kept)
}

/// What `check` reports.
///
/// `versions` are the versions of the package from the one that the pipeline
/// holds onwards, in the order of the remote store. Those whose name matches
/// the version filter are reported (all of them where there is no filter);
/// where the pipeline holds no version yet (`only_last`), only the last of
/// them is.
pub fn get_check_result(
    versions: &Vec<CheckVersion>,
    only_last: bool,
    version_filter: &Option<Vec<String>>,
) -> (r: Result<Vec<CheckVersion>, ResourceError>)
    ensures
        match r {
            Ok(reported) => check_result(
                versions.deep_view(),
                effective_patterns(version_filter.deep_view(), any_version_pattern()),
                only_last,
            ) == Ok::<Seq<CheckVersionView>, int>(reported.deep_view()),
            Err(e) => check_result(
                versions.deep_view(),
                effective_patterns(version_filter.deep_view(), any_version_pattern()),
                only_last,
            ) matches Err(i) && 0 <= i < effective_patterns(
                version_filter.deep_view(),
                any_version_pattern(),
            ).len() && is_invalid_glob(
                e,
                effective_patterns(version_filter.deep_view(), any_version_pattern())[i],
            ),
        },
{
    let globs = version_patterns(version_filter);
    let mut filtered = match filter_matching_versions(versions, &globs) {
        Ok(filtered) => filtered,
        Err(e) => {
            return Err(e);
        },
    };
    if only_last {
        let ghost all = filtered.deep_view();
        match filtered.pop() {
            None => {
                let r: Vec<CheckVersion> = Vec::new();
                proof {
                    assert(r.deep_view() =~= last_only(all));
                }
                Ok(r)
            },
            Some(last) => {
                let mut r: Vec<CheckVersion> = Vec::new();
                r.push(last);
                proof {
                    assert(r.deep_view() =~= last_only(all));
                }
                Ok(r)
            },
        }
    } else {
        Ok(filtered)
    }
}

} // verus!
