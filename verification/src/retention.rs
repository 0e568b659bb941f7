//! Retention pruning: of the versions of a package, taken from the highest
//! name down, those that match an expression are deleted, except the first
//! few of them, which are kept.

use vstd::prelude::*;
use crate::error::ResourceError;
use crate::order::{sort_descending, sorted_descending};
use crate::regexp::{
    check_regex,
    invalid_regex,
    is_invalid_regex,
    is_match,
    regex_compiles,
    regex_is_match,
};

verus! {

/// Number of matching versions among the first `upto`.
pub open spec fn matches_before(matching: Seq<bool>, upto: int) -> nat
    decreases upto,
{
    if upto <= 0 || upto > matching.len() {
        0
    } else {
        matches_before(matching, upto - 1) + if matching[upto - 1] {
            1nat
        } else {
            0nat
        }
    }
}

/// Which versions are to be deleted, where `matching` says of each version,
/// in the order in which they are gone through, whether it matches, and
/// `keep` matching versions are still to be kept. A version that does not
/// match is kept and leaves the count as it is.
pub open spec fn deletions(matching: Seq<bool>, keep: nat) -> Seq<bool>
    decreases matching.len(),
{
    if matching.len() == 0 {
        Seq::empty()
    } else if !matching[0] {
        seq![false] + deletions(matching.drop_first(), keep)
    } else if keep > 0 {
        seq![false] + deletions(matching.drop_first(), (keep - 1) as nat)
    } else {
        seq![true] + deletions(matching.drop_first(), 0)
    }
}

/// A version is deleted exactly if it matches and at least `keep` matching
/// versions come before it.
pub proof fn lemma_deletions(matching: Seq<bool>, keep: nat)
    ensures
        deletions(matching, keep).len() == matching.len(),
        forall|i: int|
            0 <= i < matching.len() ==> #[trigger] deletions(matching, keep)[i] == (matching[i]
                && matches_before(matching, i) >= keep),
    decreases matching.len(),
{
    if matching.len() > 0 {
        let rest = matching.drop_first();
        let left: nat = if matching[0] && keep > 0 {
            (keep - 1) as nat
        } else {
            keep
        };
        lemma_deletions(rest, left);
        let all = deletions(matching, keep);
        let tail = deletions(rest, left);
        assert(all.len() == matching.len());
        assert forall|i: int| 0 <= i < matching.len() implies #[trigger] all[i] == (matching[i]
            && matches_before(matching, i) >= keep) by {
            if i == 0 {
                assert(matches_before(matching, 0) == 0);
            } else {
                assert(all[i] == tail[i - 1]);
                assert(rest[i - 1] == matching[i]);
                lemma_matches_before_shift(matching, i);
            }
        }
    }
}

proof fn lemma_matches_before_shift(matching: Seq<bool>, upto: int)
    requires
        1 <= upto <= matching.len(),
    ensures
        matches_before(matching, upto) == matches_before(matching.drop_first(), upto - 1) + if matching[0] {
            1nat
        } else {
            0nat
        },
    decreases upto,
{
    let rest = matching.drop_first();
    if upto == 1 {
        assert(matches_before(matching, 0) == 0);
        assert(matches_before(rest, 0) == 0);
    } else {
        lemma_matches_before_shift(matching, upto - 1);
        assert(rest[upto - 2] == matching[upto - 1]);
    }
}

/// Which versions to delete, where `matching` says of each version, from the
/// highest name down, whether it matches: the matching ones but the first
/// `keep_last_n` of them.
pub fn retention_decisions(matching: &Vec<bool>, keep_last_n: u64) -> (r: Vec<bool>)
    ensures
        r@ == deletions(matching@, keep_last_n as nat),
{
    let mut r: Vec<bool> = Vec::new();
    let mut keep: u64 = keep_last_n;
    let mut i: usize = 0;
    proof {
        assert(matching@.skip(0) =~= matching@);
        assert(r@ + deletions(matching@, keep as nat) =~= deletions(matching@, keep as nat));
    }
    while i < matching.len()
        invariant
            i <= matching.len(),
            deletions(matching@, keep_last_n as nat) == r@ + deletions(
                matching@.skip(i as int),
                keep as nat,
            ),
        decreases matching.len() - i,
    {
        let ghost rest = matching@.skip(i as int);
        let ghost before = r@;
        proof {
            assert(rest[0] == matching@[i as int]);
            assert(rest.drop_first() =~= matching@.skip(i + 1));
        }
        let delete = matching[i] && keep == 0;
        if matching[i] && keep > 0 {
            keep = keep - 1;
        }
        r.push(delete);
        proof {
            let tail = deletions(matching@.skip(i + 1), keep as nat);
            assert(before.push(delete) + tail =~= before + (seq![delete] + tail));
        }
        i = i + 1;
    }
    proof {
        assert(r@ + Seq::<bool>::empty() =~= r@);
    }
    r
}

/// What is decided of one version.
#[derive(Debug, Clone, PartialEq, Eq)]
pub struct VersionDecision {
    /// The name of the version.
    pub version: String,
    /// Whether the version is to be deleted.
    pub delete: bool,
}

/// The names that `plan` goes through, in its order.
pub open spec fn planned_names(plan: Seq<VersionDecision>) -> Seq<Seq<char>> {
    plan.map_values(|decision: VersionDecision| decision.version@)
}

/// What `plan` decides, in its order.
pub open spec fn planned_deletions(plan: Seq<VersionDecision>) -> Seq<bool> {
    plan.map_values(|decision: VersionDecision| decision.delete)
}

/// The retention plan for the versions of a package.
///
/// The versions are gone through from the highest name down. A version that
/// `pattern` matches is deleted, but the first `keep_last_n` such versions are
/// kept; a version that it does not match is kept and does not count. An
/// expression that does not compile is an error, also where there is no
/// version.
pub fn plan_retention(versions: &Vec<String>, pattern: &str, keep_last_n: u64) -> (r: Result<
    Vec<VersionDecision>,
    ResourceError,
>)
    ensures
        match r {
            Ok(plan) => {
                &&& regex_compiles(pattern@)
                &&& planned_names(plan@).to_multiset() == versions.deep_view().to_multiset()
                &&& sorted_descending(planned_names(plan@))
                &&& planned_deletions(plan@) == deletions(
                    planned_names(plan@).map_values(|name: Seq<char>| regex_is_match(pattern@, name)),
                    keep_last_n as nat,
                )
            },
            Err(e) => !regex_compiles(pattern@) && is_invalid_regex(e, pattern@),
        },
{
    match check_regex(pattern) {
        Ok(()) => {},
        Err(e) => {
            return Err(invalid_regex(pattern, &e));
        },
    }
    let sorted = sort_descending(versions);
    let ghost names = sorted.deep_view();
    let ghost wanted = names.map_values(|name: Seq<char>| regex_is_match(pattern@, name));
    let mut matching: Vec<bool> = Vec::new();
    let mut i: usize = 0;
    while i < sorted.len()
        invariant
            i <= sorted.len(),
            regex_compiles(pattern@),
            names == sorted.deep_view(),
            wanted == names.map_values(|name: Seq<char>| regex_is_match(pattern@, name)),
            matching@ == wanted.take(i as int),
        decreases sorted.len() - i,
    {
        let hit = match is_match(pattern, sorted[i].as_str()) {
            Ok(hit) => hit,
            Err(e) => {
                return Err(invalid_regex(pattern, &e));
            },
        };
        proof {
            assert(names[i as int] == sorted[i as int]@);
            assert(wanted.take(i + 1) =~= wanted.take(i as int).push(hit));
        }
        matching.push(hit);
        i = i + 1;
    }
    proof {
        assert(wanted.take(i as int) =~= wanted);
    }
    let decided = retention_decisions(&matching, keep_last_n);
    proof {
        lemma_deletions(matching@, keep_last_n as nat);
        assert(decided.len() == sorted.len());
    }
    let mut plan: Vec<VersionDecision> = Vec::new();
    let mut k: usize = 0;
    while k < sorted.len()
        invariant
            k <= sorted.len(),
            decided.len() == sorted.len(),
            names == sorted.deep_view(),
            planned_names(plan@) == names.take(k as int),
            planned_deletions(plan@) == decided@.take(k as int),
        decreases sorted.len() - k,
    {
        let decision = VersionDecision { version: sorted[k].clone(), delete: decided[k] };
        let ghost before = plan@;
        plan.push(decision);
        proof {
            assert(names[k as int] == sorted[k as int]@);
            assert(planned_names(plan@) =~= planned_names(before).push(decision.version@));
            assert(planned_deletions(plan@) =~= planned_deletions(before).push(decision.delete));
            assert(names.take(k + 1) =~= names.take(k as int).push(names[k as int]));
            assert(decided@.take(k + 1) =~= decided@.take(k as int).push(decided@[k as int]));
        }
        k = k + 1;
    }
    proof {
        assert(names.take(k as int) =~= names);
        assert(decided@.take(k as int) =~= decided@);
    }
    Ok(plan)
}

} // verus!
