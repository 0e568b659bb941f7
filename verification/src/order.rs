//! The order of names, and sorting by it. Names compare character by
//! character, by code point, which is the order of their UTF-8 bytes.

use vstd::prelude::*;
use crate::text::chars_of;

verus! {

/// The order of names: `a` comes before `b` where `a` is a proper prefix of
/// `b`, or where the two differ first in a character that is lower in `a`.
pub open spec fn name_before(a: Seq<char>, b: Seq<char>) -> bool
    decreases a.len(),
{
    if b.len() == 0 {
        false
    } else if a.len() == 0 {
        true
    } else if a[0] != b[0] {
        a[0] < b[0]
    } else {
        name_before(a.drop_first(), b.drop_first())
    }
}

/// `a` has to stand before `b` in a list that is sorted in the given
/// direction.
pub open spec fn goes_first(a: Seq<char>, b: Seq<char>, descending: bool) -> bool {
    if descending {
        name_before(b, a)
    } else {
        name_before(a, b)
    }
}

/// Sorted in the given direction: no name stands behind one that it has to
/// stand before.
pub open spec fn sorted_by(names: Seq<Seq<char>>, descending: bool) -> bool {
    forall|i: int, j: int| 0 <= i < j < names.len() ==> !goes_first(names[j], names[i], descending)
}

/// From the highest name down: no name comes before a later one.
pub open spec fn sorted_descending(names: Seq<Seq<char>>) -> bool {
    sorted_by(names, true)
}

/// From the lowest name up: no name comes before an earlier one.
pub open spec fn sorted_ascending(names: Seq<Seq<char>>) -> bool {
    sorted_by(names, false)
}

/// The order of names is transitive.
pub proof fn lemma_name_before_transitive(a: Seq<char>, b: Seq<char>, c: Seq<char>)
    requires
        name_before(a, b),
        name_before(b, c),
    ensures
        name_before(a, c),
    decreases a.len(),
{
    if a.len() > 0 && a[0] == b[0] && b[0] == c[0] {
        lemma_name_before_transitive(a.drop_first(), b.drop_first(), c.drop_first());
    }
}

/// The order of names is total and strict: of two different names exactly one
/// comes before the other, and no name comes before itself.
pub proof fn lemma_name_before_total(a: Seq<char>, b: Seq<char>)
    ensures
        a == b ==> !name_before(a, b),
        a != b ==> (name_before(a, b) <==> !name_before(b, a)),
    decreases a.len(),
{
    if a.len() > 0 && b.len() > 0 {
        lemma_name_before_total(a.drop_first(), b.drop_first());
        if a[0] == b[0] && a.drop_first() == b.drop_first() {
            assert(a =~= seq![a[0]] + a.drop_first());
            assert(b =~= seq![b[0]] + b.drop_first());
        }
    } else if a.len() == 0 && b.len() == 0 {
        assert(a =~= b);
    }
}

/// Whether `a` comes before `b` in the order of names.
pub fn comes_before(a: &str, b: &str) -> (r: bool)
    ensures
        r == name_before(a@, b@),
{
    let x = chars_of(a);
    let y = chars_of(b);
    let mut i: usize = 0;
    proof {
        assert(a@.skip(0) =~= a@);
        assert(b@.skip(0) =~= b@);
    }
    while i < x.len() && i < y.len() && x[i] == y[i]
        invariant
            x@ == a@,
            y@ == b@,
            i <= x.len(),
            i <= y.len(),
            name_before(a@, b@) == name_before(a@.skip(i as int), b@.skip(i as int)),
        decreases x.len() - i,
    {
        proof {
            assert(a@.skip(i as int).drop_first() =~= a@.skip(i + 1));
            assert(b@.skip(i as int).drop_first() =~= b@.skip(i + 1));
        }
        i = i + 1;
    }
    proof {
        let s = a@.skip(i as int);
        let t = b@.skip(i as int);
        if i < x.len() && i < y.len() {
            assert(s[0] == x@[i as int]);
            assert(t[0] == y@[i as int]);
        }
    }
    if i >= y.len() {
        false
    } else if i >= x.len() {
        true
    } else {
        x[i] < y[i]
    }
}

/// Whether `a` has to stand before `b` in a list sorted in the given direction.
pub fn stands_first(a: &str, b: &str, descending: bool) -> (r: bool)
    ensures
        r == goes_first(a@, b@, descending),
{
    if descending {
        comes_before(b, a)
    } else {
        comes_before(a, b)
    }
}

/// `names` sorted, from the highest down where `descending` is set and from
/// the lowest up where it is not.
pub fn sort_names(names: &Vec<String>, descending: bool) -> (sorted: Vec<String>)
    ensures
        sorted.deep_view().to_multiset() == names.deep_view().to_multiset(),
        sorted_by(sorted.deep_view(), descending),
{
    let mut sorted: Vec<String> = Vec::new();
    let mut i: usize = 0;
    proof {
        assert(names.deep_view().take(0) =~= Seq::<Seq<char>>::empty());
        assert(sorted.deep_view() =~= Seq::<Seq<char>>::empty());
    }
    while i < names.len()
        invariant
            i <= names.len(),
            sorted.deep_view().to_multiset() == names.deep_view().take(i as int).to_multiset(),
            sorted_by(sorted.deep_view(), descending),
        decreases names.len() - i,
    {
        let name = names[i].clone();
        let mut at: usize = 0;
        while at < sorted.len() && !stands_first(name.as_str(), sorted[at].as_str(), descending)
            invariant
                at <= sorted.len(),
                forall|j: int| 0 <= j < at ==> !goes_first(name@, #[trigger] sorted[j]@, descending),
            decreases sorted.len() - at,
        {
            at = at + 1;
        }
        let ghost before = sorted.deep_view();
        sorted.insert(at, name);
        proof {
            let after = sorted.deep_view();
            assert(after =~= before.insert(at as int, name@));
            vstd::seq_lib::to_multiset_insert(before, at as int, name@);
            let upto = names.deep_view().take(i + 1);
            assert(upto =~= names.deep_view().take(i as int).push(name@));
            vstd::seq_lib::to_multiset_build(names.deep_view().take(i as int), name@);
            assert forall|p: int, q: int| 0 <= p < q < after.len() implies !goes_first(
                after[q],
                after[p],
                descending,
            ) by {
                if q < at {
                    assert(after[p] == before[p] && after[q] == before[q]);
                } else if q == at {
                    assert(after[p] == before[p]);
                } else if p == at {
                    let later = before[q - 1];
                    let here = before[at as int];
                    assert(after[q] == later);
                    assert(goes_first(name@, here, descending));
                    if q - 1 > at {
                        assert(!goes_first(later, here, descending));
                    }
                    if goes_first(later, name@, descending) {
                        if descending {
                            lemma_name_before_transitive(here, name@, later);
                        } else {
                            lemma_name_before_transitive(later, name@, here);
                        }
                        lemma_name_before_total(here, here);
                    }
                } else if p < at {
                    assert(after[p] == before[p] && after[q] == before[q - 1]);
                } else {
                    assert(after[p] == before[p - 1] && after[q] == before[q - 1]);
                }
            }
        }
        i = i + 1;
    }
    proof {
        assert(names.deep_view().take(i as int) =~= names.deep_view());
    }
    sorted
}

/// `names` from the highest down.
pub fn sort_descending(names: &Vec<String>) -> (sorted: Vec<String>)
    ensures
        sorted.deep_view().to_multiset() == names.deep_view().to_multiset(),
        sorted_descending(sorted.deep_view()),
{
    sort_names(names, true)
}

/// `names` from the lowest up.
pub fn sort_ascending(names: &Vec<String>) -> (sorted: Vec<String>)
    ensures
        sorted.deep_view().to_multiset() == names.deep_view().to_multiset(),
        sorted_ascending(sorted.deep_view()),
{
    sort_names(names, false)
}

} // verus!
