//! Majorities, and why two of them always meet.
use vstd::prelude::*;

verus! {

/// The smallest number of members that is more than half of `n`.
pub open spec fn majority_of(n: nat) -> nat {
    n / 2 + 1
}

/// The smallest number of members that is more than half of `n`.
pub fn majority(n: usize) -> (r: usize)
    ensures
        r == majority_of(n as nat),
{
    n / 2 + 1
}

/// A majority is more than half, and no smaller number is.
pub proof fn majority_is_the_least(n: nat, k: nat)
    ensures
        2 * majority_of(n) > n,
        2 * k > n <==> k >= majority_of(n),
{
}

/// Two groups out of the same members that are together more than all of them share a member.
pub proof fn groups_meet<A>(all: Set<A>, a: Set<A>, b: Set<A>)
    requires
        all.finite(),
        a.subset_of(all),
        b.subset_of(all),
        a.len() + b.len() > all.len(),
    ensures
        exists|x: A| #[trigger] a.contains(x) && b.contains(x),
{
    vstd::set_lib::lemma_set_subset_finite(all, a);
    vstd::set_lib::lemma_set_subset_finite(all, b);
    if forall|x: A| !(#[trigger] a.contains(x) && b.contains(x)) {
        assert(a.disjoint(b));
        vstd::set_lib::lemma_set_disjoint_lens(a, b);
        vstd::set_lib::lemma_len_subset(a + b, all);
    }
}

/// Any two majorities of the same members share a member.
pub proof fn majorities_meet<A>(all: Set<A>, a: Set<A>, b: Set<A>)
    requires
        all.finite(),
        a.subset_of(all),
        b.subset_of(all),
        a.len() >= majority_of(all.len()),
        b.len() >= majority_of(all.len()),
    ensures
        exists|x: A| #[trigger] a.contains(x) && b.contains(x),
{
    groups_meet(all, a, b);
}

} // verus!
