//! Stage 54: Linearizability under fault injection.
use vstd::prelude::*;
use crate::examples::{described, none, Described};
use crate::stages::{tests, tests_of, Ladder, Stage, TestRow};

verus! {

/// What somebody stuck on this stage is told, one after the other.
pub const HINTS: [&'static str; 4] = [
    "A randomized concurrent workload runs while the seeded schedule cuts and heals the network",
    "Every call is recorded with the instant it was made and the instant it answered",
    "An operation whose answer was lost may have happened or not; everything else is pinned",
    "The checker looks for one total order that a single key/value store could have produced",
];

/// The tests of this stage.
pub const TESTS: [TestRow; 1] = [
    ("placeholder", "placeholder", false, false, 0, 0, ""),
];

/// What stage 54 holds.
pub open spec fn is_stage(s: Stage) -> bool {
    &&& s.number == 54
    &&& s.slug == "linearizability"
    &&& s.name == "Linearizability under fault injection"
    &&& s.ext == true
    &&& s.ladder == Ladder::Cluster
    &&& s.hints == HINTS
    &&& s.tests@ == tests_of(TESTS@)
    &&& described(s.examples@) == Seq::<Described>::empty()
}

/// Stage 54.
pub fn stage() -> (s: Stage)
    ensures
        is_stage(s),
        s.in_place(),
{
    let s = Stage {
        number: 54,
        slug: "linearizability",
        name: "Linearizability under fault injection",
        ext: true,
        ladder: Ladder::Cluster,
        hints: HINTS,
        examples: none(),
        tests: tests(TESTS),
    };
    proof {
        reveal(Stage::in_place);
        assert(s.examples@.len() == described(s.examples@).len());
    }
    s
}

} // verus!
