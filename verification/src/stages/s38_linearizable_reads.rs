//! Stage 38: Linearizable reads after a write elsewhere.
use vstd::prelude::*;
use crate::examples::{described, none, Described};
use crate::stages::{tests, tests_of, Ladder, Stage, TestRow};

verus! {

/// What somebody stuck on this stage is told, one after the other.
pub const HINTS: [&'static str; 4] = [
    "A read that is not serializable must not answer from a stale local state",
    "Confirm leadership (a read index, or a round of heartbeats) before answering",
    "A write acknowledged by one member must be visible to a read on any other, immediately",
    "serializable: true is the opt-out, and it is the only way to answer locally",
];

/// The tests of this stage.
pub const TESTS: [TestRow; 1] = [
    ("placeholder", "placeholder", false, false, 0, 0, ""),
];

/// What stage 38 holds.
pub open spec fn is_stage(s: Stage) -> bool {
    &&& s.number == 38
    &&& s.slug == "linearizable_reads"
    &&& s.name == "Linearizable reads after a write elsewhere"
    &&& s.ext == false
    &&& s.ladder == Ladder::Cluster
    &&& s.hints == HINTS
    &&& s.tests@ == tests_of(TESTS@)
    &&& described(s.examples@) == Seq::<Described>::empty()
}

/// Stage 38.
pub fn stage() -> (s: Stage)
    ensures
        is_stage(s),
        s.in_place(),
{
    let s = Stage {
        number: 38,
        slug: "linearizable_reads",
        name: "Linearizable reads after a write elsewhere",
        ext: false,
        ladder: Ladder::Cluster,
        hints: HINTS,
        examples: none(),
        tests: tests(TESTS),
    };
    proof {
        reveal(Stage::in_place);
        assert(s.examples@.len() == described(s.examples@).len());
    }
    s
}

} // verus!
