//! Stage 48: Adding a member.
use vstd::prelude::*;
use crate::examples::{described, none, Described};
use crate::stages::{tests, tests_of, Ladder, Stage, TestRow};

verus! {

/// What somebody stuck on this stage is told, one after the other.
pub const HINTS: [&'static str; 4] = [
    "POST /v3/cluster/member/add takes the new member's peer URLs and changes the configuration",
    "The new member starts with --initial-cluster-state existing and the full member list",
    "The cluster keeps serving throughout: a configuration change is one more log entry",
    "The new member catches up from the leader and then counts towards the quorum",
];

/// The tests of this stage.
pub const TESTS: [TestRow; 1] = [
    ("placeholder", "placeholder", false, false, 0, 0, ""),
];

/// What stage 48 holds.
pub open spec fn is_stage(s: Stage) -> bool {
    &&& s.number == 48
    &&& s.slug == "member_add"
    &&& s.name == "Adding a member"
    &&& s.ext == true
    &&& s.ladder == Ladder::Cluster
    &&& s.hints == HINTS
    &&& s.tests@ == tests_of(TESTS@)
    &&& described(s.examples@) == Seq::<Described>::empty()
}

/// Stage 48.
pub fn stage() -> (s: Stage)
    ensures
        is_stage(s),
        s.in_place(),
{
    let s = Stage {
        number: 48,
        slug: "member_add",
        name: "Adding a member",
        ext: true,
        ladder: Ladder::Cluster,
        hints: HINTS,
        examples: none(),
        tests: tests(TESTS),
    };
    proof {
        reveal(Stage::in_place);
        assert(s.examples@.len() == described(s.examples@).len());
    }
    s
}

} // verus!
