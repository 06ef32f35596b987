//! Stage 45: An old leader rejoins without resurrecting anything.
use vstd::prelude::*;
use crate::examples::{described, none, Described};
use crate::stages::{tests, tests_of, Ladder, Stage, TestRow};

verus! {

/// What somebody stuck on this stage is told, one after the other.
pub const HINTS: [&'static str; 4] = [
    "A leader that was cut off may hold entries no quorum ever accepted",
    "On rejoining it sees a higher term, steps down, and truncates those entries",
    "A client that read from the new majority must never see the old entries appear",
    "Its own view of the key must become the cluster's, not the other way round",
];

/// The tests of this stage.
pub const TESTS: [TestRow; 1] = [
    ("placeholder", "placeholder", false, false, 0, 0, ""),
];

/// What stage 45 holds.
pub open spec fn is_stage(s: Stage) -> bool {
    &&& s.number == 45
    &&& s.slug == "old_leader_rejoins"
    &&& s.name == "An old leader rejoins without resurrecting anything"
    &&& s.ext == true
    &&& s.ladder == Ladder::Cluster
    &&& s.hints == HINTS
    &&& s.tests@ == tests_of(TESTS@)
    &&& described(s.examples@) == Seq::<Described>::empty()
}

/// Stage 45.
pub fn stage() -> (s: Stage)
    ensures
        is_stage(s),
        s.in_place(),
{
    let s = Stage {
        number: 45,
        slug: "old_leader_rejoins",
        name: "An old leader rejoins without resurrecting anything",
        ext: true,
        ladder: Ladder::Cluster,
        hints: HINTS,
        examples: none(),
        tests: tests(TESTS),
    };
    proof {
        reveal(Stage::in_place);
        assert(s.examples@.len() == described(s.examples@).len());
    }
    s
}

} // verus!
