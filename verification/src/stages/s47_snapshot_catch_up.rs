//! Stage 47: A far-behind follower is caught up by snapshot.
use vstd::prelude::*;
use crate::examples::{described, none, Described};
use crate::stages::{tests, tests_of, Ladder, Stage, TestRow};

verus! {

/// What somebody stuck on this stage is told, one after the other.
pub const HINTS: [&'static str; 4] = [
    "When the entries a follower needs have been compacted away, send a snapshot instead",
    "The follower replaces its whole state with the snapshot and continues from its index",
    "After a snapshot install the follower answers the same values as everyone else",
    "Compaction on the leader is what makes this path necessary at all",
];

/// The tests of this stage.
pub const TESTS: [TestRow; 1] = [
    ("placeholder", "placeholder", false, false, 0, 0, ""),
];

/// What stage 47 holds.
pub open spec fn is_stage(s: Stage) -> bool {
    &&& s.number == 47
    &&& s.slug == "snapshot_catch_up"
    &&& s.name == "A far-behind follower is caught up by snapshot"
    &&& s.ext == true
    &&& s.ladder == Ladder::Cluster
    &&& s.hints == HINTS
    &&& s.tests@ == tests_of(TESTS@)
    &&& described(s.examples@) == Seq::<Described>::empty()
}

/// Stage 47.
pub fn stage() -> (s: Stage)
    ensures
        is_stage(s),
        s.in_place(),
{
    let s = Stage {
        number: 47,
        slug: "snapshot_catch_up",
        name: "A far-behind follower is caught up by snapshot",
        ext: true,
        ladder: Ladder::Cluster,
        hints: HINTS,
        examples: none(),
        tests: tests(TESTS),
    };
    proof {
        reveal(Stage::in_place);
        assert(s.examples@.len() == described(s.examples@).len());
    }
    s
}

} // verus!
