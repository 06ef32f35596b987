//! Stage 46: A long-partitioned follower catches up.
use vstd::prelude::*;
use crate::examples::{described, none, Described};
use crate::stages::{tests, tests_of, Ladder, Stage, TestRow};

verus! {

/// What somebody stuck on this stage is told, one after the other.
pub const HINTS: [&'static str; 4] = [
    "The leader keeps sending from the follower's next index until it catches up",
    "Hundreds of missed writes must arrive without a restart",
    "Until it has caught up, the follower must not answer linearizable reads from stale state",
    "Catching up must not disturb the members that were healthy",
];

/// The tests of this stage.
pub const TESTS: [TestRow; 1] = [
    ("placeholder", "placeholder", false, false, 0, 0, ""),
];

/// What stage 46 holds.
pub open spec fn is_stage(s: Stage) -> bool {
    &&& s.number == 46
    &&& s.slug == "follower_catch_up"
    &&& s.name == "A long-partitioned follower catches up"
    &&& s.ext == true
    &&& s.ladder == Ladder::Cluster
    &&& s.hints == HINTS
    &&& s.tests@ == tests_of(TESTS@)
    &&& described(s.examples@) == Seq::<Described>::empty()
}

/// Stage 46.
pub fn stage() -> (s: Stage)
    ensures
        is_stage(s),
        s.in_place(),
{
    let s = Stage {
        number: 46,
        slug: "follower_catch_up",
        name: "A long-partitioned follower catches up",
        ext: true,
        ladder: Ladder::Cluster,
        hints: HINTS,
        examples: none(),
        tests: tests(TESTS),
    };
    proof {
        reveal(Stage::in_place);
        assert(s.examples@.len() == described(s.examples@).len());
    }
    s
}

} // verus!
