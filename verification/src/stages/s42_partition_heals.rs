//! Stage 42: A healed partition catches the minority up.
use vstd::prelude::*;
use crate::examples::{described, none, Described};
use crate::stages::{tests, tests_of, Ladder, Stage, TestRow};

verus! {

/// What somebody stuck on this stage is told, one after the other.
pub const HINTS: [&'static str; 4] = [
    "When the link comes back, the stale member learns the entries it missed",
    "It adopts the higher term and steps down if it still thought it was leader",
    "Nothing the minority side accepted may appear in the log afterwards",
    "The catch-up must finish without a restart or an operator",
];

/// The tests of this stage.
pub const TESTS: [TestRow; 1] = [
    ("placeholder", "placeholder", false, false, 0, 0, ""),
];

/// What stage 42 holds.
pub open spec fn is_stage(s: Stage) -> bool {
    &&& s.number == 42
    &&& s.slug == "partition_heals"
    &&& s.name == "A healed partition catches the minority up"
    &&& s.ext == true
    &&& s.ladder == Ladder::Cluster
    &&& s.hints == HINTS
    &&& s.tests@ == tests_of(TESTS@)
    &&& described(s.examples@) == Seq::<Described>::empty()
}

/// Stage 42.
pub fn stage() -> (s: Stage)
    ensures
        is_stage(s),
        s.in_place(),
{
    let s = Stage {
        number: 42,
        slug: "partition_heals",
        name: "A healed partition catches the minority up",
        ext: true,
        ladder: Ladder::Cluster,
        hints: HINTS,
        examples: none(),
        tests: tests(TESTS),
    };
    proof {
        reveal(Stage::in_place);
        assert(s.examples@.len() == described(s.examples@).len());
    }
    s
}

} // verus!
