//! Stage 27: prev_kv and deleting ranges.
use vstd::prelude::*;
use crate::examples::{described, none, Described};
use crate::stages::{tests, tests_of, Ladder, Stage, TestRow};

verus! {

/// What somebody stuck on this stage is told, one after the other.
pub const HINTS: [&'static str; 4] = [
    "prev_kv on a put answers the pair as it was before the write, or nothing when it is new",
    "POST /v3/kv/deleterange answers how many keys it removed",
    "A delete over a range removes every key in it and counts them all",
    "Deleting a key that is not there is a successful request that deleted zero keys",
];

/// The tests of this stage.
pub const TESTS: [TestRow; 1] = [
    ("placeholder", "placeholder", false, false, 0, 0, ""),
];

/// What stage 27 holds.
pub open spec fn is_stage(s: Stage) -> bool {
    &&& s.number == 27
    &&& s.slug == "prev_kv_and_delete"
    &&& s.name == "prev_kv and deleting ranges"
    &&& s.ext == false
    &&& s.ladder == Ladder::Node
    &&& s.hints == HINTS
    &&& s.tests@ == tests_of(TESTS@)
    &&& described(s.examples@) == Seq::<Described>::empty()
}

/// Stage 27.
pub fn stage() -> (s: Stage)
    ensures
        is_stage(s),
        s.in_place(),
{
    let s = Stage {
        number: 27,
        slug: "prev_kv_and_delete",
        name: "prev_kv and deleting ranges",
        ext: false,
        ladder: Ladder::Node,
        hints: HINTS,
        examples: none(),
        tests: tests(TESTS),
    };
    proof {
        reveal(Stage::in_place);
        assert(s.examples@.len() == described(s.examples@).len());
    }
    s
}

} // verus!
