//! Stage 33: Watches.
use vstd::prelude::*;
use crate::examples::{described, none, Described};
use crate::stages::{tests, tests_of, Ladder, Stage, TestRow};

verus! {

/// What somebody stuck on this stage is told, one after the other.
pub const HINTS: [&'static str; 4] = [
    "POST /v3/watch is a stream: every message is a line of JSON wrapped in {\"result\": ...}",
    "The first message acknowledges the create request and carries created: true",
    "start_revision replays everything from that revision onwards, in revision order",
    "A delete event carries type DELETE and a kv with only the key and mod_revision",
];

/// The tests of this stage.
pub const TESTS: [TestRow; 1] = [
    ("placeholder", "placeholder", false, false, 0, 0, ""),
];

/// What stage 33 holds.
pub open spec fn is_stage(s: Stage) -> bool {
    &&& s.number == 33
    &&& s.slug == "watches"
    &&& s.name == "Watches"
    &&& s.ext == true
    &&& s.ladder == Ladder::Node
    &&& s.hints == HINTS
    &&& s.tests@ == tests_of(TESTS@)
    &&& described(s.examples@) == Seq::<Described>::empty()
}

/// Stage 33.
pub fn stage() -> (s: Stage)
    ensures
        is_stage(s),
        s.in_place(),
{
    let s = Stage {
        number: 33,
        slug: "watches",
        name: "Watches",
        ext: true,
        ladder: Ladder::Node,
        hints: HINTS,
        examples: none(),
        tests: tests(TESTS),
    };
    proof {
        reveal(Stage::in_place);
        assert(s.examples@.len() == described(s.examples@).len());
    }
    s
}

} // verus!
