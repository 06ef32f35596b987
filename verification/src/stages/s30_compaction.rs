//! Stage 30: Compaction and ErrCompacted.
use vstd::prelude::*;
use crate::examples::{described, none, Described};
use crate::stages::{tests, tests_of, Ladder, Stage, TestRow};

verus! {

/// What somebody stuck on this stage is told, one after the other.
pub const HINTS: [&'static str; 4] = [
    "POST /v3/kv/compaction drops every revision below the one given",
    "A read below the compacted revision is code 11, not an empty answer",
    "Compaction never removes the newest version of a live key",
    "Compacting twice, or below what is already compacted, is an error, not a no-op",
];

/// The tests of this stage.
pub const TESTS: [TestRow; 1] = [
    ("placeholder", "placeholder", false, false, 0, 0, ""),
];

/// What stage 30 holds.
pub open spec fn is_stage(s: Stage) -> bool {
    &&& s.number == 30
    &&& s.slug == "compaction"
    &&& s.name == "Compaction and ErrCompacted"
    &&& s.ext == true
    &&& s.ladder == Ladder::Node
    &&& s.hints == HINTS
    &&& s.tests@ == tests_of(TESTS@)
    &&& described(s.examples@) == Seq::<Described>::empty()
}

/// Stage 30.
pub fn stage() -> (s: Stage)
    ensures
        is_stage(s),
        s.in_place(),
{
    let s = Stage {
        number: 30,
        slug: "compaction",
        name: "Compaction and ErrCompacted",
        ext: true,
        ladder: Ladder::Node,
        hints: HINTS,
        examples: none(),
        tests: tests(TESTS),
    };
    proof {
        reveal(Stage::in_place);
        assert(s.examples@.len() == described(s.examples@).len());
    }
    s
}

} // verus!
