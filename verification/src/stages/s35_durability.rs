//! Stage 35: Durability across SIGKILL.
use vstd::prelude::*;
use crate::examples::{described, none, Described};
use crate::stages::{tests, tests_of, Ladder, Stage, TestRow};

verus! {

/// What somebody stuck on this stage is told, one after the other.
pub const HINTS: [&'static str; 4] = [
    "An acknowledged write must survive kill -9 and a restart: fsync before you answer",
    "The data directory must be reopenable without being reformatted",
    "The revision sequence continues where it left off; it never restarts at 1",
    "A torn record at the tail of the log may be dropped, but never an acknowledged write",
];

/// The tests of this stage.
pub const TESTS: [TestRow; 1] = [
    ("placeholder", "placeholder", false, false, 0, 0, ""),
];

/// What stage 35 holds.
pub open spec fn is_stage(s: Stage) -> bool {
    &&& s.number == 35
    &&& s.slug == "durability"
    &&& s.name == "Durability across SIGKILL"
    &&& s.ext == true
    &&& s.ladder == Ladder::Node
    &&& s.hints == HINTS
    &&& s.tests@ == tests_of(TESTS@)
    &&& described(s.examples@) == Seq::<Described>::empty()
}

/// Stage 35.
pub fn stage() -> (s: Stage)
    ensures
        is_stage(s),
        s.in_place(),
{
    let s = Stage {
        number: 35,
        slug: "durability",
        name: "Durability across SIGKILL",
        ext: true,
        ladder: Ladder::Node,
        hints: HINTS,
        examples: none(),
        tests: tests(TESTS),
    };
    proof {
        reveal(Stage::in_place);
        assert(s.examples@.len() == described(s.examples@).len());
    }
    s
}

} // verus!
