//! Stage 55: Five members, mixed faults, and nothing left behind.
use vstd::prelude::*;
use crate::examples::{described, none, Described};
use crate::stages::{tests, tests_of, Ladder, Stage, TestRow};

verus! {

/// What somebody stuck on this stage is told, one after the other.
pub const HINTS: [&'static str; 4] = [
    "Five members tolerate two failures; the quorum arithmetic is the only thing that changes",
    "Partitions, kills, delays and message mangling all in one run",
    "After the faults heal, every member must converge on the same values",
    "No process, port or temporary file may survive the end of the run",
];

/// The tests of this stage.
pub const TESTS: [TestRow; 1] = [
    ("placeholder", "placeholder", false, false, 0, 0, ""),
];

/// What stage 55 holds.
pub open spec fn is_stage(s: Stage) -> bool {
    &&& s.number == 55
    &&& s.slug == "five_node_soak"
    &&& s.name == "Five members, mixed faults, and nothing left behind"
    &&& s.ext == true
    &&& s.ladder == Ladder::Cluster
    &&& s.hints == HINTS
    &&& s.tests@ == tests_of(TESTS@)
    &&& described(s.examples@) == Seq::<Described>::empty()
}

/// Stage 55.
pub fn stage() -> (s: Stage)
    ensures
        is_stage(s),
        s.in_place(),
{
    let s = Stage {
        number: 55,
        slug: "five_node_soak",
        name: "Five members, mixed faults, and nothing left behind",
        ext: true,
        ladder: Ladder::Cluster,
        hints: HINTS,
        examples: none(),
        tests: tests(TESTS),
    };
    proof {
        reveal(Stage::in_place);
        assert(s.examples@.len() == described(s.examples@).len());
    }
    s
}

} // verus!
