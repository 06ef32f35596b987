//! Stage 40: The minority of a partition refuses writes.
use vstd::prelude::*;
use crate::examples::{described, none, Described};
use crate::stages::{tests, tests_of, Ladder, Stage, TestRow};

verus! {

/// What somebody stuck on this stage is told, one after the other.
pub const HINTS: [&'static str; 4] = [
    "A member that cannot reach a quorum must refuse a write rather than apply it locally",
    "It must also refuse a linearizable read: answering from stale state is the same bug",
    "Refuse with an error the client can see, and do not hang forever",
    "A serializable read may still be answered, and may be stale — that is what it means",
];

/// The tests of this stage.
pub const TESTS: [TestRow; 1] = [
    ("placeholder", "placeholder", false, false, 0, 0, ""),
];

/// What stage 40 holds.
pub open spec fn is_stage(s: Stage) -> bool {
    &&& s.number == 40
    &&& s.slug == "minority_refuses_writes"
    &&& s.name == "The minority of a partition refuses writes"
    &&& s.ext == true
    &&& s.ladder == Ladder::Cluster
    &&& s.hints == HINTS
    &&& s.tests@ == tests_of(TESTS@)
    &&& described(s.examples@) == Seq::<Described>::empty()
}

/// Stage 40.
pub fn stage() -> (s: Stage)
    ensures
        is_stage(s),
        s.in_place(),
{
    let s = Stage {
        number: 40,
        slug: "minority_refuses_writes",
        name: "The minority of a partition refuses writes",
        ext: true,
        ladder: Ladder::Cluster,
        hints: HINTS,
        examples: none(),
        tests: tests(TESTS),
    };
    proof {
        reveal(Stage::in_place);
        assert(s.examples@.len() == described(s.examples@).len());
    }
    s
}

} // verus!
