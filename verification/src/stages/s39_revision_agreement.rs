//! Stage 39: Revisions and terms agree across members.
use vstd::prelude::*;
use crate::examples::{described, none, Described};
use crate::stages::{tests, tests_of, Ladder, Stage, TestRow};

verus! {

/// What somebody stuck on this stage is told, one after the other.
pub const HINTS: [&'static str; 4] = [
    "cluster_id is the same on every member; member_id is not",
    "Revisions are cluster-wide: two members never answer different revisions for the same state",
    "raft_term is the same on every member once an election has settled",
    "raft_applied_index catches up to raft_index on a quiet cluster",
];

/// The tests of this stage.
pub const TESTS: [TestRow; 1] = [
    ("placeholder", "placeholder", false, false, 0, 0, ""),
];

/// What stage 39 holds.
pub open spec fn is_stage(s: Stage) -> bool {
    &&& s.number == 39
    &&& s.slug == "revision_agreement"
    &&& s.name == "Revisions and terms agree across members"
    &&& s.ext == true
    &&& s.ladder == Ladder::Cluster
    &&& s.hints == HINTS
    &&& s.tests@ == tests_of(TESTS@)
    &&& described(s.examples@) == Seq::<Described>::empty()
}

/// Stage 39.
pub fn stage() -> (s: Stage)
    ensures
        is_stage(s),
        s.in_place(),
{
    let s = Stage {
        number: 39,
        slug: "revision_agreement",
        name: "Revisions and terms agree across members",
        ext: true,
        ladder: Ladder::Cluster,
        hints: HINTS,
        examples: none(),
        tests: tests(TESTS),
    };
    proof {
        reveal(Stage::in_place);
        assert(s.examples@.len() == described(s.examples@).len());
    }
    s
}

} // verus!
