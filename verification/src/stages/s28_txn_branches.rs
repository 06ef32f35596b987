//! Stage 28: Transactions: compare, success, failure.
use vstd::prelude::*;
use crate::examples::{described, none, Described};
use crate::stages::{tests, tests_of, Ladder, Stage, TestRow};

verus! {

/// What somebody stuck on this stage is told, one after the other.
pub const HINTS: [&'static str; 4] = [
    "POST /v3/kv/txn runs the success branch when every comparison holds, the failure one \
     otherwise",
    "succeeded is false when the failure branch ran, and may be omitted rather than sent as false",
    "responses carries one entry per operation of the branch that ran, in order",
    "A transaction is one atomic step: its writes share one revision",
];

/// The tests of this stage.
pub const TESTS: [TestRow; 1] = [
    ("placeholder", "placeholder", false, false, 0, 0, ""),
];

/// What stage 28 holds.
pub open spec fn is_stage(s: Stage) -> bool {
    &&& s.number == 28
    &&& s.slug == "txn_branches"
    &&& s.name == "Transactions: compare, success, failure"
    &&& s.ext == false
    &&& s.ladder == Ladder::Node
    &&& s.hints == HINTS
    &&& s.tests@ == tests_of(TESTS@)
    &&& described(s.examples@) == Seq::<Described>::empty()
}

/// Stage 28.
pub fn stage() -> (s: Stage)
    ensures
        is_stage(s),
        s.in_place(),
{
    let s = Stage {
        number: 28,
        slug: "txn_branches",
        name: "Transactions: compare, success, failure",
        ext: false,
        ladder: Ladder::Node,
        hints: HINTS,
        examples: none(),
        tests: tests(TESTS),
    };
    proof {
        reveal(Stage::in_place);
        assert(s.examples@.len() == described(s.examples@).len());
    }
    s
}

} // verus!
