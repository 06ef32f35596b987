//! Stage 29: Compare-and-swap semantics.
use vstd::prelude::*;
use crate::examples::{described, none, Described};
use crate::stages::{tests, tests_of, Ladder, Stage, TestRow};

verus! {

/// What somebody stuck on this stage is told, one after the other.
pub const HINTS: [&'static str; 4] = [
    "VERSION = 0 is how you say 'this key does not exist'",
    "CREATE, MOD, VALUE and VERSION are four different comparisons with four different fields",
    "Two concurrent swaps from the same value: exactly one may succeed",
    "A comparison naming a key that does not exist compares against zeros, it does not fail the \
     request",
];

/// The tests of this stage.
pub const TESTS: [TestRow; 1] = [
    ("placeholder", "placeholder", false, false, 0, 0, ""),
];

/// What stage 29 holds.
pub open spec fn is_stage(s: Stage) -> bool {
    &&& s.number == 29
    &&& s.slug == "txn_compare_and_swap"
    &&& s.name == "Compare-and-swap semantics"
    &&& s.ext == true
    &&& s.ladder == Ladder::Node
    &&& s.hints == HINTS
    &&& s.tests@ == tests_of(TESTS@)
    &&& described(s.examples@) == Seq::<Described>::empty()
}

/// Stage 29.
pub fn stage() -> (s: Stage)
    ensures
        is_stage(s),
        s.in_place(),
{
    let s = Stage {
        number: 29,
        slug: "txn_compare_and_swap",
        name: "Compare-and-swap semantics",
        ext: true,
        ladder: Ladder::Node,
        hints: HINTS,
        examples: none(),
        tests: tests(TESTS),
    };
    proof {
        reveal(Stage::in_place);
        assert(s.examples@.len() == described(s.examples@).len());
    }
    s
}

} // verus!
