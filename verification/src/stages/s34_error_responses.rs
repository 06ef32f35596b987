//! Stage 34: Error responses.
use vstd::prelude::*;
use crate::examples::{described, none, Described};
use crate::stages::{tests, tests_of, Ladder, Stage, TestRow};

verus! {

/// What somebody stuck on this stage is told, one after the other.
pub const HINTS: [&'static str; 4] = [
    "Errors are a 4xx status and a body of {\"code\": <grpc code>, \"message\": \"...\"}",
    "Bad base64 is code 3, a lease that does not exist is code 5, too large is code 8",
    "An unknown path is 404 and never a 200 with an empty body",
    "A bad request must not change the store, and must not close the connection",
];

/// The tests of this stage.
pub const TESTS: [TestRow; 1] = [
    ("placeholder", "placeholder", false, false, 0, 0, ""),
];

/// What stage 34 holds.
pub open spec fn is_stage(s: Stage) -> bool {
    &&& s.number == 34
    &&& s.slug == "error_responses"
    &&& s.name == "Error responses"
    &&& s.ext == true
    &&& s.ladder == Ladder::Node
    &&& s.hints == HINTS
    &&& s.tests@ == tests_of(TESTS@)
    &&& described(s.examples@) == Seq::<Described>::empty()
}

/// Stage 34.
pub fn stage() -> (s: Stage)
    ensures
        is_stage(s),
        s.in_place(),
{
    let s = Stage {
        number: 34,
        slug: "error_responses",
        name: "Error responses",
        ext: true,
        ladder: Ladder::Node,
        hints: HINTS,
        examples: none(),
        tests: tests(TESTS),
    };
    proof {
        reveal(Stage::in_place);
        assert(s.examples@.len() == described(s.examples@).len());
    }
    s
}

} // verus!
