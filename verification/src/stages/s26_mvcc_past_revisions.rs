//! Stage 26: MVCC: reading at a past revision.
//!
//! The store keeps every version of every key. A read that names a revision sees the store as it was
//! then, under a header that says what time it is now; revision 0 means now, and a revision that has not
//! been reached is refused.
use vstd::prelude::*;
use crate::claims::Claims;
use crate::etcd::coded;
use crate::examples::{
    described, node_described, node_example_after, put_call, put_request, put_request_call, requests, two,
    Call, Described, ExampleSpec, Request, TextRow,
};
use crate::stages::{rows_written, tests, tests_of, Ladder, Stage, TestRow};

verus! {

/// Two writes to one key.
pub open spec fn two_puts() -> Seq<Request> {
    seq![put_request("mv"@, "one"@), put_request("mv"@, "two"@)]
}

/// Two writes to one key, so the example has a history to read back.
pub fn two_writes() -> (calls: Vec<Call>)
    ensures
        requests(calls@) == two_puts(),
{
    let mut calls: Vec<Call> = Vec::new();
    put_request_call(&mut calls, put_call("mv", "one"));
    put_request_call(&mut calls, put_call("mv", "two"));
    assert(requests(calls@) =~= two_puts());
    calls
}

/// A read of the key at a revision.
pub open spec fn read_at(revision: Seq<char>) -> Request {
    Request {
        path: "/v3/kv/range"@,
        body: seq![("key"@, coded("mv"@)), ("revision"@, revision)],
    }
}

/// A read of the key at a revision.
fn read_call(revision: &str) -> (c: Call)
    ensures
        c@ == read_at(revision@),
{
    let c = Call::new("/v3/kv/range").coded("key", "mv").plain("revision", revision);
    assert(c@.body =~= read_at(revision@).body);
    c
}

/// A read at an old revision sees the old value.
pub const THE_OLD_VALUE: Claims<6> = (
    "a read at an old revision",
    [
        ("", "=", "old.count", "1", "range(revision=first).count"),
        ("", "=", "old.value", "'one", "range(revision=first).kvs[0].value"),
        ("", "=", "old.mod_revision", "first", "range(revision=first).kvs[0].mod_revision"),
        ("", "=", "old.version", "1", "range(revision=first).kvs[0].version"),
        ("", "=", "now.value", "'two", "range().kvs[0].value"),
        ("", "=", "now.mod_revision", "second", "range().kvs[0].mod_revision"),
    ],
);

/// A key deleted later is still there before the delete.
pub const DELETED_LATER_STILL_THERE: Claims<4> = (
    "a key read at a revision before it was deleted",
    [
        ("", "=", "before.count", "1", "range(revision=put).count"),
        ("", "=", "before.value", "'alive", "range(revision=put).kvs[0].value"),
        ("", "=", "now.count", "0", "range().count"),
        ("", ">=", "delete", "put+1", "deleterange.header.revision"),
    ],
);

/// A key created later is absent before its creation.
pub const CREATED_LATER_IS_ABSENT: Claims<3> = (
    "a key read before it was created",
    [
        ("", "=", "before.count", "0", "range(revision=anchor).count"),
        ("", "=", "before.len", "0", "range(revision=anchor).kvs.len()"),
        ("", "=", "created.count", "1", "range(revision=created).count"),
    ],
);

/// The header of a historical read reports the current revision.
pub const HEADER_IS_CURRENT: Claims<2> = (
    "the header of a historical read",
    [
        ("", "=", "old", "latest", "range(revision=first).header.revision"),
        (
            "",
            "? old > first",
            "first old",
            "the store's current clock, not the revision the read named",
            "range(revision=first).header.revision > the revision asked for",
        ),
    ],
);

/// Revision zero means now.
pub const REVISION_ZERO_MEANS_NOW: Claims<4> = (
    "revision 0",
    [
        ("", "=", "zero.count", "1", "range(revision=0).count"),
        ("", "=", "zero.value", "'latest", "range(revision=0).kvs[0].value"),
        ("", "=", "zero.kvs", "omitted.kvs", "range(revision=0).kvs"),
        ("", "=", "zero.revision", "omitted.revision", "range(revision=0).header.revision"),
    ],
);

/// A revision the store has not reached is an error.
pub const A_FUTURE_REVISION: Claims<3> = (
    "a revision the store has not reached",
    [
        ("", "see", "far.body", "", "error(far future).body"),
        ("", "see", "next.body", "", "error(one past).body"),
        ("", "=", "now.count", "1", "range(revision=current).count"),
    ],
);

/// A historical range sees the store as it was.
pub const A_HISTORICAL_RANGE: Claims<3> = (
    "a range read at an old revision",
    [
        ("", "=", "old.keys", "[{ns}h/00\n{ns}h/01\n{ns}h/02", "range(revision=then).kvs.keys()"),
        ("", "=", "old.count", "3", "range(revision=then).count"),
        ("", "=", "now.keys", "[{ns}h/00\n{ns}h/02\n{ns}h/03", "range().kvs.keys()"),
    ],
);

/// A historical range respects limit and sorting too.
pub const HISTORICAL_OPTIONS: Claims<3> = (
    "limit and sorting over a historical range",
    [
        ("", "=", "keys", "[{ns}o/04\n{ns}o/03", "range(revision=then, DESCEND, limit 2).kvs.keys()"),
        ("", "=", "count", "5", "range(revision=then, DESCEND, limit 2).count"),
        (
            "",
            "? more",
            "more",
            "true, because three of the five were left out",
            "range(revision=then, DESCEND, limit 2).more",
        ),
    ],
);

/// What somebody stuck on this stage is told, one after the other.
pub const HINTS: [&'static str; 4] = [
    "revision in a range request reads the store as it was at that revision",
    "A key deleted later is still there when read at a revision before the delete",
    "The header of a historical read still reports the store's current revision",
    "Revision 0 means 'now', because 0 is the zero value and cannot mean 'the beginning'",
];

/// The tests of this stage.
pub const TESTS: [TestRow; 8] = [
    ("a read at an old revision sees the old value", "the_old_value", true, false, 0, 0, ""),
    (
        "a key deleted later is still there before the delete",
        "deleted_later_still_there",
        true,
        false,
        0,
        0,
        "",
    ),
    (
        "a key created later is absent before its creation",
        "created_later_is_absent",
        true,
        false,
        0,
        0,
        "",
    ),
    (
        "the header of a historical read reports the current revision",
        "header_is_current",
        true,
        false,
        0,
        0,
        "",
    ),
    ("revision zero means now", "revision_zero_means_now", true, false, 0, 0, ""),
    (
        "a revision the store has not reached is an error",
        "a_future_revision",
        true,
        false,
        0,
        0,
        "",
    ),
    ("a historical range sees the store as it was", "a_historical_range", true, false, 0, 0, ""),
    (
        "a historical range respects limit and sorting too",
        "historical_options",
        true,
        false,
        0,
        0,
        "",
    ),
];

/// The texts of the first example.
pub const FIRST_TEXTS: TextRow = (
    "Reading a key as it was",
    "the key `mv` as the store held it at revision 2",
    "the first value, alongside a header whose revision is the current one",
    "The kv carries the revisions it had then — mod_revision 2, version 1 — while the header \
     carries the store's clock now. Nothing about a historical read rewinds the header.",
);

/// The texts of the second example.
pub const SECOND_TEXTS: TextRow = (
    "A revision the store has not reached",
    "a revision far beyond anything that has happened",
    "HTTP 400 and code 11, out of range",
    "A future revision is refused rather than answered empty: an empty answer would claim the \
     key did not exist at a moment that has not happened. The same code comes back for a \
     revision compacted away at the other end of the history.",
);

/// The worked examples of this stage.
pub open spec fn examples_described() -> Seq<Described> {
    seq![
        node_described(FIRST_TEXTS, two_puts(), read_at("2"@)),
        node_described(SECOND_TEXTS, two_puts(), read_at("99999"@)),
    ]
}

/// The worked examples of this stage.
pub fn examples() -> (examples: Vec<ExampleSpec>)
    ensures
        described(examples@) == examples_described(),
{
    two(
        node_example_after(FIRST_TEXTS, two_writes(), read_call("2")),
        node_example_after(SECOND_TEXTS, two_writes(), read_call("99999")),
    )
}

/// What the rows say of this stage's place in the suite.
proof fn lemma_in_place()
    ensures
        rows_written(TESTS@),
{
    assert(rows_written(TESTS@)) by {
        reveal_strlit("placeholder");
        reveal_strlit("a read at an old revision sees the old value");
        assert(TESTS@[0].0@.len() == 44);
        reveal_strlit("a key deleted later is still there before the delete");
        assert(TESTS@[1].0@.len() == 52);
        reveal_strlit("a key created later is absent before its creation");
        assert(TESTS@[2].0@.len() == 49);
        reveal_strlit("the header of a historical read reports the current revision");
        assert(TESTS@[3].0@.len() == 60);
        reveal_strlit("revision zero means now");
        assert(TESTS@[4].0@.len() == 23);
        reveal_strlit("a revision the store has not reached is an error");
        assert(TESTS@[5].0@.len() == 48);
        reveal_strlit("a historical range sees the store as it was");
        assert(TESTS@[6].0@.len() == 43);
        reveal_strlit("a historical range respects limit and sorting too");
        assert(TESTS@[7].0@.len() == 49);
        assert forall|i: int| 0 <= i < 8 implies (#[trigger] TESTS@[i]).0@ != "placeholder"@ by {
            assert(i == 0 || i == 1 || i == 2 || i == 3 || i == 4 || i == 5 || i == 6 || i == 7);
        }
    }
}

/// What stage 26 holds.
pub open spec fn is_stage(s: Stage) -> bool {
    &&& s.number == 26
    &&& s.slug == "mvcc_past_revisions"
    &&& s.name == "MVCC: reading at a past revision"
    &&& s.ext == true
    &&& s.ladder == Ladder::Node
    &&& s.hints == HINTS
    &&& s.tests@ == tests_of(TESTS@)
    &&& described(s.examples@) == examples_described()
}

/// Stage 26.
pub fn stage() -> (s: Stage)
    ensures
        is_stage(s),
        s.in_place(),
{
    let s = Stage {
        number: 26,
        slug: "mvcc_past_revisions",
        name: "MVCC: reading at a past revision",
        ext: true,
        ladder: Ladder::Node,
        hints: HINTS,
        examples: examples(),
        tests: tests(TESTS),
    };
    proof {
        reveal(Stage::in_place);
        lemma_in_place();
    }
    s
}

} // verus!
