//! Stage 31: Leases: grant, attach, expire, revoke.
//!
//! A lease is a timer with keys hanging off it. When it runs out, or is revoked, every key on it goes in
//! one revision, and nobody sends a delete.
use vstd::prelude::*;
use crate::claims::Claims;
use crate::etcd::coded;
use crate::examples::{
    described, node_described, node_example, node_example_after, put_call, put_request, put_request_call,
    requests, two, Call, Described, ExampleSpec, Request, TextRow,
};
use crate::stages::{rows_written, tests, tests_of, Ladder, Stage, TestRow};

verus! {

/// A lifetime short enough that a test can wait for it, in seconds.
pub const SHORT_TTL: i64 = 2;

/// How long a test waits for an expiry that is overdue, in milliseconds: leases expire a little late and
/// never early.
pub const EXPIRY_PATIENCE_MS: u64 = 20_000;

/// The request for a lease of thirty seconds.
pub open spec fn grant_request(id: Seq<char>) -> Request {
    Request { path: "/v3/lease/grant"@, body: seq![("TTL"@, "30"@), ("ID"@, id)] }
}

/// The request for a lease of thirty seconds.
pub fn grant_call(id: &str) -> (c: Call)
    ensures
        c@ == grant_request(id@),
{
    let c = Call::new("/v3/lease/grant").plain("TTL", "30").plain("ID", id);
    assert(c@.body =~= grant_request(id@).body);
    c
}

/// A grant answers an id and a ttl.
pub const GRANT_ANSWERS_ID_AND_TTL: Claims<5> = (
    "what a grant answers",
    [
        ("", "!=", "id", "0", "lease.ID"),
        ("", "in", "ttl", "1 30", "lease.TTL"),
        ("", "=", "error", "'", "lease.error"),
        ("", "!=", "cluster_id", "0", "lease.header.cluster_id"),
        ("", "=", "revision", "before", "lease.header.revision"),
    ],
);

/// A put naming a lease binds the key to it.
pub const PUT_BINDS_THE_KEY: Claims<3> = (
    "the lease a kv reports",
    [
        ("", "=", "leased.lease", "id", "range(leased).kvs[0].lease"),
        ("", "=", "leased.value", "'v", "range(leased).kvs[0].value"),
        ("", "=", "plain.lease", "0", "range(plain).kvs[0].lease"),
    ],
);

/// A key on an expired lease disappears.
pub const EXPIRY_REMOVES_THE_KEY: Claims<5> = (
    "a key whose lease ran out",
    [
        ("", "remark", "", "", "the key lasted {lived} ms on a lease of 2 s"),
        ("", "=", "present.count", "1", "range(before).count"),
        ("", "=", "gone.count", "0", "range(after).count"),
        ("", ">=", "gone.revision", "put+1", "range(after).header.revision"),
        ("", ">=", "lived", "2000", "how long the key lasted, in ms"),
    ],
);

/// Revoking a lease removes its keys at once.
pub const REVOKE_REMOVES_THE_KEYS: Claims<3> = (
    "revoking a lease",
    [
        ("", "=", "gone.count", "0", "range(leased).count"),
        ("", "=", "kept.count", "1", "range(unleased).count"),
        ("", ">=", "revoke", "put+1", "revoke.header.revision"),
    ],
);

/// Revoking a lease twice is an error.
pub const REVOKE_TWICE: Claims<1> = (
    "revoking a lease that is already gone",
    [
        ("", "=", "count", "0", "range.count"),
    ],
);

/// A put naming a lease that does not exist is an error.
pub const PUT_WITH_AN_UNKNOWN_LEASE: Claims<2> = (
    "a put onto a lease that does not exist",
    [
        ("", "=", "count", "0", "range.count"),
        ("", "=", "revision", "before", "range.header.revision"),
    ],
);

/// Every key on one lease disappears in a single revision.
pub const ONE_LEASE_ONE_REVISION: Claims<3> = (
    "four keys on one lease",
    [
        ("", "=", "present.count", "4", "range(before).count"),
        ("", "=", "gone.count", "0", "range(after).count"),
        ("", "=", "gone.revision", "last+1", "range(after).header.revision"),
    ],
);

/// A key overwritten without a lease survives the expiry.
pub const DETACHED_KEY_SURVIVES: Claims<3> = (
    "a key taken off its lease before the lease died",
    [
        ("", "=", "count", "1", "range.count"),
        ("", "=", "value", "'mine now", "range.kvs[0].value"),
        ("", "=", "lease", "0", "range.kvs[0].lease"),
    ],
);

/// Two leases keep their own keys.
pub const TWO_LEASES_ARE_INDEPENDENT: Claims<4> = (
    "two leases side by side",
    [
        ("", "!=", "second.id", "first.id", "the two lease ids"),
        ("", "=", "gone.count", "0", "range(first).count"),
        ("", "=", "kept.count", "1", "range(second).count"),
        ("", "=", "kept.lease", "second.id", "range(second).kvs[0].lease"),
    ],
);

/// What somebody stuck on this stage is told, one after the other.
pub const HINTS: [&'static str; 4] = [
    "POST /v3/lease/grant answers an ID and the TTL it settled on",
    "A put naming a lease binds the key to it; the kv answers with that lease id",
    "When the lease expires every key attached to it disappears in one revision",
    "Revoking is the same thing on demand, and revoking twice is an error",
];

/// The tests of this stage.
pub const TESTS: [TestRow; 9] = [
    ("a grant answers an id and a ttl", "grant_answers_id_and_ttl", false, false, 0, 0, ""),
    ("a put naming a lease binds the key to it", "put_binds_the_key", false, false, 0, 0, ""),
    ("a key on an expired lease disappears", "expiry_removes_the_key", false, false, 0, 40000, ""),
    (
        "revoking a lease removes its keys at once",
        "revoke_removes_the_keys",
        false,
        false,
        0,
        0,
        "",
    ),
    ("revoking a lease twice is an error", "revoke_twice", false, false, 0, 0, ""),
    (
        "a put naming a lease that does not exist is an error",
        "put_with_an_unknown_lease",
        false,
        false,
        0,
        0,
        "",
    ),
    (
        "every key on one lease disappears in a single revision",
        "one_lease_one_revision",
        false,
        false,
        0,
        40000,
        "",
    ),
    (
        "a key overwritten without a lease survives the expiry",
        "detached_key_survives",
        true,
        false,
        0,
        40000,
        "",
    ),
    ("two leases keep their own keys", "two_leases_are_independent", true, false, 0, 0, ""),
];

/// The texts of the first example.
pub const FIRST_TEXTS: TextRow = (
    "Asking for a lease",
    "thirty seconds, and ID 0 to mean \"pick an id for me\"",
    "the id the store picked and the TTL it settled on, both as strings",
    "The TTL that comes back is the one the store will honour, not the one that was asked for: \
     real etcd refuses to grant less than a couple of seconds. Nothing is written to the store \
     here, so the revision has not moved.",
);

/// The texts of the second example.
pub const SECOND_TEXTS: TextRow = (
    "The key the lease owns",
    "a point read of a key that was written with a lease attached",
    "the usual kv, plus `lease` naming the lease that owns it",
    "A grant may name its own id instead of asking for one. The key looks like any other until \
     the lease goes, and then it goes too, with nobody having sent a delete.",
);

/// The worked examples of this stage.
pub open spec fn examples_described() -> Seq<Described> {
    seq![
        node_described(FIRST_TEXTS, Seq::empty(), grant_request("0"@)),
        node_described(
            SECOND_TEXTS,
            seq![
                grant_request("4242"@),
                Request {
                    path: "/v3/kv/put"@,
                    body: put_request("lk"@, "alive"@).body.push(("lease"@, "4242"@)),
                },
            ],
            Request { path: "/v3/kv/range"@, body: seq![("key"@, coded("lk"@))] },
        ),
    ]
}

/// The worked examples of this stage.
pub fn examples() -> (examples: Vec<ExampleSpec>)
    ensures
        described(examples@) == examples_described(),
{
    let mut setup: Vec<Call> = Vec::new();
    put_request_call(&mut setup, grant_call("4242"));
    put_request_call(&mut setup, put_call("lk", "alive").plain("lease", "4242"));
    assert(requests(setup@) =~= examples_described()[1].scene->setup);
    let read = Call::new("/v3/kv/range").coded("key", "lk");
    assert(read@.body =~= seq![("key"@, coded("lk"@))]);
    two(
        node_example(FIRST_TEXTS, grant_call("0")),
        node_example_after(SECOND_TEXTS, setup, read),
    )
}

/// What the rows say of this stage's place in the suite.
proof fn lemma_in_place()
    ensures
        rows_written(TESTS@),
{
    assert(rows_written(TESTS@)) by {
        reveal_strlit("placeholder");
        reveal_strlit("a grant answers an id and a ttl");
        assert(TESTS@[0].0@.len() == 31);
        reveal_strlit("a put naming a lease binds the key to it");
        assert(TESTS@[1].0@.len() == 40);
        reveal_strlit("a key on an expired lease disappears");
        assert(TESTS@[2].0@.len() == 36);
        reveal_strlit("revoking a lease removes its keys at once");
        assert(TESTS@[3].0@.len() == 41);
        reveal_strlit("revoking a lease twice is an error");
        assert(TESTS@[4].0@.len() == 34);
        reveal_strlit("a put naming a lease that does not exist is an error");
        assert(TESTS@[5].0@.len() == 52);
        reveal_strlit("every key on one lease disappears in a single revision");
        assert(TESTS@[6].0@.len() == 54);
        reveal_strlit("a key overwritten without a lease survives the expiry");
        assert(TESTS@[7].0@.len() == 53);
        reveal_strlit("two leases keep their own keys");
        assert(TESTS@[8].0@.len() == 30);
        assert forall|i: int| 0 <= i < 9 implies (#[trigger] TESTS@[i]).0@ != "placeholder"@ by {
            assert(i == 0 || i == 1 || i == 2 || i == 3 || i == 4 || i == 5 || i == 6 || i == 7 || i == 8);
        }
    }
}

/// What stage 31 holds.
pub open spec fn is_stage(s: Stage) -> bool {
    &&& s.number == 31
    &&& s.slug == "leases"
    &&& s.name == "Leases: grant, attach, expire, revoke"
    &&& s.ext == false
    &&& s.ladder == Ladder::Node
    &&& s.hints == HINTS
    &&& s.tests@ == tests_of(TESTS@)
    &&& described(s.examples@) == examples_described()
}

/// Stage 31.
pub fn stage() -> (s: Stage)
    ensures
        is_stage(s),
        s.in_place(),
{
    let s = Stage {
        number: 31,
        slug: "leases",
        name: "Leases: grant, attach, expire, revoke",
        ext: false,
        ladder: Ladder::Node,
        hints: HINTS,
        examples: examples(),
        tests: tests(TESTS),
    };
    proof {
        reveal(Stage::in_place);
        lemma_in_place();
    }
    s
}

} // verus!
