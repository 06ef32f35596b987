//! Stage 37: A write on any member is visible on every member.
//!
//! A write taken by any member belongs to the whole cluster: a follower forwards it, every member ends
//! up with the value, and the revision is the cluster's.
use vstd::prelude::*;
use crate::claims::Claims;
use crate::examples::{cluster_described, cluster_example, described, two, ExampleSpec, StepRow, TextRow};
use crate::stages::{rows_written, tests, tests_of, Ladder, Stage, TestRow};
use crate::check::same_bytes;

verus! {

/// How long a write is given to reach a member, in milliseconds.
pub const REPLICATE_WITHIN_MS: u64 = 10_000;

/// How long the cluster is given to settle on one leader, in milliseconds.
pub const ELECT_WITHIN_MS: u64 = 15_000;

/// What a driver waits for, in words, and how long.
#[derive(Debug)]
pub struct Wait {
    pub what: String,
    pub within_ms: u64,
}

/// What is waited for until a member holds a value.
pub fn wait_for_value(member: &str, key: &str, want: &str) -> (w: Wait)
    ensures
        w.what@ == member@ + " to hold "@ + key@ + "="@ + want@,
        w.within_ms == REPLICATE_WITHIN_MS,
{
    let mut what = String::from_str(member);
    what.append(" to hold ");
    what.append(key);
    what.append("=");
    what.append(want);
    Wait { what, within_ms: REPLICATE_WITHIN_MS }
}

/// What is waited for until a member has lost a key.
pub fn wait_for_absence(member: &str, key: &str) -> (w: Wait)
    ensures
        w.what@ == member@ + " to stop holding "@ + key@,
        w.within_ms == REPLICATE_WITHIN_MS,
{
    let mut what = String::from_str(member);
    what.append(" to stop holding ");
    what.append(key);
    Wait { what, within_ms: REPLICATE_WITHIN_MS }
}

/// What a member answered when it was asked for the value of a key: nothing where it did not answer, and
/// otherwise the value, if there is one.
pub type ValueSeen = Option<Option<Vec<u8>>>;

/// Whether a member holds the value that is waited for.
pub fn has_arrived(seen: &ValueSeen, want: &[u8]) -> (r: bool)
    ensures
        r == (seen matches Some(Some(v)) && v@ == want@),
{
    match seen {
        Some(Some(v)) => same_bytes(v.as_slice(), want),
        _ => false,
    }
}

/// Whether a member says that the key is gone; one that does not answer says nothing.
pub fn has_gone(seen: &ValueSeen) -> (r: bool)
    ensures
        r == (*seen == Some(None::<Vec<u8>>)),
{
    match seen {
        Some(None) => true,
        _ => false,
    }
}

/// A write through the leader reaches every member.
pub const WRITE_THROUGH_THE_LEADER: Claims<4> = (
    "the key read back from every member",
    [
        ("member", "=", "value", "'v1", "{name}.range.kvs[0].value"),
        ("member", ">=", "revision", "put", "{name}.range.header.revision"),
        ("", "note", "", "", "{described}"),
        ("", "note", "", "", "{faults}"),
    ],
);

/// A write through a follower is accepted and reaches every member.
pub const WRITE_THROUGH_A_FOLLOWER: Claims<4> = (
    "a write a follower accepted",
    [
        ("", ">=", "put", "1", "put.header.revision"),
        ("member", "=", "value", "'v2", "{name}.range.kvs[0].value"),
        ("", "note", "", "", "the write went through {follower}; the leader was m{leader+1}"),
        ("", "note", "", "", "{described}"),
    ],
);

/// Writes through three members make one revision sequence.
pub const ONE_REVISION_SEQUENCE: Claims<2> = (
    "three writes through three different members",
    [
        ("", "? rising revisions", "revisions", "strictly increasing", "put.header.revision"),
        ("", "see", "revisions", "", "revisions"),
    ],
);

/// Every member holds the same value for the key.
pub const SAME_VALUE_EVERYWHERE: Claims<2> = (
    "the last value, on every member",
    [
        ("", "=", "values", "[final\nfinal\nfinal", "the values every member holds"),
        ("", "note", "", "", "the leader was m{leader+1}"),
    ],
);

/// A delete replicates too.
pub const A_DELETE_REPLICATES: Claims<3> = (
    "a delete sent through a follower",
    [
        ("", "=", "deleted", "1", "deleterange.deleted"),
        ("", ">=", "revision", "1", "deleterange.header.revision"),
        ("", "note", "", "", "the delete went through {follower}"),
    ],
);

/// A batch of writes through rotating members all land.
pub const A_ROTATING_BATCH: Claims<2> = (
    "nine writes spread over three members",
    [
        ("member", "=", "count", "9", "{name}.range.count"),
        ("member", "=", "values", "[v0\nv1\nv2\nv3\nv4\nv5\nv6\nv7\nv8", "{name}.range.values"),
    ],
);

/// The revision a member answers with is the cluster's.
pub const THE_REVISION_IS_THE_CLUSTERS: Claims<2> = (
    "the revision every member answers with",
    [
        ("member", ">=", "revision", "last", "{name}.status.header.revision"),
        ("", "note", "", "", "every one of the five writes went through m{leader+1}"),
    ],
);

/// Create and mod revisions are the same on every member.
pub const REVISIONS_OF_THE_KEY_AGREE: Claims<3> = (
    "the revisions attached to a twice-written key",
    [
        ("member", "=", "create_revision", "first", "{name}.range.kvs[0].create_revision"),
        ("member", "=", "mod_revision", "second", "{name}.range.kvs[0].mod_revision"),
        ("member", "=", "version", "2", "{name}.range.kvs[0].version"),
    ],
);

/// Forty writes through rotating members keep one order.
pub const FORTY_ROTATING_WRITES: Claims<4> = (
    "forty writes to one key, spread over three members",
    [
        ("", "? rising revisions", "revisions", "strictly increasing", "put.header.revision"),
        ("member", "=", "value", "'v39", "{name}.range.kvs[0].value"),
        ("member", "=", "version", "40", "{name}.range.kvs[0].version"),
        ("member", "=", "mod_revision", "last", "{name}.range.kvs[0].mod_revision"),
    ],
);

/// What somebody stuck on this stage is told, one after the other.
pub const HINTS: [&'static str; 4] = [
    "A write accepted by a follower is forwarded to the leader, not applied locally",
    "The revision a member answers with is the cluster's, not its own counter",
    "Every member must end up holding the same value for the key",
    "Writes through different members still produce one increasing revision sequence",
];

/// The tests of this stage.
pub const TESTS: [TestRow; 9] = [
    (
        "a write through the leader reaches every member",
        "write_through_the_leader",
        false,
        false,
        0,
        40000,
        "",
    ),
    (
        "a write through a follower is accepted and reaches every member",
        "write_through_a_follower",
        false,
        false,
        0,
        40000,
        "",
    ),
    (
        "writes through three members make one revision sequence",
        "one_revision_sequence",
        false,
        false,
        0,
        0,
        "",
    ),
    (
        "every member holds the same value for the key",
        "same_value_everywhere",
        false,
        false,
        0,
        0,
        "",
    ),
    ("a delete replicates too", "a_delete_replicates", false, false, 0, 0, ""),
    (
        "a batch of writes through rotating members all land",
        "a_rotating_batch",
        false,
        false,
        0,
        0,
        "",
    ),
    (
        "the revision a member answers with is the cluster's",
        "the_revision_is_the_clusters",
        false,
        false,
        0,
        0,
        "",
    ),
    (
        "create and mod revisions are the same on every member",
        "revisions_of_the_key_agree",
        true,
        false,
        0,
        0,
        "",
    ),
    (
        "forty writes through rotating members keep one order",
        "forty_rotating_writes",
        true,
        false,
        0,
        0,
        "",
    ),
];

/// The texts of the first example.
pub const FIRST_TEXTS: TextRow = (
    "A write on m1, read back on m3",
    "a put on one member, then a range for the same key on another",
    "the value the put wrote, with the revision the put answered with",
    "The read is served by a member that never saw the client's put. It answers from the entry \
     the leader replicated to it, and its header carries the cluster's revision rather than a \
     count of the writes this member handled.",
);

/// The steps of the first example: whom to ask, the path, the key, the value and why.
pub const FIRST_STEPS: [StepRow; 2] = [
    (0, "/v3/kv/put", "replicated", "yes", "write through m1"),
    (2, "/v3/kv/range", "replicated", "", "and read it on m3"),
];

/// The texts of the second example.
pub const SECOND_TEXTS: TextRow = (
    "A write through a follower",
    "a put sent to a member that is not the leader",
    "a normal put response, and the key readable on all three members",
    "A follower does not apply the write itself. It forwards the request to the leader and \
     answers when the leader's entry is committed, which is why the revision in the answer is \
     one the whole cluster agrees on. A member that applied the write locally would pass this \
     one read and fail the moment another member wrote the same key.",
);

/// The steps of the second example: whom to ask, the path, the key, the value and why.
pub const SECOND_STEPS: [StepRow; 3] = [
    (
        1,
        "/v3/kv/put",
        "through-m2",
        "forwarded",
        "write through m2, which is usually not the leader",
    ),
    (0, "/v3/kv/range", "through-m2", "", "read it back on m1"),
    (2, "/v3/kv/range", "through-m2", "", "and on m3"),
];

/// The worked examples of this stage.
pub fn examples() -> (examples: Vec<ExampleSpec>)
    ensures
        described(examples@) == seq![cluster_described(FIRST_TEXTS, FIRST_STEPS@), cluster_described(SECOND_TEXTS, SECOND_STEPS@)],
{
    two(cluster_example(FIRST_TEXTS, FIRST_STEPS), cluster_example(SECOND_TEXTS, SECOND_STEPS))
}

/// What the rows say of this stage's place in the suite.
proof fn lemma_in_place()
    ensures
        rows_written(TESTS@),
{
    assert(rows_written(TESTS@)) by {
        reveal_strlit("placeholder");
        reveal_strlit("a write through the leader reaches every member");
        assert(TESTS@[0].0@.len() == 47);
        reveal_strlit("a write through a follower is accepted and reaches every member");
        assert(TESTS@[1].0@.len() == 63);
        reveal_strlit("writes through three members make one revision sequence");
        assert(TESTS@[2].0@.len() == 55);
        reveal_strlit("every member holds the same value for the key");
        assert(TESTS@[3].0@.len() == 45);
        reveal_strlit("a delete replicates too");
        assert(TESTS@[4].0@.len() == 23);
        reveal_strlit("a batch of writes through rotating members all land");
        assert(TESTS@[5].0@.len() == 51);
        reveal_strlit("the revision a member answers with is the cluster's");
        assert(TESTS@[6].0@.len() == 51);
        reveal_strlit("create and mod revisions are the same on every member");
        assert(TESTS@[7].0@.len() == 53);
        reveal_strlit("forty writes through rotating members keep one order");
        assert(TESTS@[8].0@.len() == 52);
        assert forall|i: int| 0 <= i < 9 implies (#[trigger] TESTS@[i]).0@ != "placeholder"@ by {
            assert(i == 0 || i == 1 || i == 2 || i == 3 || i == 4 || i == 5 || i == 6 || i == 7 || i == 8);
        }
    }
}

/// What stage 37 holds.
pub open spec fn is_stage(s: Stage) -> bool {
    &&& s.number == 37
    &&& s.slug == "replicated_writes"
    &&& s.name == "A write on any member is visible on every member"
    &&& s.ext == false
    &&& s.ladder == Ladder::Cluster
    &&& s.hints == HINTS
    &&& s.tests@ == tests_of(TESTS@)
    &&& described(s.examples@) == seq![cluster_described(FIRST_TEXTS, FIRST_STEPS@), cluster_described(SECOND_TEXTS, SECOND_STEPS@)]
}

/// Stage 37.
pub fn stage() -> (s: Stage)
    ensures
        is_stage(s),
        s.in_place(),
{
    let s = Stage {
        number: 37,
        slug: "replicated_writes",
        name: "A write on any member is visible on every member",
        ext: false,
        ladder: Ladder::Cluster,
        hints: HINTS,
        examples: examples(),
        tests: tests(TESTS),
    };
    proof {
        reveal(Stage::in_place);
        lemma_in_place();
    }
    s
}

} // verus!
