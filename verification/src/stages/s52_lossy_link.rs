//! Stage 52: A slow, lossy link degrades throughput, not safety.
//!
//! Every link is slow and refuses one connection in ten. Writes get slower and some are never answered;
//! what was acknowledged is still there, on every member.
use vstd::prelude::*;
use crate::claims::Claims;
use crate::examples::{cluster_described, cluster_example, described, one, ExampleSpec, StepRow, TextRow};
use crate::stages::{rows_written, tests, tests_of, Ladder, Stage, TestRow};
use crate::cluster::LinkFault;

verus! {

/// How long a degraded cluster is given to name a leader, in milliseconds.
pub const ELECT_MS: u64 = 30_000;

/// How long one write is given to find a member willing to take it, in milliseconds.
pub const PATIENCE_MS: u64 = 25_000;

/// The fault this whole stage runs under: slow, and one connection in ten refused.
pub fn lossy() -> (f: LinkFault)
    ensures
        f == (LinkFault { cut: false, delay_ms: 40, drop_connection: 10, duplicate: 0, reorder: 0 }),
{
    LinkFault { drop_connection: 10, ..LinkFault::late(40) }
}

/// The fault that shows that the injector works at all: slow, and every second connection refused.
pub fn refusing() -> (f: LinkFault)
    ensures
        f == (LinkFault { cut: false, delay_ms: 40, drop_connection: 50, duplicate: 0, reorder: 0 }),
{
    LinkFault { drop_connection: 50, ..LinkFault::late(40) }
}

/// Whether a driver goes on keeping the cluster busy until the injector has refused something.
pub fn still_waiting(blocked: u64, elapsed_ms: u64) -> (r: bool)
    ensures
        r == (blocked == 0 && elapsed_ms < 20_000),
{
    blocked == 0 && elapsed_ms < 20_000
}

/// A workload over a lossy link still acknowledges writes.
pub const WRITES_ARE_STILL_ACKNOWLEDGED: Claims<5> = (
    "a five-second workload over a slow, flapping link",
    [
        ("", ">=", "acknowledged", "5", "operations acknowledged"),
        ("", "see", "unknown", "", "operations with no answer"),
        ("", "remark", "", "", "{summary}"),
        ("", "remark", "", "", "{stats}"),
        ("", "remark", "", "", "{blocked} peer connections were refused by the injector"),
    ],
);

/// Throughput and latency are measured and reported, not asserted.
pub const THROUGHPUT_IS_REPORTED: Claims<3> = (
    "forty writes, twenty of them over a lossy link",
    [
        (
            "",
            "remark",
            "",
            "",
            "healthy: {clean_rate} writes/s, mean {clean_mean} ms, worst {clean_worst} ms",
        ),
        (
            "",
            "remark",
            "",
            "",
            "lossy:   {lossy_rate} writes/s, mean {lossy_mean} ms, worst {lossy_worst} ms",
        ),
        ("", "remark", "", "", "{stats}"),
    ],
);

/// Every acknowledged write is readable once the link recovers.
pub const WRITES_ARE_READABLE_AFTER_THE_HEAL: Claims<0> = (
    "eight writes made over a lossy link, read back after the heal",
    [],
);

/// Every member converges once the link recovers.
pub const MEMBERS_CONVERGE_AFTER_THE_HEAL: Claims<3> = (
    "what every member sees after a lossy workload and a heal",
    [
        ("", "=", "agreed", "keys", "keys agreed on by every member"),
        ("", "remark", "", "", "{summary}"),
        ("", "remark", "", "", "the members settled on {settled}"),
    ],
);

/// No member's revision goes backwards.
pub const REVISION_NEVER_RETREATS: Claims<3> = (
    "the revisions members reported over a lossy link",
    [
        (
            "member",
            "? steady revisions",
            "revisions",
            "never decreasing",
            "m{member+1}.status.header.revision",
        ),
        ("member", "see", "revisions", "", "m{member+1}.revisions"),
        ("", ">=", "highest", "8", "the highest revision any member reported"),
    ],
);

/// A lossy link changes no value.
pub const VALUES_ARE_UNCHANGED: Claims<0> = (
    "four keys overwritten over a lossy link",
    [],
);

/// One leader is named again once the link recovers.
pub const A_LEADER_IS_NAMED_AGAIN: Claims<2> = (
    "the leader of a cluster whose links have recovered",
    [
        ("", "? after < 3", "after", "one of the three members", "leader index"),
        (
            "",
            "remark",
            "",
            "",
            "leader m{before+1} before the loss, m{after+1} after the heal — {described}",
        ),
    ],
);

/// The injector really did refuse peer connections.
pub const THE_INJECTOR_DID_SOMETHING: Claims<2> = (
    "what the fault injector actually did",
    [
        (
            "",
            "? blocked > 0",
            "blocked",
            "at least one peer connection refused, or the stage tested nothing",
            "cluster.stats.blocked()",
        ),
        ("", "remark", "", "", "{stats}"),
    ],
);

/// What somebody stuck on this stage is told, one after the other.
pub const HINTS: [&'static str; 4] = [
    "Delay and connection loss slow the cluster down; they never change what it answers",
    "A transport that cannot deliver must retry, not drop the entry",
    "Throughput falls and latency rises: the test records both and asserts neither",
    "Every acknowledged write must still be readable when the link recovers",
];

/// The tests of this stage.
pub const TESTS: [TestRow; 8] = [
    (
        "a workload over a lossy link still acknowledges writes",
        "writes_are_still_acknowledged",
        true,
        true,
        0,
        60000,
        "",
    ),
    (
        "throughput and latency are measured and reported, not asserted",
        "throughput_is_reported",
        true,
        true,
        0,
        60000,
        "",
    ),
    (
        "every acknowledged write is readable once the link recovers",
        "writes_are_readable_after_the_heal",
        true,
        true,
        0,
        60000,
        "",
    ),
    (
        "every member converges once the link recovers",
        "members_converge_after_the_heal",
        true,
        true,
        0,
        60000,
        "",
    ),
    ("no member's revision goes backwards", "revision_never_retreats", true, true, 0, 60000, ""),
    ("a lossy link changes no value", "values_are_unchanged", true, true, 0, 60000, ""),
    (
        "one leader is named again once the link recovers",
        "a_leader_is_named_again",
        true,
        true,
        0,
        60000,
        "",
    ),
    (
        "the injector really did refuse peer connections",
        "the_injector_did_something",
        true,
        true,
        0,
        60000,
        "",
    ),
];

/// The texts of the example.
pub const EXAMPLE_TEXTS: TextRow = (
    "A write that is slow but not wrong",
    "one write and two reads, with a slow and flapping link between the members",
    "the same value from every member, at the same revision",
    "The only thing a lossy link is allowed to change is how long this takes. A call that times \
     out is a correct answer — the harness cannot tell a refused write from an applied one \
     whose answer was lost — but a call that *is* acknowledged has to be true for good, on \
     every member.",
);

/// The steps of the example: whom to ask, the path, the key, the value and why.
pub const EXAMPLE_STEPS: [StepRow; 3] = [
    (
        0,
        "/v3/kv/put",
        "s52/k0",
        "slow",
        "write s52/k0 while every link is slow and drops one connection in ten",
    ),
    (
        1,
        "/v3/kv/range",
        "s52/k0",
        "",
        "m2 answers with the same value, however long it took to get there",
    ),
    (2, "/v3/kv/range", "s52/k0", "", "and so does m3"),
];

/// The worked examples of this stage.
pub fn examples() -> (examples: Vec<ExampleSpec>)
    ensures
        described(examples@) == seq![cluster_described(EXAMPLE_TEXTS, EXAMPLE_STEPS@)],
{
    one(cluster_example(EXAMPLE_TEXTS, EXAMPLE_STEPS))
}

/// What the rows say of this stage's place in the suite.
proof fn lemma_in_place()
    ensures
        rows_written(TESTS@),
{
    assert(rows_written(TESTS@)) by {
        reveal_strlit("placeholder");
        reveal_strlit("a workload over a lossy link still acknowledges writes");
        assert(TESTS@[0].0@.len() == 54);
        reveal_strlit("throughput and latency are measured and reported, not asserted");
        assert(TESTS@[1].0@.len() == 62);
        reveal_strlit("every acknowledged write is readable once the link recovers");
        assert(TESTS@[2].0@.len() == 59);
        reveal_strlit("every member converges once the link recovers");
        assert(TESTS@[3].0@.len() == 45);
        reveal_strlit("no member's revision goes backwards");
        assert(TESTS@[4].0@.len() == 35);
        reveal_strlit("a lossy link changes no value");
        assert(TESTS@[5].0@.len() == 29);
        reveal_strlit("one leader is named again once the link recovers");
        assert(TESTS@[6].0@.len() == 48);
        reveal_strlit("the injector really did refuse peer connections");
        assert(TESTS@[7].0@.len() == 47);
        assert forall|i: int| 0 <= i < 8 implies (#[trigger] TESTS@[i]).0@ != "placeholder"@ by {
            assert(i == 0 || i == 1 || i == 2 || i == 3 || i == 4 || i == 5 || i == 6 || i == 7);
        }
    }
}

/// What stage 52 holds.
pub open spec fn is_stage(s: Stage) -> bool {
    &&& s.number == 52
    &&& s.slug == "lossy_link"
    &&& s.name == "A slow, lossy link degrades throughput, not safety"
    &&& s.ext == true
    &&& s.ladder == Ladder::Cluster
    &&& s.hints == HINTS
    &&& s.tests@ == tests_of(TESTS@)
    &&& described(s.examples@) == seq![cluster_described(EXAMPLE_TEXTS, EXAMPLE_STEPS@)]
}

/// Stage 52.
pub fn stage() -> (s: Stage)
    ensures
        is_stage(s),
        s.in_place(),
{
    let s = Stage {
        number: 52,
        slug: "lossy_link",
        name: "A slow, lossy link degrades throughput, not safety",
        ext: true,
        ladder: Ladder::Cluster,
        hints: HINTS,
        examples: examples(),
        tests: tests(TESTS),
    };
    proof {
        reveal(Stage::in_place);
        lemma_in_place();
    }
    s
}

} // verus!
