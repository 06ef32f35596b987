//! Stage 41: The majority of a partition keeps serving.
//!
//! A quorum is a majority, not everybody: with one member cut off, the rest go on electing, committing
//! and reading, and the member on the other side learns nothing.
use vstd::prelude::*;
use crate::claims::Claims;
use crate::examples::{cluster_described, cluster_example, described, one, ExampleSpec, StepRow, TextRow};
use crate::stages::{rows_written, tests, tests_of, Ladder, Stage, TestRow};
use crate::cluster::{self, lowest_follower, side_poll, LinkFault, LinkStep, Poll};

verus! {

/// How long the cluster is given to settle on one leader, in milliseconds.
pub const ELECT_WITHIN_MS: u64 = 15_000;

/// What is waited for until a cut is in effect.
pub const CUT_TO_BITE: &'static str =
    "the proxies to start refusing the cut-off member's peer traffic";

/// How long a cut is given to take effect, in milliseconds.
pub const CUT_WITHIN_MS: u64 = 15_000;

/// What a driver that waits for one side of a split to agree on a leader among themselves does next.
/// Members that are cut off are not asked, and one of them is never the answer.
pub fn leader_of(group: &Vec<usize>, named: &Vec<Option<usize>>, elapsed_ms: u64, within_ms: u64) -> (next:
    Poll)
    ensures
        side_poll(group@, named@, elapsed_ms, within_ms, 100, next),
{
    cluster::poll_side(group, named, elapsed_ms, within_ms, 100)
}

/// Cuts every member's link to itself, which stands for the dialers nobody can attribute: they are then
/// refused rather than let across the split.
pub fn cut_unattributable_links(members: usize) -> (steps: Vec<LinkStep>)
    ensures
        steps@.len() == members,
        forall|j: int|
            0 <= j < members ==> #[trigger] steps@[j] == (LinkStep::Link {
                a: j as usize,
                b: j as usize,
                fault: LinkFault {
                    cut: true,
                    delay_ms: 0,
                    drop_connection: 0,
                    duplicate: 0,
                    reorder: 0,
                },
            }),
{
    let mut steps: Vec<LinkStep> = Vec::new();
    let mut j: usize = 0;
    while j < members
        invariant
            j <= members,
            steps@.len() == j,
            forall|k: int|
                0 <= k < j ==> #[trigger] steps@[k] == (LinkStep::Link {
                    a: k as usize,
                    b: k as usize,
                    fault: LinkFault {
                        cut: true,
                        delay_ms: 0,
                        drop_connection: 0,
                        duplicate: 0,
                        reorder: 0,
                    },
                }),
        decreases members - j,
    {
        steps.push(LinkStep::Link { a: j, b: j, fault: LinkFault::cut() });
        j += 1;
    }
    steps
}

/// Whether the proxies have refused something since there were `before` refusals.
pub fn the_cut_bites(before: u64, blocked: u64) -> (r: bool)
    ensures
        r == (blocked > before),
{
    blocked > before
}

/// The lowest-numbered member that is not the leader.
pub fn a_follower(leader: usize, size: usize) -> (i: usize)
    ensures
        i == lowest_follower(leader as int, size as int),
        size > 1 ==> i < size && i != leader,
{
    cluster::a_follower(leader, size)
}

/// The majority accepts writes with one member cut off.
pub const THE_MAJORITY_ACCEPTS_WRITES: Claims<4> = (
    "writes through each member of the majority side",
    [
        ("write", "=", "value", "wrote", "{other}.range.kvs[0].value after a write on {name}"),
        ("", "=", "of_three", "2", "the quorum of a three-member cluster"),
        ("", "note", "", "", "m{cut+1} is cut off"),
        ("", "note", "", "", "{described}"),
    ],
);

/// The majority elects a leader of its own when the old one is cut off.
pub const THE_MAJORITY_ELECTS_ITS_OWN: Claims<7> = (
    "the leader the majority side chose for itself",
    [
        ("", "!=", "new_leader", "leader", "the new leader"),
        (
            "",
            "? new_leader in rest",
            "new_leader+1",
            "one of the two members still able to reach each other",
            "the new leader",
        ),
        (
            "",
            "? term > old_term",
            "old_term term",
            "a strictly larger raft term than the cut-off leader's",
            "the term after the election",
        ),
        ("", ">=", "put", "1", "put.header.revision"),
        ("", "note", "", "", "m{leader+1} was cut off; m{new_leader+1} took over after {took} ms"),
        ("", "note", "", "", "{described}"),
        (
            "",
            "remark",
            "",
            "",
            "the majority replaced the cut-off leader m{leader+1} with m{new_leader+1} after \
             {took} ms, term {old_term} to {term}",
        ),
    ],
);

/// The revision keeps advancing on the majority side.
pub const THE_REVISION_KEEPS_ADVANCING: Claims<4> = (
    "ten writes committed by two members of three",
    [
        ("", "? rising revisions", "revisions", "strictly increasing", "put.header.revision"),
        ("member", "=", "count", "10", "{name}.range.count"),
        ("", "note", "", "", "m{cut+1} is cut off; the majority's leader is m{serving+1}"),
        ("", "note", "", "", "{described}"),
    ],
);

/// Reads on the majority side see every write.
pub const READS_SEE_EVERY_WRITE: Claims<2> = (
    "a read-after-write loop on the majority side",
    [
        ("round", "=", "value", "wrote", "m{reader+1}.range({key}).kvs[0].value"),
        ("", "note", "", "", "{described}"),
    ],
);

/// A write on the majority side is invisible to the cut-off member.
pub const INVISIBLE_TO_THE_MINORITY: Claims<4> = (
    "what the cut-off member knows about the majority's writes",
    [
        ("", "=", "count", "0", "{name}.range.count (serializable)"),
        ("", "=", "after", "before", "{name}.status.header.revision"),
        (
            "",
            "? put > after",
            "put after",
            "the majority to be strictly ahead",
            "the majority's revision against the cut-off member's",
        ),
        ("", "note", "", "", "{described}"),
    ],
);

/// Both sides of the split name the same leader on the majority side.
pub const THE_MAJORITY_AGREES_ON_ITS_LEADER: Claims<4> = (
    "what the two members of the quorum say about each other",
    [
        ("member", "=", "named", "leader_id", "{name}.status.leader"),
        ("member", "=", "term", "first_term", "{name}.status.raft_term"),
        ("", "note", "", "", "m{cut+1} is cut off"),
        ("", "note", "", "", "{described}"),
    ],
);

/// The majority survives the whole partition with no restart.
pub const NO_RESTART_NEEDED: Claims<5> = (
    "a majority that was never restarted",
    [
        ("", "? rising revisions", "revisions", "strictly increasing", "put.header.revision"),
        (
            "",
            "? leaders each serving",
            "leaders",
            "the same leader throughout, with no election on the majority side",
            "the leader over six rounds",
        ),
        ("", "=", "running", "size", "the members still running"),
        ("", "note", "", "", "m{cut+1} was cut off for the whole test; m{serving+1} led throughout"),
        ("", "note", "", "", "{described}"),
    ],
);

/// Three of five keep serving with two cut off.
pub const THREE_OF_FIVE_KEEP_SERVING: Claims<6> = (
    "three of five, carrying on without the other two",
    [
        ("", "=", "of_five", "3", "the quorum of a five-member cluster"),
        ("", "? rising revisions", "revisions", "strictly increasing", "put.header.revision"),
        ("served", "=", "count", "6", "{name}.range.count"),
        ("cut_off", "=", "count", "0", "{name}.range.count (serializable)"),
        ("", "note", "", "", "the majority side is led by m{serving+1}"),
        ("", "note", "", "", "{described}"),
    ],
);

/// What somebody stuck on this stage is told, one after the other.
pub const HINTS: [&'static str; 4] = [
    "A quorum of members is enough: the cluster does not need everyone",
    "The majority side elects a leader among itself if the old one was cut off",
    "Writes keep succeeding on the majority side while the partition stands",
    "The revision keeps advancing, and the minority side knows nothing about it",
];

/// The tests of this stage.
pub const TESTS: [TestRow; 8] = [
    (
        "the majority accepts writes with one member cut off",
        "the_majority_accepts_writes",
        true,
        true,
        0,
        60000,
        "",
    ),
    (
        "the majority elects a leader of its own when the old one is cut off",
        "the_majority_elects_its_own",
        true,
        true,
        0,
        60000,
        "",
    ),
    (
        "the revision keeps advancing on the majority side",
        "the_revision_keeps_advancing",
        true,
        true,
        0,
        60000,
        "",
    ),
    (
        "reads on the majority side see every write",
        "reads_see_every_write",
        true,
        true,
        0,
        60000,
        "",
    ),
    (
        "a write on the majority side is invisible to the cut-off member",
        "invisible_to_the_minority",
        true,
        true,
        0,
        60000,
        "",
    ),
    (
        "both sides of the split name the same leader on the majority side",
        "the_majority_agrees_on_its_leader",
        true,
        true,
        0,
        60000,
        "",
    ),
    (
        "the majority survives the whole partition with no restart",
        "no_restart_needed",
        true,
        true,
        0,
        60000,
        "",
    ),
    (
        "three of five keep serving with two cut off",
        "three_of_five_keep_serving",
        true,
        true,
        5,
        90000,
        "",
    ),
];

/// The texts of the example.
pub const EXAMPLE_TEXTS: TextRow = (
    "Two members are enough",
    "a write and a read between two members of a three-member cluster",
    "both succeed, and the revision has moved",
    "Picture m1 cut off before this exchange. Nothing above changes: m2 and m3 are two of three, \
     which is a quorum, so the entry commits and the revision advances exactly as it does here. \
     What a captured transcript cannot show is the other half of the property — m1 is still \
     running, still answering `serializable` reads, and still holding the value from before the \
     cut, because nothing has reached it since.",
);

/// The steps of the example: whom to ask, the path, the key, the value and why.
pub const EXAMPLE_STEPS: [StepRow; 3] = [
    (1, "/v3/kv/put", "still-serving", "yes", "write through m2"),
    (2, "/v3/kv/range", "still-serving", "", "read it on m3"),
    (2, "/v3/maintenance/status", "", "", "and ask m3 how far the log has got"),
];

/// The worked examples of this stage.
pub fn examples() -> (examples: Vec<ExampleSpec>)
    ensures
        described(examples@) == seq![cluster_described(EXAMPLE_TEXTS, EXAMPLE_STEPS@)],
{
    one(cluster_example(EXAMPLE_TEXTS, EXAMPLE_STEPS))
}

/// What the rows say of this stage's place in the suite.
proof fn lemma_in_place()
    ensures
        rows_written(TESTS@),
{
    assert(rows_written(TESTS@)) by {
        reveal_strlit("placeholder");
        reveal_strlit("the majority accepts writes with one member cut off");
        assert(TESTS@[0].0@.len() == 51);
        reveal_strlit("the majority elects a leader of its own when the old one is cut off");
        assert(TESTS@[1].0@.len() == 67);
        reveal_strlit("the revision keeps advancing on the majority side");
        assert(TESTS@[2].0@.len() == 49);
        reveal_strlit("reads on the majority side see every write");
        assert(TESTS@[3].0@.len() == 42);
        reveal_strlit("a write on the majority side is invisible to the cut-off member");
        assert(TESTS@[4].0@.len() == 63);
        reveal_strlit("both sides of the split name the same leader on the majority side");
        assert(TESTS@[5].0@.len() == 65);
        reveal_strlit("the majority survives the whole partition with no restart");
        assert(TESTS@[6].0@.len() == 57);
        reveal_strlit("three of five keep serving with two cut off");
        assert(TESTS@[7].0@.len() == 43);
        assert forall|i: int| 0 <= i < 8 implies (#[trigger] TESTS@[i]).0@ != "placeholder"@ by {
            assert(i == 0 || i == 1 || i == 2 || i == 3 || i == 4 || i == 5 || i == 6 || i == 7);
        }
    }
}

/// What stage 41 holds.
pub open spec fn is_stage(s: Stage) -> bool {
    &&& s.number == 41
    &&& s.slug == "majority_keeps_serving"
    &&& s.name == "The majority of a partition keeps serving"
    &&& s.ext == true
    &&& s.ladder == Ladder::Cluster
    &&& s.hints == HINTS
    &&& s.tests@ == tests_of(TESTS@)
    &&& described(s.examples@) == seq![cluster_described(EXAMPLE_TEXTS, EXAMPLE_STEPS@)]
}

/// Stage 41.
pub fn stage() -> (s: Stage)
    ensures
        is_stage(s),
        s.in_place(),
{
    let s = Stage {
        number: 41,
        slug: "majority_keeps_serving",
        name: "The majority of a partition keeps serving",
        ext: true,
        ladder: Ladder::Cluster,
        hints: HINTS,
        examples: examples(),
        tests: tests(TESTS),
    };
    proof {
        reveal(Stage::in_place);
        lemma_in_place();
    }
    s
}

} // verus!
