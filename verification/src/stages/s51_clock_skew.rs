//! Stage 51: Clock skew changes nothing about safety.
//!
//! Safety rests on terms and indexes, never on a clock. A member whose clock is off looks, from outside,
//! like one whose peer traffic arrives late, so every link is delayed, and no value may change.
use vstd::prelude::*;
use crate::claims::Claims;
use crate::examples::{cluster_described, cluster_example, described, one, ExampleSpec, StepRow, TextRow};
use crate::stages::{rows_written, tests, tests_of, Ladder, Stage, TestRow};
use crate::cluster::{LinkFault, LinkStep};

verus! {

/// How long a skewed cluster is given to name a leader, in milliseconds.
pub const ELECT_MS: u64 = 30_000;

/// How long one write is given to find a member willing to take it, in milliseconds.
pub const PATIENCE_MS: u64 = 25_000;

/// Has everything on every link arrive `ms` milliseconds late.
pub fn skew_every_link(ms: u64) -> (step: LinkStep)
    ensures
        step == (LinkStep::EveryLink {
            fault: LinkFault {
                cut: false,
                delay_ms: ms,
                drop_connection: 0,
                duplicate: 0,
                reorder: 0,
            },
        }),
{
    LinkStep::EveryLink { fault: LinkFault::late(ms) }
}

/// The two followers of a leader among three.
pub open spec fn followers(leader: int) -> (int, int) {
    ((leader + 1) % 3, (leader + 2) % 3)
}

/// Has the link between the two followers run 200 ms late, so that the leader still reaches a quorum
/// promptly.
pub fn slow_followers_link(leader: usize) -> (step: LinkStep)
    requires
        leader < 3,
    ensures
        step == (LinkStep::Link {
            a: followers(leader as int).0 as usize,
            b: followers(leader as int).1 as usize,
            fault: LinkFault {
                cut: false,
                delay_ms: 200,
                drop_connection: 0,
                duplicate: 0,
                reorder: 0,
            },
        }),
{
    LinkStep::Link { a: (leader + 1) % 3, b: (leader + 2) % 3, fault: LinkFault::late(200) }
}

/// The slow link leaves the leader out, and joins two different members.
pub proof fn slow_link_spares_the_leader(leader: int)
    requires
        0 <= leader < 3,
    ensures
        followers(leader).0 != leader,
        followers(leader).1 != leader,
        followers(leader).0 != followers(leader).1,
        0 <= followers(leader).0 < 3,
        0 <= followers(leader).1 < 3,
{
}

/// The highest revision any member reported; zero where none did.
pub open spec fn highest_of(lists: Seq<Vec<i64>>, high: i64) -> bool {
    &&& high >= 0
    &&& forall|i: int, k: int|
        0 <= i < lists.len() && 0 <= k < lists[i]@.len() ==> #[trigger] lists[i]@[k] <= high
    &&& high > 0 ==> exists|i: int, k: int|
        0 <= i < lists.len() && 0 <= k < lists[i]@.len() && #[trigger] lists[i]@[k] == high
}

/// The highest revision any member reported.
pub fn highest_revision(lists: &Vec<Vec<i64>>) -> (high: i64)
    ensures
        highest_of(lists@, high),
{
    let mut high: i64 = 0;
    let mut i: usize = 0;
    assert(highest_of(lists@.take(0), high));
    while i < lists.len()
        invariant
            i <= lists@.len(),
            highest_of(lists@.take(i as int), high),
        decreases lists@.len() - i,
    {
        let ghost before = lists@.take(i as int);
        let ghost start = high;
        let list = &lists[i];
        let mut k: usize = 0;
        while k < list.len()
            invariant
                k <= list@.len(),
                start <= high,
                forall|j: int| 0 <= j < k ==> #[trigger] list@[j] <= high,
                high > start ==> exists|j: int| 0 <= j < k && #[trigger] list@[j] == high,
            decreases list@.len() - k,
        {
            if list[k] > high {
                high = list[k];
            }
            k += 1;
        }
        proof {
            let now = lists@.take(i + 1);
            assert(now[i as int]@ == list@);
            assert forall|a: int, b: int|
                0 <= a < now.len() && 0 <= b < now[a]@.len() implies #[trigger] now[a]@[b] <= high by {
                if a < i {
                    assert(before[a]@[b] <= start);
                }
            }
            if high > 0 {
                if high > start {
                    let j = choose|j: int| 0 <= j < list@.len() && #[trigger] list@[j] == high;
                    assert(now[i as int]@[j] == high);
                } else {
                    let (a, b) = choose|a: int, b: int|
                        0 <= a < before.len() && 0 <= b < before[a]@.len() && #[trigger] before[a]@[b]
                            == high;
                    assert(now[a]@[b] == high);
                }
            }
        }
        i += 1;
    }
    assert(lists@.take(i as int) =~= lists@);
    high
}

/// Values written under a delay are unchanged once it is gone.
pub const VALUES_SURVIVE_A_DELAY: Claims<0> = (
    "five writes made while every link delayed peer traffic by {ms} ms",
    [],
);

/// The revision sequence stays strictly increasing under a delay.
pub const REVISIONS_INCREASE: Claims<2> = (
    "the revisions eight delayed writes were acknowledged with",
    [
        ("", "? rising revisions", "revisions", "strictly increasing", "revisions"),
        ("", "see", "revisions", "", "revisions"),
    ],
);

/// Every member converges once the delay is removed.
pub const CONVERGES_AFTER_HEAL: Claims<2> = (
    "what every member sees once the skew is gone",
    [
        ("", "=", "agreed", "written", "keys agreed on by every member"),
        ("key", "=", "value", "wrote", "converged value of {key}"),
    ],
);

/// The leader may change under a large delay, the values may not.
pub const LEADER_MAY_CHANGE: Claims<2> = (
    "four writes made across a delay big enough to cost an election",
    [
        ("", ">=", "term_after", "term_before", "raft_term after the delay"),
        (
            "",
            "remark",
            "",
            "",
            "leader m{before+1} in term {term_before} before the delay, m{after+1} in term \
             {term_after} after it",
        ),
    ],
);

/// A delay on one link alone changes nothing.
pub const ONE_SLOW_LINK: Claims<1> = (
    "five writes made while one link ran 200 ms late",
    [
        ("", "remark", "", "", "the slow link was m{a+1}–m{b+1}"),
    ],
);

/// No member's revision goes backwards while peer traffic is skewed.
pub const REVISION_NEVER_RETREATS: Claims<3> = (
    "the revisions members reported while peer traffic was late",
    [
        (
            "member",
            "? steady revisions",
            "revisions",
            "never decreasing",
            "m{member+1}.status.header.revision",
        ),
        ("member", "see", "revisions", "", "m{member+1}.revisions"),
        ("", ">=", "highest", "6", "the highest revision any member reported"),
    ],
);

/// Writes made under skew are all readable once it is gone.
pub const READABLE_AFTER_THE_SKEW: Claims<1> = (
    "six writes made under skew, read back once the skew is gone",
    [
        ("", "? rising revisions", "revisions", "strictly increasing", "revisions"),
    ],
);

/// What somebody stuck on this stage is told, one after the other.
pub const HINTS: [&'static str; 4] = [
    "Raft safety rests on terms and indexes, never on wall-clock time",
    "A member whose clock is hours off must still agree on every value",
    "Lease expiry may be affected; linearizability may not",
    "Never compare timestamps from two different machines to order writes",
];

/// The tests of this stage.
pub const TESTS: [TestRow; 8] = [
    ("a 50 ms delay on every link changes no value", "delay_50", true, true, 0, 60000, ""),
    ("a 200 ms delay on every link changes no value", "delay_200", true, true, 0, 60000, ""),
    (
        "the revision sequence stays strictly increasing under a delay",
        "revisions_increase",
        true,
        true,
        0,
        60000,
        "",
    ),
    (
        "every member converges once the delay is removed",
        "converges_after_heal",
        true,
        true,
        0,
        60000,
        "",
    ),
    (
        "the leader may change under a large delay, the values may not",
        "leader_may_change",
        true,
        true,
        0,
        60000,
        "",
    ),
    ("a delay on one link alone changes nothing", "one_slow_link", true, true, 0, 60000, ""),
    (
        "no member's revision goes backwards while peer traffic is skewed",
        "revision_never_retreats",
        true,
        true,
        0,
        60000,
        "",
    ),
    (
        "writes made under skew are all readable once it is gone",
        "readable_after_the_skew",
        true,
        true,
        0,
        60000,
        "",
    ),
];

/// The texts of the example.
pub const EXAMPLE_TEXTS: TextRow = (
    "What a skewed member may and may not change",
    "a write under delayed peer traffic, then a term and a value from two other members",
    "a possibly higher term everywhere, and the same value on every member",
    "The harness cannot move a member's clock, so it delays the arrival of that member's peer \
     traffic instead, which is what a skewed or descheduled member looks like from outside. \
     Read the two answers in the right order: the term is allowed to differ from the one before \
     the delay, the value is not.",
);

/// The steps of the example: whom to ask, the path, the key, the value and why.
pub const EXAMPLE_STEPS: [StepRow; 3] = [
    (0, "/v3/kv/put", "s51/k0", "skewed", "write s51/k0 while peer traffic is arriving late"),
    (1, "/v3/maintenance/status", "", "", "m2's term: it may have climbed, which is allowed"),
    (2, "/v3/kv/range", "s51/k0", "", "m3's copy of the value: this is what may not change"),
];

/// The highest revision is the one number that no reported revision is above, and that is reported or zero.
pub proof fn highest_revision_is_unique(lists: Seq<Vec<i64>>, a: i64, b: i64, i: int, k: int)
    requires
        highest_of(lists, a),
        highest_of(lists, b),
    ensures
        a == b,
        a >= 0,
        0 <= i < lists.len() && 0 <= k < lists[i]@.len() ==> lists[i]@[k] <= a,
        a > 0 ==> exists|i: int, k: int|
            0 <= i < lists.len() && 0 <= k < lists[i]@.len() && #[trigger] lists[i]@[k] == a,
{
    if a > 0 {
        let (i, k) = choose|i: int, k: int|
            0 <= i < lists.len() && 0 <= k < lists[i]@.len() && #[trigger] lists[i]@[k] == a;
        assert(lists[i]@[k] <= b);
    }
    if b > 0 {
        let (i, k) = choose|i: int, k: int|
            0 <= i < lists.len() && 0 <= k < lists[i]@.len() && #[trigger] lists[i]@[k] == b;
        assert(lists[i]@[k] <= a);
    }
}

/// The worked examples of this stage.
pub fn examples() -> (examples: Vec<ExampleSpec>)
    ensures
        described(examples@) == seq![cluster_described(EXAMPLE_TEXTS, EXAMPLE_STEPS@)],
{
    one(cluster_example(EXAMPLE_TEXTS, EXAMPLE_STEPS))
}

/// What the rows say of this stage's place in the suite.
proof fn lemma_in_place()
    ensures
        rows_written(TESTS@),
{
    assert(rows_written(TESTS@)) by {
        reveal_strlit("placeholder");
        reveal_strlit("a 50 ms delay on every link changes no value");
        assert(TESTS@[0].0@.len() == 44);
        reveal_strlit("a 200 ms delay on every link changes no value");
        assert(TESTS@[1].0@.len() == 45);
        reveal_strlit("the revision sequence stays strictly increasing under a delay");
        assert(TESTS@[2].0@.len() == 61);
        reveal_strlit("every member converges once the delay is removed");
        assert(TESTS@[3].0@.len() == 48);
        reveal_strlit("the leader may change under a large delay, the values may not");
        assert(TESTS@[4].0@.len() == 61);
        reveal_strlit("a delay on one link alone changes nothing");
        assert(TESTS@[5].0@.len() == 41);
        reveal_strlit("no member's revision goes backwards while peer traffic is skewed");
        assert(TESTS@[6].0@.len() == 64);
        reveal_strlit("writes made under skew are all readable once it is gone");
        assert(TESTS@[7].0@.len() == 55);
        assert forall|i: int| 0 <= i < 8 implies (#[trigger] TESTS@[i]).0@ != "placeholder"@ by {
            assert(i == 0 || i == 1 || i == 2 || i == 3 || i == 4 || i == 5 || i == 6 || i == 7);
        }
    }
}

/// What stage 51 holds.
pub open spec fn is_stage(s: Stage) -> bool {
    &&& s.number == 51
    &&& s.slug == "clock_skew"
    &&& s.name == "Clock skew changes nothing about safety"
    &&& s.ext == true
    &&& s.ladder == Ladder::Cluster
    &&& s.hints == HINTS
    &&& s.tests@ == tests_of(TESTS@)
    &&& described(s.examples@) == seq![cluster_described(EXAMPLE_TEXTS, EXAMPLE_STEPS@)]
}

/// Stage 51.
pub fn stage() -> (s: Stage)
    ensures
        is_stage(s),
        s.in_place(),
{
    let s = Stage {
        number: 51,
        slug: "clock_skew",
        name: "Clock skew changes nothing about safety",
        ext: true,
        ladder: Ladder::Cluster,
        hints: HINTS,
        examples: examples(),
        tests: tests(TESTS),
    };
    proof {
        reveal(Stage::in_place);
        lemma_in_place();
    }
    s
}

} // verus!
