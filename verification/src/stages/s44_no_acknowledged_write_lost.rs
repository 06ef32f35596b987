//! Stage 44: No acknowledged write is lost.
//!
//! A write that was answered is on a quorum, so whoever is elected next holds it. A write that was never
//! answered may be there or not, and only the survivors' agreement about it is demanded.
use vstd::prelude::*;
use crate::claims::Claims;
use crate::examples::{cluster_described, cluster_example, described, one, ExampleSpec, StepRow, TextRow};
use crate::stages::{rows_written, tests, tests_of, Ladder, Stage, TestRow};
use crate::cluster::{self, live_poll, Poll};

verus! {

/// What a driver that waits until every member still running names one leader, and that one is itself
/// still running, does next.
pub fn live_leader(alive: &Vec<usize>, named: &Vec<Option<usize>>, elapsed_ms: u64, within_ms: u64) -> (next:
    Poll)
    ensures
        live_poll(alive@, named@, elapsed_ms, within_ms, next),
{
    cluster::poll_live(alive, named, elapsed_ms, within_ms)
}

/// How often a read is tried again at most.
pub const MOST_RETRIES: u32 = 5;

/// How long a driver waits before it reads again, in milliseconds.
pub const RETRY_PAUSE_MS: u64 = 200;

/// What a driver does with the answer to a read.
#[derive(Clone, Copy, Debug, PartialEq, Eq, Structural)]
pub enum Retry {
    /// Take it.
    Take,
    /// Report the error: it was the last attempt.
    GiveUp,
    /// Read again; this many attempts have failed by then.
    Again { attempt: u32 },
}

/// What a driver does with an answer, after `attempt` reads that failed before it: an answer is taken, and
/// a failure is tried again until the last attempt.
pub open spec fn after_answer(attempt: u32, failed: bool) -> Retry {
    if !failed {
        Retry::Take
    } else if attempt >= MOST_RETRIES {
        Retry::GiveUp
    } else {
        Retry::Again { attempt: (attempt + 1) as u32 }
    }
}

/// What a driver that reads while a cluster hands over does with an answer, after `attempt` reads that
/// failed before it.
pub fn range_settled(attempt: u32, failed: bool) -> (next: Retry)
    ensures
        next == after_answer(attempt, failed),
{
    if !failed {
        Retry::Take
    } else if attempt >= MOST_RETRIES {
        Retry::GiveUp
    } else {
        Retry::Again { attempt: attempt + 1 }
    }
}

/// The value of a key out of the pairs a read of that key answered.
pub fn value_settled(values: &Vec<Vec<u8>>) -> (r: Option<Vec<u8>>)
    ensures
        match r {
            Some(v) => values@.len() > 0 && v@ == values@[0]@,
            None => values@.len() == 0,
        },
{
    if values.len() == 0 {
        None
    } else {
        let v = values[0].clone();
        assert(v@ =~= values@[0]@);
        Some(v)
    }
}

/// How often a driver reads when every read fails, with `attempt` failures behind it.
pub open spec fn reads_made(attempt: u32) -> nat
    decreases MOST_RETRIES - attempt,
{
    match after_answer(attempt, true) {
        Retry::Again { attempt: next } => if attempt < next <= MOST_RETRIES {
            1 + reads_made(next)
        } else {
            1
        },
        _ => 1,
    }
}

/// A read that keeps failing is made six times and no more.
pub proof fn failing_read_is_made_six_times()
    ensures
        reads_made(0) == 6,
{
    reveal_with_fuel(reads_made, 7);
}

/// An acknowledged write survives the leader being killed.
pub const ONE_ACKNOWLEDGED_WRITE: Claims<4> = (
    "the single acknowledged write after the leader was killed",
    [
        ("", "note", "", "", "m{leader+1} was killed, m{fresh+1} leads now"),
        ("", "note", "", "", "{described}"),
        ("", "=", "value", "'acknowledged", "the value after the kill"),
        ("", ">=", "put", "1", "put.header.revision"),
    ],
);

/// A hundred acknowledged writes survive a leader kill.
pub const A_HUNDRED_ACKNOWLEDGED_WRITES: Claims<5> = (
    "a hundred acknowledged writes after the leader was killed",
    [
        ("", "note", "", "", "m{leader+1} was killed, m{fresh+1} leads now"),
        ("", "note", "", "", "{described}"),
        ("", "note", "", "", "{faults}"),
        ("", "=", "acknowledged", "100", "puts that were acknowledged"),
        ("", "? empty lost", "lost", "every one of them", "acknowledged writes still readable"),
    ],
);

/// Writes acknowledged through a follower survive too.
pub const ACKNOWLEDGED_THROUGH_A_FOLLOWER: Claims<4> = (
    "writes acknowledged by a follower, after the leader was killed",
    [
        (
            "",
            "note",
            "",
            "",
            "written through m{follower+1}, m{leader+1} killed, m{fresh+1} leads now",
        ),
        ("", "note", "", "", "{described}"),
        ("", "=", "acknowledged", "30", "puts that were acknowledged"),
        ("", "? empty lost", "lost", "every one of them", "acknowledged writes still readable"),
    ],
);

/// The revision an acknowledged write was given is still readable.
pub const THE_REVISION_SURVIVES: Claims<6> = (
    "the revisions two acknowledged writes were given",
    [
        ("", "note", "", "", "m{leader+1} was killed, m{fresh+1} leads now"),
        ("", "note", "", "", "{described}"),
        ("", ">=", "second", "first+1", "the second revision is above the first"),
        ("", "=", "old.value", "'one", "the value at the first revision"),
        ("", "=", "now.value", "'two", "the value at head"),
        ("", "=", "now.mod_revision", "second", "kvs[0].mod_revision at head"),
    ],
);

/// A kill in the middle of a burst loses nothing that was acknowledged.
pub const A_KILL_DURING_A_BURST: Claims<5> = (
    "a burst of writes with the leader killed halfway through",
    [
        (
            "",
            "note",
            "",
            "",
            "written through m{writer+1}, m{leader+1} killed after 20 puts, m{fresh+1} leads now",
        ),
        ("", "note", "", "", "{described}"),
        ("", "see", "refused", "", "puts refused during the election"),
        ("", ">=", "acknowledged", "20", "puts that were acknowledged"),
        ("", "? empty lost", "lost", "every one of them", "acknowledged writes still readable"),
    ],
);

/// The survivors agree about every key, acknowledged or not.
pub const SURVIVORS_AGREE: Claims<4> = (
    "what each survivor holds after the leader was killed",
    [
        ("", "note", "", "", "m{leader+1} was killed, m{fresh+1} leads now"),
        ("", "note", "", "", "{described}"),
        ("", ">=", "survivors", "2", "surviving members"),
        (
            "other",
            "? pairs = first",
            "count first_count",
            "the same keys and values on every survivor",
            "{name} holds what {first_name} holds",
        ),
    ],
);

/// An acknowledged delete is as durable as an acknowledged write.
pub const A_DELETE_IS_DURABLE: Claims<5> = (
    "an acknowledged delete after the leader was killed",
    [
        ("", "note", "", "", "m{leader+1} was killed, m{fresh+1} leads now"),
        ("", "note", "", "", "{described}"),
        ("", "=", "deleted", "1", "deleterange.deleted"),
        ("", "=", "gone", "null", "the deleted key after the kill"),
        ("", "=", "kept", "'stays", "the untouched key after the kill"),
    ],
);

/// Five members and two leader kills lose nothing.
pub const FIVE_MEMBERS_TWO_KILLS: Claims<5> = (
    "forty acknowledged writes across two leader kills of five members",
    [
        ("", "note", "", "", "killed m{killed}, m{fresh+1} leads now"),
        ("", "note", "", "", "{described}"),
        ("", "=", "acknowledged", "40", "puts that were acknowledged"),
        ("", "=", "running", "3", "members still running"),
        ("", "? empty lost", "lost", "every one of them", "acknowledged writes still readable"),
    ],
);

/// What somebody stuck on this stage is told, one after the other.
pub const HINTS: [&'static str; 4] = [
    "A write is only acknowledged once a quorum has it on disk",
    "After the leader is killed, every acknowledged write must still be readable",
    "A write that was never acknowledged may be there or not: both are correct",
    "This is the property the whole design exists to provide",
];

/// The tests of this stage.
pub const TESTS: [TestRow; 8] = [
    (
        "an acknowledged write survives the leader being killed",
        "one_acknowledged_write",
        true,
        true,
        0,
        60000,
        "",
    ),
    (
        "a hundred acknowledged writes survive a leader kill",
        "a_hundred_acknowledged_writes",
        true,
        true,
        0,
        60000,
        "",
    ),
    (
        "writes acknowledged through a follower survive too",
        "acknowledged_through_a_follower",
        true,
        true,
        0,
        60000,
        "",
    ),
    (
        "the revision an acknowledged write was given is still readable",
        "the_revision_survives",
        true,
        true,
        0,
        60000,
        "",
    ),
    (
        "a kill in the middle of a burst loses nothing that was acknowledged",
        "a_kill_during_a_burst",
        true,
        true,
        0,
        60000,
        "",
    ),
    (
        "the survivors agree about every key, acknowledged or not",
        "survivors_agree",
        true,
        true,
        0,
        60000,
        "",
    ),
    (
        "an acknowledged delete is as durable as an acknowledged write",
        "a_delete_is_durable",
        true,
        true,
        0,
        60000,
        "",
    ),
    (
        "five members and two leader kills lose nothing",
        "five_members_two_kills",
        true,
        false,
        5,
        60000,
        "",
    ),
];

/// The texts of the example.
pub const EXAMPLE_TEXTS: TextRow = (
    "An acknowledged write, then every member's copy of it",
    "a put that returned, then the same key read from each member",
    "one header revision, and three identical copies of the value",
    "The put's answer is the promise: by the time that header came back a quorum had the entry, \
     which is why m2 and m3 can serve it. The stage kills the leader at exactly this point and \
     reads the key from whoever is elected next. A put that never answered carries no such \
     promise and may be missing afterwards, so the tests record which puts returned and demand \
     only those.",
);

/// The steps of the example: whom to ask, the path, the key, the value and why.
pub const EXAMPLE_STEPS: [StepRow; 4] = [
    (0, "/v3/kv/put", "ex44/k", "acked", "write ex44/k through m1 and wait for the answer"),
    (1, "/v3/kv/range", "ex44/k", "", "m2 already has it"),
    (2, "/v3/kv/range", "ex44/k", "", "and so does m3"),
    (2, "/v3/maintenance/status", "", "", "the revision the write was given, as m3 sees it"),
];

/// A read that succeeds is taken, however many failed before it; one that fails is made again up to the sixth
/// time, and then its error is reported.
pub proof fn read_is_made_again_five_times(attempt: u32)
    ensures
        after_answer(attempt, false) == Retry::Take,
        attempt < 5 ==> (after_answer(attempt, true) matches Retry::Again { attempt: next } && next == attempt + 1),
        attempt >= 5 ==> after_answer(attempt, true) == Retry::GiveUp,
{
}

/// The worked examples of this stage.
pub fn examples() -> (examples: Vec<ExampleSpec>)
    ensures
        described(examples@) == seq![cluster_described(EXAMPLE_TEXTS, EXAMPLE_STEPS@)],
{
    one(cluster_example(EXAMPLE_TEXTS, EXAMPLE_STEPS))
}

/// What the rows say of this stage's place in the suite.
proof fn lemma_in_place()
    ensures
        rows_written(TESTS@),
{
    assert(rows_written(TESTS@)) by {
        reveal_strlit("placeholder");
        reveal_strlit("an acknowledged write survives the leader being killed");
        assert(TESTS@[0].0@.len() == 54);
        reveal_strlit("a hundred acknowledged writes survive a leader kill");
        assert(TESTS@[1].0@.len() == 51);
        reveal_strlit("writes acknowledged through a follower survive too");
        assert(TESTS@[2].0@.len() == 50);
        reveal_strlit("the revision an acknowledged write was given is still readable");
        assert(TESTS@[3].0@.len() == 62);
        reveal_strlit("a kill in the middle of a burst loses nothing that was acknowledged");
        assert(TESTS@[4].0@.len() == 67);
        reveal_strlit("the survivors agree about every key, acknowledged or not");
        assert(TESTS@[5].0@.len() == 56);
        reveal_strlit("an acknowledged delete is as durable as an acknowledged write");
        assert(TESTS@[6].0@.len() == 61);
        reveal_strlit("five members and two leader kills lose nothing");
        assert(TESTS@[7].0@.len() == 46);
        assert forall|i: int| 0 <= i < 8 implies (#[trigger] TESTS@[i]).0@ != "placeholder"@ by {
            assert(i == 0 || i == 1 || i == 2 || i == 3 || i == 4 || i == 5 || i == 6 || i == 7);
        }
    }
}

/// What stage 44 holds.
pub open spec fn is_stage(s: Stage) -> bool {
    &&& s.number == 44
    &&& s.slug == "no_acknowledged_write_lost"
    &&& s.name == "No acknowledged write is lost"
    &&& s.ext == true
    &&& s.ladder == Ladder::Cluster
    &&& s.hints == HINTS
    &&& s.tests@ == tests_of(TESTS@)
    &&& described(s.examples@) == seq![cluster_described(EXAMPLE_TEXTS, EXAMPLE_STEPS@)]
}

/// Stage 44.
pub fn stage() -> (s: Stage)
    ensures
        is_stage(s),
        s.in_place(),
{
    let s = Stage {
        number: 44,
        slug: "no_acknowledged_write_lost",
        name: "No acknowledged write is lost",
        ext: true,
        ladder: Ladder::Cluster,
        hints: HINTS,
        examples: examples(),
        tests: tests(TESTS),
    };
    proof {
        reveal(Stage::in_place);
        lemma_in_place();
    }
    s
}

} // verus!
