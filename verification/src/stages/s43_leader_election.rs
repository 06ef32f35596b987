//! Stage 43: A killed leader is replaced.
//!
//! The leader is killed with no word of warning. The survivors notice, elect one of themselves in a
//! larger term, and serve again within a bound.
use vstd::prelude::*;
use crate::claims::Claims;
use crate::examples::{cluster_described, cluster_example, described, one, ExampleSpec, StepRow, TextRow};
use crate::stages::{rows_written, tests, tests_of, Ladder, Stage, TestRow};
use crate::cluster::{self, lowest_follower, side_poll, Poll};

verus! {

/// How long the cluster is given to settle on one leader at the start, in milliseconds.
pub const ELECT_WITHIN_MS: u64 = 15_000;

/// The bound an election after a kill has to finish inside, in milliseconds.
pub const REELECT_WITHIN_MS: u64 = 20_000;

/// What a driver that waits for the survivors to agree on a leader among themselves does next. For a
/// moment they may go on naming the member that was killed, and that is no answer.
pub fn leader_among(group: &Vec<usize>, named: &Vec<Option<usize>>, elapsed_ms: u64, within_ms: u64) -> (
next: Poll)
    ensures
        side_poll(group@, named@, elapsed_ms, within_ms, 50, next),
{
    cluster::poll_side(group, named, elapsed_ms, within_ms, 50)
}

/// The lowest-numbered member that is not the leader.
pub fn a_follower(leader: usize, size: usize) -> (i: usize)
    ensures
        i == lowest_follower(leader as int, size as int),
        size > 1 ==> i < size && i != leader,
{
    cluster::a_follower(leader, size)
}

/// A killed leader is replaced within a bound.
pub const A_NEW_LEADER_APPEARS: Claims<7> = (
    "the election that followed the leader being killed",
    [
        ("", "!=", "new_leader", "leader", "the new leader"),
        (
            "",
            "? new_leader in survivors",
            "new_leader+1",
            "one of the two members still running",
            "the new leader",
        ),
        ("", "<=", "took", "20000", "how long the cluster went without a leader, in ms"),
        ("", "=", "running", "2", "the members still running"),
        ("", "=", "of_three", "2", "the quorum two survivors make up"),
        ("", "note", "", "", "{described}"),
        ("", "remark", "", "", "{name} was killed; m{new_leader+1} took over after {took} ms"),
    ],
);

/// The term after the election is strictly greater.
pub const THE_TERM_GOES_UP: Claims<4> = (
    "the raft term on both sides of an election",
    [
        (
            "member",
            "? term > old_term",
            "old_term term",
            "a strictly larger term than the killed leader's",
            "{name}.status.raft_term",
        ),
        ("", "=", "second_term", "first_term", "the survivors' terms"),
        (
            "",
            "note",
            "",
            "",
            "m{leader+1} led in term {old_term}; m{new_leader+1} leads in term {first_term}",
        ),
        ("", "note", "", "", "{described}"),
    ],
);

/// The survivors agree on who the new leader is.
pub const THE_SURVIVORS_AGREE: Claims<3> = (
    "who the survivors name as leader, five times over",
    [
        (
            "poll",
            "? named each new_id",
            "named",
            "the same member id on both survivors, and the one that won",
            "poll {n}: the leader every survivor names",
        ),
        ("", "=", "len", "size", "member_list.members.len()"),
        ("", "note", "", "", "{described}"),
    ],
);

/// The cluster accepts writes again after the election.
pub const WRITES_RESUME: Claims<5> = (
    "writes taken by a cluster that has just elected",
    [
        ("", ">=", "first", "before+1", "the first write after the election"),
        (
            "",
            "? second > first",
            "first second",
            "to keep advancing",
            "the revision across the two writes after the election",
        ),
        ("member", "=", "value", "'after-1", "{name}.range.kvs[0].value"),
        ("", "note", "", "", "m{new_leader+1} leads now"),
        ("", "note", "", "", "{described}"),
    ],
);

/// The new leader still holds every acknowledged write.
pub const NOTHING_ACKNOWLEDGED_IS_LOST: Claims<5> = (
    "the acknowledged writes, after the leader that took them died",
    [
        ("", "=", "count", "12", "range.count"),
        ("", "=", "values", "[v0\nv1\nv2\nv3\nv4\nv5\nv6\nv7\nv8\nv9\nv10\nv11", "range.values"),
        ("", ">=", "revision", "last", "range.header.revision"),
        (
            "",
            "note",
            "",
            "",
            "m{leader+1} took the twelve writes and was killed; m{new_leader+1} leads now",
        ),
        ("", "note", "", "", "{described}"),
    ],
);

/// The killed member rejoins when it is started again.
pub const THE_DEAD_MEMBER_REJOINS: Claims<5> = (
    "a member that was killed and started again",
    [
        ("", "=", "running", "size", "the members running again"),
        ("", "=", "named", "settled_id", "{name}.status.leader"),
        ("", ">=", "revision", "put", "{name}.status.header.revision"),
        (
            "",
            "note",
            "",
            "",
            "{name} was killed, m{new_leader+1} took over, and {name} caught up {took} ms after \
             it was started again",
        ),
        ("", "note", "", "", "{described}"),
    ],
);

/// Killing a follower changes nothing.
pub const KILLING_A_FOLLOWER_CHANGES_NOTHING: Claims<6> = (
    "a cluster that lost a follower rather than a leader",
    [
        (
            "",
            "? leaders each leader",
            "leaders",
            "the same leader throughout, with no election",
            "the leader over five rounds",
        ),
        ("", "=", "term", "old_term", "the leader's raft_term"),
        (
            "write",
            "? next > last",
            "last next",
            "to keep advancing",
            "the revision with a follower dead",
        ),
        ("", "=", "running", "2", "the members still running"),
        ("", "note", "", "", "m{victim+1} was killed; m{leader+1} led before and after"),
        ("", "note", "", "", "{described}"),
    ],
);

/// A five-member cluster survives two kills.
pub const FIVE_MEMBERS_SURVIVE_TWO_KILLS: Claims<7> = (
    "a five-member cluster that has lost two members",
    [
        ("", "=", "of_five", "3", "the quorum of five"),
        ("", "=", "running", "3", "the members still running"),
        (
            "",
            "? final_leader in survivors",
            "final_leader+1",
            "one of the three members still running",
            "the final leader",
        ),
        ("member", "=", "value", "'three-left", "{name}.range.kvs[0].value"),
        ("member", ">=", "revision", "put", "{name}.range.header.revision"),
        (
            "",
            "note",
            "",
            "",
            "m{leader+1} was killed, then m{second+1}; the second election took {took} ms and \
             left m{final_leader+1} leading (m{first_new+1} had taken over in between)",
        ),
        ("", "note", "", "", "{described}"),
    ],
);

/// What somebody stuck on this stage is told, one after the other.
pub const HINTS: [&'static str; 4] = [
    "A follower that stops hearing from the leader starts an election",
    "Only a member whose log is at least as up to date may win",
    "The new term is strictly greater than the old one",
    "The cluster must be serving again within a bounded time, not eventually",
];

/// The tests of this stage.
pub const TESTS: [TestRow; 8] = [
    (
        "a killed leader is replaced within a bound",
        "a_new_leader_appears",
        true,
        true,
        0,
        60000,
        "",
    ),
    (
        "the term after the election is strictly greater",
        "the_term_goes_up",
        true,
        true,
        0,
        60000,
        "",
    ),
    (
        "the survivors agree on who the new leader is",
        "the_survivors_agree",
        true,
        true,
        0,
        60000,
        "",
    ),
    (
        "the cluster accepts writes again after the election",
        "writes_resume",
        true,
        true,
        0,
        60000,
        "",
    ),
    (
        "the new leader still holds every acknowledged write",
        "nothing_acknowledged_is_lost",
        true,
        true,
        0,
        60000,
        "",
    ),
    (
        "the killed member rejoins when it is started again",
        "the_dead_member_rejoins",
        true,
        true,
        0,
        90000,
        "",
    ),
    (
        "killing a follower changes nothing",
        "killing_a_follower_changes_nothing",
        true,
        true,
        0,
        60000,
        "",
    ),
    (
        "a five-member cluster survives two kills",
        "five_members_survive_two_kills",
        true,
        true,
        5,
        90000,
        "",
    ),
];

/// The texts of the example.
pub const EXAMPLE_TEXTS: TextRow = (
    "Who leads, and in which term",
    "two status requests and a write on a healthy three-member cluster",
    "one leader id, one raft term, and a put that succeeds",
    "This is the shape of the answer a test takes before and after killing the leader. The \
     `leader` field is a member id, so it has to be looked up in the member list; a member \
     mid-election answers `leader: 0`, which is why the harness polls until the survivors agree \
     instead of asking once. Across a kill, two things have to change together: `leader` names \
     a different member, and `raft_term` is strictly larger. A new leader in the *same* term \
     would mean two members could both claim that term's entries.",
);

/// The steps of the example: whom to ask, the path, the key, the value and why.
pub const EXAMPLE_STEPS: [StepRow; 3] = [
    (0, "/v3/maintenance/status", "", "", "ask m1"),
    (1, "/v3/maintenance/status", "", "", "ask m2"),
    (
        1,
        "/v3/kv/put",
        "after-the-election",
        "serving",
        "and write something, to prove the cluster is serving",
    ),
];

/// The worked examples of this stage.
pub fn examples() -> (examples: Vec<ExampleSpec>)
    ensures
        described(examples@) == seq![cluster_described(EXAMPLE_TEXTS, EXAMPLE_STEPS@)],
{
    one(cluster_example(EXAMPLE_TEXTS, EXAMPLE_STEPS))
}

/// What the rows say of this stage's place in the suite.
proof fn lemma_in_place()
    ensures
        rows_written(TESTS@),
{
    assert(rows_written(TESTS@)) by {
        reveal_strlit("placeholder");
        reveal_strlit("a killed leader is replaced within a bound");
        assert(TESTS@[0].0@.len() == 42);
        reveal_strlit("the term after the election is strictly greater");
        assert(TESTS@[1].0@.len() == 47);
        reveal_strlit("the survivors agree on who the new leader is");
        assert(TESTS@[2].0@.len() == 44);
        reveal_strlit("the cluster accepts writes again after the election");
        assert(TESTS@[3].0@.len() == 51);
        reveal_strlit("the new leader still holds every acknowledged write");
        assert(TESTS@[4].0@.len() == 51);
        reveal_strlit("the killed member rejoins when it is started again");
        assert(TESTS@[5].0@.len() == 50);
        reveal_strlit("killing a follower changes nothing");
        assert(TESTS@[6].0@.len() == 34);
        reveal_strlit("a five-member cluster survives two kills");
        assert(TESTS@[7].0@.len() == 40);
        assert forall|i: int| 0 <= i < 8 implies (#[trigger] TESTS@[i]).0@ != "placeholder"@ by {
            assert(i == 0 || i == 1 || i == 2 || i == 3 || i == 4 || i == 5 || i == 6 || i == 7);
        }
    }
}

/// What stage 43 holds.
pub open spec fn is_stage(s: Stage) -> bool {
    &&& s.number == 43
    &&& s.slug == "leader_election"
    &&& s.name == "A killed leader is replaced"
    &&& s.ext == true
    &&& s.ladder == Ladder::Cluster
    &&& s.hints == HINTS
    &&& s.tests@ == tests_of(TESTS@)
    &&& described(s.examples@) == seq![cluster_described(EXAMPLE_TEXTS, EXAMPLE_STEPS@)]
}

/// Stage 43.
pub fn stage() -> (s: Stage)
    ensures
        is_stage(s),
        s.in_place(),
{
    let s = Stage {
        number: 43,
        slug: "leader_election",
        name: "A killed leader is replaced",
        ext: true,
        ladder: Ladder::Cluster,
        hints: HINTS,
        examples: examples(),
        tests: tests(TESTS),
    };
    proof {
        reveal(Stage::in_place);
        lemma_in_place();
    }
    s
}

} // verus!
