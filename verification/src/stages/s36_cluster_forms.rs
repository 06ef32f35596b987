//! Stage 36: A cluster forms and elects one leader.
//!
//! Three members, each given the same list of members, settle on one leader and one term.
use vstd::prelude::*;
use crate::claims::Claims;
use crate::examples::{cluster_described, cluster_example, described, one, ExampleSpec, StepRow, TextRow};
use crate::stages::{rows_written, tests, tests_of, Ladder, Stage, TestRow};

verus! {

/// How long the cluster is given to settle on one leader, in milliseconds.
pub const ELECT_WITHIN_MS: u64 = 15_000;

/// How long a cluster of five is given to settle on one leader, in milliseconds.
pub const FIVE_ELECT_WITHIN_MS: u64 = 25_000;

/// Every member answers.
pub const EVERY_MEMBER_ANSWERS: Claims<3> = (
    "three members answering /v3/maintenance/status",
    [
        ("member/answer", "!=", "member_id", "0", "{name}.header.member_id"),
        ("member/answer", ">=", "revision", "1", "{name}.header.revision"),
        ("member/silence", "? answered", "error", "an answer", "{name}.status"),
    ],
);

/// One leader, named by everyone.
pub const ONE_LEADER: Claims<1> = (
    "the leader every member names",
    [
        ("", "remark", "", "", "leader m{leader+1} — {described}"),
    ],
);

/// The leader is a member of the cluster.
pub const LEADER_IS_A_MEMBER: Claims<2> = (
    "the member the cluster named as leader",
    [
        ("", "=", "named", "member_id", "leader.status.leader"),
        ("", "? leader < 3", "leader", "one of the three members", "leader index"),
    ],
);

/// Every member reports the same cluster id.
pub const SAME_CLUSTER_ID: Claims<1> = (
    "the cluster id on every member",
    [
        ("member", "=", "cluster_id", "first", "{name}.header.cluster_id"),
    ],
);

/// Member ids are distinct.
pub const DISTINCT_MEMBER_IDS: Claims<2> = (
    "three member ids",
    [
        ("", "=", "distinct", "3", "distinct member ids"),
        ("", "see", "ids", "", "member ids"),
    ],
);

/// The member list names every member.
pub const MEMBER_LIST: Claims<4> = (
    "the member list",
    [
        ("", "=", "len", "3", "member_list.members.len()"),
        ("", "=", "names", "[m1\nm2\nm3", "member_list names"),
        ("member", "? some urls", "urls", "at least one peer URL", "member_list[{name}].peerURLs"),
        ("member", "=", "learner", "false", "member_list[{name}].isLearner"),
    ],
);

/// The term is the same everywhere.
pub const SAME_TERM: Claims<3> = (
    "the raft term on every member",
    [
        ("", ">=", "term1", "1", "m1.raft_term"),
        ("", "=", "term2", "term1", "m2.raft_term"),
        ("", "=", "term3", "term1", "m3.raft_term"),
    ],
);

/// A quorum is a majority of three.
pub const QUORUM_IS_TWO: Claims<2> = (
    "the arithmetic the partition stages rest on",
    [
        ("", "=", "of_three", "2", "majority(3)"),
        ("", "=", "of_five", "3", "majority(5)"),
    ],
);

/// The leader survives being asked repeatedly.
pub const LEADER_IS_STABLE: Claims<1> = (
    "the leader of a quiet cluster",
    [
        (
            "",
            "? seen each first",
            "seen",
            "the same leader every time, with no election in a quiet cluster",
            "leader over five polls",
        ),
    ],
);

/// Five members also form one cluster.
pub const FIVE_MEMBERS: Claims<3> = (
    "a five-member cluster",
    [
        ("", "=", "len", "5", "member_list.members.len()"),
        ("", "? leader < 5", "leader", "one of the five members", "leader index"),
        ("", "remark", "", "", "{described}"),
    ],
);

/// What somebody stuck on this stage is told, one after the other.
pub const HINTS: [&'static str; 4] = [
    "--initial-cluster lists every member as name=peer-url, and every member gets the same list",
    "Dial the peer URL you were told, not the address the member listens on",
    "/v3/maintenance/status reports the leader's member id and the current raft term",
    "Every member must name the same leader, and the term must be the same on all of them",
];

/// The tests of this stage.
pub const TESTS: [TestRow; 10] = [
    ("every member answers", "every_member_answers", false, false, 0, 40000, ""),
    ("one leader, named by everyone", "one_leader", false, false, 0, 40000, ""),
    ("the leader is a member of the cluster", "leader_is_a_member", false, false, 0, 0, ""),
    ("every member reports the same cluster id", "same_cluster_id", false, false, 0, 0, ""),
    ("member ids are distinct", "distinct_member_ids", false, false, 0, 0, ""),
    ("the member list names every member", "member_list", false, false, 0, 0, ""),
    ("the term is the same everywhere", "same_term", false, false, 0, 0, ""),
    ("a quorum is a majority of three", "quorum_is_two", false, false, 0, 0, ""),
    ("the leader survives being asked repeatedly", "leader_is_stable", true, false, 0, 0, ""),
    ("five members also form one cluster", "five_members", true, false, 5, 60000, ""),
];

/// The texts of the example.
pub const EXAMPLE_TEXTS: TextRow = (
    "Three members, one leader",
    "the same status request to each of the three members",
    "three answers naming one leader id and one raft term",
    "`leader` is a member id, not a name or an index: look it up in the member list. A member \
     that is mid-election answers leader 0, which is why the harness polls until every member \
     agrees rather than asking once.",
);

/// The steps of the example: whom to ask, the path, the key, the value and why.
pub const EXAMPLE_STEPS: [StepRow; 4] = [
    (0, "/v3/maintenance/status", "", "", "ask m1 who leads"),
    (1, "/v3/maintenance/status", "", "", "ask m2 who leads"),
    (2, "/v3/maintenance/status", "", "", "ask m3 who leads"),
    (0, "/v3/cluster/member/list", "", "", "and who is in the cluster at all"),
];

/// The worked examples of this stage.
pub fn examples() -> (examples: Vec<ExampleSpec>)
    ensures
        described(examples@) == seq![cluster_described(EXAMPLE_TEXTS, EXAMPLE_STEPS@)],
{
    one(cluster_example(EXAMPLE_TEXTS, EXAMPLE_STEPS))
}

/// What the rows say of this stage's place in the suite.
proof fn lemma_in_place()
    ensures
        rows_written(TESTS@),
{
    assert(rows_written(TESTS@)) by {
        reveal_strlit("placeholder");
        reveal_strlit("every member answers");
        assert(TESTS@[0].0@.len() == 20);
        reveal_strlit("one leader, named by everyone");
        assert(TESTS@[1].0@.len() == 29);
        reveal_strlit("the leader is a member of the cluster");
        assert(TESTS@[2].0@.len() == 37);
        reveal_strlit("every member reports the same cluster id");
        assert(TESTS@[3].0@.len() == 40);
        reveal_strlit("member ids are distinct");
        assert(TESTS@[4].0@.len() == 23);
        reveal_strlit("the member list names every member");
        assert(TESTS@[5].0@.len() == 34);
        reveal_strlit("the term is the same everywhere");
        assert(TESTS@[6].0@.len() == 31);
        reveal_strlit("a quorum is a majority of three");
        assert(TESTS@[7].0@.len() == 31);
        reveal_strlit("the leader survives being asked repeatedly");
        assert(TESTS@[8].0@.len() == 42);
        reveal_strlit("five members also form one cluster");
        assert(TESTS@[9].0@.len() == 34);
        assert forall|i: int| 0 <= i < 10 implies (#[trigger] TESTS@[i]).0@ != "placeholder"@ by {
            assert(i == 0 || i == 1 || i == 2 || i == 3 || i == 4 || i == 5 || i == 6 || i == 7 || i == 8 || i == 9);
        }
    }
}

/// What stage 36 holds.
pub open spec fn is_stage(s: Stage) -> bool {
    &&& s.number == 36
    &&& s.slug == "cluster_forms"
    &&& s.name == "A cluster forms and elects one leader"
    &&& s.ext == false
    &&& s.ladder == Ladder::Cluster
    &&& s.hints == HINTS
    &&& s.tests@ == tests_of(TESTS@)
    &&& described(s.examples@) == seq![cluster_described(EXAMPLE_TEXTS, EXAMPLE_STEPS@)]
}

/// Stage 36.
pub fn stage() -> (s: Stage)
    ensures
        is_stage(s),
        s.in_place(),
{
    let s = Stage {
        number: 36,
        slug: "cluster_forms",
        name: "A cluster forms and elects one leader",
        ext: false,
        ladder: Ladder::Cluster,
        hints: HINTS,
        examples: examples(),
        tests: tests(TESTS),
    };
    proof {
        reveal(Stage::in_place);
        lemma_in_place();
    }
    s
}

} // verus!
