//! Stage 50: Restarting the whole cluster loses nothing.
//!
//! Every member is stopped and started again from its own directory. The values, the revisions, the ids
//! and the cluster are the ones that were there before.
use vstd::prelude::*;
use crate::check::{all_hold, Check, Verdict};
use crate::claims::Claims;
use crate::examples::{cluster_described, cluster_example, described, one, ExampleSpec, StepRow, TextRow};
use crate::stages::{rows_written, tests, tests_of, Ladder, Stage, TestRow};

verus! {

/// Attaches what a reader of a failed restart wants: who runs and who leads, the faults in place, and what
/// the members printed.
pub fn attach_state(c: &mut Check, described: &str, faults: &str, printed: &str)
    ensures
        final(c)@ == if all_hold(old(c)@.rulings) {
            old(c)@
        } else {
            Verdict {
                notes: old(c)@.notes.push(described@).push(faults@),
                blocks: old(c)@.blocks.push(("what the members printed"@, printed@)),
                ..old(c)@
            }
        },
{
    if !c.ok() {
        c.note(described);
        c.note(faults);
        c.block("what the members printed", printed);
    }
}

/// How long a restarted cluster is given to name a leader again, in milliseconds.
pub const ELECT_MS: u64 = 25_000;

/// Every acknowledged write survives a restart of every member.
pub const WRITES_SURVIVE: Claims<0> = (
    "eight acknowledged writes, after every member was restarted",
    [],
);

/// The cluster elects a leader again.
pub const LEADER_AGAIN: Claims<5> = (
    "the leader a restarted cluster elects",
    [
        ("", "? after < 3", "after", "one of the three members", "leader index after the restart"),
        ("", "=", "named", "member_id", "leader.status.leader"),
        ("", ">=", "term", "term_before", "raft_term after the restart"),
        ("", "see", "before+1 after+1", "", "leader before and after"),
        ("", "remark", "", "", "after the restart: {described}"),
    ],
);

/// The revision continues rather than restarting.
pub const REVISION_CONTINUES: Claims<2> = (
    "the revision counter across a restart",
    [
        ("", ">=", "after", "before", "status.header.revision after the restart"),
        (
            "",
            "? next > before",
            "before next",
            "a revision past the last one acknowledged before the restart",
            "put.header.revision after the restart",
        ),
    ],
);

/// The member list and the cluster id are unchanged.
pub const IDENTITY_IS_UNCHANGED: Claims<3> = (
    "the identity of a restarted cluster",
    [
        ("", "=", "len", "3", "member_list.members.len()"),
        ("", "=", "ids_after", "ids_before", "member_list names and ids"),
        ("member", "=", "cluster_id", "cluster_id_before", "{name}.header.cluster_id"),
    ],
);

/// The cluster serves writes again after a restart.
pub const SERVES_AGAIN: Claims<0> = (
    "four writes made after the whole cluster was restarted",
    [],
);

/// Two restarts in a row lose nothing.
pub const TWO_RESTARTS: Claims<0> = (
    "eight writes across two whole-cluster restarts",
    [],
);

/// A restart after a partition has healed loses nothing.
pub const RESTART_AFTER_A_PARTITION: Claims<0> = (
    "writes made during a partition, after the heal and a restart",
    [],
);

/// Every member still holds the same data.
pub const MEMBERS_AGREE_AFTER_RESTART: Claims<3> = (
    "what every member sees once it has restarted",
    [
        ("", "=", "agreed", "written", "keys agreed on by every member"),
        ("key", "=", "key", "wrote_key", "converged key"),
        ("key", "=", "value", "wrote", "converged value of {key}"),
    ],
);

/// Five members restart together.
pub const FIVE_MEMBERS_RESTART: Claims<3> = (
    "a five-member cluster, restarted whole",
    [
        ("", "? leader < 5", "leader", "one of the five members", "leader index"),
        ("", "=", "running", "5", "members running"),
        ("", "remark", "", "", "{described}"),
    ],
);

/// What somebody stuck on this stage is told, one after the other.
pub const HINTS: [&'static str; 4] = [
    "Every member restarts from its own data directory with no reformatting",
    "The cluster re-elects a leader and continues from the revision it had",
    "Every acknowledged write is still there, with the same revisions",
    "A member that restarts must not rejoin as a brand new one",
];

/// The tests of this stage.
pub const TESTS: [TestRow; 9] = [
    (
        "every acknowledged write survives a restart of every member",
        "writes_survive",
        true,
        true,
        0,
        60000,
        "",
    ),
    ("the cluster elects a leader again", "leader_again", true, true, 0, 60000, ""),
    (
        "the revision continues rather than restarting",
        "revision_continues",
        true,
        true,
        0,
        60000,
        "",
    ),
    (
        "the member list and the cluster id are unchanged",
        "identity_is_unchanged",
        true,
        true,
        0,
        60000,
        "",
    ),
    ("the cluster serves writes again after a restart", "serves_again", true, true, 0, 60000, ""),
    ("two restarts in a row lose nothing", "two_restarts", true, true, 0, 90000, ""),
    (
        "a restart after a partition has healed loses nothing",
        "restart_after_a_partition",
        true,
        true,
        0,
        90000,
        "",
    ),
    (
        "every member still holds the same data",
        "members_agree_after_restart",
        true,
        true,
        0,
        60000,
        "",
    ),
    ("five members restart together", "five_members_restart", true, false, 5, 90000, ""),
];

/// The texts of the example.
pub const EXAMPLE_TEXTS: TextRow = (
    "What a restart has to preserve",
    "a write, a read of its revision, and the cluster's own identity",
    "a value at a revision, and a cluster id and member ids that outlive a restart",
    "The harness stops every member and starts it again from the same data directory, then asks \
     these same questions. A store that keeps the values but hands out a fresh revision \
     counter, or a member that rejoins under a new id, passes a read-back test and still breaks \
     every client holding a revision from before the restart.",
);

/// The steps of the example: whom to ask, the path, the key, the value and why.
pub const EXAMPLE_STEPS: [StepRow; 4] = [
    (
        0,
        "/v3/kv/put",
        "s50/k0",
        "v0",
        "write s50/k0 through m1 and note the revision it was given",
    ),
    (
        0,
        "/v3/kv/range",
        "s50/k0",
        "",
        "read it back: mod_revision is the number a restart must preserve",
    ),
    (
        1,
        "/v3/maintenance/status",
        "",
        "",
        "m2's revision and cluster id, the two numbers a restart must not change",
    ),
    (
        2,
        "/v3/cluster/member/list",
        "",
        "",
        "and the member ids, which a restarted member must keep",
    ),
];

/// The worked examples of this stage.
pub fn examples() -> (examples: Vec<ExampleSpec>)
    ensures
        described(examples@) == seq![cluster_described(EXAMPLE_TEXTS, EXAMPLE_STEPS@)],
{
    one(cluster_example(EXAMPLE_TEXTS, EXAMPLE_STEPS))
}

/// What the rows say of this stage's place in the suite.
proof fn lemma_in_place()
    ensures
        rows_written(TESTS@),
{
    assert(rows_written(TESTS@)) by {
        reveal_strlit("placeholder");
        reveal_strlit("every acknowledged write survives a restart of every member");
        assert(TESTS@[0].0@.len() == 59);
        reveal_strlit("the cluster elects a leader again");
        assert(TESTS@[1].0@.len() == 33);
        reveal_strlit("the revision continues rather than restarting");
        assert(TESTS@[2].0@.len() == 45);
        reveal_strlit("the member list and the cluster id are unchanged");
        assert(TESTS@[3].0@.len() == 48);
        reveal_strlit("the cluster serves writes again after a restart");
        assert(TESTS@[4].0@.len() == 47);
        reveal_strlit("two restarts in a row lose nothing");
        assert(TESTS@[5].0@.len() == 34);
        reveal_strlit("a restart after a partition has healed loses nothing");
        assert(TESTS@[6].0@.len() == 52);
        reveal_strlit("every member still holds the same data");
        assert(TESTS@[7].0@.len() == 38);
        reveal_strlit("five members restart together");
        assert(TESTS@[8].0@.len() == 29);
        assert forall|i: int| 0 <= i < 9 implies (#[trigger] TESTS@[i]).0@ != "placeholder"@ by {
            assert(i == 0 || i == 1 || i == 2 || i == 3 || i == 4 || i == 5 || i == 6 || i == 7 || i == 8);
        }
    }
}

/// What stage 50 holds.
pub open spec fn is_stage(s: Stage) -> bool {
    &&& s.number == 50
    &&& s.slug == "whole_cluster_restart"
    &&& s.name == "Restarting the whole cluster loses nothing"
    &&& s.ext == true
    &&& s.ladder == Ladder::Cluster
    &&& s.hints == HINTS
    &&& s.tests@ == tests_of(TESTS@)
    &&& described(s.examples@) == seq![cluster_described(EXAMPLE_TEXTS, EXAMPLE_STEPS@)]
}

/// Stage 50.
pub fn stage() -> (s: Stage)
    ensures
        is_stage(s),
        s.in_place(),
{
    let s = Stage {
        number: 50,
        slug: "whole_cluster_restart",
        name: "Restarting the whole cluster loses nothing",
        ext: true,
        ladder: Ladder::Cluster,
        hints: HINTS,
        examples: examples(),
        tests: tests(TESTS),
    };
    proof {
        reveal(Stage::in_place);
        lemma_in_place();
    }
    s
}

} // verus!
