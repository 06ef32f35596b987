//! The stages of the suite, one module each, and what every stage has.
use vstd::prelude::*;
use crate::examples::{prim_described, Described, ExampleSpec, PrimRow, Scene};

pub mod s24_range_over_ranges;
pub mod s25_range_options;
pub mod s26_mvcc_past_revisions;
pub mod s27_prev_kv_and_delete;
pub mod s28_txn_branches;
pub mod s29_txn_compare_and_swap;
pub mod s30_compaction;
pub mod s31_leases;
pub mod s32_lease_keepalive;
pub mod s33_watches;
pub mod s34_error_responses;
pub mod s35_durability;
pub mod s36_cluster_forms;
pub mod s37_replicated_writes;
pub mod s38_linearizable_reads;
pub mod s39_revision_agreement;
pub mod s40_minority_refuses_writes;
pub mod s41_majority_keeps_serving;
pub mod s42_partition_heals;
pub mod s43_leader_election;
pub mod s44_no_acknowledged_write_lost;
pub mod s45_old_leader_rejoins;
pub mod s46_follower_catch_up;
pub mod s47_snapshot_catch_up;
pub mod s48_member_add;
pub mod s49_member_remove;
pub mod s50_whole_cluster_restart;
pub mod s51_clock_skew;
pub mod s52_lossy_link;
pub mod s53_duplicate_and_reorder;
pub mod s54_linearizability;
pub mod s55_five_node_soak;
pub mod s56_raft_leader_election;
pub mod s57_raft_log_replication;
pub mod s58_raft_commit_safety;
pub mod s59_raft_snapshots;
pub mod s60_raft_membership;
pub mod s61_paxos_single_decree;
pub mod s62_multi_paxos;
pub mod s63_two_phase_commit;
pub mod s64_three_phase_commit;
pub mod s65_commit_recovery;
pub mod s66_saga_orchestrated;
pub mod s67_saga_choreographed;

verus! {

/// What a stage is about: a single node, a cluster, or an algorithm on its own.
#[derive(Clone, Copy, Debug, PartialEq, Eq, Structural)]
pub enum Ladder {
    Node,
    Cluster,
    Algorithms,
}

/// One test of a stage.
#[derive(Clone, Copy, Debug)]
pub struct Test {
    /// What the test shows.
    pub name: &'static str,
    /// The driver that runs it.
    pub body: &'static str,
    /// The test goes beyond what the stage asks of everybody.
    pub ext: bool,
    /// The test wants members that no other test has touched.
    pub fresh: bool,
    /// How many members the test wants, where it is not the usual number.
    pub cluster: Option<usize>,
    /// The least time the test must be given, in milliseconds, where the usual is too short.
    pub min_timeout_ms: Option<u64>,
    /// The conversation the driver holds, where the test is one.
    pub script: Option<&'static str>,
}

/// A test in a row: name, driver, beyond, fresh, members, least time and script; a zero or an empty
/// text in one of the last three stands for none.
pub type TestRow = (&'static str, &'static str, bool, bool, usize, u64, &'static str);

impl Test {
    /// The test that a row describes.
    pub open spec fn of(row: TestRow) -> Test {
        Test {
            name: row.0,
            body: row.1,
            ext: row.2,
            fresh: row.3,
            cluster: if row.4 == 0 {
                None
            } else {
                Some(row.4)
            },
            min_timeout_ms: if row.5 == 0 {
                None
            } else {
                Some(row.5)
            },
            script: if row.6@.len() == 0 {
                None
            } else {
                Some(row.6)
            },
        }
    }

    /// The test that a row describes.
    pub fn from_row(row: TestRow) -> (t: Test)
        ensures
            t == Test::of(row),
    {
        Test {
            name: row.0,
            body: row.1,
            ext: row.2,
            fresh: row.3,
            cluster: if row.4 == 0 {
                None
            } else {
                Some(row.4)
            },
            min_timeout_ms: if row.5 == 0 {
                None
            } else {
                Some(row.5)
            },
            script: if row.6.unicode_len() == 0 {
                None
            } else {
                Some(row.6)
            },
        }
    }
}

/// The tests that some rows describe.
pub open spec fn tests_of(rows: Seq<TestRow>) -> Seq<Test> {
    rows.map_values(|row: TestRow| Test::of(row))
}

/// The tests that some rows describe.
pub fn tests<const N: usize>(rows: [TestRow; N]) -> (out: Vec<Test>)
    ensures
        out@ == tests_of(rows@),
{
    let mut out: Vec<Test> = Vec::new();
    let mut i: usize = 0;
    assert(out@ =~= tests_of(rows@).take(0));
    while i < N
        invariant
            i <= N,
            rows@.len() == N,
            out@ == tests_of(rows@).take(i as int),
        decreases N - i,
    {
        out.push(Test::from_row(rows[i]));
        assert(out@ =~= tests_of(rows@).take(i + 1));
        i += 1;
    }
    assert(out@ =~= tests_of(rows@));
    out
}

/// One stage of the suite.
#[derive(Debug)]
pub struct Stage {
    pub number: u32,
    pub slug: &'static str,
    pub name: &'static str,
    /// The stage goes beyond what the suite asks of everybody.
    pub ext: bool,
    pub ladder: Ladder,
    pub hints: [&'static str; 4],
    pub examples: Vec<ExampleSpec>,
    pub tests: Vec<Test>,
}

/// What a stage is called, by its number.
pub const SLUGS: [&'static str; 44] = [
    "range_over_ranges",
    "range_options",
    "mvcc_past_revisions",
    "prev_kv_and_delete",
    "txn_branches",
    "txn_compare_and_swap",
    "compaction",
    "leases",
    "lease_keepalive",
    "watches",
    "error_responses",
    "durability",
    "cluster_forms",
    "replicated_writes",
    "linearizable_reads",
    "revision_agreement",
    "minority_refuses_writes",
    "majority_keeps_serving",
    "partition_heals",
    "leader_election",
    "no_acknowledged_write_lost",
    "old_leader_rejoins",
    "follower_catch_up",
    "snapshot_catch_up",
    "member_add",
    "member_remove",
    "whole_cluster_restart",
    "clock_skew",
    "lossy_link",
    "duplicate_and_reorder",
    "linearizability",
    "five_node_soak",
    "raft_leader_election",
    "raft_log_replication",
    "raft_commit_safety",
    "raft_snapshots",
    "raft_membership",
    "paxos_single_decree",
    "multi_paxos",
    "two_phase_commit",
    "three_phase_commit",
    "commit_recovery",
    "saga_orchestrated",
    "saga_choreographed",
];

/// The number of the first stage.
pub const FIRST: u32 = 24;

/// The number of the last stage.
pub const LAST: u32 = 67;

/// The ladder a stage stands on.
pub open spec fn ladder_of(number: int) -> Ladder {
    if number <= 35 {
        Ladder::Node
    } else if number <= 55 {
        Ladder::Cluster
    } else {
        Ladder::Algorithms
    }
}

/// Whether a stage goes beyond what the suite asks of everybody.
pub open spec fn is_beyond(number: int) -> bool {
    number <= 55 && number != 24 && number != 27 && number != 28 && number != 31 && number != 36 && number != 37
        && number != 38
}

/// Whether a stage is only announced so far: one test holds its place.
pub open spec fn is_announced(number: int) -> bool {
    27 <= number <= 30 || 33 <= number <= 35 || 38 <= number <= 40 || number == 42 || 45 <= number <= 48
        || number == 54 || number == 55
}

/// A text names a topic in backticks at `k`.
pub open spec fn names_topic_at(text: Seq<char>, topic: Seq<char>, k: int) -> bool {
    0 <= k && k + topic.len() + 2 <= text.len() && text.subrange(k, k + topic.len() + 2) == "`"@ + topic + "`"@
}

/// A text names a topic in backticks.
pub open spec fn names_topic(text: Seq<char>, topic: Seq<char>) -> bool {
    exists|k: int| #[trigger] names_topic_at(text, topic, k)
}

/// An example is a conversation with a program on the topic that the hint names, and it starts with
/// `init`.
pub open spec fn opens_topic(example: Described, hint: Seq<char>) -> bool {
    example.scene matches Scene::Prim { topic, input } && names_topic(hint, topic) && input.len() >= 5
        && input.take(5) == "init "@
}

impl Stage {
    /// The only test holds the stage's place, and there are no examples.
    pub open spec fn announced(self) -> bool {
        self.tests@.len() == 1 && self.tests@[0].name@ == "placeholder"@ && !self.tests@[0].ext
            && self.examples@.len() == 0
    }

    /// No test merely holds a place.
    pub open spec fn written(self) -> bool {
        forall|i: int| 0 <= i < self.tests@.len() ==> (#[trigger] self.tests@[i]).name@ != "placeholder"@
    }

    /// The examples are conversations on the topic that the first hint names.
    pub open spec fn on_topic(self) -> bool {
        self.examples@.len() > 0 && forall|i: int|
            0 <= i < self.examples@.len() ==> opens_topic(#[trigger] self.examples@[i]@, self.hints[0]@)
    }

    /// The stage is what its number says: its slug, its ladder, whether it goes beyond, whether it is
    /// written or only announced, and, on the ladder of algorithms, what its examples are about.
    #[verifier::opaque]
    pub open spec fn in_place(self) -> bool {
        &&& FIRST <= self.number <= LAST
        &&& self.slug@ == SLUGS[self.number - FIRST]@
        &&& self.ladder == ladder_of(self.number as int)
        &&& self.ext == is_beyond(self.number as int)
        &&& self.tests@.len() >= 1
        &&& is_announced(self.number as int) ==> self.announced()
        &&& !is_announced(self.number as int) ==> self.written()
        &&& self.ladder == Ladder::Algorithms ==> self.on_topic()
    }
}

/// None of some rows holds a place.
pub open spec fn rows_written(rows: Seq<TestRow>) -> bool {
    forall|i: int| 0 <= i < rows.len() ==> (#[trigger] rows[i]).0@ != "placeholder"@
}

/// Every row is a conversation on the topic that the hint names.
pub open spec fn rows_on_topic(rows: Seq<PrimRow>, hint: Seq<char>) -> bool {
    rows.len() > 0 && forall|i: int| 0 <= i < rows.len() ==> opens_topic(prim_described(#[trigger] rows[i]), hint)
}

/// What a slug can be told by: its length, its first character and the fifth from its end.
spec fn imprint(slug: Seq<char>) -> int {
    slug.len() * 65536 + slug[0] as int * 256 + slug[slug.len() - 5] as int
}

/// The place in the list of slugs that an imprint belongs to.
spec fn place_of(imprint: int) -> int {
    if imprint == 1143393 {
        0
    } else if imprint == 881268 {
        1
    } else if imprint == 1273203 {
        2
    } else if imprint == 1208421 {
        3
    } else if imprint == 816238 {
        4
    } else if imprint == 1340511 {
        5
    } else if imprint == 680803 {
        6
    } else if imprint == 420965 {
        7
    } else if imprint == 1010785 {
        8
    } else if imprint == 489332 {
        9
    } else if imprint == 1009007 {
        10
    } else if imprint == 681065 {
        11
    } else if imprint == 877414 {
        12
    } else if imprint == 1143410 {
        13
    } else if imprint == 1207410 {
        14
    } else if imprint == 1208933 {
        15
    } else if imprint == 1535346 {
        16
    } else if imprint == 1469810 {
        17
    } else if imprint == 1011816 {
        18
    } else if imprint == 1010787 {
        19
    } else if imprint == 1732191 {
        20
    } else if imprint == 1208170 {
        21
    } else if imprint == 1140323 {
        22
    } else if imprint == 1143651 {
        23
    } else if imprint == 683378 {
        24
    } else if imprint == 879973 {
        25
    } else if imprint == 1406835 {
        26
    } else if imprint == 680799 {
        27
    } else if imprint == 683103 {
        28
    } else if imprint == 1401967 {
        29
    } else if imprint == 1010793 {
        30
    } else if imprint == 943711 {
        31
    } else if imprint == 1340003 {
        32
    } else if imprint == 1340001 {
        33
    } else if imprint == 1208929 {
        34
    } else if imprint == 946803 {
        35
    } else if imprint == 1012338 {
        36
    } else if imprint == 1273957 {
        37
    } else if imprint == 748912 {
        38
    } else if imprint == 1078383 {
        39
    } else if imprint == 1209455 {
        40
    } else if imprint == 1008495 {
        41
    } else if imprint == 1143666 {
        42
    } else if imprint == 1209185 {
        43
    } else {
        44
    }
}

proof fn lemma_slugs(i: int)
    requires
        0 <= i < 44,
    ensures
        place_of(imprint(SLUGS[i]@)) == i,
{
    if i == 0 {
        reveal_strlit("range_over_ranges");
    } else if i == 1 {
        reveal_strlit("range_options");
    } else if i == 2 {
        reveal_strlit("mvcc_past_revisions");
    } else if i == 3 {
        reveal_strlit("prev_kv_and_delete");
    } else if i == 4 {
        reveal_strlit("txn_branches");
    } else if i == 5 {
        reveal_strlit("txn_compare_and_swap");
    } else if i == 6 {
        reveal_strlit("compaction");
    } else if i == 7 {
        reveal_strlit("leases");
    } else if i == 8 {
        reveal_strlit("lease_keepalive");
    } else if i == 9 {
        reveal_strlit("watches");
    } else if i == 10 {
        reveal_strlit("error_responses");
    } else if i == 11 {
        reveal_strlit("durability");
    } else if i == 12 {
        reveal_strlit("cluster_forms");
    } else if i == 13 {
        reveal_strlit("replicated_writes");
    } else if i == 14 {
        reveal_strlit("linearizable_reads");
    } else if i == 15 {
        reveal_strlit("revision_agreement");
    } else if i == 16 {
        reveal_strlit("minority_refuses_writes");
    } else if i == 17 {
        reveal_strlit("majority_keeps_serving");
    } else if i == 18 {
        reveal_strlit("partition_heals");
    } else if i == 19 {
        reveal_strlit("leader_election");
    } else if i == 20 {
        reveal_strlit("no_acknowledged_write_lost");
    } else if i == 21 {
        reveal_strlit("old_leader_rejoins");
    } else if i == 22 {
        reveal_strlit("follower_catch_up");
    } else if i == 23 {
        reveal_strlit("snapshot_catch_up");
    } else if i == 24 {
        reveal_strlit("member_add");
    } else if i == 25 {
        reveal_strlit("member_remove");
    } else if i == 26 {
        reveal_strlit("whole_cluster_restart");
    } else if i == 27 {
        reveal_strlit("clock_skew");
    } else if i == 28 {
        reveal_strlit("lossy_link");
    } else if i == 29 {
        reveal_strlit("duplicate_and_reorder");
    } else if i == 30 {
        reveal_strlit("linearizability");
    } else if i == 31 {
        reveal_strlit("five_node_soak");
    } else if i == 32 {
        reveal_strlit("raft_leader_election");
    } else if i == 33 {
        reveal_strlit("raft_log_replication");
    } else if i == 34 {
        reveal_strlit("raft_commit_safety");
    } else if i == 35 {
        reveal_strlit("raft_snapshots");
    } else if i == 36 {
        reveal_strlit("raft_membership");
    } else if i == 37 {
        reveal_strlit("paxos_single_decree");
    } else if i == 38 {
        reveal_strlit("multi_paxos");
    } else if i == 39 {
        reveal_strlit("two_phase_commit");
    } else if i == 40 {
        reveal_strlit("three_phase_commit");
    } else if i == 41 {
        reveal_strlit("commit_recovery");
    } else if i == 42 {
        reveal_strlit("saga_orchestrated");
    } else if i == 43 {
        reveal_strlit("saga_choreographed");
    }
}

/// No slug occurs twice, and none stands for two numbers: two stages have the same slug if and only if
/// they have the same number.
pub proof fn slugs_tell_stages_apart(s: Stage, t: Stage)
    requires
        s.in_place(),
        t.in_place(),
    ensures
        s.slug@ == t.slug@ <==> s.number == t.number,
{
    reveal(Stage::in_place);
    lemma_slugs(s.number - FIRST);
    lemma_slugs(t.number - FIRST);
}

/// What a number says of a stage. The first twelve are about a single node, the next twenty about a
/// cluster, the last twelve about an algorithm. Every stage has four hints and at least one test. One
/// that is only announced has a single test that holds its place, and no examples; in the others no test
/// holds a place. An algorithm has examples, all of them conversations that start with `init`, on the
/// topic that the first hint names.
pub proof fn number_says_what_a_stage_is(s: Stage)
    requires
        s.in_place(),
    ensures
        24 <= s.number <= 67,
        s.slug@ == SLUGS[s.number - 24]@,
        s.hints@.len() == 4,
        s.tests@.len() >= 1,
        s.ladder == Ladder::Node <==> s.number <= 35,
        s.ladder == Ladder::Cluster <==> 36 <= s.number <= 55,
        s.ladder == Ladder::Algorithms <==> s.number >= 56,
        !s.ext <==> s.number >= 56 || s.number == 24 || s.number == 27 || s.number == 28 || s.number == 31
            || s.number == 36 || s.number == 37 || s.number == 38,
        is_announced(s.number as int) ==> s.announced(),
        !is_announced(s.number as int) ==> s.written(),
        s.number >= 56 ==> s.on_topic(),
{
    reveal(Stage::in_place);
}

/// The stages stand in order of their numbers, from the first on, and each is what its number says.
pub open spec fn in_sequence(stages: Seq<Stage>) -> bool {
    forall|i: int|
        0 <= i < stages.len() ==> (#[trigger] stages[i]).in_place() && stages[i].number == FIRST + i
}

/// In a suite that stands in order no number and no slug occurs twice.
pub proof fn suite_holds_no_stage_twice(stages: Seq<Stage>, i: int, j: int)
    requires
        in_sequence(stages),
        0 <= i < j < stages.len(),
    ensures
        stages[i].number != stages[j].number,
        stages[i].slug@ != stages[j].slug@,
{
    slugs_tell_stages_apart(stages[i], stages[j]);
}

/// Puts the next stage at the end.
fn put(all: &mut Vec<Stage>, s: Stage)
    requires
        in_sequence(old(all)@),
        s.in_place(),
        s.number == FIRST + old(all)@.len(),
    ensures
        in_sequence(final(all)@),
        final(all)@ == old(all)@.push(s),
{
    all.push(s);
}

/// The whole suite, in order.
pub fn suite() -> (stages: Vec<Stage>)
    ensures
        stages@.len() == 44,
        in_sequence(stages@),
        s24_range_over_ranges::is_stage(stages@[0]),
        s25_range_options::is_stage(stages@[1]),
        s26_mvcc_past_revisions::is_stage(stages@[2]),
        s27_prev_kv_and_delete::is_stage(stages@[3]),
        s28_txn_branches::is_stage(stages@[4]),
        s29_txn_compare_and_swap::is_stage(stages@[5]),
        s30_compaction::is_stage(stages@[6]),
        s31_leases::is_stage(stages@[7]),
        s32_lease_keepalive::is_stage(stages@[8]),
        s33_watches::is_stage(stages@[9]),
        s34_error_responses::is_stage(stages@[10]),
        s35_durability::is_stage(stages@[11]),
        s36_cluster_forms::is_stage(stages@[12]),
        s37_replicated_writes::is_stage(stages@[13]),
        s38_linearizable_reads::is_stage(stages@[14]),
        s39_revision_agreement::is_stage(stages@[15]),
        s40_minority_refuses_writes::is_stage(stages@[16]),
        s41_majority_keeps_serving::is_stage(stages@[17]),
        s42_partition_heals::is_stage(stages@[18]),
        s43_leader_election::is_stage(stages@[19]),
        s44_no_acknowledged_write_lost::is_stage(stages@[20]),
        s45_old_leader_rejoins::is_stage(stages@[21]),
        s46_follower_catch_up::is_stage(stages@[22]),
        s47_snapshot_catch_up::is_stage(stages@[23]),
        s48_member_add::is_stage(stages@[24]),
        s49_member_remove::is_stage(stages@[25]),
        s50_whole_cluster_restart::is_stage(stages@[26]),
        s51_clock_skew::is_stage(stages@[27]),
        s52_lossy_link::is_stage(stages@[28]),
        s53_duplicate_and_reorder::is_stage(stages@[29]),
        s54_linearizability::is_stage(stages@[30]),
        s55_five_node_soak::is_stage(stages@[31]),
        s56_raft_leader_election::is_stage(stages@[32]),
        s57_raft_log_replication::is_stage(stages@[33]),
        s58_raft_commit_safety::is_stage(stages@[34]),
        s59_raft_snapshots::is_stage(stages@[35]),
        s60_raft_membership::is_stage(stages@[36]),
        s61_paxos_single_decree::is_stage(stages@[37]),
        s62_multi_paxos::is_stage(stages@[38]),
        s63_two_phase_commit::is_stage(stages@[39]),
        s64_three_phase_commit::is_stage(stages@[40]),
        s65_commit_recovery::is_stage(stages@[41]),
        s66_saga_orchestrated::is_stage(stages@[42]),
        s67_saga_choreographed::is_stage(stages@[43]),
{
    let mut all: Vec<Stage> = Vec::new();
    put(&mut all, s24_range_over_ranges::stage());
    put(&mut all, s25_range_options::stage());
    put(&mut all, s26_mvcc_past_revisions::stage());
    put(&mut all, s27_prev_kv_and_delete::stage());
    put(&mut all, s28_txn_branches::stage());
    put(&mut all, s29_txn_compare_and_swap::stage());
    put(&mut all, s30_compaction::stage());
    put(&mut all, s31_leases::stage());
    put(&mut all, s32_lease_keepalive::stage());
    put(&mut all, s33_watches::stage());
    put(&mut all, s34_error_responses::stage());
    put(&mut all, s35_durability::stage());
    put(&mut all, s36_cluster_forms::stage());
    put(&mut all, s37_replicated_writes::stage());
    put(&mut all, s38_linearizable_reads::stage());
    put(&mut all, s39_revision_agreement::stage());
    put(&mut all, s40_minority_refuses_writes::stage());
    put(&mut all, s41_majority_keeps_serving::stage());
    put(&mut all, s42_partition_heals::stage());
    put(&mut all, s43_leader_election::stage());
    put(&mut all, s44_no_acknowledged_write_lost::stage());
    put(&mut all, s45_old_leader_rejoins::stage());
    put(&mut all, s46_follower_catch_up::stage());
    put(&mut all, s47_snapshot_catch_up::stage());
    put(&mut all, s48_member_add::stage());
    put(&mut all, s49_member_remove::stage());
    put(&mut all, s50_whole_cluster_restart::stage());
    put(&mut all, s51_clock_skew::stage());
    put(&mut all, s52_lossy_link::stage());
    put(&mut all, s53_duplicate_and_reorder::stage());
    put(&mut all, s54_linearizability::stage());
    put(&mut all, s55_five_node_soak::stage());
    put(&mut all, s56_raft_leader_election::stage());
    put(&mut all, s57_raft_log_replication::stage());
    put(&mut all, s58_raft_commit_safety::stage());
    put(&mut all, s59_raft_snapshots::stage());
    put(&mut all, s60_raft_membership::stage());
    put(&mut all, s61_paxos_single_decree::stage());
    put(&mut all, s62_multi_paxos::stage());
    put(&mut all, s63_two_phase_commit::stage());
    put(&mut all, s64_three_phase_commit::stage());
    put(&mut all, s65_commit_recovery::stage());
    put(&mut all, s66_saga_orchestrated::stage());
    put(&mut all, s67_saga_choreographed::stage());
    all
}

/// A row leaves out what it gives as nothing: no members and no time of its own are the usual ones, and an
/// empty conversation is none.
pub proof fn rows_say_what_is_unusual(row: TestRow)
    ensures
        Test::of(row).name == row.0,
        Test::of(row).body == row.1,
        Test::of(row).ext == row.2,
        Test::of(row).fresh == row.3,
        Test::of(row).cluster is None <==> row.4 == 0,
        Test::of(row).cluster matches Some(n) ==> n == row.4,
        Test::of(row).min_timeout_ms is None <==> row.5 == 0,
        Test::of(row).min_timeout_ms matches Some(ms) ==> ms == row.5,
        Test::of(row).script is None <==> !(row.6@.len() > 0),
        Test::of(row).script matches Some(s) ==> s == row.6,
{
}

} // verus!
