use disttest::stages::{
    s56_raft_leader_election as s56, s57_raft_log_replication as s57, s58_raft_commit_safety as s58,
    s59_raft_snapshots as s59, s60_raft_membership as s60, s61_paxos_single_decree as s61,
    s62_multi_paxos as s62, s63_two_phase_commit as s63, s64_three_phase_commit as s64,
    s65_commit_recovery as s65, s66_saga_orchestrated as s66, s67_saga_choreographed as s67,
};

fn strings(all: &[&str]) -> Vec<String> {
    all.iter().map(|s| s.to_string()).collect()
}

#[test]
fn a_candidate_leads_once_a_majority_has_voted() {
    let mut m = s56::Model::new(5);
    assert_eq!((m.term(), m.role(), m.votes(), m.majority()), (0, s56::Role::Follower, 0, 3));
    m.timeout();
    assert_eq!((m.term(), m.role(), m.votes()), (1, s56::Role::Candidate, 1));
    m.vote_response(1, "s2", true);
    m.vote_response(1, "s2", true);
    assert_eq!((m.role(), m.votes()), (s56::Role::Candidate, 2));
    m.vote_response(1, "s3", false);
    assert_eq!(m.votes(), 2);
    m.vote_response(1, "s4", true);
    assert_eq!((m.role(), m.votes()), (s56::Role::Leader, 3));
    m.timeout();
    assert_eq!((m.term(), m.role()), (1, s56::Role::Leader));
    m.vote_response(2, "s5", false);
    assert_eq!((m.term(), m.role(), m.votes()), (2, s56::Role::Follower, 0));
}

#[test]
fn one_vote_for_each_term() {
    let mut m = s56::Model::new(3);
    assert_eq!(m.request_vote(2, "s2", 0, 0), (2, true));
    assert_eq!(m.request_vote(2, "s3", 0, 0), (2, false));
    assert_eq!(m.request_vote(2, "s2", 0, 0), (2, true));
    assert_eq!(m.request_vote(1, "s2", 9, 9), (2, false));
    assert_eq!(m.request_vote(3, "s3", 0, 0), (3, true));
    m.step_down(4);
    assert_eq!((m.term(), m.role()), (4, s56::Role::Follower));
}

#[test]
fn a_vote_goes_to_no_shorter_log() {
    let mut m = s56::Model::new(3);
    m.log_append(1);
    m.log_append(2);
    assert_eq!((m.last_index(), m.last_term()), (2, 2));
    assert_eq!(m.request_vote(5, "s2", 9, 1), (5, false));
    assert_eq!(m.request_vote(5, "s2", 1, 2), (5, false));
    assert_eq!(m.request_vote(5, "s2", 2, 2), (5, true));
    assert_eq!(m.append_entries(4, "s3"), (5, false));
    assert_eq!(m.append_entries(6, "s3"), (6, true));
    assert_eq!(s56::Role::Candidate.name(), "candidate");
}

#[test]
fn an_append_truncates_only_on_conflict() {
    let mut m = s57::Model::new(&[1, 1, 2]);
    let a = m.append(3, 1, 1, 0, &[1]);
    assert!(a.success);
    assert_eq!((a.last_index, m.log().as_slice()), (3, &[1, 1, 2][..]));
    let b = m.append(3, 2, 1, 9, &[3, 3]);
    assert_eq!(m.log().as_slice(), &[1, 1, 3, 3][..]);
    assert_eq!((b.success, b.last_index, b.commit_index), (true, 4, 4));
    let again = m.append(3, 2, 1, 9, &[3, 3]);
    assert_eq!((again.success, again.last_index, again.commit_index), (true, 4, 4));
    assert_eq!(m.log().as_slice(), &[1, 1, 3, 3][..]);
}

#[test]
fn a_refused_append_names_the_start_of_the_run() {
    let mut m = s57::Model::new(&[1, 2, 2, 2]);
    let a = m.append(5, 4, 3, 0, &[5]);
    assert_eq!((a.success, a.conflict_index), (false, 2));
    assert_eq!(m.log().as_slice(), &[1, 2, 2, 2][..]);
    let far = m.append(5, 9, 5, 0, &[]);
    assert_eq!((far.success, far.conflict_index), (false, 5));
    let stale = m.append(4, 0, 0, 4, &[9]);
    assert!(!stale.success);
    assert_eq!((m.term(), stale.commit_index), (5, 0));
    assert_eq!(m.run_start(4), 2);
    assert_eq!((m.term_at(1), m.term_at(5)), (Some(1), None));
}

#[test]
fn entries_as_arguments() {
    assert_eq!(s57::entries_arg(&[]), "[]");
    assert_eq!(s57::entries_arg(&[1, 12]), "[1,12]");
    assert_eq!(s58::terms_arg(&[1, 1, 2]), "[1,1,2]");
    assert_eq!(s59::terms_arg(&[3]), "[3]");
    assert_eq!(s60::members_arg(&["s1", "s2"]), r#"["s1","s2"]"#);
}

#[test]
fn only_entries_of_the_own_term_are_committed_by_count() {
    let mut m = s58::Model::new(5, 4, &[1, 2, 2]);
    assert_eq!(m.majority(), 3);
    m.ack("s2", 3);
    m.ack("s3", 3);
    assert_eq!((m.replicas(3), m.commit_index()), (3, 0));
    m.append();
    m.ack("s2", 4);
    assert_eq!(m.commit_index(), 0);
    m.ack("s3", 4);
    assert_eq!(m.commit_index(), 4);
    m.ack("s3", 1);
    assert_eq!(m.commit_index(), 4);
    assert_eq!((m.last_index(), m.term_at(4), m.term_at(0)), (4, Some(4), None));
}

#[test]
fn a_snapshot_takes_only_what_is_committed() {
    let mut m = s59::Model::new(&[1, 1, 2, 2]);
    assert!(!m.snapshot(2));
    m.commit(3);
    assert!(m.snapshot(2));
    assert!(m.snapshot(2));
    assert!(m.snapshot(1));
    let s = m.shape();
    assert_eq!((s.first_index, s.last_index, s.commit_index), (3, 4, 3));
    assert_eq!((s.snapshot_index, s.snapshot_term, s.terms), (2, 1, vec![2, 2]));
}

#[test]
fn an_installed_snapshot_keeps_or_replaces_the_log() {
    let mut kept = s59::Model::new(&[1, 1, 2, 2]);
    assert_eq!(kept.install(3, 2).name(), "retained");
    assert_eq!((kept.first_index(), kept.last_index(), kept.term_at(4)), (4, 4, Some(2)));
    assert_eq!(kept.install(3, 2).name(), "stale");
    let mut replaced = s59::Model::new(&[1, 1, 2, 2]);
    assert_eq!(replaced.install(3, 5).name(), "discarded");
    let s = replaced.shape();
    assert_eq!((s.first_index, s.last_index, s.commit_index, s.terms.len()), (4, 3, 3, 0));
}

#[test]
fn one_member_at_a_time() {
    let mut m = s60::Model::new(&["s1", "s2", "s3"]);
    assert!(m.change(true, "s4"));
    assert_eq!(m.phase().name(), "pending");
    assert_eq!(s60::quorum_of(m.members()), 3);
    assert!(!m.change(true, "s5"));
    assert!(!m.change(false, "s4"));
    assert!(m.commit());
    assert!(!m.commit());
    assert_eq!(m.phase().name(), "stable");
    assert!(!m.change(true, "s4"));
    assert!(!m.change(false, "s9"));
    assert!(m.change(false, "s4"));
    assert_eq!(m.members(), &strings(&["s1", "s2", "s3"]));
}

#[test]
fn a_chosen_value_stays_chosen() {
    let mut m = s61::Model::new(3);
    assert_eq!((m.count(), m.majority()), (3, 2));
    assert_eq!(m.prepare(0, 1), (true, 1));
    assert_eq!(m.prepare(1, 1), (true, 1));
    assert_eq!(m.accept(0, 1, "red"), (true, 1));
    assert_eq!(m.learn(), (false, None, 0));
    assert_eq!(m.accept(1, 1, "red"), (true, 1));
    assert_eq!(m.learn(), (true, Some("red".to_string()), 2));
    assert!(!m.prepare(1, 1).0);
    assert!(m.prepare(1, 2).0);
    assert!(m.prepare(2, 2).0);
    assert!(!m.accept(1, 1, "blue").0);
    let promises = vec![(m.last_n(1), m.last_value(1)), (m.last_n(2), m.last_value(2))];
    assert_eq!(s61::proposer_value(&promises, "blue"), "red");
    assert_eq!(s61::proposer_value(&[(None, None)], "blue"), "blue");
    assert_eq!(s61::promise_args(m.last_n(1), &m.last_value(1)), (1, "red".to_string()));
    assert_eq!(s61::promise_args(None, &None), (-1, "-".to_string()));
}

#[test]
fn a_gap_holds_back_what_is_above_it() {
    let mut m = s62::Model::new(3);
    assert_eq!(m.majority(), 2);
    assert!(!m.propose(1, "x").0);
    assert!(m.prepare(1).1);
    for slot in [1, 3] {
        assert!(m.propose(slot, "x").0);
        m.accepted(slot, "a1");
        m.accepted(slot, "a1");
        assert!(!m.is_chosen(slot));
        m.accepted(slot, "a2");
        assert!(m.is_chosen(slot));
    }
    assert_eq!(m.progress(), (1, vec![2]));
    assert!(m.propose(2, "y").0);
    assert!(m.is_open(2));
    m.accepted(2, "a2");
    m.accepted(2, "a3");
    assert_eq!(m.progress(), (3, vec![]));
    m.preempt(7);
    assert!(!m.propose(4, "z").0);
    assert_eq!(m.progress(), (3, vec![]));
}

#[test]
fn two_phase_commit_by_its_rules() {
    let trial = |votes: [bool; 3], crash: bool, delivered: Vec<usize>| {
        s63::Trial { votes, order: vec![0, 1, 2], crash, delivered }.expected_state().name()
    };
    assert_eq!(trial([true; 3], false, vec![1]), "committed");
    assert_eq!(trial([true; 3], false, vec![]), "prepared");
    assert_eq!(trial([true; 3], true, vec![]), "prepared");
    assert_eq!(trial([true, false, true], true, vec![]), "aborted");
}

#[test]
fn three_phase_commit_by_its_rules() {
    let trial = |votes: [bool; 3], complete: bool| s64::Trial { votes, complete }.expected().name();
    assert_eq!(trial([true; 3], true), "commit");
    assert_eq!(trial([true; 3], false), "abort");
    assert_eq!(trial([false, true, true], true), "abort");
}

#[test]
fn recovery_by_its_rules() {
    let after = |steps: usize, commit: bool| {
        let (state, action, applied) = s65::expected_after(steps, commit);
        (state.name(), action.name(), applied)
    };
    assert_eq!(after(0, true), ("unknown", "", false));
    assert_eq!(after(1, true), ("aborted", "abort", false));
    assert_eq!(after(2, true), after(3, true));
    assert_eq!(after(3, false), ("prepared", "ask-coordinator", false));
    assert_eq!(after(4, true), ("committed", "redo", false));
    assert_eq!(after(4, false).0, "aborted");
    assert_eq!(after(5, true).2, true);
    assert_eq!(s65::script(true).len(), s65::script(false).len() + 1);
}

#[test]
fn a_saga_undoes_what_it_did() {
    let names = ["a", "b", "c"];
    assert_eq!(s66::expected_ledger(&names, 0).len(), 3);
    assert_eq!(s66::expected_ledger(&names, 1), Vec::<String>::new());
    assert_eq!(s66::expected_ledger(&names, 3).len(), 4);
    let pending = s66::expected_pending(&names, 2);
    assert_eq!(pending.len(), 2);
    assert!(pending[0].contains('b') && pending[1].contains('a'), "{pending:?}");
}

#[test]
fn a_choreography_undoes_what_the_orchestration_does() {
    let names = ["a", "b", "c"];
    let mut happy = s67::Model::new(&names);
    for event in ["start", "a.ok", "b.ok", "c.ok"] {
        happy.apply(event);
        assert!(happy.is_duplicate(event));
        assert!(happy.inflight() <= 1);
    }
    assert_eq!(happy.ledger(), &s66::expected_ledger(&names, 0));
    assert_eq!(happy.inflight(), 0);
    let mut failed = s67::Model::new(&names);
    for event in ["start", "a.ok", "b.ok", "c.fail", "b.undone", "a.undone"] {
        failed.apply(event);
    }
    let mut orchestrated = s66::expected_ledger(&names, 3);
    orchestrated.insert(2, "do:c".to_string());
    assert_eq!(failed.ledger(), &orchestrated);
    assert_ne!(happy.outcome().name(), failed.outcome().name());
}

#[test]
fn an_event_handled_before_is_absorbed() {
    let mut m = s67::Model::new(&["a", "b"]);
    assert_eq!(m.apply("start").len(), 1);
    assert_eq!(m.apply("start"), Vec::<String>::new());
    assert_eq!(m.apply("b.fail"), Vec::<String>::new());
    assert!(m.undo_before(0).is_empty());
}

#[test]
fn a_commit_index_never_goes_back() {
    let mut m = s57::Model::new(&[1, 1, 2]);
    assert_eq!(m.append(2, 3, 2, 3, &[]).commit_index, 3);
    assert_eq!(m.append(2, 3, 2, 1, &[]).commit_index, 3);
    assert_eq!(m.append(2, 3, 2, 9, &[2]).commit_index, 4);
}

#[test]
fn an_older_term_changes_no_follower() {
    let mut m = s57::Model::new(&[1, 1]);
    m.append(4, 2, 1, 0, &[4]);
    let log = m.log().clone();
    let answer = m.append(3, 0, 0, 9, &[3, 3, 3]);
    assert!(!answer.success);
    assert_eq!((m.term(), m.log()), (4, &log));
}

#[test]
fn majorities_overlap_across_one_change() {
    for n in 0..12usize {
        let members: Vec<String> = (0..n).map(|i| format!("s{i}")).collect();
        let more: Vec<String> = (0..=n).map(|i| format!("s{i}")).collect();
        assert!(s60::quorum_of(&members) + s60::quorum_of(&more) > (n + 1) as i64);
        let (before, after) = (s60::quorum_of(&members), s60::quorum_of(&more));
        assert!(before <= after && after <= before + 1);
        assert!(2 * before > n as i64 && 2 * (before - 1) <= n as i64);
    }
}

#[test]
fn a_promise_only_rises() {
    let mut m = s61::Model::new(3);
    assert_eq!(m.prepare(0, 5), (true, 5));
    assert_eq!(m.prepare(0, 5), (false, 5));
    assert_eq!(m.prepare(0, 3), (false, 5));
    assert_eq!(m.accept(0, 4, "late"), (false, 5));
    assert_eq!(m.accept(0, 7, "skipped ahead"), (true, 7));
    assert_eq!(m.prepare(0, 6), (false, 7));
}

#[test]
fn a_chosen_slot_survives_a_preemption() {
    let mut m = s62::Model::new(3);
    m.prepare(1);
    m.propose(1, "kept");
    m.accepted(1, "a1");
    m.accepted(1, "a2");
    assert!(m.is_chosen(1));
    m.preempt(9);
    assert!(m.is_chosen(1));
    assert!(!m.propose(2, "refused").0);
    assert!(m.prepare(10).1);
    assert_eq!(m.propose(1, "other"), (true, 1));
    assert!(m.is_chosen(1));
    assert_eq!(m.progress().0, 1);
}

#[test]
fn the_order_of_the_votes_decides_nothing() {
    let orders = vec![vec![0, 1, 2], vec![2, 1, 0], vec![1, 2, 0]];
    let mut states: Vec<&str> = orders
        .into_iter()
        .map(|order| {
            let trial = s63::Trial { votes: [true, true, false], order, crash: false, delivered: vec![0] };
            trial.expected_state().name()
        })
        .collect();
    states.dedup();
    assert_eq!(states, vec!["aborted"]);
}

#[test]
fn a_second_failure_starts_nothing() {
    let mut m = s67::Model::new(&["a", "b", "c"]);
    for event in ["start", "a.ok", "b.ok"] {
        m.apply(event);
    }
    assert_eq!(m.apply("c.fail"), strings(&["b.undo"]));
    assert_eq!(m.apply("b.fail"), Vec::<String>::new());
    assert_eq!(m.inflight(), 1);
    assert_eq!(m.apply("b.undone"), strings(&["a.undo"]));
    assert_eq!(m.apply("a.undone"), Vec::<String>::new());
    assert_eq!(m.outcome().name(), "compensated");
}

#[test]
fn a_broadcast_is_delivered_to_those_it_reached() {
    assert_eq!(s63::delivered_to(&[false, false, false]), Vec::<usize>::new());
    assert_eq!(s63::delivered_to(&[true, false, true]), vec![0, 2]);
    assert_eq!(s63::delivered_to(&[false, true, false]), vec![1]);
    assert_eq!(s63::delivered_to(&[true, true, true]), vec![0, 1, 2]);
}

#[test]
fn an_added_member_taken_out_again_leaves_the_list_as_it_was() {
    let mut m = s60::Model::new(&["s1", "s3", "s5"]);
    assert!(m.change(true, "s2") && m.commit());
    assert_eq!(m.members(), &strings(&["s1", "s2", "s3", "s5"]));
    assert!(m.change(false, "s2"));
    assert_eq!(m.members(), &strings(&["s1", "s3", "s5"]));
    assert!(!m.change(true, "s4") && !m.change(false, "s1"));
    assert_eq!(m.members(), &strings(&["s1", "s3", "s5"]));
    assert!(m.commit() && !m.commit());
}

#[test]
fn a_candidate_votes_for_nobody_else_in_its_term() {
    let mut m = s56::Model::new(5);
    m.timeout();
    assert_eq!(m.request_vote(1, "s2", 9, 9), (1, false));
    assert_eq!(m.request_vote(1, "self", 0, 0), (1, true));
    assert_eq!(m.request_vote(2, "s2", 9, 9), (2, true));
}

#[test]
fn a_commit_index_follows_the_leader_up_and_never_down() {
    let mut m = s57::Model::new(&[1, 1]);
    assert_eq!(m.append(1, 2, 1, 9, &[1]).commit_index, 3);
    assert_eq!(m.append(1, 3, 1, 1, &[]).commit_index, 3);
    assert_eq!(m.append(1, 9, 1, 9, &[]).commit_index, 3);
    assert_eq!(m.append(2, 3, 1, 4, &[2, 2]).commit_index, 4);
}

#[test]
fn rounds_are_told_as_they_were_drawn() {
    let draws = vec![
        s62::Drawn::Accepted { slot: 1, pick: 0 },
        s62::Drawn::Prepare { up: 2 },
        s62::Drawn::Propose { slot: 1, value: 3 },
        s62::Drawn::Accepted { slot: 1, pick: 4 },
        s62::Drawn::Preempt { by: -1 },
        s62::Drawn::Applied,
    ];
    let steps = s62::plan_of(&draws);
    let commands: Vec<&str> = steps.iter().map(|s| s.command.as_str()).collect();
    assert_eq!(commands, vec!["prepare 3", "propose 1 v3", "accepted 1 a5", "preempt 2", "applied", "applied"]);
    let empty = s62::plan_of(&Vec::new());
    assert_eq!(empty.len(), 1);
}

#[test]
fn the_chain_of_the_example_ends_without_another_event() {
    let stage = s67::stage();
    let mut m = s67::Model::new(&["reserve", "charge", "ship"]);
    assert_eq!(m.apply("start"), strings(&["reserve.do"]));
    assert_eq!(m.apply("reserve.ok"), strings(&["charge.do"]));
    assert_eq!(m.apply("charge.fail"), strings(&["reserve.undo"]));
    assert_eq!(m.apply("reserve.undone"), Vec::<String>::new());
    assert_eq!(m.ledger().last().unwrap(), "undo:reserve");
    assert!(stage.examples[0].response.starts_with("each event but the last emits exactly one"));
}
