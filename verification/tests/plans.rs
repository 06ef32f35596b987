use disttest::check::Check;
use disttest::json::{names_to_json, Json};
use disttest::stages::{
    s56_raft_leader_election as s56, s57_raft_log_replication as s57, s58_raft_commit_safety as s58,
    s59_raft_snapshots as s59, s60_raft_membership as s60, s61_paxos_single_decree as s61,
    s62_multi_paxos as s62, s63_two_phase_commit as s63, s64_three_phase_commit as s64,
    s65_commit_recovery as s65, s66_saga_orchestrated as s66, s67_saga_choreographed as s67,
};
use disttest::steps::{Step, Want};
use disttest::text::int_list_to_text;
use rand::rngs::StdRng;
use rand::{RngCore, SeedableRng};

fn seeded(seed: u64) -> StdRng {
    StdRng::seed_from_u64(seed)
}

fn text(s: &str) -> Json {
    Json::Text(s.to_string())
}

fn strings(all: &[String]) -> Json {
    Json::Array(all.iter().map(|s| text(s)).collect())
}

fn object(fields: Vec<(&str, Json)>) -> Json {
    Json::Object(fields.into_iter().map(|(k, v)| (k.to_string(), v)).collect())
}

fn passes(c: Check) {
    if let Err(failure) = c.finish() {
        panic!("{failure:?}");
    }
}

fn answer(step: &Step) -> Json {
    object(
        step.wants
            .iter()
            .map(|(field, want)| {
                let value = match want {
                    Want::Int(n) => Json::Int(i64::try_from(*n).unwrap()),
                    Want::Bool(b) => Json::Bool(*b),
                    Want::Text(s) => text(s),
                    Want::Null => Json::Null,
                    Want::Ints(ns) => Json::Array(ns.iter().map(|n| Json::Int(*n)).collect()),
                };
                (*field, value)
            })
            .collect(),
    )
}

#[test]
fn a_seed_fixes_a_plan_and_another_seed_another() {
    let commands = |seed: u64| -> Vec<String> {
        s56::plan(&mut seeded(seed)).into_iter().map(|s| s.command).collect()
    };
    assert_eq!(commands(11), commands(11));
    assert_ne!(commands(11), commands(12));
    let mut used = seeded(11);
    let _ = s56::plan(&mut used);
    assert_ne!(used.next_u64(), seeded(11).next_u64());
}

#[test]
fn draws_reach_every_value_they_may_take() {
    let mut rng = seeded(5);
    let mut fails = [false; 7];
    for _ in 0..300 {
        fails[s66::plan(&mut rng).fail_at] = true;
    }
    assert_eq!(fails, [false, true, true, true, true, true, true]);
    let (mut crashed, mut alive) = (false, false);
    for trial in s63::plan(&mut rng) {
        crashed |= trial.crash;
        alive |= !trial.crash;
    }
    assert!(crashed && alive);
    let mut kinds = [0; 5];
    for step in s56::plan(&mut rng) {
        match step.event {
            s56::Event::LogAppend { .. } => kinds[0] += 1,
            s56::Event::Timeout => kinds[1] += 1,
            s56::Event::RequestVote { .. } => kinds[2] += 1,
            s56::Event::VoteResponse { .. } => kinds[3] += 1,
            s56::Event::AppendEntries { .. } => kinds[4] += 1,
        }
    }
    assert!(kinds.iter().all(|n| *n > 0), "{kinds:?}");
}

#[test]
fn elections_are_replayed() {
    let plan = s56::plan(&mut seeded(1));
    let seen = || -> Vec<s56::Seen> {
        plan.iter()
            .map(|s| {
                s56::read_state(&object(vec![
                    ("state", text(s.role.name())),
                    ("term", Json::Int(s.term)),
                    ("votes", Json::Int(s.votes as i64)),
                ]))
                .unwrap()
            })
            .collect()
    };
    passes(s56::judge_plan(1, &plan, &seen()));
    let mut wrong = seen();
    wrong[7].term += 1;
    assert!(!s56::judge_plan(1, &plan, &wrong).ok());
    let e = s56::read_state(&object(vec![("state", text("leader"))])).unwrap_err();
    assert_eq!((e.command.as_str(), e.field.as_str()), ("state", "term"));
}

#[test]
fn appends_are_replayed() {
    let plan = s57::plan(&mut seeded(2));
    let seen = || -> Vec<s57::Seen> {
        plan.iter()
            .map(|s| {
                let log = Json::Array(s.log.iter().map(|t| Json::Int(*t)).collect());
                s57::read_step(
                    &s.command,
                    &object(vec![
                        ("success", Json::Bool(s.want.success)),
                        ("conflict_index", Json::Int(s.want.conflict_index)),
                        ("last_index", Json::Int(s.want.last_index)),
                        ("commit_index", Json::Int(s.want.commit_index)),
                    ]),
                    &object(vec![("terms", log)]),
                )
                .unwrap()
            })
            .collect()
    };
    assert_eq!(seen()[3].terms, int_list_to_text(&plan[3].log));
    passes(s57::judge_plan(2, &plan, &seen()));
    let mut wrong = seen();
    wrong[40].terms = "[]".to_string();
    assert!(!s57::judge_plan(2, &plan, &wrong).ok());
    let e = s57::read_step("append 1", &object(vec![("success", Json::Bool(true))]), &Json::Null).unwrap_err();
    assert_eq!((e.command.as_str(), e.field.as_str()), ("append 1", "conflict_index"));
}

#[test]
fn acknowledgements_are_replayed() {
    let plan = s58::plan(&mut seeded(3));
    let seen = || -> Vec<s58::Seen> {
        plan.iter()
            .map(|s| match s.event {
                s58::Event::Append => {
                    s58::read_append(&object(vec![("commit_index", Json::Int(s.commit))])).unwrap()
                }
                s58::Event::Ack { .. } => s58::read_ack(
                    &s.command,
                    &object(vec![
                        ("match_index", Json::Int(s.matched)),
                        ("next_index", Json::Int(s.next)),
                        ("commit_index", Json::Int(s.commit)),
                    ]),
                )
                .unwrap(),
            })
            .collect()
    };
    passes(s58::judge_plan(3, &plan, &seen()));
    let mut wrong = seen();
    wrong[20].commit -= 1;
    assert!(!s58::judge_plan(3, &plan, &wrong).ok());
    assert_eq!(s58::read_append(&Json::Null).unwrap_err().field, "commit_index");
    assert_eq!(s58::read_ack("ack s2 1", &Json::Null).unwrap_err().command, "ack s2 1");
}

#[test]
fn snapshots_are_replayed() {
    let plan = s59::plan(&mut seeded(4));
    let seen = || -> Vec<s59::Shape> {
        plan.iter()
            .map(|s| {
                s59::read_shape(&object(vec![
                    ("first_index", Json::Int(s.shape.first_index)),
                    ("last_index", Json::Int(s.shape.last_index)),
                    ("commit_index", Json::Int(s.shape.commit_index)),
                    ("snapshot_index", Json::Int(s.shape.snapshot_index)),
                    ("snapshot_term", Json::Int(s.shape.snapshot_term)),
                    ("terms", Json::Array(s.shape.terms.iter().map(|t| Json::Int(*t)).collect())),
                ]))
                .unwrap()
            })
            .collect()
    };
    passes(s59::judge_plan(4, &plan, &seen()));
    let mut wrong = seen();
    wrong[0].terms.push(9);
    assert!(!s59::judge_plan(4, &plan, &wrong).ok());
    let e = s59::read_shape(&Json::Null).unwrap_err();
    assert_eq!((e.command.as_str(), e.field.as_str()), ("log", "first_index"));
}

#[test]
fn membership_changes_are_replayed() {
    let plan = s60::plan(&mut seeded(5));
    let seen = || -> Vec<s60::Seen> {
        plan.iter()
            .map(|s| {
                s60::read_step(
                    &s.command,
                    &object(vec![
                        ("ok", Json::Bool(s.ok)),
                        ("phase", text(s.phase.name())),
                        ("members", strings(&s.members)),
                        ("quorum", Json::Int(s60::quorum_of(&s.members))),
                    ]),
                )
                .unwrap()
            })
            .collect()
    };
    assert_eq!(seen()[9].members, names_to_json(&plan[9].members));
    passes(s60::judge_plan(5, &plan, &seen()));
    let mut wrong = seen();
    wrong[30].phase = "both".to_string();
    assert!(!s60::judge_plan(5, &plan, &wrong).ok());
    let e = s60::read_step("add s4", &object(vec![("ok", Json::Int(1))])).unwrap_err();
    assert_eq!((e.command.as_str(), e.field.as_str()), ("add s4", "ok"));
}

#[test]
fn every_way_to_accept_first_and_promise_second() {
    let (steps, settled) = s61::every_scenario();
    assert!(settled > 0 && settled < 64, "{settled}");
    let answers: Vec<Json> = steps.iter().map(answer).collect();
    passes(s61::judge_sweep(&steps, settled, &answers).unwrap());
    assert_eq!(steps.iter().filter(|s| s.command.starts_with("init")).count(), 64);
    assert!(s61::judge_sweep(&steps, settled, &vec![Json::Null]).is_err());
}

#[test]
fn acceptors_are_replayed() {
    let steps = s61::plan(&mut seeded(6));
    assert_eq!(steps.len(), 61);
    let answers: Vec<Json> = steps.iter().map(answer).collect();
    passes(s61::judge_run(6, &steps, &answers).unwrap());
    let mut wrong: Vec<Json> = steps.iter().map(answer).collect();
    wrong[60] = object(vec![("chosen", Json::Bool(true)), ("value", text("?")), ("count", Json::Int(-1))]);
    assert!(!s61::judge_run(6, &steps, &wrong).unwrap().ok());
}

#[test]
fn ballots_are_replayed() {
    let steps = s62::plan(&mut seeded(7));
    assert!(steps.len() <= 71);
    let answers: Vec<Json> = steps.iter().map(answer).collect();
    passes(s62::judge_run(7, &steps, &answers).unwrap());
    let short: Vec<Json> = steps.iter().take(3).map(answer).collect();
    passes(s62::judge_run(7, &steps, &short).unwrap());
    let e = s62::judge_run(7, &steps, &vec![Json::Null]).unwrap_err();
    assert_eq!(e.command, steps[0].command);
}

#[test]
fn leadership_is_worth_half_the_round_trips() {
    let answers = |alone: i64, led: i64, ok: bool| -> Vec<Json> {
        (0..22)
            .map(|i| {
                object(vec![
                    ("ok", Json::Bool(ok || i < 12)),
                    ("round_trips", Json::Int(if i < 12 { alone } else { led })),
                ])
            })
            .collect()
    };
    passes(s62::judge_cost(&answers(2, 1, true)).unwrap());
    assert!(!s62::judge_cost(&answers(2, 2, true)).unwrap().ok());
    assert!(!s62::judge_cost(&answers(1, 1, true)).unwrap().ok());
    assert!(!s62::judge_cost(&answers(2, 1, false)).unwrap().ok());
    let mut unreadable = answers(2, 1, true);
    unreadable[5] = Json::Null;
    let e = s62::judge_cost(&unreadable).unwrap_err();
    assert_eq!((e.command.as_str(), e.field.as_str()), ("propose", "round_trips"));
    let mut unreadable = answers(2, 1, true);
    unreadable[5] = object(vec![("round_trips", Json::Int(2))]);
    unreadable[13] = object(vec![("round_trips", Json::Int(1))]);
    unreadable[14] = Json::Null;
    let e = s62::judge_cost(&unreadable).unwrap_err();
    assert_eq!((e.command.as_str(), e.field.as_str()), ("propose", "ok"));
}

#[test]
fn two_phase_commits_are_replayed() {
    let trials = s63::plan(&mut seeded(8));
    assert_eq!(trials.len(), 24);
    let states = || -> Vec<Vec<String>> {
        trials.iter().map(|t| vec![t.expected_state().name().to_string(); 3]).collect()
    };
    passes(s63::judge_trials(8, &trials, &states()));
    let mut wrong = states();
    wrong[23][2] = "elsewhere".to_string();
    assert!(!s63::judge_trials(8, &trials, &wrong).ok());
    for trial in &trials {
        let commands = trial.commands();
        assert!(commands[0].starts_with("init"), "{commands:?}");
        assert!(commands.len() >= 4);
    }
}

#[test]
fn three_phase_commits_are_replayed() {
    let trials = s64::plan(&mut seeded(9));
    assert_eq!(trials.len(), 20);
    let seen = || -> Vec<s64::Observed> {
        trials
            .iter()
            .map(|t| s64::Observed { decisions: vec![t.expected().name().to_string(); 3], inconsistent: false })
            .collect()
    };
    passes(s64::judge_trials(9, &trials, &seen()));
    let mut wrong = seen();
    wrong[4].inconsistent = true;
    assert!(!s64::judge_trials(9, &trials, &wrong).ok());
    assert!(trials.iter().all(|t| t.commands().len() > 3));
}

#[test]
fn recoveries_are_replayed() {
    let trials = s65::plan(&mut seeded(10));
    assert_eq!(trials.len(), 16);
    let seen = || -> Vec<s65::Observed> {
        trials
            .iter()
            .map(|t| {
                let (state, action, applied) = s65::expected_after(t.crash_after, t.commit);
                let actions = match action {
                    s65::Action::Absent => object(vec![]),
                    _ => object(vec![("tx1", text(action.name()))]),
                };
                s65::read_outcome(
                    &object(vec![("actions", actions)]),
                    &object(vec![("state", text(state.name())), ("applied", Json::Bool(applied))]),
                )
                .unwrap()
            })
            .collect()
    };
    passes(s65::judge_trials(10, &trials, &seen()));
    let mut wrong = seen();
    wrong[0].applied = !wrong[0].applied;
    assert!(!s65::judge_trials(10, &trials, &wrong).ok());
    let e = s65::read_outcome(&Json::Null, &Json::Null).unwrap_err();
    assert_eq!((e.command.as_str(), e.field.as_str()), ("outcome tx1", "state"));
    for trial in &trials {
        let commands = trial.commands();
        assert_eq!(commands.len(), trial.crash_after + 4);
        assert_eq!(commands[0], "init p1");
        assert_eq!(commands[commands.len() - 2], "recover");
    }
}

#[test]
fn a_seeded_saga_settles_every_compensation() {
    for seed in 0..20 {
        let saga = s66::plan(&mut seeded(seed));
        let all = saga.compensations();
        let seen = || -> Vec<Vec<String>> { all.iter().map(|a| a.pending.clone()).collect() };
        passes(s66::judge_saga(seed, &saga, &all, &seen(), &saga.ledger()));
        if let Some(last) = all.last() {
            assert!(last.pending.is_empty());
            let mut wrong = seen();
            wrong[0].push("z".to_string());
            assert!(!s66::judge_saga(seed, &saga, &all, &wrong, &saga.ledger()).ok());
        } else {
            assert_eq!(saga.fail_at, 1);
        }
        assert!(!s66::judge_saga(seed, &saga, &all, &seen(), &vec!["z".to_string()]).ok());
        assert!(saga.forward().len() > saga.fail_at);
    }
}

#[test]
fn a_seeded_stream_follows_the_reaction_table() {
    let (plan, outcome, inflight) = s67::plan(&mut seeded(11));
    assert_eq!(plan.len(), 40);
    assert!(inflight <= 1);
    let seen = || -> Vec<s67::Seen> {
        plan.iter()
            .map(|s| {
                s67::read_event(
                    &s67::deliver(&s.event),
                    &object(vec![
                        ("emitted", strings(&s.emitted)),
                        ("duplicate", Json::Bool(s.duplicate)),
                        ("ledger", strings(&s.ledger)),
                    ]),
                )
                .unwrap()
            })
            .collect()
    };
    let ends = (outcome, inflight);
    passes(s67::judge_stream(11, &plan, &seen(), ends, outcome.name(), inflight as i64));
    assert!(!s67::judge_stream(11, &plan, &seen(), ends, "?", inflight as i64).ok());
    let mut wrong = seen();
    wrong[39].duplicate = !wrong[39].duplicate;
    assert!(!s67::judge_stream(11, &plan, &wrong, ends, outcome.name(), inflight as i64).ok());
    let e = s67::read_event("event start", &object(vec![("emitted", strings(&[]))])).unwrap_err();
    assert_eq!((e.command.as_str(), e.field.as_str()), ("event start", "duplicate"));
}
