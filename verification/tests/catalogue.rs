use disttest::examples::Setting;
use disttest::stages::{
    s41_majority_keeps_serving, s43_leader_election, s44_no_acknowledged_write_lost, s59_raft_snapshots, suite, Ladder,
    SLUGS,
};

#[test]
fn stages_stand_in_order() {
    let numbers: Vec<u32> = suite().iter().map(|s| s.number).collect();
    assert_eq!(numbers, (24..=67).collect::<Vec<u32>>());
    let mut slugs: Vec<&str> = suite().iter().map(|s| s.slug).collect();
    slugs.sort();
    slugs.dedup();
    assert_eq!(slugs.len(), 44);
}

#[test]
fn stages_climb_from_one_node_to_the_algorithms() {
    for stage in suite() {
        let ladder = match stage.number {
            24..=35 => Ladder::Node,
            36..=55 => Ladder::Cluster,
            _ => Ladder::Algorithms,
        };
        assert_eq!(stage.ladder, ladder, "{}", stage.slug);
    }
}

#[test]
fn every_stage_has_hints_and_every_test_its_own_driver() {
    for stage in suite() {
        for hint in stage.hints {
            assert!(!hint.is_empty(), "{}", stage.slug);
        }
        let mut bodies: Vec<&str> = stage.tests.iter().map(|t| t.body).collect();
        bodies.sort();
        bodies.dedup();
        assert_eq!(bodies.len(), stage.tests.len(), "{}", stage.slug);
        for test in &stage.tests {
            assert!(!test.name.is_empty());
            if stage.ladder != Ladder::Algorithms {
                assert!(test.script.is_none());
            }
        }
    }
}

#[test]
fn examples_play_where_their_stage_does() {
    for stage in suite() {
        for example in &stage.examples {
            let ladder = match example.setting {
                Setting::Node { .. } => Ladder::Node,
                Setting::Cluster { .. } => Ladder::Cluster,
                Setting::Prim { .. } => Ladder::Algorithms,
            };
            assert_eq!(ladder, stage.ladder, "{}", example.title);
            assert!(!example.request.is_empty() && !example.note.is_empty());
        }
    }
}

#[test]
fn a_cluster_example_puts_encoded_keys() {
    let stage = s44_no_acknowledged_write_lost::stage();
    match &stage.examples[0].setting {
        Setting::Cluster { steps } => {
            let shown = format!("{steps:?}");
            assert!(shown.contains("ZXg0NC9r") && shown.contains("YWNrZWQ="), "{shown}");
        }
        other => panic!("{other:?}"),
    }
}

#[test]
fn every_slug_stands_at_its_number() {
    for stage in suite() {
        assert_eq!(stage.slug, SLUGS[(stage.number - 24) as usize]);
        let core = stage.number >= 56 || [24, 27, 28, 31, 36, 37, 38].contains(&stage.number);
        assert_eq!(stage.ext, !core, "{}", stage.slug);
    }
}

#[test]
fn announced_stages_hold_a_place_and_nothing_else() {
    let announced = [27, 28, 29, 30, 33, 34, 35, 38, 39, 40, 42, 45, 46, 47, 48, 54, 55];
    for stage in suite() {
        let places = stage.tests.iter().filter(|t| t.name == "placeholder").count();
        if announced.contains(&stage.number) {
            assert_eq!((stage.tests.len(), places, stage.examples.len()), (1, 1, 0), "{}", stage.slug);
            assert!(!stage.tests[0].ext);
        } else {
            assert_eq!(places, 0, "{}", stage.slug);
        }
    }
}

#[test]
fn algorithm_examples_open_the_topic_of_the_first_hint() {
    let mut topics = Vec::new();
    for stage in suite().iter().filter(|s| s.number >= 56) {
        assert!(!stage.examples.is_empty());
        for example in &stage.examples {
            match &example.setting {
                Setting::Prim { topic, input } => {
                    assert!(input.starts_with("init "), "{}", example.title);
                    assert!(stage.hints[0].contains(&format!("`{topic}`")), "{}", example.title);
                    topics.push(*topic);
                }
                other => panic!("{other:?}"),
            }
        }
    }
    topics.dedup();
    let all = [
        "raft-election", "raft-log", "raft-commit", "raft-snapshot", "raft-membership", "paxos", "multi-paxos",
        "two-phase-commit", "three-phase-commit", "commit-recovery", "saga", "saga-choreo",
    ];
    assert_eq!(topics, all);
}

#[test]
fn tests_that_cut_or_kill_want_fresh_members() {
    assert!(s41_majority_keeps_serving::stage().tests.iter().all(|t| t.fresh));
    assert!(s43_leader_election::stage().tests.iter().all(|t| t.fresh));
    assert!(suite().iter().filter(|s| s.number == 37).all(|s| s.tests.iter().all(|t| !t.fresh)));
}

#[test]
fn the_snapshot_example_says_what_its_commands_give() {
    let stage = s59_raft_snapshots::stage();
    let example = &stage.examples[1];
    match &example.setting {
        Setting::Prim { input, .. } => {
            assert!(input.starts_with("init [1,1,2,2,3]\ncommit 4\ninstall 9 2 1\ninstall 9 4 2\n"));
        }
        other => panic!("{other:?}"),
    }
    let mut follower = s59_raft_snapshots::Model::new(&[1, 1, 2, 2, 3]);
    follower.commit(4);
    let given = [follower.install(2, 1).name(), follower.install(4, 2).name(), follower.install(20, 9).name()];
    assert_eq!(given, ["stale", "stale", "discarded"]);
    assert!(example.response.starts_with("stale, stale again"));
    assert!(example.response.ends_with("and discarded, in that order"));
}
