use disttest::check::Check;
use disttest::cluster::{
    a_follower, agreed_leader, attach_state, check_every_member_holds, distinct, last_revision, list_members,
    list_named, lost_writes, next_write, offer_step, others, poll_live, poll_side, put_patiently, refusal, wants_state,
    write_keys, write_step, Answer, Held, LinkFault, LinkStep, MemberRead, Offer, OfferStep, Pair, Poll, ReadBack,
    Written, NO_MEMBER_WAS_RUNNING,
};
use disttest::stages::{
    s37_replicated_writes as s37, s41_majority_keeps_serving as s41, s43_leader_election as s43,
    s44_no_acknowledged_write_lost as s44, s49_member_remove as s49, s50_whole_cluster_restart as s50, s51_clock_skew as s51,
    s52_lossy_link as s52, s53_duplicate_and_reorder as s53,
};

#[test]
fn a_leader_is_named_by_everybody_and_is_one_of_them() {
    assert_eq!(agreed_leader(&vec![0, 2], &vec![Some(2), Some(2)]), Some(2));
    assert_eq!(agreed_leader(&vec![0, 2], &vec![Some(1), Some(1)]), None);
    assert_eq!(agreed_leader(&vec![0, 2], &vec![Some(2), None]), None);
    assert_eq!(agreed_leader(&vec![0, 2], &vec![Some(2), Some(0)]), None);
    assert_eq!(agreed_leader(&vec![], &vec![]), None);
}

#[test]
fn members_are_counted_from_one_in_a_message() {
    assert_eq!(list_members(&vec![0, 2]), "[1, 3]");
    assert_eq!(list_members(&vec![]), "[]");
    assert_eq!(list_named(&vec![Some(0), None]), "[Some(1), None]");
}

#[test]
fn a_side_that_never_agrees_is_given_up() {
    let group = vec![0, 1];
    let named = vec![Some(2), None];
    assert!(matches!(poll_side(&group, &named, 0, 100, 50), Poll::Again(50)));
    match poll_side(&group, &named, 100, 100, 50) {
        Poll::GiveUp { message, notes } => {
            assert_eq!(
                message,
                "members [1, 2] did not agree on a leader among themselves within 100 ms"
            );
            assert_eq!(notes, vec!["they named [Some(3), None]".to_string()]);
        }
        other => panic!("{other:?}"),
    }
    assert!(matches!(poll_side(&group, &vec![Some(1), Some(1)], 100, 100, 50), Poll::Leader(1)));
    assert!(matches!(s41::leader_of(&group, &named, 0, 1), Poll::Again(100)));
    assert!(matches!(s43::leader_among(&group, &named, 0, 1), Poll::Again(50)));
}

#[test]
fn a_leader_that_no_longer_runs_is_no_answer() {
    let alive = vec![0, 2];
    let named = vec![Some(1), Some(1)];
    assert!(matches!(poll_live(&alive, &named, 4_999, 5_000), Poll::Again(100)));
    match poll_live(&alive, &named, 5_000, 5_000) {
        Poll::GiveUp { message, notes } => {
            assert_eq!(
                message,
                "no member that is still running was named leader by all of them within 5000 ms"
            );
            assert_eq!(notes, vec!["members [1, 3] name leaders [Some(2), Some(2)]".to_string()]);
        }
        other => panic!("{other:?}"),
    }
    assert!(matches!(s44::live_leader(&alive, &vec![Some(2), Some(2)], 0, 1), Poll::Leader(2)));
    assert!(matches!(s49::live_leader(&alive, &vec![Some(0), Some(0)], 0, 1), Poll::Leader(0)));
}

#[test]
fn the_rest_of_a_cluster() {
    assert_eq!(others(3, 1), vec![0, 2]);
    assert_eq!(others(2, 5), vec![0, 1]);
    assert_eq!(others(0, 0), Vec::<usize>::new());
    for follower in [a_follower, s41::a_follower, s43::a_follower] {
        assert_eq!(follower(0, 3), 1);
        assert_eq!(follower(2, 3), 0);
        assert_eq!(follower(0, 1), 0);
    }
}

fn written() -> Vec<Written> {
    vec![
        Written { key: "k0".to_string(), value: "v0".to_string(), revision: 7 },
        Written { key: "k1".to_string(), value: "v1".to_string(), revision: 8 },
    ]
}

fn holding(name: &str) -> MemberRead {
    MemberRead {
        name: name.to_string(),
        held: vec![
            Held::Value { value: "v0".to_string(), mod_revision: 7 },
            Held::Value { value: "v1".to_string(), mod_revision: 8 },
        ],
    }
}

#[test]
fn nothing_acknowledged_is_lost() {
    let mut c = Check::new("everything is there");
    check_every_member_holds(&mut c, &vec![holding("m1"), holding("m2")], &written());
    assert!(c.ok());
    attach_state(&mut c, "who leads", "which faults");
    assert!(!wants_state(&c));
    assert!(c.finish().is_ok());
}

#[test]
fn what_is_lost_is_reported() {
    let losses = vec![
        Held::Absent,
        Held::Failed { error: "timed out".to_string() },
        Held::Value { value: "v0".to_string(), mod_revision: 8 },
        Held::Value { value: "v1".to_string(), mod_revision: 9 },
    ];
    let paths = vec![
        "m2.range(k1).kvs",
        "m2.range(k1)",
        "m2.range(k1).kvs[0].value",
        "m2.range(k1).kvs[0].mod_revision",
    ];
    for (loss, path) in losses.into_iter().zip(paths) {
        let mut second = holding("m2");
        second.held[1] = loss;
        let mut c = Check::new("something is not");
        check_every_member_holds(&mut c, &vec![holding("m1"), second], &written());
        assert!(wants_state(&c));
        attach_state(&mut c, "who leads", "which faults");
        let failure = c.finish().unwrap_err();
        assert_eq!(failure.notes, vec!["who leads".to_string(), "which faults".to_string()]);
        assert!(failure.findings.iter().any(|f| f.path == path && !f.holds()), "{path}");
    }
}

#[test]
fn a_write_is_offered_until_the_time_is_over() {
    assert!(matches!(put_patiently("k", "", 199, 200), Offer::Again(200)));
    match put_patiently("k", &refusal("m3", "no leader"), 200, 200) {
        Offer::GiveUp { message, note } => {
            assert_eq!(message, "no member accepted a write of k within 200 ms");
            assert_eq!(note, "m3: no leader");
        }
        other => panic!("{other:?}"),
    }
}

#[test]
fn the_writes_of_a_run() {
    let plain = write_keys("ex", 11, false);
    assert_eq!(plain.len(), 11);
    assert_eq!((plain[3].key.as_str(), plain[3].value.as_str()), ("ex/k3", "v3"));
    let padded = write_keys("ex", 11, true);
    assert_eq!((padded[3].key.as_str(), padded[10].key.as_str()), ("ex/k03", "ex/k10"));
    assert_eq!(last_revision(&written()), 8);
    assert_eq!(last_revision(&vec![]), 0);
    assert_eq!(distinct(&vec![4, 9, 4, 4]), 2);
    assert_eq!(distinct(&vec![]), 0);
}

#[test]
fn a_value_has_arrived_or_has_gone() {
    assert!(s37::has_arrived(&Some(Some(b"v".to_vec())), b"v"));
    assert!(!s37::has_arrived(&Some(Some(b"w".to_vec())), b"v"));
    assert!(!s37::has_arrived(&Some(None), b"v"));
    assert!(!s37::has_arrived(&None, b"v"));
    assert!(s37::has_gone(&Some(None)));
    assert!(!s37::has_gone(&None));
    assert!(!s37::has_gone(&Some(Some(vec![]))));
    assert_eq!(s37::wait_for_value("m1", "k", "v").what, "m1 to hold k=v");
    assert_eq!(s37::wait_for_absence("m1", "k").what, "m1 to stop holding k");
}

#[test]
fn links_to_nobody_are_cut_one_by_one() {
    assert_eq!(s41::cut_unattributable_links(3).len(), 3);
    assert!(s41::the_cut_bites(4, 5));
    assert!(!s41::the_cut_bites(5, 5));
}

#[test]
fn a_failing_read_is_made_again_and_then_reported() {
    let mut reads = 0;
    let mut attempt = 0;
    loop {
        reads += 1;
        match s44::range_settled(attempt, true) {
            s44::Retry::Take => panic!("a failure was taken"),
            s44::Retry::GiveUp => break,
            s44::Retry::Again { attempt: failed } => attempt = failed,
        }
    }
    assert_eq!(reads, 6);
    assert!(matches!(s44::range_settled(0, false), s44::Retry::Take));
    assert_eq!(s44::value_settled(&vec![b"a".to_vec(), b"b".to_vec()]), Some(b"a".to_vec()));
    assert_eq!(s44::value_settled(&vec![]), None);
}

#[test]
fn a_removal_is_offered_until_the_time_is_over() {
    assert!(matches!(s49::remove_settled(1, 0, "no"), s49::Removal::Again(_)));
    match s49::remove_settled(1, 1_000_000, "no leader") {
        s49::Removal::GiveUp { message, note } => {
            assert!(message.starts_with("m2"), "{message}");
            assert_eq!(note, "no leader");
        }
        other => panic!("{other:?}"),
    }
}

#[test]
fn a_removed_member_may_refuse_in_three_ways() {
    assert!(s49::acceptable_refusal(None));
    assert!(s49::acceptable_refusal(Some(14)));
    assert!(s49::acceptable_refusal(Some(4)));
    assert!(!s49::acceptable_refusal(Some(5)));
}

#[test]
fn an_id_that_nobody_has() {
    let ids = vec![11, 12, 13];
    assert!(!ids.contains(&s49::bogus_id(11, &ids)));
    let all: Vec<u64> = (0..40).map(|i| s49::bogus_id(11, &(0..i).collect())).collect();
    for (i, id) in all.iter().enumerate() {
        assert!(!(0..i as u64).any(|x| x == *id));
    }
    let names = vec!["m3".to_string(), "m1".to_string(), "m2".to_string()];
    assert_eq!(s49::member_names(&names), vec!["m1".to_string(), "m2".to_string(), "m3".to_string()]);
}

#[test]
fn a_slow_link_runs_between_the_followers() {
    for leader in 0..3 {
        match s51::slow_followers_link(leader) {
            LinkStep::Link { a, b, fault } => {
                assert!(a != leader && b != leader && a != b);
                assert!(fault.delay_ms > 0 && !fault.cut);
            }
            other => panic!("{other:?}"),
        }
    }
    assert_eq!(s51::skew_every_link(50), LinkStep::EveryLink { fault: LinkFault::late(50) });
    assert_eq!(s51::highest_revision(&vec![vec![1, 9], vec![], vec![4]]), 9);
    assert_eq!(s51::highest_revision(&vec![]), 0);
}

#[test]
fn lossy_links() {
    assert_eq!(s52::lossy(), LinkFault { delay_ms: 40, drop_connection: 10, ..LinkFault::none() });
    assert_eq!(s52::refusing().drop_connection, 50);
    assert!(s52::still_waiting(0, 19_999));
    assert!(!s52::still_waiting(0, 20_000));
    assert!(!s52::still_waiting(1, 0));
}

#[test]
fn mangled_links() {
    let steps = s53::mangle_every_link();
    assert_eq!(steps[0], LinkStep::EveryLink { fault: LinkFault::cut() });
    assert!(steps.contains(&LinkStep::EveryLink { fault: s53::mangled() }));
    let healed = s53::heal_and_reconnect();
    assert_eq!(healed[0], LinkStep::EveryLink { fault: LinkFault::cut() });
    assert!(healed.contains(&LinkStep::Heal));
    assert_eq!(s53::span(&vec![5, 6, 9]), Some(4));
    assert_eq!(s53::span(&vec![i64::MIN, i64::MAX]), Some(u64::MAX as i128));
    assert_eq!(s53::span(&vec![]), None);
    let note = s53::mangling_note(3, 4, "m1-m2");
    assert!(note.contains('3') && note.contains('4') && note.contains("m1-m2"), "{note}");
}

#[test]
fn writes_that_did_not_come_back_are_complained_of() {
    let read = |key: &str, value: Option<&str>| ReadBack {
        key: key.to_string(),
        want: b"v".to_vec(),
        value: value.map(|v| v.as_bytes().to_vec()),
        shown: format!("{value:?}"),
    };
    let all = vec![read("a", Some("v")), read("b", Some("w")), read("c", None), read("d", Some("v"))];
    let want = vec!["m1 b -> Some(\"w\")".to_string(), "m1 c -> None".to_string()];
    assert_eq!(lost_writes("m1 ", &all), want);
    assert_eq!(lost_writes("", &vec![read("a", Some("v"))]), Vec::<String>::new());
}

#[test]
fn a_removed_member_leaves_no_trace() {
    let survivor = |name: &str, listed: Vec<u64>, leader: u64| s49::Survivor {
        name: name.to_string(),
        listed,
        leader,
    };
    let clean = vec![survivor("m1", vec![1, 3], 1), survivor("m3", vec![1, 3], 3)];
    assert_eq!(s49::sightings(2, "0x2", &clean), Vec::<String>::new());
    let seen = s49::sightings(2, "0x2", &vec![survivor("m1", vec![1, 2], 2), survivor("m3", vec![3], 2)]);
    assert_eq!(
        seen,
        vec![
            "m1 still lists 0x2".to_string(),
            "m1 still names 0x2 as leader".to_string(),
            "m3 still names 0x2 as leader".to_string(),
        ]
    );
}

fn refused(error: &str) -> Option<Answer> {
    Some(Answer::Refused(error.to_string()))
}

#[test]
fn an_acknowledgement_ends_the_offer_however_late() {
    let next = offer_step("k", "m1: no", "m2", Some(Answer::Acknowledged(17)), true, 9_000, 200);
    assert!(matches!(next, OfferStep::Done(17)));
}

#[test]
fn a_refusal_moves_the_offer_to_the_next_member() {
    match offer_step("k", NO_MEMBER_WAS_RUNNING, "m1", refused("no leader"), true, 9_000, 0) {
        OfferStep::NextMember { last } => assert_eq!(last, "m1: no leader"),
        other => panic!("{other:?}"),
    }
}

#[test]
fn a_round_of_refusals_is_made_again_until_the_time_is_over() {
    match offer_step("k", "m1: no", "m2", refused("no leader"), false, 199, 200) {
        OfferStep::Again { ms, last } => assert_eq!((ms, last.as_str()), (200, "m2: no leader")),
        other => panic!("{other:?}"),
    }
    match offer_step("k", "m1: no", "m2", refused("no leader"), false, 200, 200) {
        OfferStep::GiveUp { message, note } => {
            assert_eq!(message, "no member accepted a write of k within 200 ms");
            assert_eq!(note, "m2: no leader");
        }
        other => panic!("{other:?}"),
    }
}

#[test]
fn a_round_with_nobody_in_it_keeps_the_last_refusal() {
    match offer_step("k", NO_MEMBER_WAS_RUNNING, "", None, false, 0, 0) {
        OfferStep::GiveUp { note, .. } => assert_eq!(note, "no member was running"),
        other => panic!("{other:?}"),
    }
    match offer_step("k", "m1: no", "", None, false, 0, 1) {
        OfferStep::Again { last, .. } => assert_eq!(last, "m1: no"),
        other => panic!("{other:?}"),
    }
}

#[test]
fn a_run_of_writes_stops_at_the_first_error() {
    let pairs = write_keys("p", 3, false);
    let mut written = Vec::new();
    assert_eq!(next_write(&pairs, &written), Some(0));
    assert_eq!(write_step::<String>(&pairs, &mut written, Ok(5)), Ok(()));
    assert_eq!(write_step::<String>(&pairs, &mut written, Ok(9)), Ok(()));
    assert_eq!(next_write(&pairs, &written), Some(2));
    assert_eq!(write_step(&pairs, &mut written, Err("gone")), Err("gone"));
    let shown: Vec<(&str, &str, i64)> =
        written.iter().map(|w| (w.key.as_str(), w.value.as_str(), w.revision)).collect();
    assert_eq!(shown, vec![("p/k0", "v0", 5), ("p/k1", "v1", 9)]);
    assert_eq!(write_step::<String>(&pairs, &mut written, Ok(10)), Ok(()));
    assert_eq!(next_write(&pairs, &written), None);
    let none: Vec<Pair> = write_keys("p", 0, false);
    assert_eq!(next_write(&none, &Vec::new()), None);
}

#[test]
fn a_removal_is_done_once_it_is_accepted() {
    let accepted = s49::removal_step(1, &s49::RemovalAnswer::Accepted, 1_000_000);
    assert!(matches!(accepted, s49::RemovalStep::Done));
    let refusal = s49::RemovalAnswer::Refused(vec!["unhealthy".to_string(), "no leader".to_string()]);
    assert!(matches!(s49::removal_step(1, &refusal, 24_999), s49::RemovalStep::Again(300)));
    match s49::removal_step(1, &refusal, 25_000) {
        s49::RemovalStep::GiveUp { message, note } => {
            assert_eq!(message, "m2 could not be removed within 25000 ms");
            assert_eq!(note, "unhealthy; no leader");
        }
        other => panic!("{other:?}"),
    }
}

#[test]
fn the_two_after_the_leader_go_round() {
    assert_eq!(s49::next_two(0, 3), (1, 2));
    assert_eq!(s49::next_two(1, 3), (2, 0));
    assert_eq!(s49::next_two(2, 3), (0, 1));
    assert_eq!(s49::next_two(4, 5), (0, 1));
}

#[test]
fn a_removal_is_offered_until_it_is_answered() {
    let refusal = |word: &str| s49::RemovalAnswer::Refused(vec![word.to_string()]);
    let ended = |answers: Vec<(s49::RemovalAnswer, u64)>| -> Option<(usize, s49::RemovalStep)> {
        answers
            .iter()
            .map(|(answer, at)| s49::removal_step(0, answer, *at))
            .enumerate()
            .find(|(_, step)| !matches!(step, s49::RemovalStep::Again(_)))
    };
    assert!(ended(vec![(refusal("unhealthy"), 0), (refusal("unhealthy"), 24_999)]).is_none());
    let done = ended(vec![(refusal("unhealthy"), 0), (s49::RemovalAnswer::Accepted, 26_000)]);
    assert!(matches!(done, Some((1, s49::RemovalStep::Done))));
    let over = ended(vec![(refusal("a"), 0), (refusal("b"), 25_300), (s49::RemovalAnswer::Accepted, 25_600)]);
    assert!(matches!(over, Some((1, s49::RemovalStep::GiveUp { note, .. })) if note == "b"));
}

#[test]
fn a_failed_restart_shows_the_state() {
    let mut fine = Check::new("a restart");
    fine.eq_int("n", 1, 1);
    s50::attach_state(&mut fine, "all run", "no faults", "printed");
    assert!(fine.finish().is_ok());
    let mut failed = Check::new("a restart");
    failed.eq_int("n", 1, 2);
    s50::attach_state(&mut failed, "all run", "no faults", "printed");
    let failure = failed.finish().unwrap_err();
    assert_eq!(failure.notes, vec!["all run".to_string(), "no faults".to_string()]);
    assert_eq!(failure.blocks, vec![("what the members printed".to_string(), "printed".to_string())]);
}
