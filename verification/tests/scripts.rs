use disttest::json::Json;
use disttest::prim::{judge, next_command, read_line, split_lines, Mark, ScriptLine};
use disttest::stages::{
    s56_raft_leader_election, s57_raft_log_replication, s58_raft_commit_safety, s59_raft_snapshots,
    s60_raft_membership, s61_paxos_single_decree, s62_multi_paxos, s63_two_phase_commit,
    s64_three_phase_commit, s65_commit_recovery, s66_saga_orchestrated, s67_saga_choreographed, Stage,
};
use serde_json::Value;

fn stages() -> Vec<Stage> {
    vec![
        s56_raft_leader_election::stage(),
        s57_raft_log_replication::stage(),
        s58_raft_commit_safety::stage(),
        s59_raft_snapshots::stage(),
        s60_raft_membership::stage(),
        s61_paxos_single_decree::stage(),
        s62_multi_paxos::stage(),
        s63_two_phase_commit::stage(),
        s64_three_phase_commit::stage(),
        s65_commit_recovery::stage(),
        s66_saga_orchestrated::stage(),
        s67_saga_choreographed::stage(),
    ]
}

fn scripts() -> Vec<(&'static str, &'static str)> {
    let mut all = Vec::new();
    for stage in stages() {
        for test in &stage.tests {
            if let Some(script) = test.script {
                all.push((test.body, script));
            }
        }
    }
    all
}

fn to_json(v: &Value) -> Json {
    match v {
        Value::Null => Json::Null,
        Value::Bool(b) => Json::Bool(*b),
        Value::Number(n) => match n.as_i64() {
            Some(i) => Json::Int(i),
            None => Json::Number(n.to_string()),
        },
        Value::String(s) => Json::Text(s.clone()),
        Value::Array(items) => Json::Array(items.iter().map(to_json).collect()),
        Value::Object(fields) => Json::Object(fields.iter().map(|(k, v)| (k.clone(), to_json(v))).collect()),
    }
}

/// The place of a field in an answer; behind a dot stands the field of a field.
fn slot<'a>(answer: &'a mut Value, field: &str) -> &'a mut Value {
    match field.split_once('.') {
        Some((outer, inner)) => {
            let outer = &mut answer[outer];
            if outer.is_null() {
                *outer = Value::Object(serde_json::Map::new());
            }
            &mut outer[inner]
        }
        None => &mut answer[field],
    }
}

/// Fills a list up to so many texts of a kind.
fn fill(slot: &mut Value, n: usize, part: &str, is_one: fn(&str, &str) -> bool) {
    if slot.is_null() {
        *slot = Value::Array(Vec::new());
    }
    let items = slot.as_array_mut().unwrap();
    let have = items.iter().filter(|i| is_one(i.as_str().unwrap(), part)).count();
    for _ in have..n {
        items.push(Value::String(part.to_string()));
    }
}

/// The answers that a script asks for, no more and no less.
fn ideal_answers(script: &str) -> Vec<Value> {
    let mut answers: Vec<Value> = Vec::new();
    let mut at = 0;
    let mut pile: Vec<(usize, String)> = Vec::new();
    for line in split_lines(script).iter().skip(1) {
        match read_line(line) {
            ScriptLine::Send(_) | ScriptLine::SendWith { .. } => {
                answers.push(Value::Object(serde_json::Map::new()));
                at = answers.len() - 1;
            }
            ScriptLine::About { answer, .. } => at = answer as usize - 1,
            ScriptLine::Stop | ScriptLine::Go => {}
            ScriptLine::Blank => panic!("{line:?} asks for nothing"),
            ScriptLine::Want { mark, field, want, .. } => match mark {
                Mark::Is | Mark::Texts | Mark::Ints | Mark::Numbers => {
                    *slot(&mut answers[at], &field) = serde_json::from_str(&want).unwrap();
                }
                Mark::IsNot => {
                    let slot = slot(&mut answers[at], &field);
                    if slot.is_null() {
                        *slot = Value::String(format!("not {want}"));
                    }
                }
                Mark::AtLeast => {
                    let slot = slot(&mut answers[at], &field);
                    if slot.is_null() {
                        *slot = serde_json::from_str(&want).unwrap();
                    }
                }
                Mark::Has => {
                    let (part, _) = want.split_once(" ; ").unwrap();
                    fill(slot(&mut answers[at], &field), 1, part, |s, part| s == part);
                }
                Mark::Lacks => fill(slot(&mut answers[at], &field), 0, "", |s, part| s == part),
                Mark::Counts => {
                    let (n, part) = want.split_once(' ').unwrap();
                    fill(slot(&mut answers[at], &field), n.parse().unwrap(), part, |s, part| s == part);
                }
                Mark::Begins => {
                    let (n, part) = want.split_once(' ').unwrap();
                    fill(slot(&mut answers[at], &field), n.parse().unwrap(), part, |s, part| s.starts_with(part));
                }
                Mark::Shape => {}
                Mark::Gather => pile.push((at, field)),
                Mark::Pile => {
                    let list: Vec<Value> = serde_json::from_str(&want).unwrap();
                    assert_eq!(list.len(), pile.len(), "{line}");
                    for ((k, field), value) in pile.drain(..).zip(list) {
                        *slot(&mut answers[k], &field) = value;
                    }
                }
            },
        }
    }
    answers
}

#[test]
fn every_script_can_be_met() {
    let mut seen = 0;
    for (body, script) in scripts() {
        if body == "leadership_halves_the_cost" {
            continue;
        }
        let answers: Vec<Json> = ideal_answers(script).iter().map(to_json).collect();
        assert_eq!(next_command(script, &answers).unwrap(), None, "{body}");
        let check = judge(script, &answers).unwrap();
        assert!(check.ok(), "{body}: {:?}", check.finish());
        seen += 1;
    }
    assert!(seen > 120, "{seen}");
}

#[test]
fn every_script_notices_an_answer_that_is_off() {
    for (body, script) in scripts() {
        let mut answers = ideal_answers(script);
        let mut changed = false;
        'search: for answer in answers.iter_mut() {
            for (_, value) in answer.as_object_mut().unwrap().iter_mut() {
                match value {
                    Value::Bool(b) => {
                        *b = !*b;
                        changed = true;
                        break 'search;
                    }
                    Value::Number(n) => {
                        *value = Value::from(n.as_i64().unwrap() - 1);
                        changed = true;
                        break 'search;
                    }
                    Value::String(s) => {
                        s.push('x');
                        changed = true;
                        break 'search;
                    }
                    _ => {}
                }
            }
        }
        if !changed {
            continue;
        }
        let answers: Vec<Json> = answers.iter().map(to_json).collect();
        assert!(!judge(script, &answers).unwrap().ok(), "{body}");
    }
}

#[test]
fn every_script_asks_one_command_after_the_other() {
    for (body, script) in scripts() {
        if body == "leadership_halves_the_cost" {
            continue;
        }
        let answers: Vec<Value> = ideal_answers(script);
        for n in 0..answers.len() {
            let so_far: Vec<Json> = answers[..n].iter().map(to_json).collect();
            assert!(next_command(script, &so_far).unwrap().is_some(), "{body}");
            assert!(judge(script, &so_far).unwrap().ok(), "{body}");
        }
        let silent: Vec<Json> = answers.iter().map(|_| Json::Object(Vec::new())).collect();
        assert!(judge(script, &silent).is_err(), "{body}");
    }
}

fn object(fields: &[(&str, Json)]) -> Json {
    Json::Object(
        fields
            .iter()
            .map(|(k, v)| {
                let v = match v {
                    Json::Int(n) => Json::Int(*n),
                    Json::Text(s) => Json::Text(s.clone()),
                    Json::Bool(b) => Json::Bool(*b),
                    _ => Json::Null,
                };
                (k.to_string(), v)
            })
            .collect(),
    )
}

#[test]
fn demands_come_in_the_order_they_are_made() {
    let script = "order\n> a\n~ n | 0 | -\n> b\n= n | 2 | b.n\n@ 1 the first\n= n | 1 | a.n";
    let answers = vec![object(&[("n", Json::Int(9))]), object(&[("n", Json::Int(9))])];
    let failure = judge(script, &answers).unwrap().finish().unwrap_err();
    let paths: Vec<&str> = failure.findings.iter().map(|f| f.path.as_str()).collect();
    assert_eq!(paths, vec!["b.n", "a.n"]);
    let e = judge(script, &vec![object(&[])]).unwrap_err();
    assert_eq!((e.command.as_str(), e.field.as_str()), ("a", "n"));
}

#[test]
fn a_pile_is_one_demand() {
    let script = "pile\n> a\n& ok | true | -\n> a\n& ok | true | -\n# - | [true,true] | both";
    let answers = |first: bool| vec![object(&[("ok", Json::Bool(first))]), object(&[("ok", Json::Bool(true))])];
    assert!(judge(script, &answers(true)).unwrap().ok());
    let failure = judge(script, &answers(false)).unwrap().finish().unwrap_err();
    assert_eq!(failure.findings.len(), 1);
    assert!(format!("{:?}", failure.findings[0].got).contains("[false,true]"));
}

#[test]
fn a_stop_passes_over_what_follows_a_failure() {
    let script = "stop\n> a\n= n | 1 | one\n. stop\n= n | 2 | two\n. go\n= n | 3 | three";
    let failure = judge(script, &vec![object(&[("n", Json::Int(2))])]).unwrap().finish().unwrap_err();
    let paths: Vec<&str> = failure.findings.iter().map(|f| f.path.as_str()).collect();
    assert_eq!(paths, vec!["one", "three"]);
    let failure = judge(script, &vec![object(&[("n", Json::Int(1))])]).unwrap().finish().unwrap_err();
    assert_eq!(failure.findings.len(), 3);
}

#[test]
fn a_command_can_carry_what_was_answered() {
    let script = "carry\n> ask\n< 1 value accept a1 2";
    assert_eq!(next_command(script, &Vec::new()).unwrap().unwrap(), "ask");
    let said = vec![object(&[("value", Json::Text("red".to_string()))])];
    assert_eq!(next_command(script, &said).unwrap().unwrap(), "accept a1 2 red");
    let e = next_command(script, &vec![object(&[])]).unwrap_err();
    assert_eq!((e.command.as_str(), e.field.as_str()), ("ask", "value"));
}

#[test]
fn an_inner_field_is_called_by_its_own_name() {
    let e = judge("inner\n> recover\n= actions.tx1 | \"redo\" | x", &vec![object(&[])]).unwrap_err();
    assert_eq!((e.command.as_str(), e.field.as_str()), ("recover", "tx1"));
}

fn script(body: &str) -> &'static str {
    scripts().iter().find(|(b, _)| *b == body).unwrap().1
}

#[test]
fn the_majority_of_a_fresh_node_is_ruled_on_last() {
    let text = script("a_fresh_node_is_a_follower");
    let mut answers: Vec<Json> = ideal_answers(text).iter().map(to_json).collect();
    answers[0] = object(&[("majority", Json::Int(9))]);
    answers[1] = object(&[
        ("state", Json::Text("leader".to_string())),
        ("term", Json::Int(0)),
        ("votes", Json::Int(0)),
        ("voted_for", Json::Null),
    ]);
    let failure = judge(text, &answers).unwrap().finish().unwrap_err();
    let paths: Vec<&str> = failure.findings.iter().map(|f| f.path.as_str()).collect();
    assert_eq!(paths, vec!["state.state", "state.term", "state.votes", "state.voted_for", "init.majority"]);
}

#[test]
fn a_ledger_that_cannot_be_read_comes_first() {
    let text = script("two_failures_run_one_chain");
    let mut answers: Vec<Json> = ideal_answers(text).iter().map(to_json).collect();
    answers[3] = object(&[]);
    answers[7] = object(&[]);
    let e = judge(text, &answers).unwrap_err();
    assert_eq!((e.command.as_str(), e.field.as_str()), ("ledger", "entries"));
}

#[test]
fn three_answers_are_ruled_on_once() {
    for (_, text) in scripts() {
        if text.contains("| the three answers") {
            let answers: Vec<Json> = ideal_answers(text).iter().map(to_json).collect();
            let mut changed = answers;
            let at = split_lines(text).iter().filter(|l| l.starts_with("> ")).count();
            assert_eq!(changed.len(), at);
            for answer in changed.iter_mut() {
                if let Json::Object(fields) = answer {
                    for (name, value) in fields.iter_mut() {
                        if name == "granted" {
                            *value = Json::Bool(false);
                        }
                    }
                }
            }
            let failure = judge(text, &changed).unwrap().finish().unwrap_err();
            let about = failure.findings.iter().filter(|f| f.path == "the three answers").count();
            assert_eq!(about, 1);
        }
    }
}
