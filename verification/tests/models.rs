use disttest::json::Json;
use disttest::prim::{judge, next_command};
use disttest::stages::{
    s56_raft_leader_election as s56, s57_raft_log_replication as s57, s61_paxos_single_decree as s61,
    s67_saga_choreographed as s67, Stage,
};

fn text(s: &str) -> Json {
    Json::Text(s.to_string())
}

fn ints(all: &[i64]) -> Json {
    Json::Array(all.iter().map(|n| Json::Int(*n)).collect())
}

fn texts(all: &[String]) -> Json {
    Json::Array(all.iter().map(|s| text(s)).collect())
}

fn object(fields: Vec<(&str, Json)>) -> Json {
    Json::Object(fields.into_iter().map(|(k, v)| (k.to_string(), v)).collect())
}

fn number(s: &str) -> i64 {
    s.parse().unwrap()
}

/// Has a model answer every script of a stage that asks nothing beyond it, and returns how many.
fn answered<M>(stage: Stage, first: M, answer: fn(&mut M, &[&str]) -> Option<Json>) -> usize {
    let mut model = first;
    let mut held = 0;
    'scripts: for test in &stage.tests {
        let script = match test.script {
            Some(script) => script,
            None => continue,
        };
        let mut answers = Vec::new();
        while let Ok(Some(command)) = next_command(script, &answers) {
            let words: Vec<&str> = command.split(' ').collect();
            match answer(&mut model, &words) {
                Some(json) => answers.push(json),
                None => continue 'scripts,
            }
        }
        if next_command(script, &answers).is_err() {
            continue;
        }
        if let Ok(check) = judge(script, &answers) {
            assert!(check.ok(), "{}: {:?}", test.body, check.finish());
            held += 1;
        }
    }
    held
}

fn election(m: &mut s56::Model, words: &[&str]) -> Option<Json> {
    let mut fields = Vec::new();
    match words {
        ["init", n] => {
            *m = s56::Model::new(n.parse().unwrap());
            fields.push(("majority", Json::Int(m.majority() as i64)));
        }
        ["timeout"] => m.timeout(),
        ["log-append", term] => m.log_append(number(term)),
        ["request-vote", term, who, li, lt] => {
            let (term, granted) = m.request_vote(number(term), who, number(li), number(lt));
            return Some(object(vec![("term", Json::Int(term)), ("granted", Json::Bool(granted))]));
        }
        ["vote-response", term, who, granted] => m.vote_response(number(term), who, *granted == "true"),
        ["append-entries", term, who] => {
            let (_, success) = m.append_entries(number(term), who);
            fields.push(("success", Json::Bool(success)));
        }
        ["state"] => fields.push(("last_index", Json::Int(m.last_index()))),
        _ => return None,
    }
    fields.push(("state", text(m.role().name())));
    fields.push(("term", Json::Int(m.term())));
    fields.push(("votes", Json::Int(m.votes() as i64)));
    Some(object(fields))
}

fn replication(m: &mut (s57::Model, i64), words: &[&str]) -> Option<Json> {
    let list = |s: &str| -> Vec<i64> {
        let inner = s.trim_start_matches('[').trim_end_matches(']');
        inner.split(',').filter(|n| !n.is_empty()).map(number).collect()
    };
    let mut fields = Vec::new();
    match words {
        ["init", terms] => *m = (s57::Model::new(&list(terms)), 0),
        ["append", term, prev_index, prev_term, commit, entries] => {
            let applied =
                m.0.append(number(term), number(prev_index), number(prev_term), number(commit), &list(entries));
            m.1 = applied.commit_index;
            fields.push(("success", Json::Bool(applied.success)));
            fields.push(("conflict_index", Json::Int(applied.conflict_index)));
        }
        ["log"] => fields.push(("terms", ints(m.0.log()))),
        _ => return None,
    }
    fields.push(("term", Json::Int(m.0.term())));
    fields.push(("last_index", Json::Int(m.0.last_index())));
    fields.push(("last_term", Json::Int(m.0.log().last().copied().unwrap_or(0))));
    fields.push(("commit_index", Json::Int(m.1)));
    Some(object(fields))
}

fn decree(m: &mut s61::Model, words: &[&str]) -> Option<Json> {
    let index = |who: &str| -> usize { who.trim_start_matches('a').parse::<usize>().unwrap() - 1 };
    let last = |m: &s61::Model, i: usize| {
        vec![
            ("last_n", m.last_n(i).map(Json::Int).unwrap_or(Json::Null)),
            ("last_value", m.last_value(i).map(Json::Text).unwrap_or(Json::Null)),
        ]
    };
    match words {
        ["init", n] => {
            *m = s61::Model::new(n.parse().unwrap());
            Some(object(vec![
                ("acceptors", Json::Int(m.count() as i64)),
                ("majority", Json::Int(m.majority() as i64)),
            ]))
        }
        ["prepare", who, n] => {
            let (promised, promised_n) = m.prepare(index(who), number(n));
            let mut fields = last(m, index(who));
            fields.push(("promised", Json::Bool(promised)));
            fields.push(("promised_n", Json::Int(promised_n)));
            Some(object(fields))
        }
        ["accept", who, n, value] => {
            let (accepted, promised_n) = m.accept(index(who), number(n), value);
            Some(object(vec![("accepted", Json::Bool(accepted)), ("promised_n", Json::Int(promised_n))]))
        }
        ["learn"] => {
            let (chosen, value, count) = m.learn();
            Some(object(vec![
                ("chosen", Json::Bool(chosen)),
                ("value", value.map(Json::Text).unwrap_or(Json::Null)),
                ("count", Json::Int(count as i64)),
            ]))
        }
        _ => None,
    }
}

fn choreography(m: &mut s67::Model, words: &[&str]) -> Option<Json> {
    match words {
        ["init", names] => {
            let inner = names.trim_start_matches('[').trim_end_matches(']');
            let names: Vec<&str> = inner.split(',').map(|n| n.trim_matches('"')).collect();
            *m = s67::Model::new(&names);
            Some(object(vec![]))
        }
        ["event", event] => {
            let duplicate = m.is_duplicate(event);
            let emitted = if duplicate { Vec::new() } else { m.apply(event) };
            Some(object(vec![
                ("duplicate", Json::Bool(duplicate)),
                ("emitted", texts(&emitted)),
                ("ledger", texts(m.ledger())),
            ]))
        }
        ["outcome"] => Some(object(vec![
            ("outcome", text(m.outcome().name())),
            ("inflight", Json::Int(m.inflight() as i64)),
        ])),
        ["ledger"] => Some(object(vec![("entries", texts(m.ledger()))])),
        _ => None,
    }
}

#[test]
fn the_election_scripts_agree_with_the_model() {
    let held = answered(s56::stage(), s56::Model::new(5), election);
    assert!(held >= 8, "{held}");
}

#[test]
fn the_replication_scripts_agree_with_the_model() {
    let held = answered(s57::stage(), (s57::Model::new(&[]), 0), replication);
    assert_eq!(held, 10);
}

#[test]
fn the_paxos_scripts_agree_with_the_model() {
    let held = answered(s61::stage(), s61::Model::new(3), decree);
    assert!(held >= 6, "{held}");
}

#[test]
fn the_choreography_scripts_agree_with_the_model() {
    let held = answered(s67::stage(), s67::Model::new(&["a"]), choreography);
    assert_eq!(held, 9);
}
