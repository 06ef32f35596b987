use disttest::check::{name_step, name_trial, note_seed, text_fact, Check, Fact};
use disttest::etcd::{b64, b64_of, judge_code, prefix_end, under, CODE_NOT_FOUND, CODE_OUT_OF_RANGE};
use disttest::json::{names_to_json, Json};
use disttest::names::{NameSet, NameTable};
use disttest::prim::{commands, expect_bool, expect_i64, expect_str, expect_strs, judge, look_up, raw};
use disttest::quorum::majority;
use disttest::steps::{int_list, judge_steps, list_trouble, unlisted_text, Step, Unlisted, Want};
use disttest::text::{
    int_list_to_text, int_to_text, join_texts, name_list_to_text, parse_whole, push_wide, sort_names, split_name,
    text_at_most,
};

fn text(s: &str) -> Json {
    Json::Text(s.to_string())
}

fn object(fields: Vec<(&str, Json)>) -> Json {
    Json::Object(fields.into_iter().map(|(k, v)| (k.to_string(), v)).collect())
}

#[test]
fn numbers_read_back_what_they_are_written_as() {
    for n in [0, 7, -1, 10, 99, -100, i64::MAX, i64::MIN] {
        assert_eq!(int_to_text(n), n.to_string());
        assert_eq!(parse_whole(&int_to_text(n)), Some(n));
    }
    assert_eq!(parse_whole("+5"), Some(5));
    for bad in ["", "-", "+", "5x", " 5", "9223372036854775808", "-9223372036854775809"] {
        assert_eq!(parse_whole(bad), None);
    }
    let mut wide = String::new();
    push_wide(&mut wide, i128::MIN);
    assert_eq!(wide, i128::MIN.to_string());
}

#[test]
fn lists_are_written_compactly() {
    assert_eq!(int_list_to_text(&[]), "[]");
    assert_eq!(int_list_to_text(&[1, -2, 30]), "[1,-2,30]");
    assert_eq!(name_list_to_text(&["a", "bc"]), r#"["a","bc"]"#);
    assert_eq!(names_to_json(&vec!["a\"b".to_string(), "c\nd".to_string()]), r#"["a\"b","c\nd"]"#);
}

#[test]
fn names_are_put_in_order() {
    let names: Vec<String> = ["s2", "s10", "s1", "", "B", "a"].iter().map(|s| s.to_string()).collect();
    let mut want = names.clone();
    want.sort();
    assert_eq!(sort_names(&names), want);
    assert!(text_at_most("a", "ab"));
    assert!(!text_at_most("b", "ab"));
}

#[test]
fn an_event_is_split_at_its_last_dot() {
    assert_eq!(split_name("charge.ok"), Some(("charge", "ok")));
    assert_eq!(split_name("a.b.fail"), Some(("a.b", "fail")));
    assert_eq!(split_name("start"), None);
}

#[test]
fn sets_and_tables_of_names() {
    let mut set = NameSet::new();
    set.insert("a1");
    set.insert("a2");
    set.insert("a1");
    assert_eq!(set.len(), 2);
    assert!(set.contains("a2"));
    assert!(set.remove("a2"));
    assert!(!set.remove("a2"));
    assert_eq!(set.len(), 1);
    set.clear();
    assert_eq!(set.len(), 0);
    let mut table = NameTable::new();
    assert_eq!(table.get("s2"), None);
    table.set("s2", 3);
    table.set("s3", 5);
    table.set("s2", 4);
    assert_eq!(table.get("s2"), Some(4));
    assert_eq!(table.count_at_least(5), 1);
    assert_eq!(table.count_at_least(4), 2);
}

#[test]
fn a_majority_is_more_than_half() {
    for n in 1..9usize {
        assert!(2 * majority(n) > n && 2 * (majority(n) - 1) <= n);
    }
    assert_eq!((0..7).map(majority).collect::<Vec<usize>>(), vec![1, 1, 2, 2, 3, 3, 4]);
}

#[test]
fn bytes_in_base64() {
    assert_eq!(b64(b""), "");
    assert_eq!(b64(b"f"), "Zg==");
    assert_eq!(b64(b"fo"), "Zm8=");
    assert_eq!(b64(b"foo"), "Zm9v");
    assert_eq!(b64(&[0xfb, 0xff, 0xfe]), "+//+");
    assert_eq!(b64_of("ex44/k"), "ZXg0NC9r");
    assert_eq!(b64_of("acked"), "YWNrZWQ=");
    assert_eq!(b64_of("slow"), "c2xvdw==");
}

#[test]
fn a_refusal_carries_its_code() {
    assert_eq!((CODE_NOT_FOUND, CODE_OUT_OF_RANGE), (5, 11));
    assert!(judge_code("a read", CODE_OUT_OF_RANGE, Some(11)).ok());
    assert!(!judge_code("a read", CODE_OUT_OF_RANGE, None).ok());
    let failure = judge_code("a read", CODE_OUT_OF_RANGE, Some(5)).finish().unwrap_err();
    assert_eq!(failure.subject, "a read");
    assert_eq!(failure.findings.len(), 1);
}

#[test]
fn a_prefix_ends_at_its_last_byte_incremented() {
    assert_eq!(prefix_end(b"k/"), b"k0".to_vec());
    assert_eq!(prefix_end(&[b'a', 0xff]), b"b".to_vec());
    assert_eq!(prefix_end(&[0xff, 0xff]), vec![0]);
    assert_eq!(prefix_end(b""), vec![0]);
    assert_eq!(under(b"n", b"/00"), b"n/00".to_vec());
}

#[test]
fn a_prefix_range_holds_what_the_prefix_begins() {
    let prefix = b"k/".to_vec();
    let end = prefix_end(&prefix);
    for key in [&b"k/"[..], b"k/a", &[b'k', b'/', 0xff, 0xff]] {
        assert!(prefix.as_slice() <= key && key < end.as_slice());
    }
    for key in [&b"k0"[..], b"k", b"l", b"j/z"] {
        assert!(!(prefix.as_slice() <= key && key < end.as_slice()));
    }
}

#[test]
fn json_is_written_compactly_and_quoted() {
    let json = object(vec![
        ("a\"b", Json::Array(vec![Json::Int(-3), Json::Null, Json::Bool(true)])),
        ("n", Json::Number("1.5".to_string())),
        ("t", text("tab\tback\\slash\u{1}\u{e9}")),
    ]);
    let want = "{\"a\\\"b\":[-3,null,true],\"n\":1.5,\"t\":\"tab\\tback\\\\slash\\u0001\u{e9}\"}";
    assert_eq!(json.render(), want);
    let back: serde_json::Value = serde_json::from_str(want).unwrap();
    assert_eq!(back["t"], "tab\tback\\slash\u{1}\u{e9}");
}

#[test]
fn the_order_of_fields_is_nothing() {
    let one = object(vec![("b", Json::Int(1)), ("a", Json::Null)]);
    let other = object(vec![("a", Json::Null), ("b", Json::Int(1))]);
    assert_eq!(one.render(), other.render());
    assert_eq!(one.render(), "{\"a\":null,\"b\":1}");
    let script = "order\n> ask\n= slots | {\"a\":null,\"b\":1} | slots";
    for slots in [one, other] {
        assert!(judge(script, &vec![object(vec![("slots", slots)])]).unwrap().ok());
    }
}

#[test]
fn longer_texts_go_with_a_failure_and_remarks_do_not() {
    let mut c = Check::new("words");
    c.block("transcript", "> hello");
    c.remark("by the way");
    assert!(c.ok());
    assert_eq!(c.remarks(), &vec!["by the way".to_string()]);
    c.eq_int("a", 1, 2);
    let failure = c.finish().unwrap_err();
    assert_eq!(failure.blocks, vec![("transcript".to_string(), "> hello".to_string())]);
    assert!(failure.notes.is_empty());
}

#[test]
fn a_check_passes_where_everything_holds() {
    let mut c = Check::new("numbers");
    c.eq_int("a", 1, 1);
    c.ne_int("b", 1, 2);
    c.at_least("c", 3, 3);
    c.at_most("d", 3, 3);
    c.within("e", 1, 30, 30);
    c.that("f", "it holds", true, Fact::Null);
    c.observe("g", Fact::Ints(vec![1, 2]));
    c.note("a note");
    assert!(c.ok());
    assert!(c.finish().is_ok());
}

#[test]
fn a_check_reports_what_did_not_hold() {
    for broken in 0..7 {
        let mut c = Check::new("one of these is wrong");
        match broken {
            0 => c.eq_int("a", 1, 2),
            1 => c.ne_int("b", 1, 1),
            2 => c.at_least("c", 3, 2),
            3 => c.at_most("d", 3, 4),
            4 => c.within("e", 1, 30, 31),
            5 => c.that("f", "it holds", false, text_fact("no")),
            _ => c.eq("g", Fact::Texts(vec!["x".to_string()]), Fact::Texts(vec![])),
        }
        c.note("seen");
        assert!(!c.ok());
        let failure = c.finish().unwrap_err();
        assert_eq!(failure.subject, "one of these is wrong");
        assert_eq!(failure.findings.len(), 1);
        assert_eq!(failure.notes, vec!["seen".to_string()]);
    }
}

#[test]
fn paths_and_notes_of_a_plan() {
    assert_eq!(name_step(12, "ack s2 3", "commit_index"), "step[12] ack s2 3 \u{2192} commit_index");
    assert_eq!(name_trial(3, "agreement"), "trial[3] agreement");
    assert_eq!(note_seed(42, 80, "events"), "seed 42, 80 events");
}

#[test]
fn fields_are_read_in_either_shape() {
    let answer = object(vec![
        ("n", Json::Int(4)),
        ("s", text("-7")),
        ("ok", Json::Bool(true)),
        ("names", Json::Array(vec![text("a"), text("b")])),
        ("votes", object(vec![("p2", text("yes"))])),
    ]);
    assert_eq!(expect_i64(&answer, "c", "n").unwrap(), 4);
    assert_eq!(expect_i64(&answer, "c", "s").unwrap(), -7);
    assert!(expect_bool(&answer, "c", "ok").unwrap());
    assert_eq!(expect_strs(&answer, "c", "names").unwrap(), vec!["a".to_string(), "b".to_string()]);
    assert_eq!(expect_str(&answer, "c", "votes.p2").unwrap(), "yes");
    assert_eq!(raw(&answer, "names"), r#"["a","b"]"#);
    assert_eq!(raw(&answer, "nothing"), "null");
    assert!(look_up(&answer, "votes.p3").is_none());
    let e = expect_i64(&answer, "state", "ok").unwrap_err();
    assert_eq!((e.command.as_str(), e.field.as_str()), ("state", "ok"));
    assert!(expect_bool(&answer, "c", "n").is_err());
    assert!(expect_str(&answer, "c", "n").is_err());
    assert!(expect_strs(&answer, "c", "votes").is_err());
}

#[test]
fn lists_of_whole_numbers() {
    let answer = object(vec![
        ("gaps", Json::Array(vec![Json::Int(2), text("3")])),
        ("half", Json::Array(vec![Json::Int(2), Json::Number("2.5".to_string())])),
        ("word", Json::Array(vec![text("two")])),
        ("n", Json::Int(1)),
    ]);
    assert_eq!(int_list(&answer, "gaps").unwrap(), vec![2, 3]);
    assert_eq!(int_list(&answer, "half").unwrap_err(), Unlisted::NotWhole { at: 1 });
    assert_eq!(int_list(&answer, "word").unwrap_err(), Unlisted::NotWhole { at: 0 });
    assert_eq!(int_list(&answer, "n").unwrap_err(), Unlisted::NoArray);
    assert_eq!(int_list(&answer, "none").unwrap_err(), Unlisted::Absent);
}

#[test]
fn a_script_is_held_against_its_answers() {
    let script = "a count\n> init 3\n= majority | 2 | init.majority\n> state\n= role | \"leader\" | state.role\n+ term | 1 | state.term\n? peers | s2 ; a second peer | state.peers\n* log | 1 y | state.log\n: log | 2 x | state.log\n/ log | z ; no z | state.log\n! id | \"\" | state.id";
    assert_eq!(commands(script), vec!["init 3".to_string(), "state".to_string()]);
    let good = || {
        vec![
            object(vec![("majority", Json::Int(2))]),
            object(vec![
                ("role", text("leader")),
                ("term", Json::Int(3)),
                ("peers", Json::Array(vec![text("s1"), text("s2")])),
                ("log", Json::Array(vec![text("x1"), text("y"), text("x2")])),
                ("id", text("s1")),
            ]),
        ]
    };
    assert!(judge(script, &good()).unwrap().ok());
    let mut wrong = good();
    wrong[0] = object(vec![("majority", Json::Int(1))]);
    assert!(!judge(script, &wrong).unwrap().ok());
    let mut short = good();
    short[1] = object(vec![]);
    let e = judge(script, &short).unwrap_err();
    assert_eq!((e.command.as_str(), e.field.as_str()), ("state", "role"));
}

#[test]
fn a_run_of_steps_stops_at_the_first_that_differs() {
    let step = |command: &str, want: Want| Step { command: command.to_string(), wants: vec![("v", want)] };
    let steps = vec![
        step("one", Want::Int(1)),
        step("two", Want::Text("b".to_string())),
        step("three", Want::Null),
        step("four", Want::Bool(true)),
        step("five", Want::Ints(vec![1, 2])),
    ];
    let answers = || {
        vec![
            object(vec![("v", text("1"))]),
            object(vec![("v", text("b"))]),
            object(vec![]),
            object(vec![("v", Json::Bool(true))]),
            object(vec![("v", Json::Array(vec![Json::Int(1), Json::Int(2)]))]),
        ]
    };
    assert!(judge_steps("all", "note", &steps, &answers()).unwrap().ok());
    let mut second = answers();
    second[1] = object(vec![("v", text("c"))]);
    second[4] = object(vec![]);
    let failure = judge_steps("all", "note", &steps, &second).unwrap().finish().unwrap_err();
    assert_eq!(failure.findings.len(), 2);
    assert_eq!(failure.notes, vec!["note".to_string()]);
    let mut unreadable = answers();
    unreadable[3] = object(vec![("v", Json::Int(1))]);
    let e = judge_steps("all", "note", &steps, &unreadable).unwrap_err();
    assert_eq!((e.command.as_str(), e.field.as_str()), ("four", "v"));
}

#[test]
fn a_list_that_cannot_be_read_is_described() {
    let answer = object(vec![
        ("gaps", Json::Array(vec![Json::Int(2), text("3")])),
        ("half", Json::Array(vec![Json::Int(2), Json::Number("1.5".to_string())])),
        ("word", Json::Array(vec![text("a \"b\"")])),
        ("n", Json::Int(7)),
    ]);
    assert_eq!(list_trouble(&answer, "gaps"), None);
    assert_eq!(list_trouble(&answer, "half").unwrap(), "half holds 1.5, not a whole number");
    assert_eq!(list_trouble(&answer, "word").unwrap(), "word holds \"a \\\"b\\\"\", not a whole number");
    assert_eq!(list_trouble(&answer, "n").unwrap(), "n should be an array, got 7");
    assert_eq!(list_trouble(&answer, "none").unwrap(), "the answer has no \"none\" field");
}

#[test]
fn the_words_for_an_unlisted_field_take_what_is_quoted() {
    assert_eq!(unlisted_text(Unlisted::Absent, "f", "'f'", &Json::Null), "the answer has no 'f' field");
    let why = Unlisted::NotWhole { at: 0 };
    assert_eq!(unlisted_text(why, "f", "<x>", &text("x")), "f holds <x>, not a whole number");
    assert_eq!(unlisted_text(why, "f", "<x>", &Json::Bool(true)), "f holds true, not a whole number");
}

#[test]
fn texts_are_joined_with_a_separator() {
    assert_eq!(join_texts(&vec![], "; "), "");
    assert_eq!(join_texts(&vec!["a".to_string(), "b".to_string(), "c".to_string()], "; "), "a; b; c");
}
