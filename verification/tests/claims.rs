use disttest::check::{text_fact, Fact};
use disttest::claims::{judge, ClaimRow, Record};
use disttest::examples::put_call;
use disttest::stages::{
    s24_range_over_ranges as s24, s25_range_options as s25, s26_mvcc_past_revisions as s26, s31_leases as s31,
    s32_lease_keepalive as s32,
};

fn scene() -> Record {
    let mut r = Record::new();
    r.put("n", Fact::Int(4));
    r.put("yes", Fact::Bool(true));
    r.put("no", Fact::Bool(false));
    r.put("word", text_fact("red"));
    r.put("nothing", Fact::Null);
    r.put("ups", Fact::Ints(vec![1, 2, 5]));
    r.put("flats", Fact::Ints(vec![1, 1, 5]));
    r.put("downs", Fact::Ints(vec![0, -1]));
    r.put("fours", Fact::Ints(vec![4, 4]));
    r.put("words", Fact::Texts(vec!["red".to_string(), "blue".to_string()]));
    r.put("reds", Fact::Texts(vec!["red".to_string(), "red".to_string()]));
    r.put("none", Fact::Texts(vec![]));
    for (name, value) in [("m1", 4), ("m2", 5)] {
        r.row("member");
        r.put_in_row("who", text_fact(name));
        r.put_in_row("value", Fact::Int(value));
    }
    r
}

fn ruled(claim: ClaimRow) -> bool {
    judge("one claim", &[claim], &scene()).unwrap().ok()
}

#[test]
fn the_rules_of_a_claim() {
    for (rule, got, want, holds) in [
        ("=", "n", "4", true),
        ("=", "n", "5", false),
        ("=", "word", "'red", true),
        ("=", "words", "[red\nblue", true),
        ("=", "words", "[red", false),
        ("=", "yes", "true", true),
        ("=", "no", "false", true),
        ("=", "nothing", "null", true),
        ("=", "n+1", "5", true),
        ("=", "n", "n+0", true),
        ("!=", "n", "5", true),
        ("!=", "n", "4", false),
        (">=", "n", "4", true),
        (">=", "n", "5", false),
        ("<=", "n", "4", true),
        ("<=", "n", "3", false),
        ("in", "n", "1 4", true),
        ("in", "n", "5 9", false),
    ] {
        assert_eq!(ruled(("", rule, got, want, "path")), holds, "{rule} {got} {want}");
    }
}

#[test]
fn the_conditions_of_a_claim() {
    for (condition, holds) in [
        ("yes", true),
        ("no", false),
        ("!no", true),
        ("!yes", false),
        ("empty none", true),
        ("empty words", false),
        ("some words", true),
        ("some none", false),
        ("positive ups", true),
        ("positive downs", false),
        ("rising ups", true),
        ("rising flats", false),
        ("steady flats", true),
        ("steady downs", false),
        ("n = 4", true),
        ("n != 4", false),
        ("n < 5", true),
        ("n > 4", false),
        ("n in fours", true),
        ("n in ups", false),
        ("fours each n", true),
        ("ups each n", false),
        ("reds each word", true),
        ("words each word", false),
        ("word of words", true),
        ("word notof words", false),
        ("word notof none", true),
    ] {
        let rule: &'static str = format!("? {condition}").leak();
        assert_eq!(ruled(("", rule, "n", "said", "path")), holds, "{condition}");
    }
}

#[test]
fn claims_about_a_table_are_made_row_by_row() {
    let claims: [ClaimRow; 4] = [
        ("member", "=", "value", "4", "{who}.value"),
        ("member", "see", "value", "", "{who}.seen"),
        ("", "note", "", "", "asked {n} of {word}, then {n+1}"),
        ("nobody", "=", "value", "4", "never"),
    ];
    let failure = judge("every member", &claims, &scene()).unwrap().finish().unwrap_err();
    assert_eq!(failure.subject, "every member");
    let paths: Vec<&str> = failure.findings.iter().map(|f| f.path.as_str()).collect();
    assert_eq!(paths, vec!["m1.value", "m1.seen", "m2.value", "m2.seen"]);
    let held: Vec<bool> = failure.findings.iter().map(|f| f.holds()).collect();
    assert_eq!(held, vec![true, true, false, true]);
    assert_eq!(failure.notes, vec!["asked 4 of red, then 5".to_string()]);
}

#[test]
fn a_claim_about_what_was_not_seen() {
    for claim in [
        ("", "=", "absent", "4", "path"),
        ("", "=", "n", "absent", "path"),
        ("", "=", "n", "4", "{absent}"),
        ("", ">=", "word", "4", "path"),
        ("", "in", "n", "4", "path"),
        ("", "? word", "n", "said", "path"),
        ("", "? rising words", "n", "said", "path"),
        ("", "see", "absent", "", "path"),
        ("", "less", "n", "4", "path"),
        ("", "=", "value", "4", "path"),
    ] {
        let first: ClaimRow = ("", "=", "n", "4", "fine");
        assert_eq!(judge("unseen", &[first, claim], &scene()).unwrap_err().at, 1, "{claim:?}");
    }
}

#[test]
fn awkward_keys_keep_their_order() {
    let keys = s24::awkward_keys(b"base/");
    assert_eq!(keys.len(), 6);
    let mut sorted = keys.clone();
    sorted.sort();
    assert_eq!(keys, sorted);
}

#[test]
fn five_keys_under_a_base() {
    let (prefix, keys) = s25::five_keys(b"b");
    assert_eq!(prefix, b"b/".to_vec());
    assert_eq!(keys.len(), 5);
    for key in &keys {
        assert!(key.starts_with(&prefix));
    }
}

#[test]
fn requests_of_the_examples() {
    let call = put_call("ex44/k", "acked");
    assert_eq!(call.path, "/v3/kv/put");
    assert_eq!(
        call.body,
        vec![("key", "ZXg0NC9r".to_string()), ("value", "YWNrZWQ=".to_string())]
    );
    assert_eq!(s25::four_keys().len(), 4);
    assert_eq!(s26::two_writes().len(), 2);
    assert_eq!(s31::grant_call("77").path, "/v3/lease/grant");
}

#[test]
fn a_lease_is_renewed_for_two_lifetimes() {
    assert!(s32::keep_renewing(0, 1));
    assert!(!s32::keep_renewing(0, 0));
    let end = s31::SHORT_TTL as u64 * 2_000 + 500;
    assert!(s32::keep_renewing(end - 1, 1));
    assert!(!s32::keep_renewing(end, 1));
}

#[test]
fn the_first_line_that_says_something() {
    assert_eq!(s32::find_first_line("{\"a\":1}\n{\"b\":2}\n"), "{\"a\":1}");
    assert_eq!(s32::find_first_line(""), "");
    assert_eq!(s32::find_first_line("a\r\nb"), "a");
    assert_eq!(s32::find_first_line(" \r\n\na\r\n"), "a");
    assert_eq!(s32::find_first_line("a\r"), "a\r");
    assert_eq!(s32::find_first_line("a\r\r\nb"), "a\r");
}

#[test]
fn an_answer_wrapped_in_a_result() {
    let wrapped = "\n{\"result\":{\"header\":{\"revision\":\"3\"},\"ID\":\"77\",\"TTL\":\"5\"}}\r\n";
    let check = s32::judge_envelope(200, 77, wrapped);
    assert!(check.ok(), "{:?}", check.finish());
    assert!(s32::judge_envelope(200, 77, "{\"result\":{\"header\":{},\"ID\":77}}").ok());
    assert!(s32::judge_envelope(200, 77, "{\"result\":{\"header\":{},\"ID\":\"7\\u0037\"}}").ok());
    for (status, body) in [
        (500, wrapped),
        (200, "{\"header\":{},\"ID\":\"77\"}"),
        (200, "{\"result\":{\"header\":{},\"ID\":\"78\"}}"),
        (200, "{\"result\":{\"ID\":\"77\"}}"),
        (200, "{\"result\":{\"header\":{}}}"),
        (200, "no json"),
        (200, ""),
    ] {
        assert!(!s32::judge_envelope(status, 77, body).ok(), "{body}");
    }
}

#[test]
fn an_envelope_that_has_been_taken_apart() {
    let some = |s: &str| Some(s.to_string());
    let (result, header) = (some("{}"), some("{}"));
    assert!(s32::judge_parts(200, -5, "{}", "{}", &result, &some("-5"), &some("\"-5\""), &header).ok());
    assert!(s32::judge_parts(200, -5, "{}", "{}", &result, &None, &some("-5"), &header).ok());
    assert!(!s32::judge_parts(200, -5, "{}", "{}", &result, &None, &some("\"-5\""), &header).ok());
    assert!(!s32::judge_parts(200, -5, "{}", "{}", &result, &None, &None, &header).ok());
    assert!(!s32::judge_parts(200, -5, "{}", "{}", &result, &some("-5"), &None, &None).ok());
    assert!(!s32::judge_parts(200, -5, "{}", "{}", &None, &some("-5"), &None, &header).ok());
}

#[test]
fn an_envelope_that_fails_shows_the_body() {
    let failure = s32::judge_envelope(200, 77, "no json").finish().unwrap_err();
    assert!(failure.blocks.iter().any(|(title, text)| title == "the body as it arrived" && text == "no json"));
}

#[test]
fn tables_of_one_group_are_judged_in_the_order_they_were_seen() {
    let mut r = Record::new();
    r.put("n", Fact::Int(4));
    for (table, name) in [("member/silence", "m1"), ("member/answer", "m2"), ("member/silence", "m3")] {
        r.row(table);
        r.put_in_row("who", text_fact(name));
        r.put_in_row("value", Fact::Int(0));
    }
    let claims: [ClaimRow; 4] = [
        ("member/answer", "=", "value", "4", "{who} answered"),
        ("member/answer", "see", "value", "", "{who} value"),
        ("member/silence", "=", "value", "4", "{who} was silent"),
        ("", "see", "n", "", "the end"),
    ];
    let failure = judge("three members", &claims, &r).unwrap().finish().unwrap_err();
    let paths: Vec<&str> = failure.findings.iter().map(|f| f.path.as_str()).collect();
    assert_eq!(
        paths,
        vec!["m1 was silent", "m2 answered", "m2 value", "m3 was silent", "the end"]
    );
}

#[test]
fn a_claim_can_be_a_remark_or_a_longer_text() {
    let claims: [ClaimRow; 4] = [
        ("", "remark", "", "", "asked {n} times"),
        ("", "block", "word", "", "what was said"),
        ("", "note", "", "", "a note"),
        ("", "=", "n", "5", "n"),
    ];
    let check = judge("words", &claims, &scene()).unwrap();
    assert_eq!(check.remarks(), &vec!["asked 4 times".to_string()]);
    let failure = check.finish().unwrap_err();
    assert_eq!(failure.blocks, vec![("what was said".to_string(), "red".to_string())]);
    assert_eq!(failure.notes, vec!["a note".to_string()]);
    let number: ClaimRow = ("", "block", "n", "", "no text");
    assert_eq!(judge("words", &[number], &scene()).unwrap_err().at, 0);
}
