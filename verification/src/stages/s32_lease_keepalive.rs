//! Stage 32: Lease keepalive and TTL.
//!
//! A keepalive says "I am still here". The answer is a stream of lines, each wrapped in `result`, and a
//! lease that is gone answers a lifetime of zero rather than an error.
use vstd::prelude::*;
use crate::claims::Claims;
use crate::check::{all_hold, is_int, is_text, is_that, text_fact, Check, Truth, Verdict};
use crate::examples::{
    described, node_described, node_example, node_example_after, put_request_call, requests, two, Call,
    Described, ExampleSpec, Request, TextRow,
};
use crate::json::{json_pointed, json_word, pointed, pointed_word};
use crate::prim::{lines_from, split_lines};
use crate::stages::s31_leases::{grant_call, grant_request, SHORT_TTL};
use crate::stages::{rows_written, tests, tests_of, Ladder, Stage, TestRow};
use crate::text::{int_text, push_int, texts};

verus! {

/// How often a test renews a lease it means to keep, in milliseconds.
pub const RENEW_EVERY_MS: u64 = 700;

/// Whether a test that holds a lease open goes on renewing it: for more than twice the lifetime, and
/// only as long as the lease is there.
pub fn keep_renewing(elapsed_ms: u64, ttl: i64) -> (r: bool)
    ensures
        r == (elapsed_ms < SHORT_TTL * 2_000 + 500 && ttl > 0),
{
    elapsed_ms < 4_500 && ttl > 0
}

/// Blank space, as texts are trimmed of.
pub open spec fn is_space(c: char) -> bool {
    ||| '\u{9}' <= c <= '\u{d}'
    ||| c == ' '
    ||| c == '\u{85}'
    ||| c == '\u{a0}'
    ||| c == '\u{1680}'
    ||| '\u{2000}' <= c <= '\u{200a}'
    ||| c == '\u{2028}'
    ||| c == '\u{2029}'
    ||| c == '\u{202f}'
    ||| c == '\u{205f}'
    ||| c == '\u{3000}'
}

/// There is nothing on a line but blank space.
pub open spec fn is_blank(s: Seq<char>) -> bool {
    forall|i: int| 0 <= i < s.len() ==> is_space(#[trigger] s[i])
}

/// Line `i` of some, without the carriage return that belongs to its line feed; the last line has no line
/// feed and is left as it is.
pub open spec fn line_text(lines: Seq<Seq<char>>, i: int) -> Seq<char> {
    if i + 1 < lines.len() && lines[i].len() > 0 && lines[i].last() == '\r' {
        lines[i].drop_last()
    } else {
        lines[i]
    }
}

/// The first line that is not blank, from line `i` on; nothing where there is none.
pub open spec fn first_line_from(lines: Seq<Seq<char>>, i: int) -> Seq<char>
    decreases lines.len() - i,
{
    if i >= lines.len() || i < 0 {
        Seq::empty()
    } else if !is_blank(lines[i]) {
        line_text(lines, i)
    } else {
        first_line_from(lines, i + 1)
    }
}

/// The first line of a body that is not blank; nothing where there is none.
pub open spec fn first_line(body: Seq<char>) -> Seq<char> {
    first_line_from(lines_from(body, 0), 0)
}

/// Whether there is nothing on a line but blank space.
fn blank(s: &str) -> (r: bool)
    ensures
        r == is_blank(s@),
{
    let n: usize = s.unicode_len();
    let mut i: usize = 0;
    while i < n
        invariant
            n == s@.len(),
            i <= n,
            forall|k: int| 0 <= k < i ==> is_space(#[trigger] s@[k]),
        decreases n - i,
    {
        let c = s.get_char(i);
        let space = ('\u{9}' <= c && c <= '\u{d}') || c == ' ' || c == '\u{85}' || c == '\u{a0}' || c
            == '\u{1680}' || ('\u{2000}' <= c && c <= '\u{200a}') || c == '\u{2028}' || c == '\u{2029}' || c
            == '\u{202f}' || c == '\u{205f}' || c == '\u{3000}';
        if !space {
            assert(!is_space(s@[i as int]));
            return false;
        }
        i += 1;
    }
    true
}

/// The first line of a body that is not blank; nothing where there is none.
pub fn find_first_line(body: &str) -> (line: String)
    ensures
        line@ == first_line(body@),
{
    let lines = split_lines(body);
    let ghost all = lines_from(body@, 0);
    let mut i: usize = 0;
    while i < lines.len()
        invariant
            i <= lines@.len(),
            all == texts(lines@),
            all == lines_from(body@, 0),
            first_line(body@) == first_line_from(all, i as int),
        decreases lines@.len() - i,
    {
        assert(all[i as int] == lines@[i as int]@);
        let line = lines[i].as_str();
        if !blank(line) {
            let n: usize = line.unicode_len();
            assert(n > 0) by {
                if n == 0 {
                    assert(is_blank(line@));
                }
            }
            if i + 1 < lines.len() && line.get_char(n - 1) == '\r' {
                let kept = line.substring_char(0, n - 1);
                assert(kept@ =~= line@.drop_last());
                return String::from_str(kept);
            }
            return String::from_str(line);
        }
        i += 1;
    }
    let none = String::new();
    assert(none@ =~= Seq::<char>::empty());
    none
}

/// The text where there is one, or else another.
pub open spec fn or_else(s: Option<Seq<char>>, other: Seq<char>) -> Seq<char> {
    match s {
        Some(s) => s,
        None => other,
    }
}

/// What the report says of an envelope: the status, that the first line is an object with a `result`,
/// the id in it, a string or else in whichever JSON shape, and that a header comes with it. The body as it
/// arrived goes with a failure.
pub open spec fn envelope_verdict(
    status: int,
    lease: int,
    body: Seq<char>,
    line: Seq<char>,
    result: Option<Seq<char>>,
    word: Option<Seq<char>>,
    id: Option<Seq<char>>,
    header: Option<Seq<char>>,
) -> Verdict {
    Verdict {
        subject: "the envelope a streaming endpoint uses"@,
        rulings: seq![
            is_int("HTTP status"@, 200, status),
            is_that(
                "the first line of the body"@,
                "an object with a `result` field"@,
                result is Some,
                Truth::Text(line),
            ),
            is_text("result.ID"@, int_text(lease), or_else(word, or_else(id, Seq::empty()))),
            is_that(
                "result.header"@,
                "the header every response carries"@,
                header is Some,
                Truth::Text(or_else(result, "null"@)),
            ),
        ],
        notes: Seq::empty(),
        blocks: seq![("the body as it arrived"@, body)],
        remarks: Seq::empty(),
    }
}

/// What an optional text says.
pub open spec fn text_of(s: Option<String>) -> Option<Seq<char>> {
    match s {
        Some(s) => Some(s@),
        None => None,
    }
}

/// Holds an envelope that has been taken apart against what it must be.
pub fn judge_parts(
    status: i64,
    lease: i64,
    body: &str,
    line: &str,
    result: &Option<String>,
    word: &Option<String>,
    id: &Option<String>,
    header: &Option<String>,
) -> (c: Check)
    ensures
        c@ == envelope_verdict(
            status as int,
            lease as int,
            body@,
            line@,
            text_of(*result),
            text_of(*word),
            text_of(*id),
            text_of(*header),
        ),
{
    let mut c = Check::new("the envelope a streaming endpoint uses");
    c.block("the body as it arrived", body);
    c.eq_int("HTTP status", 200, status as i128);
    c.that(
        "the first line of the body",
        "an object with a `result` field",
        result.is_some(),
        text_fact(line),
    );
    let mut want = String::new();
    push_int(&mut want, lease);
    assert(want@ =~= int_text(lease as int));
    let got = match (word, id) {
        (Some(s), _) => s.clone(),
        (None, Some(s)) => s.clone(),
        (None, None) => {
            let none = String::new();
            assert(none@ =~= Seq::<char>::empty());
            none
        },
    };
    c.eq_text("result.ID", want.as_str(), got.as_str());
    let shown = match result {
        Some(s) => text_fact(s.as_str()),
        None => text_fact("null"),
    };
    c.that("result.header", "the header every response carries", header.is_some(), shown);
    assert(c@.rulings =~= envelope_verdict(
        status as int,
        lease as int,
        body@,
        line@,
        text_of(*result),
        text_of(*word),
        text_of(*id),
        text_of(*header),
    ).rulings);
    assert(c@.blocks =~= seq![("the body as it arrived"@, body@)]);
    c
}

/// Holds the body of a keepalive's answer against the envelope a streaming endpoint uses.
pub fn judge_envelope(status: i64, lease: i64, body: &str) -> (c: Check)
    ensures
        c@ == envelope_verdict(
            status as int,
            lease as int,
            body@,
            first_line(body@),
            pointed(first_line(body@), "/result"@),
            pointed_word(first_line(body@), "/result/ID"@),
            pointed(first_line(body@), "/result/ID"@),
            pointed(first_line(body@), "/result/header"@),
        ),
{
    let line = find_first_line(body);
    let result = json_pointed(line.as_str(), "/result");
    let word = json_word(line.as_str(), "/result/ID");
    let id = json_pointed(line.as_str(), "/result/ID");
    let header = json_pointed(line.as_str(), "/result/header");
    judge_parts(status, lease, body, line.as_str(), &result, &word, &id, &header)
}

/// The request that renews a lease.
pub open spec fn keepalive_request(id: Seq<char>) -> Request {
    Request { path: "/v3/lease/keepalive"@, body: seq![("ID"@, id)] }
}

/// The request that renews a lease.
fn keepalive_call(id: &str) -> (c: Call)
    ensures
        c@ == keepalive_request(id@),
{
    let c = Call::new("/v3/lease/keepalive").plain("ID", id);
    assert(c@.body =~= keepalive_request(id@).body);
    c
}

/// A keepalive answers the id it was asked about.
pub const ANSWERS_THE_ID: Claims<4> = (
    "what a keepalive answers",
    [
        ("", "=", "alive.id", "lease.id", "keepalive.ID"),
        ("", "in", "alive.ttl", "1 30", "keepalive.TTL"),
        ("", "=", "alive.error", "'", "keepalive.error"),
        ("", "=", "alive.cluster_id", "lease.cluster_id", "keepalive.header.cluster_id"),
    ],
);

/// Keeping a lease alive keeps its key past the original ttl.
pub const RENEWAL_KEEPS_THE_KEY: Claims<4> = (
    "a lease held open by keepalives",
    [
        ("", "note", "", "", "{renewals} keepalives over {lived} ms, on a lease of 2 s"),
        ("", ">=", "lived", "4000", "how long the key was held, in ms"),
        ("", "=", "count", "1", "range.count"),
        ("", "=", "lease", "id", "range.kvs[0].lease"),
    ],
);

/// The key goes once the keepalives stop.
pub const THE_KEY_GOES_WHEN_RENEWAL_STOPS: Claims<4> = (
    "a lease nobody renews any more",
    [
        ("", "note", "", "", "the key went {after} ms after the last keepalive"),
        ("", "=", "held.count", "1", "range(while renewed).count"),
        ("", "=", "gone.count", "0", "range(after).count"),
        ("", ">=", "after", "2000", "how long the key outlived the last keepalive, in ms"),
    ],
);

/// A keepalive for a lease that was never granted answers a ttl of zero.
pub const UNKNOWN_LEASE_ANSWERS_ZERO: Claims<3> = (
    "a keepalive for an id nobody has",
    [
        ("", "=", "id", "6543210", "keepalive.ID"),
        ("", "=", "ttl", "0", "keepalive.TTL"),
        ("", "!=", "cluster_id", "0", "keepalive.header.cluster_id"),
    ],
);

/// A keepalive for a revoked lease answers a ttl of zero.
pub const REVOKED_LEASE_ANSWERS_ZERO: Claims<3> = (
    "renewing a lease that has been revoked",
    [
        ("", "=", "alive.id", "lease.id", "keepalive.ID"),
        ("", "=", "alive.ttl", "0", "keepalive.TTL"),
        ("", "=", "count", "0", "range.count"),
    ],
);

/// A keepalive does not move the store revision.
pub const RENEWAL_IS_NOT_A_WRITE: Claims<1> = (
    "the store's clock across three keepalives",
    [
        ("", "=", "after", "before", "status(after).header.revision"),
    ],
);

/// Keeping one lease alive does nothing for another.
pub const RENEWAL_IS_PER_LEASE: Claims<3> = (
    "two leases, one of them renewed",
    [
        ("", "=", "kept.count", "1", "range(kept).count"),
        ("", "=", "kept.lease", "held.id", "range(kept).kvs[0].lease"),
        ("", "=", "gone.count", "0", "range(dropped).count"),
    ],
);

/// What somebody stuck on this stage is told, one after the other.
pub const HINTS: [&'static str; 4] = [
    "POST /v3/lease/keepalive is a stream: the answer is wrapped in {\"result\": ...}",
    "A keepalive resets the lease's remaining time to its TTL",
    "A keepalive for a lease that is gone answers TTL 0, not an error",
    "Keys survive exactly as long as something keeps the lease alive",
];

/// The tests of this stage.
pub const TESTS: [TestRow; 8] = [
    ("a keepalive answers the id it was asked about", "answers_the_id", false, false, 0, 0, ""),
    ("a keepalive message is wrapped in a result", "wrapped_in_a_result", false, false, 0, 0, ""),
    (
        "keeping a lease alive keeps its key past the original ttl",
        "renewal_keeps_the_key",
        false,
        false,
        0,
        40000,
        "",
    ),
    (
        "the key goes once the keepalives stop",
        "the_key_goes_when_renewal_stops",
        false,
        false,
        0,
        40000,
        "",
    ),
    (
        "a keepalive for a lease that was never granted answers a ttl of zero",
        "unknown_lease_answers_zero",
        false,
        false,
        0,
        0,
        "",
    ),
    (
        "a keepalive for a revoked lease answers a ttl of zero",
        "revoked_lease_answers_zero",
        false,
        false,
        0,
        0,
        "",
    ),
    (
        "a keepalive does not move the store revision",
        "renewal_is_not_a_write",
        false,
        false,
        0,
        0,
        "",
    ),
    (
        "keeping one lease alive does nothing for another",
        "renewal_is_per_lease",
        true,
        false,
        0,
        40000,
        "",
    ),
];

/// The texts of the first example.
pub const FIRST_TEXTS: TextRow = (
    "Saying \"I am still here\"",
    "the id of a lease that was granted a moment ago",
    "one chunked line: `{\"result\": {header, ID, TTL}}`, and the TTL is full again",
    "This is a stream, not a plain request: `Transfer-Encoding: chunked`, one JSON object per \
     line, and every one of them wrapped in `result`. A client that writes several ids down \
     this one body gets one answer per id.",
);

/// The texts of the second example.
pub const SECOND_TEXTS: TextRow = (
    "Renewing a lease that is already gone",
    "an id that was never granted — or was, and has since expired",
    "the same shape, carrying the id and no TTL at all",
    "No error, and no TTL field: zero is the default, so it is left out. A client renewing in a \
     loop sees TTL 0 and knows its keys are gone, without having to tell an error apart from a \
     network failure.",
);

/// Spaces, tabs and line ends are blank, and nothing that is printed in ASCII is.
pub proof fn printed_characters_are_not_blank(c: char)
    ensures
        is_space(' ') && is_space('\t') && is_space('\n') && is_space('\r'),
        '!' <= c <= '~' ==> !is_space(c),
{
}

/// The first line that says something is the first one that is not blank, without the carriage return that
/// belongs to its line feed; where every line is blank there is none.
pub proof fn first_line_is_the_first_that_says_something(lines: Seq<Seq<char>>, i: int, k: int)
    requires
        0 <= i <= k <= lines.len(),
        forall|j: int| i <= j < k ==> is_blank(#[trigger] lines[j]),
        k < lines.len() ==> !is_blank(lines[k]),
    ensures
        k == lines.len() ==> first_line_from(lines, i).len() == 0,
        k == lines.len() - 1 ==> first_line_from(lines, i) == lines[k],
        k < lines.len() - 1 && lines[k].last() != '\r' ==> first_line_from(lines, i) == lines[k],
        k < lines.len() - 1 && lines[k].last() == '\r' ==> first_line_from(lines, i).push('\r') == lines[k],
    decreases k - i,
{
    if i < k {
        assert(is_blank(lines[i]));
        first_line_is_the_first_that_says_something(lines, i + 1, k);
    } else if k < lines.len() {
        assert(lines[k].len() > 0);
        assert(lines[k].drop_last().push(lines[k].last()) =~= lines[k]);
    }
}

/// An envelope passes exactly where the answer is a success, its first line has a result with a header in it,
/// and the result's id, as a word or as a number, is the lease's.
pub proof fn envelope_passes_where_the_result_is_the_leases(
    status: int,
    lease: int,
    body: Seq<char>,
    line: Seq<char>,
    result: Option<Seq<char>>,
    word: Option<Seq<char>>,
    id: Option<Seq<char>>,
    header: Option<Seq<char>>,
)
    ensures
        all_hold(envelope_verdict(status, lease, body, line, result, word, id, header).rulings) <==> {
            &&& status == 200
            &&& result is Some
            &&& header is Some
            &&& (word == Some(int_text(lease)) || (word is None && (id == Some(int_text(lease)) || (id is None
                && int_text(lease).len() == 0))))
        },
        envelope_verdict(status, lease, body, line, result, word, id, header).blocks == seq![
            ("the body as it arrived"@, body),
        ],
{
    let r = envelope_verdict(status, lease, body, line, result, word, id, header).rulings;
    assert(r.len() == 4);
    if all_hold(r) {
        assert(r[0].holds() && r[1].holds() && r[2].holds() && r[3].holds());
    }
    if int_text(lease).len() == 0 {
        assert(int_text(lease) =~= Seq::<char>::empty());
    }
}

/// The worked examples of this stage.
pub open spec fn examples_described() -> Seq<Described> {
    seq![
        node_described(FIRST_TEXTS, seq![grant_request("4343"@)], keepalive_request("4343"@)),
        node_described(SECOND_TEXTS, Seq::empty(), keepalive_request("999999"@)),
    ]
}

/// The worked examples of this stage.
pub fn examples() -> (examples: Vec<ExampleSpec>)
    ensures
        described(examples@) == examples_described(),
{
    let mut setup: Vec<Call> = Vec::new();
    put_request_call(&mut setup, grant_call("4343"));
    assert(requests(setup@) =~= seq![grant_request("4343"@)]);
    two(
        node_example_after(FIRST_TEXTS, setup, keepalive_call("4343")),
        node_example(SECOND_TEXTS, keepalive_call("999999")),
    )
}

/// What the rows say of this stage's place in the suite.
proof fn lemma_in_place()
    ensures
        rows_written(TESTS@),
{
    assert(rows_written(TESTS@)) by {
        reveal_strlit("placeholder");
        reveal_strlit("a keepalive answers the id it was asked about");
        assert(TESTS@[0].0@.len() == 45);
        reveal_strlit("a keepalive message is wrapped in a result");
        assert(TESTS@[1].0@.len() == 42);
        reveal_strlit("keeping a lease alive keeps its key past the original ttl");
        assert(TESTS@[2].0@.len() == 57);
        reveal_strlit("the key goes once the keepalives stop");
        assert(TESTS@[3].0@.len() == 37);
        reveal_strlit("a keepalive for a lease that was never granted answers a ttl of zero");
        assert(TESTS@[4].0@.len() == 68);
        reveal_strlit("a keepalive for a revoked lease answers a ttl of zero");
        assert(TESTS@[5].0@.len() == 53);
        reveal_strlit("a keepalive does not move the store revision");
        assert(TESTS@[6].0@.len() == 44);
        reveal_strlit("keeping one lease alive does nothing for another");
        assert(TESTS@[7].0@.len() == 48);
        assert forall|i: int| 0 <= i < 8 implies (#[trigger] TESTS@[i]).0@ != "placeholder"@ by {
            assert(i == 0 || i == 1 || i == 2 || i == 3 || i == 4 || i == 5 || i == 6 || i == 7);
        }
    }
}

/// What stage 32 holds.
pub open spec fn is_stage(s: Stage) -> bool {
    &&& s.number == 32
    &&& s.slug == "lease_keepalive"
    &&& s.name == "Lease keepalive and TTL"
    &&& s.ext == true
    &&& s.ladder == Ladder::Node
    &&& s.hints == HINTS
    &&& s.tests@ == tests_of(TESTS@)
    &&& described(s.examples@) == examples_described()
}

/// Stage 32.
pub fn stage() -> (s: Stage)
    ensures
        is_stage(s),
        s.in_place(),
{
    let s = Stage {
        number: 32,
        slug: "lease_keepalive",
        name: "Lease keepalive and TTL",
        ext: true,
        ladder: Ladder::Node,
        hints: HINTS,
        examples: examples(),
        tests: tests(TESTS),
    };
    proof {
        reveal(Stage::in_place);
        lemma_in_place();
    }
    s
}

} // verus!
