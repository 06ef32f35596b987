//! Stage 25: limit, sort order, count_only and keys_only.
//!
//! The options a range carries beyond its interval: `limit` cuts the answer and never the count, sorting
//! comes before the cut, `count_only` sends no pairs and `keys_only` sends them without their values.
use vstd::prelude::*;
use crate::claims::Claims;
use crate::check::byte_lists;
use crate::etcd::under;
use crate::examples::{
    described, node_described, node_example_after, over_prefix_request, put_call, put_request,
    put_request_call, requests, two, Call, Described, ExampleSpec, Request, TextRow,
};
use crate::stages::{rows_written, tests, tests_of, Ladder, Stage, TestRow};
use crate::text::{nat_text, push_nat};

verus! {

/// The four keys both examples read back.
pub open spec fn four_puts() -> Seq<Request> {
    Seq::new(4, |i: int| put_request("n/"@ + nat_text(i as nat), "v"@ + nat_text(i as nat)))
}

/// The four keys both examples read back.
pub fn four_keys() -> (calls: Vec<Call>)
    ensures
        requests(calls@) == four_puts(),
{
    let mut calls: Vec<Call> = Vec::new();
    let mut i: usize = 0;
    assert(requests(calls@) =~= four_puts().take(0));
    while i < 4
        invariant
            i <= 4,
            requests(calls@) == four_puts().take(i as int),
        decreases 4 - i,
    {
        let mut key = String::from_str("n/");
        push_nat(&mut key, i as u64);
        let mut value = String::from_str("v");
        push_nat(&mut value, i as u64);
        put_request_call(&mut calls, put_call(key.as_str(), value.as_str()));
        assert(requests(calls@) =~= four_puts().take(i + 1));
        i += 1;
    }
    assert(requests(calls@) =~= four_puts());
    calls
}

/// The key of the series under `base` that is numbered `i` in two digits.
pub open spec fn series_key(base: Seq<u8>, i: int) -> Seq<u8> {
    base + seq![47u8, 48u8, (48 + i) as u8]
}

/// The prefix that covers the five keys every test of this stage reads back, and the keys.
pub fn five_keys(base: &[u8]) -> (r: (Vec<u8>, Vec<Vec<u8>>))
    ensures
        r.0@ == base@.push(47u8),
        byte_lists(r.1@) == Seq::new(5, |i: int| series_key(base@, i)),
{
    let ghost all = Seq::new(5, |i: int| series_key(base@, i));
    let slash: [u8; 1] = [47];
    let prefix = under(base, &slash);
    assert(prefix@ =~= base@.push(47u8));
    let mut keys: Vec<Vec<u8>> = Vec::new();
    let mut i: u8 = 0;
    assert(byte_lists(keys@) =~= all.take(0));
    while i < 5
        invariant
            i <= 5,
            all == Seq::new(5, |i: int| series_key(base@, i)),
            byte_lists(keys@) == all.take(i as int),
        decreases 5 - i,
    {
        let ghost before = byte_lists(keys@);
        let last: [u8; 3] = [47, 48, 48 + i];
        let key = under(base, &last);
        assert(key@ =~= series_key(base@, i as int));
        keys.push(key);
        assert(byte_lists(keys@) =~= before.push(key@));
        assert(byte_lists(keys@) =~= all.take(i + 1));
        i += 1;
    }
    assert(all.take(5) =~= all);
    (prefix, keys)
}

/// A limit cuts the answer but never the count.
pub const LIMIT_CUTS_THE_ANSWER: Claims<4> = (
    "a limit smaller than the range",
    [
        ("", "=", "len", "2", "range.kvs.len()"),
        ("", "=", "keys", "[{ns}n/00\n{ns}n/01", "range.kvs.keys()"),
        ("", "? more", "more", "true, because two of five were sent", "range.more"),
        ("", "=", "count", "5", "range.count"),
    ],
);

/// A limit as large as the range leaves more false.
pub const LIMIT_THAT_DOES_NOT_BITE: Claims<5> = (
    "a limit at or above the size of the range",
    [
        ("", "=", "exact.len", "5", "range(limit 5).kvs.len()"),
        (
            "",
            "? !exact.more",
            "exact.more",
            "false, because nothing was left out",
            "range(limit 5).more",
        ),
        ("", "=", "generous.len", "5", "range(limit 50).kvs.len()"),
        (
            "",
            "? !generous.more",
            "generous.more",
            "false, because nothing was left out",
            "range(limit 50).more",
        ),
        (
            "",
            "=",
            "generous.keys",
            "[{ns}n/00\n{ns}n/01\n{ns}n/02\n{ns}n/03\n{ns}n/04",
            "range(limit 50).kvs.keys()",
        ),
    ],
);

/// A descending sort by key reverses the answer.
pub const DESCENDING_BY_KEY: Claims<2> = (
    "a descending sort by key",
    [
        ("", "=", "keys", "[{ns}n/04\n{ns}n/03\n{ns}n/02\n{ns}n/01\n{ns}n/00", "range.kvs.keys()"),
        ("", "=", "count", "5", "range.count"),
    ],
);

/// Sorting by mod revision follows the writes.
pub const SORT_BY_MOD: Claims<2> = (
    "a sort by mod revision",
    [
        (
            "",
            "=",
            "ascending.keys",
            "[{ns}m/c\n{ns}m/a\n{ns}m/e\n{ns}m/b\n{ns}m/d",
            "range(ASCEND MOD).kvs.keys()",
        ),
        (
            "",
            "=",
            "descending.keys",
            "[{ns}m/d\n{ns}m/b\n{ns}m/e\n{ns}m/a\n{ns}m/c",
            "range(DESCEND MOD).kvs.keys()",
        ),
    ],
);

/// Sorting by create revision follows the creations.
pub const SORT_BY_CREATE: Claims<2> = (
    "a sort by create revision",
    [
        (
            "",
            "=",
            "keys",
            "[{ns}c/d\n{ns}c/b\n{ns}c/e\n{ns}c/a\n{ns}c/c",
            "range(ASCEND CREATE).kvs.keys()",
        ),
        ("", "=", "count", "5", "range.count"),
    ],
);

/// Count_only answers a count and no pairs at all.
pub const COUNT_ONLY: Claims<2> = (
    "count_only",
    [
        ("", "=", "count", "5", "range.count"),
        ("", "=", "len", "0", "range.kvs.len()"),
    ],
);

/// Keys_only answers keys with their values left out.
pub const KEYS_ONLY: Claims<5> = (
    "keys_only",
    [
        ("", "=", "len", "5", "range.kvs.len()"),
        ("", "=", "keys", "[{ns}n/00\n{ns}n/01\n{ns}n/02\n{ns}n/03\n{ns}n/04", "range.kvs.keys()"),
        ("", "=", "count", "5", "range.count"),
        ("", "=", "value_bytes", "0", "total bytes of value across the answer"),
        (
            "",
            "? positive mod_revisions",
            "mod_revisions",
            "a real revision on every pair, because only the value was dropped",
            "range.kvs[*].mod_revision",
        ),
    ],
);

/// A limit with a descending sort takes the last keys.
pub const LIMIT_WITH_A_DESCENDING_SORT: Claims<3> = (
    "a limit applied after a descending sort",
    [
        ("", "=", "keys", "[{ns}n/04\n{ns}n/03", "range.kvs.keys()"),
        ("", "? more", "more", "true, because three keys were left out", "range.more"),
        ("", "=", "count", "5", "range.count"),
    ],
);

/// The options are harmless over a range that holds nothing.
pub const OPTIONS_ON_AN_EMPTY_RANGE: Claims<6> = (
    "the options over a range that holds nothing",
    [
        ("", "=", "limited.len", "0", "range(limit, sort).kvs.len()"),
        ("", "=", "limited.count", "0", "range(limit, sort).count"),
        (
            "",
            "? !limited.more",
            "limited.more",
            "false, because nothing was cut short",
            "range(limit, sort).more",
        ),
        ("", "=", "counted.count", "0", "range(count_only).count"),
        ("", "=", "counted.len", "0", "range(count_only).kvs.len()"),
        ("", "=", "bare.len", "0", "range(keys_only).kvs.len()"),
    ],
);

/// What somebody stuck on this stage is told, one after the other.
pub const HINTS: [&'static str; 4] = [
    "limit cuts the answer and sets more, but never changes count",
    "sort_order and sort_target together decide the order; the default is ascending by key",
    "count_only answers the count and no kvs at all",
    "keys_only answers the kvs with their values left out, not with empty values invented",
];

/// The tests of this stage.
pub const TESTS: [TestRow; 9] = [
    (
        "a limit cuts the answer but never the count",
        "limit_cuts_the_answer",
        true,
        false,
        0,
        0,
        "",
    ),
    (
        "a limit as large as the range leaves more false",
        "limit_that_does_not_bite",
        true,
        false,
        0,
        0,
        "",
    ),
    ("a descending sort by key reverses the answer", "descending_by_key", true, false, 0, 0, ""),
    ("sorting by mod revision follows the writes", "sort_by_mod", true, false, 0, 0, ""),
    ("sorting by create revision follows the creations", "sort_by_create", true, false, 0, 0, ""),
    ("count_only answers a count and no pairs at all", "count_only", true, false, 0, 0, ""),
    ("keys_only answers keys with their values left out", "keys_only", true, false, 0, 0, ""),
    (
        "a limit with a descending sort takes the last keys",
        "limit_with_a_descending_sort",
        true,
        false,
        0,
        0,
        "",
    ),
    (
        "the options are harmless over a range that holds nothing",
        "options_on_an_empty_range",
        true,
        false,
        0,
        0,
        "",
    ),
];

/// The texts of the first example.
pub const FIRST_TEXTS: TextRow = (
    "A limit, and the count it does not change",
    "the four keys under `n/`, but at most two of them",
    "two pairs, `more` true, and a count that still says four",
    "count answers the question that was asked — how many keys are in this range — and limit \
     only says how many of them to send. A server that reports the truncated length as the \
     count makes paging impossible.",
);

/// The texts of the second example.
pub const SECOND_TEXTS: TextRow = (
    "The last two keys, by sorting before truncating",
    "at most two keys under `n/`, largest first",
    "`n/3` and `n/2`, in that order, with `more` still true",
    "The sort happens first and the limit second. Truncating to the first two keys and then \
     reversing them would answer `n/1` and `n/0`, which is a different pair of keys, not a \
     different order.",
);

/// The worked examples of this stage.
pub open spec fn examples_described() -> Seq<Described> {
    seq![
        node_described(
            FIRST_TEXTS,
            four_puts(),
            Request {
                path: "/v3/kv/range"@,
                body: over_prefix_request("n/"@).body.push(("limit"@, "2"@)),
            },
        ),
        node_described(
            SECOND_TEXTS,
            four_puts(),
            Request {
                path: "/v3/kv/range"@,
                body: over_prefix_request("n/"@).body.push(("limit"@, "2"@)).push(
                    ("sort_order"@, "DESCEND"@),
                ).push(("sort_target"@, "KEY"@)),
            },
        ),
    ]
}

/// The worked examples of this stage.
pub fn examples() -> (examples: Vec<ExampleSpec>)
    ensures
        described(examples@) == examples_described(),
{
    let first = Call::new("/v3/kv/range").over_prefix("n/").plain("limit", "2");
    assert(first@.body =~= over_prefix_request("n/"@).body.push(("limit"@, "2"@)));
    let second = Call::new("/v3/kv/range").over_prefix("n/").plain("limit", "2").plain(
        "sort_order",
        "DESCEND",
    ).plain("sort_target", "KEY");
    assert(second@.body =~= examples_described()[1].scene->Node_request.body);
    two(
        node_example_after(FIRST_TEXTS, four_keys(), first),
        node_example_after(SECOND_TEXTS, four_keys(), second),
    )
}

/// What the rows say of this stage's place in the suite.
proof fn lemma_in_place()
    ensures
        rows_written(TESTS@),
{
    assert(rows_written(TESTS@)) by {
        reveal_strlit("placeholder");
        reveal_strlit("a limit cuts the answer but never the count");
        assert(TESTS@[0].0@.len() == 43);
        reveal_strlit("a limit as large as the range leaves more false");
        assert(TESTS@[1].0@.len() == 47);
        reveal_strlit("a descending sort by key reverses the answer");
        assert(TESTS@[2].0@.len() == 44);
        reveal_strlit("sorting by mod revision follows the writes");
        assert(TESTS@[3].0@.len() == 42);
        reveal_strlit("sorting by create revision follows the creations");
        assert(TESTS@[4].0@.len() == 48);
        reveal_strlit("count_only answers a count and no pairs at all");
        assert(TESTS@[5].0@.len() == 46);
        reveal_strlit("keys_only answers keys with their values left out");
        assert(TESTS@[6].0@.len() == 49);
        reveal_strlit("a limit with a descending sort takes the last keys");
        assert(TESTS@[7].0@.len() == 50);
        reveal_strlit("the options are harmless over a range that holds nothing");
        assert(TESTS@[8].0@.len() == 56);
        assert forall|i: int| 0 <= i < 9 implies (#[trigger] TESTS@[i]).0@ != "placeholder"@ by {
            assert(i == 0 || i == 1 || i == 2 || i == 3 || i == 4 || i == 5 || i == 6 || i == 7 || i == 8);
        }
    }
}

/// What stage 25 holds.
pub open spec fn is_stage(s: Stage) -> bool {
    &&& s.number == 25
    &&& s.slug == "range_options"
    &&& s.name == "limit, sort order, count_only and keys_only"
    &&& s.ext == true
    &&& s.ladder == Ladder::Node
    &&& s.hints == HINTS
    &&& s.tests@ == tests_of(TESTS@)
    &&& described(s.examples@) == examples_described()
}

/// Stage 25.
pub fn stage() -> (s: Stage)
    ensures
        is_stage(s),
        s.in_place(),
{
    let s = Stage {
        number: 25,
        slug: "range_options",
        name: "limit, sort order, count_only and keys_only",
        ext: true,
        ladder: Ladder::Node,
        hints: HINTS,
        examples: examples(),
        tests: tests(TESTS),
    };
    proof {
        reveal(Stage::in_place);
        lemma_in_place();
    }
    s
}

} // verus!
