//! Stage 24: Ranges, prefixes and the whole store.
//!
//! One key becomes many where `range_end` appears. The interval is half-open, so a prefix ends at the
//! prefix with its last byte incremented; and keys are byte strings, ordered by unsigned byte value.
use vstd::prelude::*;
use crate::claims::Claims;
use crate::check::byte_lists;
use crate::etcd::{coded, key_le, under};
use crate::examples::{
    described, node_described, node_example_after, over_prefix_request, put_call, put_request,
    put_request_call, requests, two, Call, Described, ExampleSpec, Request, TextRow,
};
use crate::stages::{rows_written, tests, tests_of, Ladder, Stage, TestRow};

verus! {

/// Last bytes of keys in the order they come back in: capitals before small letters, and 0x80 after
/// 0x7f.
pub const SUFFIXES: [u8; 6] = [0x41, 0x42, 0x61, 0x62, 0x7f, 0x80];

/// The keys under `base` with each of those last bytes, in the order they must come back in.
pub fn awkward_keys(base: &[u8]) -> (keys: Vec<Vec<u8>>)
    ensures
        byte_lists(keys@) == SUFFIXES@.map_values(|b: u8| base@.push(b)),
{
    let suffixes = SUFFIXES;
    let ghost all = SUFFIXES@.map_values(|b: u8| base@.push(b));
    let mut keys: Vec<Vec<u8>> = Vec::new();
    let mut i: usize = 0;
    assert(byte_lists(keys@) =~= all.take(0));
    while i < 6
        invariant
            i <= 6,
            suffixes@ == SUFFIXES@,
            all == SUFFIXES@.map_values(|b: u8| base@.push(b)),
            byte_lists(keys@) == all.take(i as int),
        decreases 6 - i,
    {
        let ghost before = byte_lists(keys@);
        let last = [suffixes[i]];
        let key = under(base, &last);
        assert(key@ =~= base@.push(suffixes@[i as int]));
        keys.push(key);
        assert(byte_lists(keys@) =~= before.push(key@));
        assert(byte_lists(keys@) =~= all.take(i + 1));
        i += 1;
    }
    assert(all.take(6) =~= all);
    keys
}

/// Of two keys that differ in their last byte only, the one whose byte is smaller as an unsigned number
/// comes first.
pub proof fn last_byte_decides(base: Seq<u8>, a: u8, b: u8)
    ensures
        key_le(base.push(a), base.push(b)) <==> a <= b,
    decreases base.len(),
{
    let x = base.push(a);
    let y = base.push(b);
    if base.len() > 0 {
        assert(x.drop_first() =~= base.drop_first().push(a));
        assert(y.drop_first() =~= base.drop_first().push(b));
        last_byte_decides(base.drop_first(), a, b);
    } else {
        assert(x.drop_first().len() == 0);
        assert(key_le(x.drop_first(), y.drop_first()));
    }
}

/// The awkward keys are listed in the order of their bytes.
pub proof fn awkward_keys_are_in_order(base: Seq<u8>, i: int, j: int)
    requires
        0 <= i <= j < 6,
    ensures
        key_le(base.push(SUFFIXES@[i]), base.push(SUFFIXES@[j])),
{
    last_byte_decides(base, SUFFIXES@[i], SUFFIXES@[j]);
}

/// Range_end is excluded, because the range is half-open.
pub const RANGE_END_IS_EXCLUDED: Claims<2> = (
    "a half-open range",
    [
        ("", "=", "keys", "[{ns}r/a\n{ns}r/b", "range.kvs.keys()"),
        ("", "=", "count", "2", "range.count"),
    ],
);

/// A prefix range takes everything under the prefix.
pub const A_PREFIX_RANGE: Claims<3> = (
    "a prefix range",
    [
        ("", "=", "keys", "[{ns}p/a\n{ns}p/b\n{ns}p/b/deeper", "range.kvs.keys()"),
        ("", "=", "count", "3", "range.count"),
        ("", "note", "", "", "the prefix was {prefix} and its end key {end}"),
    ],
);

/// A prefix range stops at the prefix boundary.
pub const A_PREFIX_STOPS_AT_ITS_BOUNDARY: Claims<3> = (
    "the boundary of a prefix range",
    [
        ("", "=", "keys", "[{ns}b/a", "range.kvs.keys()"),
        ("", "=", "count", "1", "range.count"),
        ("", "note", "", "", "the end key {end} was written and must be excluded"),
    ],
);

/// A zero byte at both ends is every key in the store.
pub const THE_WHOLE_STORE: Claims<2> = (
    "a range over the whole store",
    [
        ("", "=", "keys", "[{ns}a\n{ns}m/deep/er\n{ns}z", "range.kvs.keys()"),
        ("", "=", "count", "3", "range.count"),
    ],
);

/// Keys come back in byte order, not string order.
pub const BYTE_ORDER_NOT_STRING_ORDER: Claims<2> = (
    "the order keys come back in",
    [
        ("", "? keys = sorted", "keys", "the keys sorted by unsigned byte value", "range.kvs.keys()"),
        ("", "=", "count", "6", "range.count"),
    ],
);

/// A range that covers no key answers nothing.
pub const AN_EMPTY_RANGE: Claims<4> = (
    "a range that covers no key",
    [
        ("", "=", "len", "0", "range.kvs.len()"),
        ("", "=", "count", "0", "range.count"),
        ("", "? !more", "more", "false, because nothing was cut short", "range.more"),
        ("", ">=", "revision", "1", "range.header.revision"),
    ],
);

/// A range whose end sorts before its start is empty, not an error.
pub const END_BEFORE_START: Claims<3> = (
    "a range whose end sorts before its start",
    [
        ("", "=", "len", "0", "range.kvs.len()"),
        ("", "=", "count", "0", "range.count"),
        ("", ">=", "revision", "1", "range.header.revision"),
    ],
);

/// Keys written in a scrambled order still come back sorted.
pub const SCRAMBLED_WRITES_SORT: Claims<2> = (
    "keys written out of order",
    [
        (
            "",
            "=",
            "keys",
            "[{ns}s/00\n{ns}s/01\n{ns}s/02\n{ns}s/03\n{ns}s/04\n{ns}s/05\n{ns}s/06\n{ns}s/07\n{ns}s/08\n{ns}s/09",
            "range.kvs.keys()",
        ),
        ("", "=", "count", "10", "range.count"),
    ],
);

/// What somebody stuck on this stage is told, one after the other.
pub const HINTS: [&'static str; 4] = [
    "range_end makes the request a half-open range [key, range_end)",
    "A prefix range ends at the key with its last byte incremented",
    "key and range_end both \0 means every key in the store",
    "Results come back in key order, which is byte order, not string order",
];

/// The tests of this stage.
pub const TESTS: [TestRow; 8] = [
    (
        "range_end is excluded, because the range is half-open",
        "range_end_is_excluded",
        false,
        false,
        0,
        0,
        "",
    ),
    ("a prefix range takes everything under the prefix", "a_prefix_range", false, false, 0, 0, ""),
    (
        "a prefix range stops at the prefix boundary",
        "a_prefix_stops_at_its_boundary",
        false,
        false,
        0,
        0,
        "",
    ),
    (
        "a zero byte at both ends is every key in the store",
        "the_whole_store",
        false,
        false,
        0,
        0,
        "",
    ),
    (
        "keys come back in byte order, not string order",
        "byte_order_not_string_order",
        false,
        false,
        0,
        0,
        "",
    ),
    ("a range that covers no key answers nothing", "an_empty_range", false, false, 0, 0, ""),
    (
        "a range whose end sorts before its start is empty, not an error",
        "end_before_start",
        false,
        false,
        0,
        0,
        "",
    ),
    (
        "keys written in a scrambled order still come back sorted",
        "scrambled_writes_sort",
        false,
        false,
        0,
        0,
        "",
    ),
];

/// The texts of the first example.
pub const FIRST_TEXTS: TextRow = (
    "A prefix range",
    "everything under the prefix `k/`, whose end key is `k0`",
    "the pairs in byte order, with a count of how many the range holds",
    "`k0` is `k/` with its last byte incremented, and the range excludes it. Ending the range at \
     `k/\u{ff}` instead looks equivalent and is not: a key of `k/` followed by two 0xff bytes \
     sorts after it and would be missed.",
);

/// The texts of the second example.
pub const SECOND_TEXTS: TextRow = (
    "The range that ends before it starts",
    "a range from `z` to `a`, which covers nothing",
    "a header and nothing else, at HTTP 200",
    "An interval that is empty because its end sorts before its start is still a well-formed \
     question, and the answer is simply that no key is in it. Refusing it with an error is the \
     mistake.",
);

/// The worked examples of this stage.
pub open spec fn examples_described() -> Seq<Described> {
    seq![
        node_described(
            FIRST_TEXTS,
            seq![
                put_request("k/a"@, "1"@),
                put_request("k/b"@, "2"@),
                put_request("k/c"@, "3"@),
            ],
            over_prefix_request("k/"@),
        ),
        node_described(
            SECOND_TEXTS,
            seq![put_request("k/a"@, "1"@)],
            Request {
                path: "/v3/kv/range"@,
                body: seq![("key"@, coded("z"@)), ("range_end"@, coded("a"@))],
            },
        ),
    ]
}

/// The worked examples of this stage.
pub fn examples() -> (examples: Vec<ExampleSpec>)
    ensures
        described(examples@) == examples_described(),
{
    let mut three: Vec<Call> = Vec::new();
    put_request_call(&mut three, put_call("k/a", "1"));
    put_request_call(&mut three, put_call("k/b", "2"));
    put_request_call(&mut three, put_call("k/c", "3"));
    assert(requests(three@) =~= examples_described()[0].scene->setup);
    let whole = Call::new("/v3/kv/range").over_prefix("k/");
    assert(whole@.body =~= over_prefix_request("k/"@).body);
    let mut single: Vec<Call> = Vec::new();
    put_request_call(&mut single, put_call("k/a", "1"));
    assert(requests(single@) =~= examples_described()[1].scene->setup);
    let backward = Call::new("/v3/kv/range").coded("key", "z").coded("range_end", "a");
    assert(backward@.body =~= examples_described()[1].scene->Node_request.body);
    two(
        node_example_after(FIRST_TEXTS, three, whole),
        node_example_after(SECOND_TEXTS, single, backward),
    )
}

/// What the rows say of this stage's place in the suite.
proof fn lemma_in_place()
    ensures
        rows_written(TESTS@),
{
    assert(rows_written(TESTS@)) by {
        reveal_strlit("placeholder");
        reveal_strlit("range_end is excluded, because the range is half-open");
        assert(TESTS@[0].0@.len() == 53);
        reveal_strlit("a prefix range takes everything under the prefix");
        assert(TESTS@[1].0@.len() == 48);
        reveal_strlit("a prefix range stops at the prefix boundary");
        assert(TESTS@[2].0@.len() == 43);
        reveal_strlit("a zero byte at both ends is every key in the store");
        assert(TESTS@[3].0@.len() == 50);
        reveal_strlit("keys come back in byte order, not string order");
        assert(TESTS@[4].0@.len() == 46);
        reveal_strlit("a range that covers no key answers nothing");
        assert(TESTS@[5].0@.len() == 42);
        reveal_strlit("a range whose end sorts before its start is empty, not an error");
        assert(TESTS@[6].0@.len() == 63);
        reveal_strlit("keys written in a scrambled order still come back sorted");
        assert(TESTS@[7].0@.len() == 56);
        assert forall|i: int| 0 <= i < 8 implies (#[trigger] TESTS@[i]).0@ != "placeholder"@ by {
            assert(i == 0 || i == 1 || i == 2 || i == 3 || i == 4 || i == 5 || i == 6 || i == 7);
        }
    }
}

/// What stage 24 holds.
pub open spec fn is_stage(s: Stage) -> bool {
    &&& s.number == 24
    &&& s.slug == "range_over_ranges"
    &&& s.name == "Ranges, prefixes and the whole store"
    &&& s.ext == false
    &&& s.ladder == Ladder::Node
    &&& s.hints == HINTS
    &&& s.tests@ == tests_of(TESTS@)
    &&& described(s.examples@) == examples_described()
}

/// Stage 24.
pub fn stage() -> (s: Stage)
    ensures
        is_stage(s),
        s.in_place(),
{
    let s = Stage {
        number: 24,
        slug: "range_over_ranges",
        name: "Ranges, prefixes and the whole store",
        ext: false,
        ladder: Ladder::Node,
        hints: HINTS,
        examples: examples(),
        tests: tests(TESTS),
    };
    proof {
        reveal(Stage::in_place);
        lemma_in_place();
    }
    s
}

} // verus!
