//! The store's wire: how keys are coded, how they are ordered, and how a prefix becomes a range.
use vstd::prelude::*;
use crate::check::{is_fact, Check, Fact, Truth, Verdict};

verus! {

/// The code of an error about something that is not there.
pub const CODE_NOT_FOUND: i64 = 5;

/// The code of an error about a revision that cannot be read.
pub const CODE_OUT_OF_RANGE: i64 = 11;

/// The code of an error, where it has one.
pub open spec fn code_truth(code: Option<i64>) -> Truth {
    match code {
        Some(n) => Truth::Int(n as int),
        None => Truth::Null,
    }
}

/// Holds the code of the error that something was refused with against the one it has to carry.
pub fn judge_code(what: &str, want: i64, got: Option<i64>) -> (c: Check)
    ensures
        c@ == Verdict::plain(
            what@,
            seq![is_fact("error.code"@, Truth::Int(want as int), code_truth(got))],
            Seq::empty(),
        ),
        crate::check::all_hold(c@.rulings) <==> got == Some(want),
{
    let mut c = Check::new(what);
    let got_fact = match got {
        Some(n) => Fact::Int(n as i128),
        None => Fact::Null,
    };
    c.eq("error.code", Fact::Int(want as i128), got_fact);
    assert(c@.rulings =~= seq![is_fact("error.code"@, Truth::Int(want as int), code_truth(got))]);
    assert(c@.rulings[0].holds() <==> got == Some(want));
    c
}

/// The base64 digit of a number below sixty-four.
pub open spec fn b64_digit(v: int) -> char {
    if v < 26 {
        (65 + v) as char
    } else if v < 52 {
        (71 + v) as char
    } else if v < 62 {
        (v - 4) as char
    } else if v == 62 {
        '+'
    } else {
        '/'
    }
}

/// Bytes in base64: four digits for every three bytes, padded with equals signs at the end.
pub open spec fn b64_text(s: Seq<u8>) -> Seq<char>
    decreases s.len(),
{
    if s.len() == 0 {
        Seq::empty()
    } else if s.len() == 1 {
        seq![b64_digit(s[0] as int / 4), b64_digit((s[0] as int % 4) * 16), '=', '=']
    } else if s.len() == 2 {
        seq![
            b64_digit(s[0] as int / 4),
            b64_digit((s[0] as int % 4) * 16 + s[1] as int / 16),
            b64_digit((s[1] as int % 16) * 4),
            '=',
        ]
    } else {
        seq![
            b64_digit(s[0] as int / 4),
            b64_digit((s[0] as int % 4) * 16 + s[1] as int / 16),
            b64_digit((s[1] as int % 16) * 4 + s[2] as int / 64),
            b64_digit(s[2] as int % 64),
        ] + b64_text(s.skip(3))
    }
}

fn digit(v: u8) -> (c: char)
    requires
        v < 64,
    ensures
        c == b64_digit(v as int),
{
    if v < 26 {
        (65 + v) as char
    } else if v < 52 {
        (71 + v) as char
    } else if v < 62 {
        (v - 4) as char
    } else if v == 62 {
        '+'
    } else {
        '/'
    }
}

/// Bytes in base64.
pub fn b64(bytes: &[u8]) -> (out: String)
    ensures
        out@ == b64_text(bytes@),
{
    let mut out = String::new();
    let mut i: usize = 0;
    let n: usize = bytes.len();
    assert(bytes@.skip(0) =~= bytes@);
    assert(out@ + b64_text(bytes@.skip(0)) =~= b64_text(bytes@));
    while n - i >= 3
        invariant
            n == bytes@.len(),
            i <= n,
            out@ + b64_text(bytes@.skip(i as int)) == b64_text(bytes@),
        decreases n - i,
    {
        let ghost before = out@;
        let ghost rest = bytes@.skip(i as int);
        let (a, b, c): (u8, u8, u8) = (bytes[i], bytes[i + 1], bytes[i + 2]);
        assert(rest[0] == a && rest[1] == b && rest[2] == c);
        assert(rest.skip(3) =~= bytes@.skip(i + 3));
        out.push(digit(a / 4));
        out.push(digit((a % 4) * 16 + b / 16));
        out.push(digit((b % 16) * 4 + c / 64));
        out.push(digit(c % 64));
        assert(out@ + b64_text(bytes@.skip(i + 3)) =~= before + b64_text(rest));
        i += 3;
    }
    let ghost before = out@;
    let ghost rest = bytes@.skip(i as int);
    if n - i == 1 {
        let a: u8 = bytes[i];
        assert(rest[0] == a);
        out.push(digit(a / 4));
        out.push(digit((a % 4) * 16));
        out.push('=');
        out.push('=');
    } else if n - i == 2 {
        let (a, b): (u8, u8) = (bytes[i], bytes[i + 1]);
        assert(rest[0] == a && rest[1] == b);
        out.push(digit(a / 4));
        out.push(digit((a % 4) * 16 + b / 16));
        out.push(digit((b % 16) * 4));
        out.push('=');
    }
    assert(out@ =~= before + b64_text(rest));
    out
}

/// A text's bytes in base64.
pub open spec fn coded(s: Seq<char>) -> Seq<char> {
    b64_text(vstd::utf8::encode_utf8(s))
}

/// A text's bytes in base64.
pub fn b64_of(s: &str) -> (out: String)
    ensures
        out@ == coded(s@),
{
    b64(s.as_bytes())
}

/// The key that begins with `base` and goes on with `rest`.
pub fn under(base: &[u8], rest: &[u8]) -> (key: Vec<u8>)
    ensures
        key@ == base@ + rest@,
{
    let mut key: Vec<u8> = Vec::new();
    let mut i: usize = 0;
    while i < base.len()
        invariant
            i <= base@.len(),
            key@ == base@.take(i as int),
        decreases base@.len() - i,
    {
        key.push(base[i]);
        assert(key@ =~= base@.take(i + 1));
        i += 1;
    }
    let mut k: usize = 0;
    assert(key@ =~= base@ + rest@.take(0));
    while k < rest.len()
        invariant
            k <= rest@.len(),
            key@ == base@ + rest@.take(k as int),
        decreases rest@.len() - k,
    {
        key.push(rest[k]);
        assert(key@ =~= base@ + rest@.take(k + 1));
        k += 1;
    }
    assert(rest@.take(k as int) =~= rest@);
    key
}

/// The order of keys: by their first differing byte, unsigned, a prefix before what it begins.
pub open spec fn key_le(a: Seq<u8>, b: Seq<u8>) -> bool
    decreases a.len(),
{
    if a.len() == 0 {
        true
    } else if b.len() == 0 {
        false
    } else if a[0] != b[0] {
        a[0] < b[0]
    } else {
        key_le(a.drop_first(), b.drop_first())
    }
}

/// The key that ends the range of everything a prefix begins: the prefix with its last byte
/// incremented, bytes that cannot be incremented dropped first; a single zero byte, which stands for
/// no end at all, where none can.
pub open spec fn end_of_prefix(prefix: Seq<u8>) -> Seq<u8>
    decreases prefix.len(),
{
    if prefix.len() == 0 {
        seq![0u8]
    } else if prefix.last() < 255 {
        prefix.drop_last().push((prefix.last() + 1) as u8)
    } else {
        end_of_prefix(prefix.drop_last())
    }
}

/// The key that ends the range of everything a prefix begins.
pub fn prefix_end(prefix: &[u8]) -> (end: Vec<u8>)
    ensures
        end@ == end_of_prefix(prefix@),
{
    let mut n: usize = prefix.len();
    assert(prefix@.take(n as int) =~= prefix@);
    while n > 0
        invariant
            n <= prefix@.len(),
            end_of_prefix(prefix@) == end_of_prefix(prefix@.take(n as int)),
        decreases n,
    {
        let last: u8 = prefix[n - 1];
        let ghost kept = prefix@.take(n as int);
        assert(kept.drop_last() =~= prefix@.take(n - 1));
        if last < 255 {
            let mut end: Vec<u8> = Vec::new();
            let mut i: usize = 0;
            while i < n - 1
                invariant
                    n <= prefix@.len(),
                    i <= n - 1,
                    end@ == prefix@.take(i as int),
                decreases n - 1 - i,
            {
                end.push(prefix[i]);
                assert(end@ =~= prefix@.take(i + 1));
                i += 1;
            }
            end.push(last + 1);
            assert(end@ =~= end_of_prefix(kept));
            return end;
        }
        n -= 1;
    }
    let mut end: Vec<u8> = Vec::new();
    end.push(0);
    assert(end@ =~= seq![0u8]);
    end
}

/// A range holds a key: it is no smaller than the start and, unless the end is a single zero byte,
/// smaller than the end.
pub open spec fn covers(start: Seq<u8>, end: Seq<u8>, key: Seq<u8>) -> bool {
    key_le(start, key) && (end == seq![0u8] || !key_le(end, key))
}

/// Every byte is the largest there is.
spec fn topped(s: Seq<u8>) -> bool {
    forall|i: int| 0 <= i < s.len() ==> #[trigger] s[i] == 255
}

proof fn lemma_end_from_the_front(x: u8, rest: Seq<u8>)
    ensures
        end_of_prefix(seq![x] + rest) == if !topped(rest) {
            seq![x] + end_of_prefix(rest)
        } else if x < 255 {
            seq![(x + 1) as u8]
        } else {
            seq![0u8]
        },
        topped(rest) ==> end_of_prefix(rest) == seq![0u8],
    decreases rest.len(),
{
    let whole = seq![x] + rest;
    if rest.len() == 0 {
        assert(whole.drop_last() =~= Seq::<u8>::empty());
        assert(end_of_prefix(Seq::<u8>::empty()) =~= seq![0u8]);
        assert(end_of_prefix(whole) =~= if x < 255 {
            seq![(x + 1) as u8]
        } else {
            seq![0u8]
        });
    } else {
        let front = rest.drop_last();
        assert(whole.drop_last() =~= seq![x] + front);
        assert(whole.last() == rest.last());
        lemma_end_from_the_front(x, front);
        if rest.last() < 255 {
            assert(rest[rest.len() - 1] == rest.last());
            assert(!topped(rest));
            assert(end_of_prefix(whole) =~= seq![x] + end_of_prefix(rest));
        } else {
            if topped(front) {
                assert forall|i: int| 0 <= i < rest.len() implies #[trigger] rest[i] == 255 by {
                    if i < front.len() {
                        assert(front[i] == rest[i]);
                    }
                }
            } else {
                let i = choose|i: int| 0 <= i < front.len() && #[trigger] front[i] != 255;
                assert(rest[i] != 255);
            }
        }
    }
}

proof fn lemma_topped_begins(prefix: Seq<u8>, key: Seq<u8>)
    requires
        topped(prefix),
    ensures
        key_le(prefix, key) <==> prefix.is_prefix_of(key),
    decreases prefix.len(),
{
    if prefix.len() > 0 {
        assert(prefix[0] == 255);
        if key.len() > 0 {
            let p = prefix.drop_first();
            let k = key.drop_first();
            assert forall|i: int| 0 <= i < p.len() implies #[trigger] p[i] == 255 by {
                assert(prefix[i + 1] == 255);
            }
            lemma_topped_begins(p, k);
            lemma_prefix_from_the_front(prefix, key);
        }
    }
}

proof fn lemma_prefix_from_the_front(prefix: Seq<u8>, key: Seq<u8>)
    requires
        prefix.len() > 0,
        key.len() > 0,
    ensures
        prefix.is_prefix_of(key) <==> prefix[0] == key[0] && prefix.drop_first().is_prefix_of(
            key.drop_first(),
        ),
{
    let p = prefix.drop_first();
    let k = key.drop_first();
    if prefix.is_prefix_of(key) {
        assert(prefix[0] == key.subrange(0, prefix.len() as int)[0]);
        assert(p =~= k.subrange(0, p.len() as int)) by {
            assert forall|i: int| 0 <= i < p.len() implies p[i] == k.subrange(0, p.len() as int)[i] by {
                assert(prefix[i + 1] == key.subrange(0, prefix.len() as int)[i + 1]);
            }
        }
    }
    if prefix[0] == key[0] && p.is_prefix_of(k) {
        assert(prefix =~= key.subrange(0, prefix.len() as int)) by {
            assert forall|i: int| 0 <= i < prefix.len() implies prefix[i] == key.subrange(
                0,
                prefix.len() as int,
            )[i] by {
                if i > 0 {
                    assert(p[i - 1] == k.subrange(0, p.len() as int)[i - 1]);
                }
            }
        }
    }
}

/// A prefix range holds exactly the keys its prefix begins, whatever bytes they are made of.
pub proof fn prefix_range_is_exact(prefix: Seq<u8>, key: Seq<u8>)
    ensures
        covers(prefix, end_of_prefix(prefix), key) <==> prefix.is_prefix_of(key),
    decreases prefix.len(),
{
    if topped(prefix) {
        lemma_topped_begins(prefix, key);
        if prefix.len() > 0 {
            assert(prefix =~= seq![prefix[0]] + prefix.drop_first());
            assert forall|i: int| 0 <= i < prefix.len() - 1 implies #[trigger] prefix.drop_first()[i]
                == 255 by {
                assert(prefix[i + 1] == 255);
            }
            assert(prefix[0] == 255);
            lemma_end_from_the_front(prefix[0], prefix.drop_first());
            assert(end_of_prefix(prefix) == seq![0u8]);
        } else {
            assert(end_of_prefix(prefix) == seq![0u8]);
        }
    } else {
        let x = prefix[0];
        let rest = prefix.drop_first();
        assert(prefix =~= seq![x] + rest);
        lemma_end_from_the_front(x, rest);
        lemma_end_is_no_sentinel(prefix);
        let end = end_of_prefix(prefix);
        if key.len() > 0 {
            let k = key.drop_first();
            lemma_prefix_from_the_front(prefix, key);
            if topped(rest) {
                assert(x < 255) by {
                    if x == 255 {
                        assert forall|i: int| 0 <= i < prefix.len() implies #[trigger] prefix[i]
                            == 255 by {
                            if i > 0 {
                                assert(rest[i - 1] == 255);
                            }
                        }
                    }
                }
                assert(end =~= seq![(x + 1) as u8]);
                assert(end.drop_first() =~= Seq::<u8>::empty());
                assert(key_le(end.drop_first(), k));
                assert(key_le(end, key) <==> key[0] >= x + 1);
                lemma_topped_begins(rest, k);
                assert(key_le(prefix, key) <==> x < key[0] || (x == key[0] && key_le(rest, k)));
            } else {
                assert(end.drop_first() =~= end_of_prefix(rest));
                lemma_end_is_no_sentinel(rest);
                prefix_range_is_exact(rest, k);
                assert(end[0] == x);
            }
        } else {
            assert(!prefix.is_prefix_of(key));
        }
    }
}

proof fn lemma_end_is_no_sentinel(prefix: Seq<u8>)
    requires
        !topped(prefix),
    ensures
        end_of_prefix(prefix) != seq![0u8],
        end_of_prefix(prefix).len() > 0,
    decreases prefix.len(),
{
    if prefix.last() < 255 {
        assert(end_of_prefix(prefix).last() == prefix.last() + 1);
        assert(seq![0u8].last() == 0);
    } else {
        let front = prefix.drop_last();
        let i = choose|i: int| 0 <= i < prefix.len() && #[trigger] prefix[i] != 255;
        assert(front[i] != 255);
        lemma_end_is_no_sentinel(front);
    }
}

/// A range whose end sorts no later than its start holds nothing, unless its end stands for none.
pub proof fn backward_range_is_empty(start: Seq<u8>, end: Seq<u8>, key: Seq<u8>)
    requires
        key_le(end, start),
        end != seq![0u8],
    ensures
        !covers(start, end, key),
{
    if key_le(start, key) {
        lemma_key_le_transitive(end, start, key);
    }
}

proof fn lemma_key_le_transitive(a: Seq<u8>, b: Seq<u8>, c: Seq<u8>)
    requires
        key_le(a, b),
        key_le(b, c),
    ensures
        key_le(a, c),
    decreases a.len(),
{
    if a.len() > 0 && b.len() > 0 && c.len() > 0 && a[0] == b[0] && b[0] == c[0] {
        lemma_key_le_transitive(a.drop_first(), b.drop_first(), c.drop_first());
    }
}

/// The end of a range is excluded.
pub proof fn range_end_is_excluded(start: Seq<u8>, end: Seq<u8>)
    requires
        end != seq![0u8],
    ensures
        !covers(start, end, end),
{
    lemma_key_le_reflexive(end);
}

proof fn lemma_key_le_reflexive(a: Seq<u8>)
    ensures
        key_le(a, a),
    decreases a.len(),
{
    if a.len() > 0 {
        lemma_key_le_reflexive(a.drop_first());
    }
}

/// The sixty-four digits: capitals, small letters, decimal digits, a plus sign and a slash.
pub proof fn digits_are_the_standard_ones(v: int)
    ensures
        b64_digit(0) == 'A' && b64_digit(25) == 'Z',
        b64_digit(26) == 'a' && b64_digit(51) == 'z',
        b64_digit(52) == '0' && b64_digit(61) == '9',
        b64_digit(62) == '+' && b64_digit(63) == '/',
        0 <= v < 25 ==> b64_digit(v + 1) as int == b64_digit(v) as int + 1,
        26 <= v < 51 ==> b64_digit(v + 1) as int == b64_digit(v) as int + 1,
        52 <= v < 61 ==> b64_digit(v + 1) as int == b64_digit(v) as int + 1,
{
}

/// What a digit stands for.
pub open spec fn digit_value(c: char) -> int {
    let code = c as int;
    if 65 <= code <= 90 {
        code - 65
    } else if 97 <= code <= 122 {
        code - 71
    } else if 48 <= code <= 57 {
        code + 4
    } else if c == '+' {
        62
    } else {
        63
    }
}

/// The bytes that a text of digits in groups of four stands for; each equals sign at the end is a byte less.
pub open spec fn decoded(t: Seq<char>) -> Seq<u8>
    decreases t.len(),
{
    if t.len() < 4 {
        Seq::empty()
    } else {
        let a = digit_value(t[0]);
        let b = digit_value(t[1]);
        let c = digit_value(t[2]);
        let d = digit_value(t[3]);
        let first = (a * 4 + b / 16) as u8;
        let second = (b % 16 * 16 + c / 4) as u8;
        let third = (c % 4 * 64 + d) as u8;
        if t[2] == '=' {
            seq![first]
        } else if t[3] == '=' {
            seq![first, second]
        } else {
            seq![first, second, third] + decoded(t.skip(4))
        }
    }
}

proof fn lemma_digit_back(v: int)
    requires
        0 <= v < 64,
    ensures
        digit_value(b64_digit(v)) == v,
        b64_digit(v) != '=',
{
}

/// Bytes in base64 read back as the bytes they were, in groups of four digits.
pub proof fn coded_bytes_read_back(s: Seq<u8>)
    ensures
        decoded(b64_text(s)) == s,
        b64_text(s).len() % 4 == 0,
        b64_text(s).len() == (s.len() + 2) / 3 * 4,
    decreases s.len(),
{
    if s.len() == 0 {
        assert(decoded(b64_text(s)) =~= s);
    } else {
        let t = b64_text(s);
        let x = s[0] as int;
        lemma_digit_back(x / 4);
        if s.len() == 1 {
            lemma_digit_back((x % 4) * 16);
            assert(decoded(t) =~= s);
        } else if s.len() == 2 {
            let y = s[1] as int;
            lemma_digit_back((x % 4) * 16 + y / 16);
            lemma_digit_back((y % 16) * 4);
            assert(decoded(t) =~= s);
        } else {
            let y = s[1] as int;
            let z = s[2] as int;
            lemma_digit_back((x % 4) * 16 + y / 16);
            lemma_digit_back((y % 16) * 4 + z / 64);
            lemma_digit_back(z % 64);
            coded_bytes_read_back(s.skip(3));
            assert(t.skip(4) =~= b64_text(s.skip(3)));
            assert(s =~= seq![s[0], s[1], s[2]] + s.skip(3));
            assert(decoded(t) =~= s);
        }
    }
}

/// Keys are ordered by the first byte in which they differ, and one that another begins with comes first.
pub proof fn first_different_byte_decides(a: Seq<u8>, b: Seq<u8>, k: int)
    requires
        0 <= k <= a.len(),
        k <= b.len(),
        a.take(k) == b.take(k),
    ensures
        k == a.len() ==> key_le(a, b),
        k < a.len() && k == b.len() ==> !key_le(a, b),
        k < a.len() && k < b.len() && a[k] != b[k] ==> (key_le(a, b) <==> a[k] < b[k]),
    decreases k,
{
    if k > 0 {
        assert(a.take(k)[0] == a[0] && b.take(k)[0] == b[0]);
        assert(a.drop_first().take(k - 1) =~= a.take(k).drop_first());
        assert(b.drop_first().take(k - 1) =~= b.take(k).drop_first());
        first_different_byte_decides(a.drop_first(), b.drop_first(), k - 1);
        if k < a.len() {
            assert(a.drop_first()[k - 1] == a[k]);
        }
        if k < b.len() {
            assert(b.drop_first()[k - 1] == b[k]);
        }
    }
}

/// A range covers what lies between its ends, the first of them in it and the second not; an end of one zero
/// byte is no end.
pub proof fn range_covers_what_lies_between(start: Seq<u8>, end: Seq<u8>, key: Seq<u8>)
    ensures
        end == seq![0u8] ==> (covers(start, end, key) <==> key_le(start, key)),
        end != seq![0u8] ==> (covers(start, end, key) <==> key_le(start, key) && !key_le(end, key)),
{
}

/// What stands for the code of an error, where it has one.
pub proof fn code_stands_for_itself(code: i64)
    ensures
        code_truth(Some(code)) == Truth::Int(code as int),
        code_truth(None) == Truth::Null,
        CODE_NOT_FOUND == 5,
        CODE_OUT_OF_RANGE == 11,
{
}

} // verus!
