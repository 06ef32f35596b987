//! Text: decimal numbers, compact lists and the order names are sorted in.
use vstd::prelude::*;

verus! {

/// `String::push`: the character is appended to the end of the string.
pub assume_specification[ String::push ](s: &mut String, c: char)
    ensures
        final(s)@ == old(s)@.push(c),
;

/// The decimal digit of a number below ten.
pub open spec fn digit(d: int) -> char {
    (48 + d) as char
}

/// The decimal text of a natural number, without leading zeros.
pub open spec fn nat_text(n: nat) -> Seq<char>
    decreases n,
{
    if n < 10 {
        seq![digit(n as int)]
    } else {
        nat_text(n / 10).push(digit((n % 10) as int))
    }
}

/// The decimal text of an integer: a minus sign in front of a negative one.
pub open spec fn int_text(n: int) -> Seq<char> {
    if n < 0 {
        seq!['-'] + nat_text((-n) as nat)
    } else {
        nat_text(n as nat)
    }
}

/// Appends the decimal text of `n`.
pub fn push_nat(out: &mut String, n: u64)
    ensures
        final(out)@ == old(out)@ + nat_text(n as nat),
    decreases n,
{
    if n >= 10 {
        push_nat(out, n / 10);
    }
    let d: u8 = (n % 10) as u8;
    out.push((48 + d) as char);
    assert(out@ =~= old(out)@ + nat_text(n as nat));
}

/// Appends the decimal text of `n`.
pub fn push_int(out: &mut String, n: i64)
    ensures
        final(out)@ == old(out)@ + int_text(n as int),
{
    if n < 0 {
        out.push('-');
        push_nat(out, (-(n as i128)) as u64);
    } else {
        push_nat(out, n as u64);
    }
    assert(out@ =~= old(out)@ + int_text(n as int));
}

/// Appends the decimal digits of `n`.
fn push_digits(out: &mut String, n: u128)
    ensures
        final(out)@ == old(out)@ + nat_text(n as nat),
    decreases n,
{
    if n >= 10 {
        push_digits(out, n / 10);
    }
    let d: u8 = (n % 10) as u8;
    out.push((48 + d) as char);
    assert(out@ =~= old(out)@ + nat_text(n as nat));
}

/// Appends the decimal text of `n`.
pub fn push_wide(out: &mut String, n: i128)
    ensures
        final(out)@ == old(out)@ + int_text(n as int),
{
    if n < 0 {
        out.push('-');
        push_digits(out, (-(n + 1)) as u128 + 1);
    } else {
        push_digits(out, n as u128);
    }
    assert(out@ =~= old(out)@ + int_text(n as int));
}

/// The decimal text of `n`.
pub fn int_to_text(n: i64) -> (out: String)
    ensures
        out@ == int_text(n as int),
{
    let mut out = String::new();
    push_int(&mut out, n);
    out
}

/// The parts in order, with `sep` between each two of them.
pub open spec fn joined(parts: Seq<Seq<char>>, sep: Seq<char>) -> Seq<char>
    decreases parts.len(),
{
    if parts.len() == 0 {
        seq![]
    } else if parts.len() == 1 {
        parts[0]
    } else {
        joined(parts.drop_last(), sep) + sep + parts.last()
    }
}

/// What a list of strings holds.
pub open spec fn texts(names: Seq<String>) -> Seq<Seq<char>> {
    names.map_values(|s: String| s@)
}

/// What a list of string slices holds.
pub open spec fn strs(names: Seq<&str>) -> Seq<Seq<char>> {
    names.map_values(|s: &str| s@)
}

/// Puts a text at the end of a list.
pub fn put_text(all: &mut Vec<String>, text: String)
    ensures
        texts(final(all)@) == texts(old(all)@).push(text@),
{
    let ghost before = all@;
    all.push(text);
    assert(texts(all@) =~= texts(before).push(text@));
}

/// A list of its own with the same texts.
pub fn copy_texts(all: &Vec<String>) -> (out: Vec<String>)
    ensures
        texts(out@) == texts(all@),
{
    let mut out: Vec<String> = Vec::new();
    let mut i: usize = 0;
    while i < all.len()
        invariant
            i <= all@.len(),
            out@ == all@.take(i as int),
        decreases all@.len() - i,
    {
        out.push(all[i].clone());
        assert(out@ =~= all@.take(i + 1));
        i += 1;
    }
    assert(out@ =~= all@);
    out
}

/// A list of numbers as compact JSON: no spaces, square brackets round it.
pub open spec fn int_list_text(ns: Seq<i64>) -> Seq<char> {
    seq!['['] + joined(ns.map_values(|n: i64| int_text(n as int)), seq![',']) + seq![']']
}

/// A list of names as compact JSON: each in double quotes, no spaces, square brackets round it.
pub open spec fn name_list_text(names: Seq<Seq<char>>) -> Seq<char> {
    seq!['['] + joined(names.map_values(|n: Seq<char>| seq!['"'] + n + seq!['"']), seq![','])
        + seq![']']
}

/// One more part at the end of a non-empty list puts a separator and the part behind the text.
pub proof fn lemma_joined_push(parts: Seq<Seq<char>>, part: Seq<char>, sep: Seq<char>)
    ensures
        joined(parts.push(part), sep) == if parts.len() == 0 {
            part
        } else {
            joined(parts, sep) + sep + part
        },
{
    assert(parts.push(part).drop_last() =~= parts);
}

/// Some texts, one behind the other, with a separator between every two.
pub fn join_texts(parts: &Vec<String>, sep: &str) -> (out: String)
    ensures
        out@ == joined(texts(parts@), sep@),
{
    let mut out = String::new();
    let ghost all = texts(parts@);
    let mut i: usize = 0;
    assert(all.take(0) =~= Seq::empty());
    assert(out@ =~= joined(all.take(0), sep@));
    while i < parts.len()
        invariant
            i <= parts@.len(),
            all == texts(parts@),
            out@ == joined(all.take(i as int), sep@),
        decreases parts@.len() - i,
    {
        proof {
            lemma_joined_push(all.take(i as int), all[i as int], sep@);
            assert(all.take(i as int).push(all[i as int]) =~= all.take(i + 1));
        }
        if i > 0 {
            out.append(sep);
        }
        out.append(parts[i].as_str());
        assert(out@ =~= joined(all.take(i + 1), sep@));
        i += 1;
    }
    assert(all.take(i as int) =~= all);
    out
}

/// The compact JSON text of a list of numbers.
pub fn int_list_to_text(ns: &[i64]) -> (out: String)
    ensures
        out@ == int_list_text(ns@),
{
    let mut out = String::new();
    out.push('[');
    let ghost parts = ns@.map_values(|n: i64| int_text(n as int));
    let mut i: usize = 0;
    while i < ns.len()
        invariant
            i <= ns@.len(),
            parts == ns@.map_values(|n: i64| int_text(n as int)),
            out@ == seq!['['] + joined(parts.take(i as int), seq![',']),
        decreases ns@.len() - i,
    {
        proof {
            lemma_joined_push(parts.take(i as int), parts[i as int], seq![',']);
            assert(parts.take(i as int).push(parts[i as int]) =~= parts.take(i + 1));
        }
        if i > 0 {
            out.push(',');
        }
        push_int(&mut out, ns[i]);
        assert(out@ =~= seq!['['] + joined(parts.take(i + 1), seq![',']));
        i += 1;
    }
    out.push(']');
    assert(parts.take(i as int) =~= parts);
    assert(out@ =~= int_list_text(ns@));
    out
}

/// The compact JSON text of a list of names.
pub fn name_list_to_text(names: &[&str]) -> (out: String)
    ensures
        out@ == name_list_text(strs(names@)),
{
    let mut out = String::new();
    out.push('[');
    let ghost parts = strs(names@).map_values(|n: Seq<char>| seq!['"'] + n + seq!['"']);
    let mut i: usize = 0;
    while i < names.len()
        invariant
            i <= names@.len(),
            parts == strs(names@).map_values(|n: Seq<char>| seq!['"'] + n + seq!['"']),
            out@ == seq!['['] + joined(parts.take(i as int), seq![',']),
        decreases names@.len() - i,
    {
        proof {
            lemma_joined_push(parts.take(i as int), parts[i as int], seq![',']);
            assert(parts.take(i as int).push(parts[i as int]) =~= parts.take(i + 1));
        }
        if i > 0 {
            out.push(',');
        }
        out.push('"');
        out.append(names[i]);
        out.push('"');
        assert(out@ =~= seq!['['] + joined(parts.take(i + 1), seq![',']));
        i += 1;
    }
    out.push(']');
    assert(parts.take(i as int) =~= parts);
    assert(out@ =~= name_list_text(strs(names@)));
    out
}

/// Whether two texts hold the same characters.
pub fn same_text(a: &str, b: &str) -> (r: bool)
    ensures
        r == (a@ == b@),
{
    String::from_str(a) == String::from_str(b)
}

/// The order of texts: by their first differing character, a prefix before what it begins.
pub open spec fn text_le(a: Seq<char>, b: Seq<char>) -> bool
    decreases a.len(),
{
    if a.len() == 0 {
        true
    } else if b.len() == 0 {
        false
    } else if a[0] != b[0] {
        (a[0] as int) < (b[0] as int)
    } else {
        text_le(a.drop_first(), b.drop_first())
    }
}

proof fn lemma_text_le_total(a: Seq<char>, b: Seq<char>)
    ensures
        text_le(a, b) || text_le(b, a),
        text_le(a, b) && text_le(b, a) ==> a == b,
    decreases a.len(),
{
    if a.len() > 0 && b.len() > 0 && a[0] == b[0] {
        lemma_text_le_total(a.drop_first(), b.drop_first());
        if a.drop_first() == b.drop_first() {
            assert(a =~= seq![a[0]] + a.drop_first());
            assert(b =~= seq![b[0]] + b.drop_first());
        }
    } else if a.len() == 0 && b.len() == 0 {
        assert(a =~= b);
    }
}

proof fn lemma_text_le_transitive(a: Seq<char>, b: Seq<char>, c: Seq<char>)
    requires
        text_le(a, b),
        text_le(b, c),
    ensures
        text_le(a, c),
    decreases a.len(),
{
    if a.len() > 0 && b.len() > 0 && c.len() > 0 && a[0] == b[0] && b[0] == c[0] {
        lemma_text_le_transitive(a.drop_first(), b.drop_first(), c.drop_first());
    }
}

/// The order of texts is a total order.
pub proof fn text_order_is_total()
    ensures
        vstd::relations::total_ordering(|a: Seq<char>, b: Seq<char>| text_le(a, b)),
{
    let leq = |a: Seq<char>, b: Seq<char>| text_le(a, b);
    assert forall|a: Seq<char>| #[trigger] leq(a, a) by {
        lemma_text_le_total(a, a);
    }
    assert forall|a: Seq<char>, b: Seq<char>| #[trigger] leq(a, b) && #[trigger] leq(b, a) implies a == b by {
        lemma_text_le_total(a, b);
    }
    assert forall|a: Seq<char>, b: Seq<char>, c: Seq<char>| #[trigger]
        leq(a, b) && #[trigger] leq(b, c) implies leq(a, c) by {
        lemma_text_le_transitive(a, b, c);
    }
    assert forall|a: Seq<char>, b: Seq<char>| #[trigger] leq(a, b) || #[trigger] leq(b, a) by {
        lemma_text_le_total(a, b);
    }
}

/// Whether `a` sorts no later than `b`.
pub fn text_at_most(a: &str, b: &str) -> (r: bool)
    ensures
        r == text_le(a@, b@),
{
    let la: usize = a.unicode_len();
    let lb: usize = b.unicode_len();
    let mut i: usize = 0;
    assert(a@.skip(0) =~= a@);
    assert(b@.skip(0) =~= b@);
    while i < la && i < lb
        invariant
            la == a@.len(),
            lb == b@.len(),
            i <= la,
            i <= lb,
            text_le(a@, b@) == text_le(a@.skip(i as int), b@.skip(i as int)),
        decreases la - i,
    {
        let x = a.get_char(i);
        let y = b.get_char(i);
        assert(a@.skip(i as int).drop_first() =~= a@.skip(i + 1));
        assert(b@.skip(i as int).drop_first() =~= b@.skip(i + 1));
        if x != y {
            return (x as u32) < (y as u32);
        }
        i += 1;
    }
    i >= la
}

/// The names in ascending order.
pub open spec fn in_order(names: Seq<Seq<char>>) -> Seq<Seq<char>> {
    names.sort_by(|a: Seq<char>, b: Seq<char>| text_le(a, b))
}

/// Putting names in order drops none, adds none and repeats none.
pub proof fn lemma_in_order(names: Seq<Seq<char>>)
    ensures
        in_order(names).len() == names.len(),
        in_order(names).to_set() == names.to_set(),
        names.no_duplicates() ==> in_order(names).no_duplicates(),
{
    broadcast use vstd::seq_lib::group_to_multiset_ensures;

    let leq = |a: Seq<char>, b: Seq<char>| text_le(a, b);
    text_order_is_total();
    names.lemma_sort_by_ensures(leq);
    let sorted = in_order(names);
    assert forall|x: Seq<char>| names.contains(x) == sorted.contains(x) by {
        assert(names.to_multiset().count(x) == sorted.to_multiset().count(x));
    }
    assert(sorted.to_set() =~= names.to_set());
    assert(names.to_multiset().len() == sorted.to_multiset().len());
    if names.no_duplicates() {
        names.lemma_multiset_has_no_duplicates();
        sorted.lemma_multiset_has_no_duplicates_conv();
    }
}

/// Puts `name` where it belongs in a list that is already in order.
fn insert_in_order(names: &mut Vec<String>, name: String)
    requires
        vstd::relations::sorted_by(
            texts(old(names)@),
            |a: Seq<char>, b: Seq<char>| text_le(a, b),
        ),
    ensures
        vstd::relations::sorted_by(
            texts(final(names)@),
            |a: Seq<char>, b: Seq<char>| text_le(a, b),
        ),
        texts(final(names)@).to_multiset() == texts(old(names)@).to_multiset().insert(name@),
{
    let ghost leq = |a: Seq<char>, b: Seq<char>| text_le(a, b);
    let mut i: usize = 0;
    while i < names.len() && text_at_most(names[i].as_str(), name.as_str())
        invariant
            i <= names@.len(),
            forall|k: int| 0 <= k < i ==> text_le(#[trigger] names@[k]@, name@),
        decreases names@.len() - i,
    {
        i += 1;
    }
    let ghost before = texts(names@);
    proof {
        if i < names@.len() {
            lemma_text_le_total(names@[i as int]@, name@);
        }
        assert forall|k: int| i <= k < before.len() implies text_le(name@, #[trigger] before[k]) by {
            if k > i {
                assert(leq(before[i as int], before[k]));
                lemma_text_le_transitive(name@, before[i as int], before[k]);
            }
        }
        assert forall|k: int| 0 <= k < i implies text_le(#[trigger] before[k], name@) by {
            assert(names@[k]@ == before[k]);
        }
    }
    names.insert(i, name);
    proof {
        let after = texts(names@);
        assert(after =~= before.insert(i as int, name@));
        before.insert_ensures(i as int, name@);
        assert forall|x: int, y: int| 0 <= x < y < after.len() implies #[trigger] leq(after[x], after[y]) by {
            if x < i && y > i {
                assert(leq(before[x], before[y - 1]));
            } else if x < i && y < i {
                assert(leq(before[x], before[y]));
            } else if x > i {
                assert(leq(before[x - 1], before[y - 1]));
            }
        }
        vstd::seq_lib::to_multiset_insert(before, i as int, name@);
    }
}

/// The names in ascending order, as a new list.
pub fn sort_names(names: &Vec<String>) -> (out: Vec<String>)
    ensures
        texts(out@) == in_order(texts(names@)),
{
    let ghost leq = |a: Seq<char>, b: Seq<char>| text_le(a, b);
    let mut out: Vec<String> = Vec::new();
    let mut i: usize = 0;
    proof {
        assert(texts(out@) =~= texts(names@).take(0));
    }
    while i < names.len()
        invariant
            i <= names@.len(),
            leq == (|a: Seq<char>, b: Seq<char>| text_le(a, b)),
            vstd::relations::sorted_by(texts(out@), leq),
            texts(out@).to_multiset() == texts(names@).take(i as int).to_multiset(),
        decreases names@.len() - i,
    {
        let ghost so_far = texts(names@).take(i as int);
        insert_in_order(&mut out, names[i].clone());
        proof {
            assert(texts(names@).take(i + 1) =~= so_far.push(names@[i as int]@));
            so_far.to_multiset_ensures();
        }
        i += 1;
    }
    proof {
        assert(texts(names@).take(i as int) =~= texts(names@));
        text_order_is_total();
        texts(names@).lemma_sort_by_ensures(leq);
        vstd::seq_lib::lemma_sorted_unique(texts(out@), in_order(texts(names@)), leq);
    }
    out
}

/// Where the last dot of a text stands.
pub open spec fn last_dot(s: Seq<char>) -> Option<int>
    decreases s.len(),
{
    if s.len() == 0 {
        None
    } else if s.last() == '.' {
        Some(s.len() - 1)
    } else {
        last_dot(s.drop_last())
    }
}

/// What stands before the last dot of a text and what stands after it.
pub open spec fn split_at_last_dot(s: Seq<char>) -> Option<(Seq<char>, Seq<char>)> {
    match last_dot(s) {
        Some(i) => Some((s.take(i), s.skip(i + 1))),
        None => None,
    }
}

/// What stands before the last dot of a text and what stands after it.
pub fn split_name<'a>(s: &'a str) -> (r: Option<(&'a str, &'a str)>)
    ensures
        match split_at_last_dot(s@) {
            Some(parts) => r is Some && (r->0).0@ == parts.0 && (r->0).1@ == parts.1,
            None => r is None,
        },
{
    let n: usize = s.unicode_len();
    let mut i: usize = n;
    assert(s@.take(n as int) =~= s@);
    while i > 0
        invariant
            n == s@.len(),
            i <= n,
            last_dot(s@) == last_dot(s@.take(i as int)),
        decreases i,
    {
        assert(s@.take(i as int).drop_last() =~= s@.take(i - 1));
        if s.get_char(i - 1) == '.' {
            let before = s.substring_char(0, i - 1);
            let after = s.substring_char(i, n);
            assert(before@ =~= s@.take(i - 1));
            assert(after@ =~= s@.skip(i as int));
            return Some((before, after));
        }
        i -= 1;
    }
    None
}

/// A text that holds no dot after its own last one is split again where it was put together.
pub proof fn lemma_split_of_joined(before: Seq<char>, after: Seq<char>)
    requires
        !after.contains('.'),
    ensures
        split_at_last_dot(before.push('.') + after) == Some((before, after)),
    decreases after.len(),
{
    let whole = before.push('.') + after;
    lemma_last_dot(before, after);
    assert(whole.take(before.len() as int) =~= before);
    assert(whole.skip(before.len() as int + 1) =~= after);
}

proof fn lemma_last_dot(before: Seq<char>, after: Seq<char>)
    requires
        !after.contains('.'),
    ensures
        last_dot(before.push('.') + after) == Some(before.len() as int),
    decreases after.len(),
{
    let whole = before.push('.') + after;
    if after.len() == 0 {
        assert(whole =~= before.push('.'));
    } else {
        assert(after[after.len() - 1] == whole.last());
        assert(whole.drop_last() =~= before.push('.') + after.drop_last());
        assert forall|c: char| after.drop_last().contains(c) implies after.contains(c) by {
            let k = choose|k: int| 0 <= k < after.len() - 1 && after.drop_last()[k] == c;
            assert(after[k] == c);
        }
        lemma_last_dot(before, after.drop_last());
    }
}

/// The character is a decimal digit.
pub open spec fn is_digit(c: char) -> bool {
    48 <= c as int <= 57
}

/// Every character is a decimal digit.
pub open spec fn all_digits(s: Seq<char>) -> bool {
    forall|i: int| 0 <= i < s.len() ==> is_digit(#[trigger] s[i])
}

/// The number that some decimal digits spell.
pub open spec fn digits_value(s: Seq<char>) -> nat
    decreases s.len(),
{
    if s.len() == 0 {
        0
    } else {
        (10 * digits_value(s.drop_last()) + (s.last() as int - 48)) as nat
    }
}

/// The number a text spells: decimal digits, one at least, with a sign in front of them or without,
/// and no more than a signed 64-bit integer holds.
pub open spec fn whole_number(s: Seq<char>) -> Option<i64> {
    if s.len() == 0 {
        None
    } else {
        let signed = s[0] == '-' || s[0] == '+';
        let body = if signed {
            s.drop_first()
        } else {
            s
        };
        let size = digits_value(body) as int;
        let value = if s[0] == '-' {
            -size
        } else {
            size
        };
        if body.len() > 0 && all_digits(body) && i64::MIN <= value <= i64::MAX {
            Some(value as i64)
        } else {
            None
        }
    }
}

proof fn lemma_digits_grow(s: Seq<char>, i: int)
    requires
        all_digits(s),
        0 <= i <= s.len(),
    ensures
        digits_value(s.take(i)) <= digits_value(s),
    decreases s.len(),
{
    if i < s.len() {
        assert forall|k: int| 0 <= k < s.len() - 1 implies is_digit(#[trigger] s.drop_last()[k]) by {
            assert(is_digit(s[k]));
        }
        lemma_digits_grow(s.drop_last(), i);
        assert(s.drop_last().take(i) =~= s.take(i));
        assert(is_digit(s[s.len() - 1]));
    } else {
        assert(s.take(i) =~= s);
    }
}

/// The number a text spells.
pub fn parse_whole(s: &str) -> (r: Option<i64>)
    ensures
        r == whole_number(s@),
{
    let n: usize = s.unicode_len();
    if n == 0 {
        return None;
    }
    let first = s.get_char(0);
    let negative = first == '-';
    let signed = negative || first == '+';
    let start: usize = if signed {
        1
    } else {
        0
    };
    if start == n {
        return None;
    }
    let ghost body = if signed {
        s@.drop_first()
    } else {
        s@
    };
    assert(body =~= s@.skip(start as int));
    let mut size: u64 = 0;
    let mut i: usize = start;
    while i < n
        invariant
            n == s@.len(),
            start <= i <= n,
            start <= 1,
            body == s@.skip(start as int),
            body == (if signed {
                s@.drop_first()
            } else {
                s@
            }),
            body.len() > 0,
            signed == (s@[0] == '-' || s@[0] == '+'),
            negative == (s@[0] == '-'),
            signed == (start == 1),
            n > 0,
            forall|k: int| 0 <= k < i - start ==> is_digit(#[trigger] body[k]),
            size == digits_value(body.take(i - start)),
            size <= 0x8000_0000_0000_0000,
        decreases n - i,
    {
        let c = s.get_char(i);
        let code: u32 = c as u32;
        assert(c == body[i - start]);
        if code < 48 || code > 57 {
            assert(!is_digit(body[i - start]));
            return None;
        }
        let wide: u128 = size as u128 * 10 + (code - 48) as u128;
        proof {
            assert(body.take(i - start + 1).drop_last() =~= body.take(i - start));
            assert(wide == digits_value(body.take(i - start + 1)));
        }
        if wide > 0x8000_0000_0000_0000 {
            proof {
                if all_digits(body) {
                    lemma_digits_grow(body, i - start + 1);
                }
            }
            return None;
        }
        size = wide as u64;
        i += 1;
    }
    assert(body.take(i - start) =~= body);
    if negative {
        Some((-(size as i128)) as i64)
    } else if size <= 0x7fff_ffff_ffff_ffff {
        Some(size as i64)
    } else {
        None
    }
}

proof fn lemma_nat_text_reads_back(n: nat)
    ensures
        nat_text(n).len() > 0,
        all_digits(nat_text(n)),
        digits_value(nat_text(n)) == n,
    decreases n,
{
    assert(digit((n % 10) as int) as int == 48 + n % 10);
    if n < 10 {
        assert(nat_text(n).drop_last() =~= Seq::<char>::empty());
        assert(digits_value(Seq::<char>::empty()) == 0);
    } else {
        lemma_nat_text_reads_back(n / 10);
        let front = nat_text(n / 10);
        assert(nat_text(n).drop_last() =~= front);
        assert forall|i: int| 0 <= i < nat_text(n).len() implies is_digit(#[trigger] nat_text(n)[i]) by {
            if i < front.len() {
                assert(is_digit(front[i]));
            }
        }
    }
}

/// A number written in decimal reads back as itself.
pub proof fn decimal_reads_back(n: i64)
    ensures
        whole_number(int_text(n as int)) == Some(n),
{
    if n < 0 {
        lemma_nat_text_reads_back((-n) as nat);
        assert(int_text(n as int).drop_first() =~= nat_text((-n) as nat));
    } else {
        lemma_nat_text_reads_back(n as nat);
        assert(is_digit(nat_text(n as nat)[0]));
    }
}

/// A number is written digit by digit, the last digit last, with a minus sign before a negative one.
pub proof fn numbers_are_written_in_decimal(n: nat, d: nat)
    requires
        d < 10,
    ensures
        digit(0) == '0' && digit(1) == '1' && digit(9) == '9',
        digit(d as int) as int - '0' as int == d,
        nat_text(d) == seq![digit(d as int)],
        n > 0 ==> nat_text(10 * n + d) == nat_text(n).push(digit(d as int)),
        n > 0 ==> int_text(-(n as int)) == seq!['-'] + nat_text(n),
        int_text(n as int) == nat_text(n),
{
}

/// A text reads as a number exactly where it is a run of digits, with a sign before it or not, of a number
/// that fits.
pub proof fn numbers_are_runs_of_digits(s: Seq<char>, n: nat, i: int)
    requires
        n <= i64::MAX,
    ensures
        whole_number(Seq::empty()) is None,
        whole_number(seq!['-']) is None,
        whole_number(seq!['+']) is None,
        0 < i < s.len() && !('0' <= s[i] <= '9') ==> whole_number(s) is None,
        s.len() > 0 && !('0' <= s[0] <= '9') && s[0] != '-' && s[0] != '+' ==> whole_number(s) is None,
        whole_number(nat_text(n)) == Some(n as i64),
        whole_number(seq!['-'] + nat_text(n)) matches Some(m) && m == -(n as int),
        whole_number(seq!['+'] + nat_text(n)) == Some(n as i64),
{
    if 0 < i < s.len() && !('0' <= s[i] <= '9') {
        let body = if s[0] == '-' || s[0] == '+' {
            s.drop_first()
        } else {
            s
        };
        if s[0] == '-' || s[0] == '+' {
            assert(body[i - 1] == s[i]);
        }
        assert(!all_digits(body));
    }
    if s.len() > 0 && !('0' <= s[0] <= '9') && s[0] != '-' && s[0] != '+' {
        assert(!is_digit(s[0]));
    }
    decimal_reads_back(n as i64);
    assert(int_text(n as int) == nat_text(n));
    lemma_nat_text_digits(n);
    let minus = seq!['-'] + nat_text(n);
    let plus = seq!['+'] + nat_text(n);
    assert(minus.drop_first() =~= nat_text(n));
    assert(plus.drop_first() =~= nat_text(n));
    assert(nat_text(n)[0] != '-' && nat_text(n)[0] != '+') by {
        assert(is_digit(nat_text(n)[0]));
    }
}

/// A number is written with digits only, and at least one.
pub proof fn lemma_nat_text_digits(n: nat)
    ensures
        nat_text(n).len() > 0,
        all_digits(nat_text(n)),
    decreases n,
{
    if n >= 10 {
        lemma_nat_text_digits(n / 10);
        assert forall|i: int| 0 <= i < nat_text(n).len() implies is_digit(#[trigger] nat_text(n)[i]) by {
            if i < nat_text(n / 10).len() {
                assert(nat_text(n)[i] == nat_text(n / 10)[i]);
            }
        }
    }
}

/// Texts are joined in order, with the separator between each two and nowhere else.
pub proof fn texts_are_joined_in_order(parts: Seq<Seq<char>>, part: Seq<char>, sep: Seq<char>)
    ensures
        joined(Seq::empty(), sep) == Seq::<char>::empty(),
        joined(seq![part], sep) == part,
        parts.len() > 0 ==> joined(parts.push(part), sep) == joined(parts, sep) + sep + part,
{
    lemma_joined_push(parts, part, sep);
}

/// Lists are written in square brackets with commas between the items, names in quotes.
pub proof fn lists_are_written_in_brackets(n: i64, ns: Seq<i64>, name: Seq<char>, names: Seq<Seq<char>>)
    ensures
        int_list_text(Seq::empty()) == seq!['[', ']'],
        int_list_text(seq![n]) == seq!['['] + int_text(n as int) + seq![']'],
        ns.len() > 0 ==> int_list_text(ns.push(n)) == int_list_text(ns).drop_last() + seq![','] + int_text(n as int)
            + seq![']'],
        name_list_text(Seq::empty()) == seq!['[', ']'],
        name_list_text(seq![name]) == seq!['[', '"'] + name + seq!['"', ']'],
        names.len() > 0 ==> name_list_text(names.push(name)) == name_list_text(names).drop_last() + seq![',', '"']
            + name + seq!['"', ']'],
{
    let t = |n: i64| int_text(n as int);
    let q = |n: Seq<char>| seq!['"'] + n + seq!['"'];
    let c = seq![','];
    assert(Seq::<i64>::empty().map_values(t) =~= Seq::empty());
    assert(int_list_text(Seq::empty()) =~= seq!['[', ']']);
    assert(seq![n].map_values(t) =~= seq![int_text(n as int)]);
    assert(int_list_text(seq![n]) =~= seq!['['] + int_text(n as int) + seq![']']);
    assert(ns.push(n).map_values(t) =~= ns.map_values(t).push(int_text(n as int)));
    lemma_joined_push(ns.map_values(t), int_text(n as int), c);
    if ns.len() > 0 {
        assert(int_list_text(ns.push(n)) =~= int_list_text(ns).drop_last() + c + int_text(n as int) + seq![']']);
    }
    assert(Seq::<Seq<char>>::empty().map_values(q) =~= Seq::empty());
    assert(name_list_text(Seq::empty()) =~= seq!['[', ']']);
    assert(seq![name].map_values(q) =~= seq![seq!['"'] + name + seq!['"']]);
    assert(name_list_text(seq![name]) =~= seq!['[', '"'] + name + seq!['"', ']']);
    assert(names.push(name).map_values(q) =~= names.map_values(q).push(seq!['"'] + name + seq!['"']));
    lemma_joined_push(names.map_values(q), seq!['"'] + name + seq!['"'], c);
    if names.len() > 0 {
        assert(name_list_text(names.push(name)) =~= name_list_text(names).drop_last() + seq![',', '"'] + name
            + seq!['"', ']']);
    }
}

/// Texts are ordered by the first character in which they differ, and one that another begins with comes
/// first.
pub proof fn first_difference_decides(a: Seq<char>, b: Seq<char>, k: int)
    requires
        0 <= k <= a.len(),
        k <= b.len(),
        a.take(k) == b.take(k),
    ensures
        k == a.len() ==> text_le(a, b),
        k < a.len() && k == b.len() ==> !text_le(a, b),
        k < a.len() && k < b.len() && a[k] != b[k] ==> (text_le(a, b) <==> (a[k] as int) < (b[k] as int)),
    decreases k,
{
    if k > 0 {
        assert(a.take(k)[0] == a[0] && b.take(k)[0] == b[0]);
        assert(a.drop_first().take(k - 1) =~= a.take(k).drop_first());
        assert(b.drop_first().take(k - 1) =~= b.take(k).drop_first());
        first_difference_decides(a.drop_first(), b.drop_first(), k - 1);
        if k < a.len() {
            assert(a.drop_first()[k - 1] == a[k]);
        }
        if k < b.len() {
            assert(b.drop_first()[k - 1] == b[k]);
        }
    }
}

/// Names put in order are the same names, as often as before, each no later than the next.
pub proof fn order_rearranges_the_names(names: Seq<Seq<char>>, i: int, j: int)
    ensures
        in_order(names).to_multiset() == names.to_multiset(),
        0 <= i < j < in_order(names).len() ==> text_le(in_order(names)[i], in_order(names)[j]),
{
    let le = |a: Seq<char>, b: Seq<char>| text_le(a, b);
    text_order_is_total();
    names.lemma_sort_by_ensures(le);
    if 0 <= i < j < in_order(names).len() {
        assert(le(in_order(names)[i], in_order(names)[j]));
    }
}

/// A text is split at its last dot, and not at all where there is none.
pub proof fn split_is_at_the_last_dot(s: Seq<char>)
    ensures
        split_at_last_dot(s) is None <==> !s.contains('.'),
        split_at_last_dot(s) matches Some(parts) ==> s == parts.0.push('.') + parts.1 && !parts.1.contains('.'),
    decreases s.len(),
{
    lemma_dot_is_the_last(s);
    if let Some(i) = last_dot(s) {
        assert(s =~= s.take(i).push('.') + s.skip(i + 1));
        let rest = s.skip(i + 1);
        if rest.contains('.') {
            let k = choose|k: int| 0 <= k < rest.len() && rest[k] == '.';
            assert(s[k + i + 1] == '.');
        }
    }
}

proof fn lemma_dot_is_the_last(s: Seq<char>)
    ensures
        last_dot(s) is None <==> !s.contains('.'),
        last_dot(s) matches Some(i) ==> 0 <= i < s.len() && s[i] == '.' && forall|k: int|
            i < k < s.len() ==> #[trigger] s[k] != '.',
    decreases s.len(),
{
    if s.len() > 0 {
        let front = s.drop_last();
        lemma_dot_is_the_last(front);
        assert(s[s.len() - 1] == s.last());
        if front.contains('.') {
            let k = choose|k: int| 0 <= k < front.len() && front[k] == '.';
            assert(s[k] == '.');
        }
        if s.contains('.') && s.last() != '.' {
            let k = choose|k: int| 0 <= k < s.len() && s[k] == '.';
            assert(front[k] == '.');
        }
        if s.last() != '.' && last_dot(s) is Some {
            let i = last_dot(s)->0;
            assert forall|k: int| i < k < s.len() implies #[trigger] s[k] != '.' by {
                if k < front.len() {
                    assert(front[k] == s[k]);
                }
            }
        }
    }
}

} // verus!
