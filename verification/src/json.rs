//! JSON values, as far as answers are made of them.
use vstd::prelude::*;
use crate::text::{
    decimal_reads_back, first_difference_decides, int_text, joined, lemma_joined_push, parse_whole, push_int,
    same_text, text_at_most, text_le, text_order_is_total, texts, texts_are_joined_in_order, whole_number,
};

verus! {

/// A JSON value. A number that is no signed 64-bit integer is held as its text.
#[derive(Debug)]
pub enum Json {
    Null,
    Bool(bool),
    Int(i64),
    Number(String),
    Text(String),
    Array(Vec<Json>),
    Object(Vec<(String, Json)>),
}

/// The hexadecimal digit of a number below sixteen.
pub open spec fn hex_digit(d: int) -> char {
    if d < 10 {
        (48 + d) as char
    } else {
        (87 + d) as char
    }
}

/// A character inside a JSON string.
pub open spec fn escaped(c: char) -> Seq<char> {
    let code = c as int;
    if c == '"' || c == '\\' {
        seq!['\\', c]
    } else if code == 8 {
        seq!['\\', 'b']
    } else if code == 9 {
        seq!['\\', 't']
    } else if code == 10 {
        seq!['\\', 'n']
    } else if code == 12 {
        seq!['\\', 'f']
    } else if code == 13 {
        seq!['\\', 'r']
    } else if code < 32 {
        seq!['\\', 'u', '0', '0', hex_digit(code / 16), hex_digit(code % 16)]
    } else {
        seq![c]
    }
}

/// Every character of a text as it stands inside a JSON string.
pub open spec fn escapes(s: Seq<char>) -> Seq<char>
    decreases s.len(),
{
    if s.len() == 0 {
        Seq::empty()
    } else {
        escapes(s.drop_last()) + escaped(s.last())
    }
}

/// A text as a JSON string: in double quotes, with quotes, backslashes and control characters
/// escaped.
pub open spec fn json_quoted(s: Seq<char>) -> Seq<char> {
    seq!['"'] + escapes(s) + seq!['"']
}

/// `serde_json`'s `Display` of a string value: the text in double quotes, a quote or a backslash
/// behind a backslash, the control characters as their short escapes or as `u` and four digits, and
/// every other character as it is.
#[verifier::external_body]
fn quote(s: &str) -> (r: String)
    ensures
        r@ == json_quoted(s@),
{
    serde_json::Value::String(String::from(s)).to_string()
}

/// The compact JSON text of a value: no spaces, and the fields of an object in the order of their names,
/// whatever order they stand in.
pub open spec fn json_text(j: Json) -> Seq<char>
    decreases j,
{
    match j {
        Json::Null => "null"@,
        Json::Bool(b) => if b {
            "true"@
        } else {
            "false"@
        },
        Json::Int(n) => int_text(n as int),
        Json::Number(s) => s@,
        Json::Text(s) => json_quoted(s@),
        Json::Array(items) => seq!['['] + joined(item_texts(items@), seq![',']) + seq![']'],
        Json::Object(fields) => seq!['{'] + joined(lines_of(ordered(field_pairs(fields@))), seq![','])
            + seq!['}'],
    }
}

/// The compact JSON text of each item.
pub open spec fn item_texts(items: Seq<Json>) -> Seq<Seq<char>>
    decreases items,
{
    if items.len() == 0 {
        Seq::empty()
    } else {
        item_texts(items.drop_last()).push(json_text(items.last()))
    }
}

/// The name of each field, and the compact JSON text of its value.
pub open spec fn field_pairs(fields: Seq<(String, Json)>) -> Seq<(Seq<char>, Seq<char>)>
    decreases fields,
{
    if fields.len() == 0 {
        Seq::empty()
    } else {
        field_pairs(fields.drop_last()).push((fields.last().0@, json_text(fields.last().1)))
    }
}

/// The order of fields: by name, and where two have the same name by what they hold.
pub open spec fn pair_le(a: (Seq<char>, Seq<char>), b: (Seq<char>, Seq<char>)) -> bool {
    if a.0 == b.0 {
        text_le(a.1, b.1)
    } else {
        text_le(a.0, b.0)
    }
}

/// Fields in order.
pub open spec fn ordered(pairs: Seq<(Seq<char>, Seq<char>)>) -> Seq<(Seq<char>, Seq<char>)> {
    pairs.sort_by(|a: (Seq<char>, Seq<char>), b: (Seq<char>, Seq<char>)| pair_le(a, b))
}

/// Each field as it stands in an object: its name, a colon and its value.
pub open spec fn lines_of(pairs: Seq<(Seq<char>, Seq<char>)>) -> Seq<Seq<char>> {
    pairs.map_values(|p: (Seq<char>, Seq<char>)| json_quoted(p.0) + seq![':'] + p.1)
}

proof fn lemma_pair_order_is_total()
    ensures
        vstd::relations::total_ordering(
            |a: (Seq<char>, Seq<char>), b: (Seq<char>, Seq<char>)| pair_le(a, b),
        ),
{
    let leq = |a: (Seq<char>, Seq<char>), b: (Seq<char>, Seq<char>)| pair_le(a, b);
    let le = |a: Seq<char>, b: Seq<char>| text_le(a, b);
    text_order_is_total();
    assert forall|a: (Seq<char>, Seq<char>)| #[trigger] leq(a, a) by {
        assert(le(a.1, a.1));
    }
    assert forall|a: (Seq<char>, Seq<char>), b: (Seq<char>, Seq<char>)|
        #[trigger] leq(a, b) && #[trigger] leq(b, a) implies a == b by {
        if a.0 == b.0 {
            assert(le(a.1, b.1) && le(b.1, a.1));
        } else {
            assert(le(a.0, b.0) && le(b.0, a.0));
        }
    }
    assert forall|a: (Seq<char>, Seq<char>), b: (Seq<char>, Seq<char>), c: (Seq<char>, Seq<char>)|
        #[trigger] leq(a, b) && #[trigger] leq(b, c) implies leq(a, c) by {
        if a.0 == b.0 && b.0 == c.0 {
            assert(le(a.1, b.1) && le(b.1, c.1));
        } else {
            assert(le(a.0, a.0) && le(b.0, b.0));
            assert(le(a.0, b.0) && le(b.0, c.0));
            assert(le(a.0, c.0));
            if a.0 == c.0 {
                assert(le(a.0, b.0) && le(b.0, a.0));
            }
        }
    }
    assert forall|a: (Seq<char>, Seq<char>), b: (Seq<char>, Seq<char>)|
        #[trigger] leq(a, b) || #[trigger] leq(b, a) by {
        if a.0 == b.0 {
            assert(le(a.1, b.1) || le(b.1, a.1));
        } else {
            assert(le(a.0, b.0) || le(b.0, a.0));
        }
    }
}

/// The order in which the fields of an object stand is nothing: two objects with the same fields are
/// written alike.
pub proof fn field_order_is_nothing(a: Vec<(String, Json)>, b: Vec<(String, Json)>)
    requires
        field_pairs(a@).to_multiset() == field_pairs(b@).to_multiset(),
    ensures
        json_text(Json::Object(a)) == json_text(Json::Object(b)),
{
    let leq = |a: (Seq<char>, Seq<char>), b: (Seq<char>, Seq<char>)| pair_le(a, b);
    lemma_pair_order_is_total();
    field_pairs(a@).lemma_sort_by_ensures(leq);
    field_pairs(b@).lemma_sort_by_ensures(leq);
    vstd::seq_lib::lemma_sorted_unique(ordered(field_pairs(a@)), ordered(field_pairs(b@)), leq);
}

/// What some pairs of texts hold.
spec fn pairs_of(pairs: Seq<(String, String)>) -> Seq<(Seq<char>, Seq<char>)> {
    pairs.map_values(|p: (String, String)| (p.0@, p.1@))
}

/// Whether a field comes no later than another.
fn pair_at_most(a: &(String, String), b: &(String, String)) -> (r: bool)
    ensures
        r == pair_le((a.0@, a.1@), (b.0@, b.1@)),
{
    if same_text(a.0.as_str(), b.0.as_str()) {
        text_at_most(a.1.as_str(), b.1.as_str())
    } else {
        text_at_most(a.0.as_str(), b.0.as_str())
    }
}

/// Puts a field where it belongs among some that are already in order.
fn insert_pair(pairs: &mut Vec<(String, String)>, pair: (String, String))
    requires
        vstd::relations::sorted_by(
            pairs_of(old(pairs)@),
            |a: (Seq<char>, Seq<char>), b: (Seq<char>, Seq<char>)| pair_le(a, b),
        ),
    ensures
        vstd::relations::sorted_by(
            pairs_of(final(pairs)@),
            |a: (Seq<char>, Seq<char>), b: (Seq<char>, Seq<char>)| pair_le(a, b),
        ),
        pairs_of(final(pairs)@).to_multiset() == pairs_of(old(pairs)@).to_multiset().insert(
            (pair.0@, pair.1@),
        ),
{
    let ghost leq = |a: (Seq<char>, Seq<char>), b: (Seq<char>, Seq<char>)| pair_le(a, b);
    let ghost it = (pair.0@, pair.1@);
    let ghost before = pairs_of(pairs@);
    let mut i: usize = 0;
    while i < pairs.len() && pair_at_most(&pairs[i], &pair)
        invariant
            i <= pairs@.len(),
            it == (pair.0@, pair.1@),
            before == pairs_of(pairs@),
            forall|k: int| 0 <= k < i ==> pair_le(#[trigger] before[k], it),
        decreases pairs@.len() - i,
    {
        assert(before[i as int] == (pairs@[i as int].0@, pairs@[i as int].1@));
        i += 1;
    }
    proof {
        lemma_pair_order_is_total();
        assert forall|k: int| i <= k < before.len() implies pair_le(it, #[trigger] before[k]) by {
            assert(before[i as int] == (pairs@[i as int].0@, pairs@[i as int].1@));
            assert(leq(it, before[i as int]) || leq(before[i as int], it));
            assert(leq(it, before[i as int]));
            if k > i {
                assert(leq(before[i as int], before[k]));
                assert(leq(it, before[k]));
            }
        }
    }
    pairs.insert(i, pair);
    proof {
        let after = pairs_of(pairs@);
        assert(after =~= before.insert(i as int, it));
        before.insert_ensures(i as int, it);
        assert forall|x: int, y: int| 0 <= x < y < after.len() implies #[trigger] leq(after[x], after[y]) by {
            if x < i && y > i {
                assert(leq(before[x], before[y - 1]));
            } else if x < i && y < i {
                assert(leq(before[x], before[y]));
            } else if x > i {
                assert(leq(before[x - 1], before[y - 1]));
            }
        }
        vstd::seq_lib::to_multiset_insert(before, i as int, it);
    }
}

impl Json {
    /// The compact JSON text of the value.
    pub fn render(&self) -> (r: String)
        ensures
            r@ == json_text(*self),
        decreases *self,
    {
        match self {
            Json::Null => String::from_str("null"),
            Json::Bool(b) => if *b {
                String::from_str("true")
            } else {
                String::from_str("false")
            },
            Json::Int(n) => {
                let mut out = String::new();
                push_int(&mut out, *n);
                assert(out@ =~= int_text(*n as int));
                out
            },
            Json::Number(s) => s.clone(),
            Json::Text(s) => quote(s.as_str()),
            Json::Array(items) => {
                let mut out = String::new();
                out.push('[');
                let mut i: usize = 0;
                assert(items@.take(0) =~= Seq::empty());
                assert(out@ =~= seq!['['] + joined(item_texts(items@.take(0)), seq![',']));
                while i < items.len()
                    invariant
                        i <= items@.len(),
                        *self == Json::Array(*items),
                        item_texts(items@.take(i as int)).len() == i,
                        out@ == seq!['['] + joined(item_texts(items@.take(i as int)), seq![',']),
                    decreases items@.len() - i,
                {
                    proof {
                        let before = items@.take(i as int);
                        assert(items@.take(i + 1).drop_last() =~= before);
                        lemma_joined_push(item_texts(before), json_text(items@[i as int]), seq![',']);
                        assert(decreases_to!(*self => self->Array_0));
                        assert(decreases_to!(*items => items@));
                        assert(decreases_to!(items@ => items@[i as int]));
                    }
                    if i > 0 {
                        out.push(',');
                    }
                    let item = items[i].render();
                    out.append(item.as_str());
                    assert(out@ =~= seq!['['] + joined(item_texts(items@.take(i + 1)), seq![',']));
                    i += 1;
                }
                assert(items@.take(i as int) =~= items@);
                out.push(']');
                assert(out@ =~= json_text(*self));
                out
            },
            Json::Object(fields) => {
                let ghost leq = |a: (Seq<char>, Seq<char>), b: (Seq<char>, Seq<char>)| pair_le(a, b);
                let mut pairs: Vec<(String, String)> = Vec::new();
                let mut i: usize = 0;
                assert(fields@.take(0) =~= Seq::empty());
                assert(pairs_of(pairs@) =~= field_pairs(fields@.take(0)));
                while i < fields.len()
                    invariant
                        i <= fields@.len(),
                        *self == Json::Object(*fields),
                        leq == (|a: (Seq<char>, Seq<char>), b: (Seq<char>, Seq<char>)| pair_le(a, b)),
                        vstd::relations::sorted_by(pairs_of(pairs@), leq),
                        pairs_of(pairs@).to_multiset() == field_pairs(fields@.take(i as int)).to_multiset(),
                    decreases fields@.len() - i,
                {
                    proof {
                        assert(fields@.take(i + 1).drop_last() =~= fields@.take(i as int));
                        field_pairs(fields@.take(i as int)).to_multiset_ensures();
                        assert(decreases_to!(*self => self->Object_0));
                        assert(decreases_to!(*fields => fields@));
                        assert(decreases_to!(fields@ => fields@[i as int]));
                        assert(decreases_to!(fields@[i as int] => fields@[i as int].1));
                    }
                    let value = fields[i].1.render();
                    insert_pair(&mut pairs, (fields[i].0.clone(), value));
                    i += 1;
                }
                proof {
                    assert(fields@.take(i as int) =~= fields@);
                    lemma_pair_order_is_total();
                    field_pairs(fields@).lemma_sort_by_ensures(leq);
                    vstd::seq_lib::lemma_sorted_unique(pairs_of(pairs@), ordered(field_pairs(fields@)), leq);
                }
                let ghost lines = lines_of(pairs_of(pairs@));
                let mut out = String::new();
                out.push('{');
                let mut k: usize = 0;
                assert(lines.take(0) =~= Seq::empty());
                assert(out@ =~= seq!['{'] + joined(lines.take(0), seq![',']));
                while k < pairs.len()
                    invariant
                        k <= pairs@.len(),
                        lines == lines_of(pairs_of(pairs@)),
                        out@ == seq!['{'] + joined(lines.take(k as int), seq![',']),
                    decreases pairs@.len() - k,
                {
                    proof {
                        lemma_joined_push(lines.take(k as int), lines[k as int], seq![',']);
                        assert(lines.take(k as int).push(lines[k as int]) =~= lines.take(k + 1));
                    }
                    if k > 0 {
                        out.push(',');
                    }
                    let name = quote(pairs[k].0.as_str());
                    out.append(name.as_str());
                    out.push(':');
                    out.append(pairs[k].1.as_str());
                    assert(out@ =~= seq!['{'] + joined(lines.take(k + 1), seq![',']));
                    k += 1;
                }
                assert(lines.take(k as int) =~= lines);
                out.push('}');
                assert(out@ =~= json_text(*self));
                out
            },
        }
    }
}

/// Where a field of that name first stands, among the first `n`.
pub open spec fn field_index(fields: Seq<(String, Json)>, name: Seq<char>, n: int) -> Option<int>
    decreases n,
{
    if n <= 0 {
        None
    } else {
        match field_index(fields, name, n - 1) {
            Some(i) => Some(i),
            None => if fields[n - 1].0@ == name {
                Some(n - 1)
            } else {
                None
            },
        }
    }
}

/// The field of that name, where the value is an object that has one.
pub open spec fn field_of(j: Json, name: Seq<char>) -> Option<Json> {
    match j {
        Json::Object(fields) => match field_index(fields@, name, fields@.len() as int) {
            Some(i) => Some(fields@[i].1),
            None => None,
        },
        _ => None,
    }
}

impl Json {
    /// The field of that name, where the value is an object that has one.
    pub fn get(&self, name: &str) -> (r: Option<&Json>)
        ensures
            match field_of(*self, name@) {
                Some(j) => r == Some(&j),
                None => r is None,
            },
    {
        match self {
            Json::Object(fields) => {
                let mut i: usize = 0;
                while i < fields.len()
                    invariant
                        i <= fields@.len(),
                        *self == Json::Object(*fields),
                        field_index(fields@, name@, i as int) is None,
                    decreases fields@.len() - i,
                {
                    if same_text(fields[i].0.as_str(), name) {
                        proof {
                            lemma_first_field(fields@, name@, i as int, fields@.len() as int);
                        }
                        return Some(&fields[i].1);
                    }
                    i += 1;
                }
                None
            },
            _ => None,
        }
    }

    /// The whole number the value is, in either shape: a JSON number, or a string that spells one.
    pub fn as_whole(&self) -> (r: Option<i64>)
        ensures
            r == whole(*self),
    {
        match self {
            Json::Int(n) => Some(*n),
            Json::Text(s) => parse_whole(s.as_str()),
            _ => None,
        }
    }
}

/// The whole number a value is, in either shape: a JSON number, or a string that spells one.
pub open spec fn whole(j: Json) -> Option<i64> {
    match j {
        Json::Int(n) => Some(n),
        Json::Text(s) => whole_number(s@),
        _ => None,
    }
}

proof fn lemma_first_field(fields: Seq<(String, Json)>, name: Seq<char>, i: int, n: int)
    requires
        0 <= i < n,
        field_index(fields, name, i) is None,
        fields[i].0@ == name,
    ensures
        field_index(fields, name, n) == Some(i),
    decreases n - i,
{
    if n > i + 1 {
        lemma_first_field(fields, name, i, n - 1);
    }
}

/// A list of texts as compact JSON.
pub open spec fn json_names(names: Seq<Seq<char>>) -> Seq<char> {
    seq!['['] + joined(names.map_values(|n: Seq<char>| json_quoted(n)), seq![',']) + seq![']']
}

/// A list of texts as compact JSON.
pub fn names_to_json(names: &Vec<String>) -> (out: String)
    ensures
        out@ == json_names(texts(names@)),
{
    let mut out = String::new();
    out.push('[');
    let ghost parts = texts(names@).map_values(|n: Seq<char>| json_quoted(n));
    let mut i: usize = 0;
    assert(parts.take(0) =~= Seq::empty());
    while i < names.len()
        invariant
            i <= names@.len(),
            parts == texts(names@).map_values(|n: Seq<char>| json_quoted(n)),
            out@ == seq!['['] + joined(parts.take(i as int), seq![',']),
        decreases names@.len() - i,
    {
        proof {
            lemma_joined_push(parts.take(i as int), parts[i as int], seq![',']);
            assert(parts.take(i as int).push(parts[i as int]) =~= parts.take(i + 1));
        }
        if i > 0 {
            out.push(',');
        }
        let name = quote(names[i].as_str());
        out.append(name.as_str());
        assert(out@ =~= seq!['['] + joined(parts.take(i + 1), seq![',']));
        i += 1;
    }
    out.push(']');
    assert(parts.take(i as int) =~= parts);
    assert(out@ =~= json_names(texts(names@)));
    out
}

/// What a JSON pointer names in a JSON text, in compact JSON: what `serde_json::from_str` reads,
/// `Value::pointer` finds and `Value`'s own `Display` writes. Nothing where the text is not JSON, or
/// where the pointer names nothing in it.
pub uninterp spec fn pointed(text: Seq<char>, pointer: Seq<char>) -> Option<Seq<char>>;

/// `serde_json::from_str` into a `Value`, then `Value::pointer` and `to_string`: the compact JSON of what
/// the pointer names, where the text is JSON and has it. The result is a function of the two texts.
#[verifier::external_body]
pub(crate) fn json_pointed(text: &str, pointer: &str) -> (r: Option<String>)
    ensures
        match r {
            Some(s) => pointed(text@, pointer@) == Some(s@),
            None => pointed(text@, pointer@) is None,
        },
{
    let value: serde_json::Value = serde_json::from_str(text).ok()?;
    let found = value.pointer(pointer)?;
    Some(found.to_string())
}

/// The string a JSON pointer names in a JSON text, with its escapes undone: what `serde_json::from_str`
/// reads, `Value::pointer` finds and `Value::as_str` makes of it. Nothing where the text is not JSON, or
/// where the pointer names no string in it.
pub uninterp spec fn pointed_word(text: Seq<char>, pointer: Seq<char>) -> Option<Seq<char>>;

/// `serde_json::from_str` into a `Value`, then `Value::pointer` and `Value::as_str`: the string that the
/// pointer names, where the text is JSON and has one there. The result is a function of the two texts.
#[verifier::external_body]
pub(crate) fn json_word(text: &str, pointer: &str) -> (r: Option<String>)
    ensures
        match r {
            Some(s) => pointed_word(text@, pointer@) == Some(s@),
            None => pointed_word(text@, pointer@) is None,
        },
{
    let value: serde_json::Value = serde_json::from_str(text).ok()?;
    let found = value.pointer(pointer)?.as_str()?;
    Some(found.to_string())
}

/// A character is written as itself, but for quotes, backslashes and what cannot be printed, which are written
/// behind a backslash.
pub proof fn characters_are_escaped_where_they_must_be(c: char)
    ensures
        c as int >= 32 && c != '"' && c != '\\' ==> escaped(c) == seq![c],
        escaped('"') == seq!['\\', '"'],
        escaped('\\') == seq!['\\', '\\'],
        escaped('\n') == seq!['\\', 'n'],
        escaped('\t') == seq!['\\', 't'],
        escaped('\r') == seq!['\\', 'r'],
        escaped('\u{8}') == seq!['\\', 'b'],
        escaped('\u{c}') == seq!['\\', 'f'],
        escaped('\u{0}') == seq!['\\', 'u', '0', '0', '0', '0'],
        escaped('\u{b}') == seq!['\\', 'u', '0', '0', '0', 'b'],
        escaped('\u{1f}') == seq!['\\', 'u', '0', '0', '1', 'f'],
        (c as int) < 32 || c == '"' || c == '\\' ==> escaped(c).len() >= 2 && escaped(c)[0] == '\\',
{
}

/// What a hexadecimal digit stands for.
pub open spec fn hex_value(c: char) -> int {
    if '0' <= c <= '9' {
        c as int - '0' as int
    } else {
        c as int - 'a' as int + 10
    }
}

/// The character that an escape starts with, and how many characters it takes.
pub open spec fn unescaped(s: Seq<char>) -> (char, int) {
    if s[0] != '\\' {
        (s[0], 1)
    } else if s[1] == 'u' {
        ((hex_value(s[4]) * 16 + hex_value(s[5])) as char, 6)
    } else {
        (
            if s[1] == 'n' {
                '\n'
            } else if s[1] == 't' {
                '\t'
            } else if s[1] == 'r' {
                '\r'
            } else if s[1] == 'b' {
                '\u{8}'
            } else if s[1] == 'f' {
                '\u{c}'
            } else {
                s[1]
            },
            2,
        )
    }
}

/// What is escaped reads back, whatever follows it.
pub proof fn escapes_read_back(c: char, rest: Seq<char>)
    ensures
        unescaped(escaped(c) + rest) == (c, escaped(c).len() as int),
{
    let s = escaped(c) + rest;
    assert(s[0] == escaped(c)[0]);
    if escaped(c).len() > 1 {
        assert(s[1] == escaped(c)[1]);
    }
    if escaped(c).len() > 2 {
        assert(s[4] == escaped(c)[4]);
        assert(s[5] == escaped(c)[5]);
    }
}

/// A text is quoted character by character, between quotes.
pub proof fn texts_are_quoted_in_order(s: Seq<char>, c: char)
    ensures
        json_quoted(Seq::empty()) == seq!['"', '"'],
        json_quoted(s.push(c)) == json_quoted(s).drop_last() + escaped(c) + seq!['"'],
{
    assert(s.push(c).drop_last() =~= s);
    assert(json_quoted(Seq::empty()) =~= seq!['"', '"']);
    assert(json_quoted(s.push(c)) =~= json_quoted(s).drop_last() + escaped(c) + seq!['"']);
}

/// How values of each kind are written.
pub proof fn values_are_written_by_kind(n: i64, s: String, items: Vec<Json>, more: Vec<Json>, item: Json)
    requires
        more@ == items@.push(item),
    ensures
        json_text(Json::Null) == "null"@,
        json_text(Json::Bool(true)) == "true"@,
        json_text(Json::Bool(false)) == "false"@,
        json_text(Json::Int(n)) == int_text(n as int),
        json_text(Json::Number(s)) == s@,
        json_text(Json::Text(s)) == json_quoted(s@),
        items@.len() == 0 ==> json_text(Json::Array(items)) == seq!['[', ']'],
        items@.len() == 0 ==> json_text(Json::Array(more)) == seq!['['] + json_text(item) + seq![']'],
        items@.len() > 0 ==> json_text(Json::Array(more)) == json_text(Json::Array(items)).drop_last() + seq![',']
            + json_text(item) + seq![']'],
{
    lemma_item_texts(items@);
    assert(more@.drop_last() =~= items@);
    let c = seq![','];
    texts_are_joined_in_order(item_texts(items@), json_text(item), c);
    if items@.len() == 0 {
        assert(json_text(Json::Array(items)) =~= seq!['[', ']']);
        assert(item_texts(more@) =~= seq![json_text(item)]);
        assert(json_text(Json::Array(more)) =~= seq!['['] + json_text(item) + seq![']']);
    } else {
        assert(json_text(Json::Array(more)) =~= json_text(Json::Array(items)).drop_last() + c + json_text(item)
            + seq![']']);
    }
}

proof fn lemma_item_texts(items: Seq<Json>)
    ensures
        item_texts(items).len() == items.len(),
    decreases items.len(),
{
    if items.len() > 0 {
        lemma_item_texts(items.drop_last());
    }
}

/// The fields of an object are written as they are, by name in order: each as its quoted name, a colon and
/// its value.
pub proof fn fields_are_written_by_name(fields: Seq<(String, Json)>, i: int, j: int)
    ensures
        field_pairs(fields).len() == fields.len(),
        0 <= i < fields.len() ==> field_pairs(fields)[i] == (fields[i].0@, json_text(fields[i].1)),
        ordered(field_pairs(fields)).to_multiset() == field_pairs(fields).to_multiset(),
        0 <= i < j < ordered(field_pairs(fields)).len() ==> text_le(
            ordered(field_pairs(fields))[i].0,
            ordered(field_pairs(fields))[j].0,
        ),
        0 <= i < ordered(field_pairs(fields)).len() ==> lines_of(ordered(field_pairs(fields)))[i] == json_quoted(
            ordered(field_pairs(fields))[i].0,
        ) + seq![':'] + ordered(field_pairs(fields))[i].1,
{
    lemma_field_pairs(fields, i);
    let pairs = field_pairs(fields);
    let le = |a: (Seq<char>, Seq<char>), b: (Seq<char>, Seq<char>)| pair_le(a, b);
    lemma_pair_order_is_total();
    pairs.lemma_sort_by_ensures(le);
    if 0 <= i < j < ordered(pairs).len() {
        assert(le(ordered(pairs)[i], ordered(pairs)[j]));
        first_difference_decides(ordered(pairs)[i].0, ordered(pairs)[i].0, ordered(pairs)[i].0.len() as int);
    }
}

proof fn lemma_field_pairs(fields: Seq<(String, Json)>, i: int)
    ensures
        field_pairs(fields).len() == fields.len(),
        0 <= i < fields.len() ==> field_pairs(fields)[i] == (fields[i].0@, json_text(fields[i].1)),
    decreases fields.len(),
{
    if fields.len() > 0 {
        lemma_field_pairs(fields.drop_last(), i);
    }
}

/// A field is the first of its name; what is no object has none.
pub proof fn field_is_the_first_of_its_name(fields: Vec<(String, Json)>, name: Seq<char>, i: int)
    requires
        0 <= i < fields@.len(),
        forall|k: int| 0 <= k < i ==> (#[trigger] fields@[k]).0@ != name,
    ensures
        fields@[i].0@ == name ==> field_of(Json::Object(fields), name) == Some(fields@[i].1),
        fields@[i].0@ != name && i == fields@.len() - 1 ==> field_of(Json::Object(fields), name) is None,
{
    lemma_no_field(fields@, name, i);
    if fields@[i].0@ == name {
        lemma_field_stays(fields@, name, i + 1, fields@.len() as int);
    }
}

proof fn lemma_no_field(fields: Seq<(String, Json)>, name: Seq<char>, n: int)
    requires
        n <= fields.len(),
        forall|k: int| 0 <= k < n ==> (#[trigger] fields[k]).0@ != name,
    ensures
        field_index(fields, name, n) is None,
    decreases n,
{
    if n > 0 {
        lemma_no_field(fields, name, n - 1);
    }
}

proof fn lemma_field_stays(fields: Seq<(String, Json)>, name: Seq<char>, n: int, m: int)
    requires
        n <= m,
        field_index(fields, name, n) is Some,
    ensures
        field_index(fields, name, m) == field_index(fields, name, n),
    decreases m - n,
{
    if n < m {
        lemma_field_stays(fields, name, n, m - 1);
    }
}

/// Only objects that have fields have a field.
pub proof fn nothing_else_has_fields(j: Json, fields: Vec<(String, Json)>, name: Seq<char>)
    requires
        fields@.len() == 0,
    ensures
        !(j is Object) ==> field_of(j, name) is None,
        field_of(Json::Object(fields), name) is None,
{
}

/// A number reads as itself and a text as the number it spells; nothing else is a whole number.
pub proof fn numbers_and_texts_read_as_numbers(j: Json, n: i64, s: String)
    ensures
        whole(Json::Int(n)) == Some(n),
        s@ == int_text(n as int) ==> whole(Json::Text(s)) == Some(n),
        !(j is Int) && !(j is Text) ==> whole(j) is None,
        whole(Json::Text(s)) == whole_number(s@),
{
    decimal_reads_back(n);
}

/// A list of names is written in brackets, each name quoted.
pub proof fn names_are_written_in_brackets(names: Seq<Seq<char>>, name: Seq<char>)
    ensures
        json_names(Seq::empty()) == seq!['[', ']'],
        json_names(seq![name]) == seq!['['] + json_quoted(name) + seq![']'],
        names.len() > 0 ==> json_names(names.push(name)) == json_names(names).drop_last() + seq![','] + json_quoted(
            name,
        ) + seq![']'],
{
    let q = |n: Seq<char>| json_quoted(n);
    let c = seq![','];
    assert(Seq::<Seq<char>>::empty().map_values(q) =~= Seq::empty());
    assert(json_names(Seq::empty()) =~= seq!['[', ']']);
    assert(seq![name].map_values(q) =~= seq![json_quoted(name)]);
    texts_are_joined_in_order(names.map_values(q), json_quoted(name), c);
    assert(json_names(seq![name]) =~= seq!['['] + json_quoted(name) + seq![']']);
    assert(names.push(name).map_values(q) =~= names.map_values(q).push(json_quoted(name)));
    if names.len() > 0 {
        assert(json_names(names.push(name)) =~= json_names(names).drop_last() + c + json_quoted(name) + seq![']']);
    }
}

/// An object is written in braces, its fields with commas between them.
pub proof fn objects_are_written_in_braces(fields: Vec<(String, Json)>)
    ensures
        fields@.len() == 0 ==> json_text(Json::Object(fields)) == seq!['{', '}'],
        fields@.len() == 1 ==> json_text(Json::Object(fields)) == seq!['{'] + json_quoted(fields@[0].0@) + seq![':']
            + json_text(fields@[0].1) + seq!['}'],
        json_text(Json::Object(fields))[0] == '{',
        json_text(Json::Object(fields)).last() == '}',
        json_text(Json::Object(fields)).drop_first().drop_last() == joined(
            lines_of(ordered(field_pairs(fields@))),
            seq![','],
        ),
{
    let pairs = field_pairs(fields@);
    let le = |a: (Seq<char>, Seq<char>), b: (Seq<char>, Seq<char>)| pair_le(a, b);
    lemma_field_pairs(fields@, 0);
    lemma_pair_order_is_total();
    pairs.lemma_sort_by_ensures(le);
    vstd::seq_lib::to_multiset_len(pairs);
    vstd::seq_lib::to_multiset_len(ordered(pairs));
    let lines = lines_of(ordered(pairs));
    let c = seq![','];
    let text = json_text(Json::Object(fields));
    assert(text.drop_first().drop_last() =~= joined(lines, c));
    if fields@.len() == 0 {
        assert(text =~= seq!['{', '}']);
    } else if fields@.len() == 1 {
        assert(ordered(pairs) =~= pairs) by {
            assert(ordered(pairs).to_multiset().contains(ordered(pairs)[0])) by {
                broadcast use vstd::seq_lib::group_to_multiset_ensures;

                assert(ordered(pairs).contains(ordered(pairs)[0]));
            }
            broadcast use vstd::seq_lib::group_to_multiset_ensures;

            assert(pairs.contains(ordered(pairs)[0]));
        }
        let line = json_quoted(pairs[0].0) + seq![':'] + pairs[0].1;
        assert(lines =~= seq![line]);
        texts_are_joined_in_order(Seq::empty(), line, c);
        assert(text =~= seq!['{'] + line + seq!['}']);
        assert(seq!['{'] + line =~= seq!['{'] + json_quoted(fields@[0].0@) + seq![':'] + json_text(fields@[0].1));
    }
}

} // verus!
