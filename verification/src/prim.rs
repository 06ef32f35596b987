//! Conversations with a program that answers one JSON object per command line.
//!
//! A script is a text. Its first line says what the conversation is about. A line that starts with
//! `> ` is a command to send. One that starts with `< ` sends a command with what an answer said at its
//! end: the number of that answer, counted from one, the field, and the command, with spaces between them.
//! Any other line is about an answer: that to the command before it, or, after `@ `, a number and a name,
//! the one with that number, under that name.
//!
//! Such a line demands something of the answer: a mark, a field, what is demanded of it, and how the
//! report names it, with ` | ` between the last three. The marks are `=`, the field is this; `!`, it is
//! not; `+`, it is this number or more; `$`, it is this list of texts; `%`, it is this list of numbers;
//! `^`, the numbers in it are these; `?`, it is a list in which this text stands; `/`, it is a list in
//! which no text holds this; `*`, it is a list in which so many texts are this one; `:`, it is a list in
//! which so many texts begin with this. Behind `?` and `/` stand the text, ` ; `, and the claim in words.
//!
//! `~` demands nothing but that the field has the shape of what stands there: a number, `true` or
//! `false`, a text, a list of texts, or, for `[0]`, a list of numbers. `&` demands the same, and puts the field on a pile; `#` demands
//! that the pile is this list, and clears it.
//!
//! Where something does not hold by the line `. stop`, everything up to the line `. go` is passed over.
use vstd::prelude::*;
use crate::check::{
    all_hold, is_at_least, is_bool, is_int, is_text, is_that, text_fact, Check, Demand, Fact, Ruling, Truth,
    Verdict,
};
use crate::json::{field_of, json_names, json_quoted, json_text, names_to_json, whole, Json};
use crate::steps::{int_list, whole_list};
use crate::text::{
    decimal_reads_back, int_list_text, int_list_to_text, int_text, int_to_text, is_digit, join_texts, joined,
    lemma_nat_text_digits, nat_text, numbers_are_runs_of_digits, parse_whole, same_text, texts,
    texts_are_joined_in_order, whole_number,
};

verus! {

/// Where a character first stands in a text, from `i` on.
pub open spec fn first_at(s: Seq<char>, c: char, i: int) -> int
    decreases s.len() - i,
{
    if i >= s.len() || s[i] == c {
        i
    } else {
        first_at(s, c, i + 1)
    }
}

/// The lines of a text, from `i` on.
pub open spec fn lines_from(s: Seq<char>, i: int) -> Seq<Seq<char>>
    decreases s.len() - i,
{
    let end = first_at(s, '\n', i);
    if i > s.len() || i < 0 {
        Seq::empty()
    } else if end >= s.len() {
        seq![s.skip(i)]
    } else {
        proof {
            lemma_first_at(s, '\n', i);
        }
        seq![s.subrange(i, end)] + lines_from(s, end + 1)
    }
}

pub proof fn lemma_first_at(s: Seq<char>, c: char, i: int)
    requires
        0 <= i <= s.len(),
    ensures
        i <= first_at(s, c, i) <= s.len(),
        first_at(s, c, i) < s.len() ==> s[first_at(s, c, i)] == c,
    decreases s.len() - i,
{
    if i < s.len() && s[i] != c {
        lemma_first_at(s, c, i + 1);
    }
}

/// Where a character first stands in a text, from `i` on.
pub(crate) fn find_char(s: &str, c: char, i: usize, n: usize) -> (r: usize)
    requires
        n == s@.len(),
        i <= n,
    ensures
        r == first_at(s@, c, i as int),
        i <= r <= n,
        r < n ==> s@[r as int] == c,
{
    let mut k: usize = i;
    while k < n && s.get_char(k) != c
        invariant
            n == s@.len(),
            i <= k <= n,
            first_at(s@, c, i as int) == first_at(s@, c, k as int),
        decreases n - k,
    {
        k += 1;
    }
    k
}

/// The lines of a text.
pub fn split_lines(s: &str) -> (r: Vec<String>)
    ensures
        texts(r@) == lines_from(s@, 0),
{
    let n: usize = s.unicode_len();
    let mut lines: Vec<String> = Vec::new();
    let mut i: usize = 0;
    assert(texts(lines@) + lines_from(s@, 0) =~= lines_from(s@, 0));
    loop
        invariant
            n == s@.len(),
            i <= n,
            texts(lines@) + lines_from(s@, i as int) == lines_from(s@, 0),
        decreases n - i,
    {
        let end: usize = find_char(s, '\n', i, n);
        let ghost before = texts(lines@);
        let line = s.substring_char(i, end);
        lines.push(String::from_str(line));
        assert(texts(lines@) =~= before.push(line@));
        if end >= n {
            assert(line@ =~= s@.skip(i as int));
            assert(texts(lines@) =~= before + lines_from(s@, i as int));
            return lines;
        }
        assert(texts(lines@) + lines_from(s@, end + 1) =~= before + lines_from(s@, i as int));
        i = end + 1;
    }
}

/// What is demanded of a field.
#[derive(Clone, Copy, Debug, PartialEq, Eq, Structural)]
pub enum Mark {
    Is,
    IsNot,
    AtLeast,
    Texts,
    Ints,
    Numbers,
    Has,
    Lacks,
    Counts,
    Begins,
    Shape,
    Gather,
    Pile,
}

/// What a line of a script asks for.
pub enum Line {
    /// Send this command.
    Send(Seq<char>),
    /// Send this command, with what that field of that answer says at its end.
    SendWith { answer: nat, field: Seq<char>, command: Seq<char> },
    /// What follows is about that answer, which is called so.
    About { answer: nat, name: Seq<char> },
    /// This is demanded of the field of the answer; the report calls it by that path.
    Want { mark: Mark, field: Seq<char>, want: Seq<char>, path: Seq<char> },
    /// Pass over what follows, where something does not hold by now.
    Stop,
    /// Pass over nothing from here on.
    Go,
    /// Nothing.
    Blank,
}

/// The mark that a character stands for.
pub open spec fn mark_of(c: char) -> Option<Mark> {
    match c {
        '=' => Some(Mark::Is),
        '!' => Some(Mark::IsNot),
        '+' => Some(Mark::AtLeast),
        '$' => Some(Mark::Texts),
        '%' => Some(Mark::Ints),
        '^' => Some(Mark::Numbers),
        '?' => Some(Mark::Has),
        '/' => Some(Mark::Lacks),
        '*' => Some(Mark::Counts),
        ':' => Some(Mark::Begins),
        '~' => Some(Mark::Shape),
        '&' => Some(Mark::Gather),
        '#' => Some(Mark::Pile),
        _ => None,
    }
}

/// The mark that a character stands for.
fn read_mark(c: char) -> (r: Option<Mark>)
    ensures
        r == mark_of(c),
{
    match c {
        '=' => Some(Mark::Is),
        '!' => Some(Mark::IsNot),
        '+' => Some(Mark::AtLeast),
        '$' => Some(Mark::Texts),
        '%' => Some(Mark::Ints),
        '^' => Some(Mark::Numbers),
        '?' => Some(Mark::Has),
        '/' => Some(Mark::Lacks),
        '*' => Some(Mark::Counts),
        ':' => Some(Mark::Begins),
        '~' => Some(Mark::Shape),
        '&' => Some(Mark::Gather),
        '#' => Some(Mark::Pile),
        _ => None,
    }
}

/// A number, and what stands behind the space after it.
pub open spec fn numbered(s: Seq<char>) -> Option<(nat, Seq<char>)> {
    let gap = first_at(s, ' ', 0);
    match whole_number(s.take(gap)) {
        Some(n) => if gap < s.len() && n >= 0 {
            Some((n as nat, s.skip(gap + 1)))
        } else {
            None
        },
        None => None,
    }
}

/// A number, and what stands behind the space after it.
fn read_numbered<'a>(s: &'a str) -> (r: Option<(u64, &'a str)>)
    ensures
        match numbered(s@) {
            Some((n, rest)) => r is Some && (r->0).0 == n && (r->0).1@ == rest,
            None => r is None,
        },
{
    let n: usize = s.unicode_len();
    let gap: usize = find_char(s, ' ', 0, n);
    let number = s.substring_char(0, gap);
    assert(number@ =~= s@.take(gap as int));
    match parse_whole(number) {
        Some(k) => if gap < n && k >= 0 {
            let rest = s.substring_char(gap + 1, n);
            assert(rest@ =~= s@.skip(gap + 1));
            Some((k as u64, rest))
        } else {
            None
        },
        None => None,
    }
}

/// What a line of a script asks for.
pub open spec fn line_of(s: Seq<char>) -> Line {
    if s.len() < 2 || s[1] != ' ' {
        Line::Blank
    } else if s[0] == '>' {
        Line::Send(s.skip(2))
    } else if s[0] == '@' {
        match numbered(s.skip(2)) {
            Some((answer, name)) => Line::About { answer, name },
            None => Line::Blank,
        }
    } else if s[0] == '<' {
        match numbered(s.skip(2)) {
            Some((answer, rest)) => {
                let gap = first_at(rest, ' ', 0);
                if gap < rest.len() {
                    Line::SendWith { answer, field: rest.take(gap), command: rest.skip(gap + 1) }
                } else {
                    Line::Blank
                }
            },
            None => Line::Blank,
        }
    } else if s[0] == '.' {
        if s.skip(2) == "stop"@ {
            Line::Stop
        } else if s.skip(2) == "go"@ {
            Line::Go
        } else {
            Line::Blank
        }
    } else {
        let a = first_at(s, '|', 2);
        let b = first_at(s, '|', a + 1);
        if mark_of(s[0]) is Some && 3 <= a && a + 3 <= b && b + 2 <= s.len() {
            Line::Want {
                mark: mark_of(s[0])->0,
                field: s.subrange(2, a - 1),
                want: s.subrange(a + 2, b - 1),
                path: s.skip(b + 2),
            }
        } else {
            Line::Blank
        }
    }
}

/// A line of a script, as it is read.
pub enum ScriptLine {
    Send(String),
    SendWith { answer: u64, field: String, command: String },
    About { answer: u64, name: String },
    Want { mark: Mark, field: String, want: String, path: String },
    Stop,
    Go,
    Blank,
}

impl View for ScriptLine {
    type V = Line;

    open spec fn view(&self) -> Line {
        match self {
            ScriptLine::Send(command) => Line::Send(command@),
            ScriptLine::SendWith { answer, field, command } => Line::SendWith {
                answer: *answer as nat,
                field: field@,
                command: command@,
            },
            ScriptLine::About { answer, name } => Line::About { answer: *answer as nat, name: name@ },
            ScriptLine::Want { mark, field, want, path } => Line::Want {
                mark: *mark,
                field: field@,
                want: want@,
                path: path@,
            },
            ScriptLine::Stop => Line::Stop,
            ScriptLine::Go => Line::Go,
            ScriptLine::Blank => Line::Blank,
        }
    }
}

/// Reads one line of a script.
pub fn read_line(s: &str) -> (r: ScriptLine)
    ensures
        r@ == line_of(s@),
{
    let n: usize = s.unicode_len();
    if n < 2 || s.get_char(1) != ' ' {
        return ScriptLine::Blank;
    }
    let first = s.get_char(0);
    let rest = s.substring_char(2, n);
    assert(rest@ =~= s@.skip(2));
    if first == '>' {
        return ScriptLine::Send(String::from_str(rest));
    }
    if first == '@' {
        return match read_numbered(rest) {
            Some((answer, name)) => ScriptLine::About { answer, name: String::from_str(name) },
            None => ScriptLine::Blank,
        };
    }
    if first == '<' {
        return match read_numbered(rest) {
            Some((answer, rest)) => {
                let m: usize = rest.unicode_len();
                let gap: usize = find_char(rest, ' ', 0, m);
                if gap < m {
                    let field = rest.substring_char(0, gap);
                    let command = rest.substring_char(gap + 1, m);
                    assert(field@ =~= rest@.take(gap as int));
                    assert(command@ =~= rest@.skip(gap + 1));
                    ScriptLine::SendWith {
                        answer,
                        field: String::from_str(field),
                        command: String::from_str(command),
                    }
                } else {
                    ScriptLine::Blank
                }
            },
            None => ScriptLine::Blank,
        };
    }
    if first == '.' {
        return if same_text(rest, "stop") {
            ScriptLine::Stop
        } else if same_text(rest, "go") {
            ScriptLine::Go
        } else {
            ScriptLine::Blank
        };
    }
    let mark = match read_mark(first) {
        Some(mark) => mark,
        None => {
            return ScriptLine::Blank;
        },
    };
    let a: usize = find_char(s, '|', 2, n);
    if a >= n {
        assert(first_at(s@, '|', a + 1) == a + 1);
        return ScriptLine::Blank;
    }
    let b: usize = find_char(s, '|', a + 1, n);
    if a < 3 || b - a < 3 || n - b < 2 {
        return ScriptLine::Blank;
    }
    let path = s.substring_char(b + 2, n);
    assert(path@ =~= s@.skip(b + 2));
    ScriptLine::Want {
        mark,
        field: String::from_str(s.substring_char(2, a - 1)),
        want: String::from_str(s.substring_char(a + 2, b - 1)),
        path: String::from_str(path),
    }
}

/// What the lines of a script ask for, after the one that names its subject.
pub open spec fn script_of(text: Seq<char>) -> Seq<Line> {
    lines_from(text, 0).skip(1).map_values(|s: Seq<char>| line_of(s))
}

/// What the conversation is about.
pub open spec fn subject_of(text: Seq<char>) -> Seq<char> {
    lines_from(text, 0)[0]
}

/// The commands among some lines, in order.
pub open spec fn sent(lines: Seq<Line>) -> Seq<Seq<char>>
    decreases lines.len(),
{
    if lines.len() == 0 {
        Seq::empty()
    } else {
        match lines.last() {
            Line::Send(command) => sent(lines.drop_last()).push(command),
            _ => sent(lines.drop_last()),
        }
    }
}

/// The commands of a script, in the order they are sent.
pub fn commands(text: &str) -> (r: Vec<String>)
    ensures
        texts(r@) == sent(script_of(text@)),
{
    let lines = split_lines(text);
    let mut out: Vec<String> = Vec::new();
    let ghost script = script_of(text@);
    let mut i: usize = 1;
    proof {
        lemma_some_line(text@);
        assert(lines@.len() == texts(lines@).len());
        assert(script.take(0) =~= Seq::empty());
        assert(texts(out@) =~= sent(script.take(0)));
    }
    while i < lines.len()
        invariant
            1 <= i <= lines@.len(),
            texts(lines@) == lines_from(text@, 0),
            script == script_of(text@),
            script.len() == lines@.len() - 1,
            texts(out@) == sent(script.take(i - 1)),
        decreases lines@.len() - i,
    {
        let ghost before = texts(out@);
        proof {
            assert(script.take(i as int).drop_last() =~= script.take(i - 1));
            assert(script[i - 1] == line_of(texts(lines@)[i as int]));
        }
        if let ScriptLine::Send(command) = read_line(lines[i].as_str()) {
            out.push(command);
            assert(texts(out@) =~= before.push(command@));
        }
        i += 1;
    }
    assert(script.take(i - 1) =~= script);
    out
}

proof fn lemma_some_line(s: Seq<char>)
    ensures
        lines_from(s, 0).len() > 0,
{
}

/// The field of an answer; behind a dot stands the field of a field.
pub open spec fn lookup(answer: Json, field: Seq<char>) -> Option<Json> {
    let dot = first_at(field, '.', 0);
    if dot < field.len() {
        match field_of(answer, field.take(dot)) {
            Some(inner) => field_of(inner, field.skip(dot + 1)),
            None => None,
        }
    } else {
        field_of(answer, field)
    }
}

/// The field of an answer; behind a dot stands the field of a field.
pub fn look_up<'a>(answer: &'a Json, field: &str) -> (r: Option<&'a Json>)
    ensures
        match lookup(*answer, field@) {
            Some(j) => r == Some(&j),
            None => r is None,
        },
{
    let n: usize = field.unicode_len();
    let dot: usize = find_char(field, '.', 0, n);
    if dot < n {
        let outer = field.substring_char(0, dot);
        let inner = field.substring_char(dot + 1, n);
        assert(outer@ =~= field@.take(dot as int));
        assert(inner@ =~= field@.skip(dot + 1));
        match answer.get(outer) {
            Some(j) => j.get(inner),
            None => None,
        }
    } else {
        answer.get(field)
    }
}

/// The texts of a JSON array that holds nothing else.
pub open spec fn text_items(items: Seq<Json>) -> Option<Seq<Seq<char>>>
    decreases items.len(),
{
    if items.len() == 0 {
        Some(Seq::empty())
    } else {
        match (text_items(items.drop_last()), items.last()) {
            (Some(before), Json::Text(s)) => Some(before.push(s@)),
            _ => None,
        }
    }
}

/// The texts of a JSON array that holds nothing else.
fn read_texts(items: &Vec<Json>) -> (r: Option<Vec<String>>)
    ensures
        match text_items(items@) {
            Some(all) => r is Some && texts(r->0@) == all,
            None => r is None,
        },
{
    let mut out: Vec<String> = Vec::new();
    let mut i: usize = 0;
    assert(items@.take(0) =~= Seq::empty());
    assert(texts(out@) =~= Seq::<Seq<char>>::empty());
    while i < items.len()
        invariant
            i <= items@.len(),
            text_items(items@.take(i as int)) == Some(texts(out@)),
        decreases items@.len() - i,
    {
        let ghost before = texts(out@);
        assert(items@.take(i + 1).drop_last() =~= items@.take(i as int));
        match &items[i] {
            Json::Text(s) => {
                out.push(s.clone());
                assert(texts(out@) =~= before.push(s@));
            },
            _ => {
                proof {
                    lemma_text_items_stop(items@, i + 1, items@.len() as int);
                    assert(items@.take(items@.len() as int) =~= items@);
                }
                return None;
            },
        }
        i += 1;
    }
    assert(items@.take(i as int) =~= items@);
    Some(out)
}

proof fn lemma_text_items_stop(items: Seq<Json>, i: int, n: int)
    requires
        0 <= i <= n <= items.len(),
        text_items(items.take(i)) is None,
    ensures
        text_items(items.take(n)) is None,
    decreases n - i,
{
    if i < n {
        lemma_text_items_stop(items, i, n - 1);
        assert(items.take(n).drop_last() =~= items.take(n - 1));
    }
}

/// A text holds another from `i` on.
pub open spec fn holds_from(s: Seq<char>, part: Seq<char>, i: int) -> bool
    decreases s.len() + 1 - i,
{
    if i + part.len() > s.len() {
        false
    } else {
        s.subrange(i, i + part.len()) == part || holds_from(s, part, i + 1)
    }
}

fn holds(s: &str, part: &str) -> (r: bool)
    ensures
        r == holds_from(s@, part@, 0),
{
    let n: usize = s.unicode_len();
    let m: usize = part.unicode_len();
    if m > n {
        return false;
    }
    let mut i: usize = 0;
    loop
        invariant
            n == s@.len(),
            m == part@.len(),
            m <= n,
            i <= n - m,
            holds_from(s@, part@, 0) == holds_from(s@, part@, i as int),
        decreases n - m - i,
    {
        if same_text(s.substring_char(i, i + m), part) {
            return true;
        }
        if i == n - m {
            assert(!holds_from(s@, part@, i + 1));
            return false;
        }
        i += 1;
    }
}

/// How a text stands to another.
#[derive(Clone, Copy, Debug, PartialEq, Eq, Structural)]
pub enum How {
    Is,
    Begins,
    Holds,
}

/// Whether a text is another, begins with it or holds it.
pub open spec fn stands(how: How, s: Seq<char>, part: Seq<char>) -> bool {
    match how {
        How::Is => s == part,
        How::Begins => part.len() <= s.len() && s.take(part.len() as int) == part,
        How::Holds => holds_from(s, part, 0),
    }
}

/// Whether a text is another, begins with it or holds it.
fn stands_so(how: How, s: &str, part: &str) -> (r: bool)
    ensures
        r == stands(how, s@, part@),
{
    match how {
        How::Is => same_text(s, part),
        How::Begins => {
            let n: usize = s.unicode_len();
            let m: usize = part.unicode_len();
            if m > n {
                return false;
            }
            let front = s.substring_char(0, m);
            assert(front@ =~= s@.take(m as int));
            same_text(front, part)
        },
        How::Holds => holds(s, part),
    }
}

/// How many of some texts stand so to another.
pub open spec fn count_of(how: How, all: Seq<Seq<char>>, part: Seq<char>) -> nat
    decreases all.len(),
{
    if all.len() == 0 {
        0
    } else {
        count_of(how, all.drop_last(), part) + if stands(how, all.last(), part) {
            1nat
        } else {
            0
        }
    }
}

/// How many of some texts stand so to another.
fn count_texts(how: How, all: &Vec<String>, part: &str) -> (count: usize)
    ensures
        count == count_of(how, texts(all@), part@),
{
    let mut count: usize = 0;
    let mut i: usize = 0;
    assert(texts(all@).take(0) =~= Seq::empty());
    while i < all.len()
        invariant
            i <= all@.len(),
            count <= i,
            count == count_of(how, texts(all@).take(i as int), part@),
        decreases all@.len() - i,
    {
        assert(texts(all@).take(i + 1).drop_last() =~= texts(all@).take(i as int));
        if stands_so(how, all[i].as_str(), part) {
            count += 1;
        }
        i += 1;
    }
    assert(texts(all@).take(i as int) =~= texts(all@));
    count
}

/// The list of texts a field is.
pub open spec fn text_list(answer: Json, field: Seq<char>) -> Option<Seq<Seq<char>>> {
    match lookup(answer, field) {
        Some(Json::Array(items)) => text_items(items@),
        _ => None,
    }
}

/// The list of texts a field is.
fn read_text_list(answer: &Json, field: &str) -> (r: Option<Vec<String>>)
    ensures
        match text_list(*answer, field@) {
            Some(all) => r is Some && texts(r->0@) == all,
            None => r is None,
        },
{
    match look_up(answer, field) {
        Some(Json::Array(items)) => read_texts(items),
        _ => None,
    }
}

/// A field in compact JSON, where it has the shape of a sample: a whole number in either shape, `true` or
/// `false`, a string, a list of whole numbers, or else a list of strings.
pub open spec fn shaped(answer: Json, field: Seq<char>, sample: Seq<char>) -> Option<Seq<char>> {
    if whole_number(sample) is Some {
        match whole_field(answer, field) {
            Some(n) => Some(int_text(n as int)),
            None => None,
        }
    } else if sample == "true"@ || sample == "false"@ {
        match lookup(answer, field) {
            Some(Json::Bool(b)) => Some(
                if b {
                    "true"@
                } else {
                    "false"@
                },
            ),
            _ => None,
        }
    } else if sample.len() > 0 && sample[0] == '"' {
        match lookup(answer, field) {
            Some(Json::Text(s)) => Some(json_quoted(s@)),
            _ => None,
        }
    } else if sample == "[0]"@ {
        match whole_list(answer, field) {
            Some(ns) => Some(int_list_text(ns)),
            None => None,
        }
    } else {
        match text_list(answer, field) {
            Some(all) => Some(json_names(all)),
            None => None,
        }
    }
}

/// A field in compact JSON, where it has the shape of a sample.
fn read_shaped(answer: &Json, field: &str, sample: &str) -> (r: Option<String>)
    ensures
        match shaped(*answer, field@, sample@) {
            Some(s) => r is Some && r->0@ == s,
            None => r is None,
        },
{
    let found = look_up(answer, field);
    if parse_whole(sample).is_some() {
        if let Some(j) = found {
            if let Some(n) = j.as_whole() {
                return Some(int_to_text(n));
            }
        }
        return None;
    }
    if same_text(sample, "true") || same_text(sample, "false") {
        return match found {
            Some(Json::Bool(b)) => Some(
                if *b {
                    String::from_str("true")
                } else {
                    String::from_str("false")
                },
            ),
            _ => None,
        };
    }
    if sample.unicode_len() > 0 && sample.get_char(0) == '"' {
        if let Some(j) = found {
            if let Json::Text(s) = j {
                let got = j.render();
                assert(got@ == json_quoted(s@));
                return Some(got);
            }
        }
        return None;
    }
    if same_text(sample, "[0]") {
        return match int_list(answer, field) {
            Ok(ns) => Some(int_list_to_text(ns.as_slice())),
            Err(_) => None,
        };
    }
    match read_text_list(answer, field) {
        Some(all) => Some(names_to_json(&all)),
        None => None,
    }
}

/// A text, and the claim in words behind ` ; `.
pub open spec fn worded(want: Seq<char>) -> Option<(Seq<char>, Seq<char>)> {
    let cut = first_at(want, ';', 0);
    if 1 <= cut && cut + 2 <= want.len() {
        Some((want.take(cut - 1), want.skip(cut + 2)))
    } else {
        None
    }
}

/// A text, and the claim in words behind ` ; `.
fn read_worded<'a>(want: &'a str) -> (r: Option<(&'a str, &'a str)>)
    ensures
        match worded(want@) {
            Some((part, words)) => r is Some && (r->0).0@ == part && (r->0).1@ == words,
            None => r is None,
        },
{
    let n: usize = want.unicode_len();
    let cut: usize = find_char(want, ';', 0, n);
    if cut < 1 || n - cut < 2 {
        return None;
    }
    let part = want.substring_char(0, cut - 1);
    let words = want.substring_char(cut + 2, n);
    assert(part@ =~= want@.take(cut - 1));
    assert(words@ =~= want@.skip(cut + 2));
    Some((part, words))
}

/// What the report says of a field that is demanded to be this: a whole number in either shape, `true` or
/// `false`, a string, or else whatever JSON value it is, a missing one being `null`; or nothing where the
/// field has not the shape.
pub open spec fn is_reading(answer: Json, field: Seq<char>, want: Seq<char>, path: Seq<char>) -> Option<Ruling> {
    if whole_number(want) is Some {
        match whole_field(answer, field) {
            Some(n) => Some(is_int(path, whole_number(want)->0 as int, n as int)),
            None => None,
        }
    } else if want == "true"@ || want == "false"@ {
        match lookup(answer, field) {
            Some(Json::Bool(b)) => Some(is_bool(path, want == "true"@, b)),
            _ => None,
        }
    } else if want.len() > 0 && want[0] == '"' {
        match lookup(answer, field) {
            Some(Json::Text(s)) => Some(is_text(path, want, json_quoted(s@))),
            _ => None,
        }
    } else {
        Some(is_text(path, want, raw_text(answer, field)))
    }
}

/// What the report says of a field that is demanded to be a list so.
pub open spec fn list_reading(
    mark: Mark,
    all: Seq<Seq<char>>,
    want: Seq<char>,
    path: Seq<char>,
) -> Option<Ruling> {
    match mark {
        Mark::Texts => Some(is_text(path, want, json_names(all))),
        Mark::Has => match worded(want) {
            Some((part, words)) => Some(is_that(path, words, all.contains(part), Truth::Texts(all))),
            None => None,
        },
        Mark::Lacks => match worded(want) {
            Some((part, words)) => Some(
                is_that(path, words, count_of(How::Holds, all, part) == 0, Truth::Texts(all)),
            ),
            None => None,
        },
        Mark::Counts => match numbered(want) {
            Some((n, part)) => Some(is_int(path, n as int, count_of(How::Is, all, part) as int)),
            None => None,
        },
        Mark::Begins => match numbered(want) {
            Some((n, part)) => Some(is_int(path, n as int, count_of(How::Begins, all, part) as int)),
            None => None,
        },
        _ => None,
    }
}

/// What the report says of a field of which this is demanded, or nothing where the field has not the
/// shape the demand asks for.
pub open spec fn reading(
    mark: Mark,
    answer: Json,
    field: Seq<char>,
    want: Seq<char>,
    path: Seq<char>,
) -> Option<Ruling> {
    match mark {
        Mark::Is => is_reading(answer, field, want, path),
        Mark::IsNot => match lookup(answer, field) {
            Some(Json::Text(s)) => Some(
                Ruling {
                    path,
                    demand: Demand::IsNot(Truth::Text(want)),
                    got: Truth::Text(json_quoted(s@)),
                },
            ),
            _ => None,
        },
        Mark::AtLeast => match (whole_number(want), whole_field(answer, field)) {
            (Some(least), Some(n)) => Some(is_at_least(path, least as int, n as int)),
            _ => None,
        },
        Mark::Ints => match whole_list(answer, field) {
            Some(ns) => Some(is_text(path, want, int_list_text(ns))),
            None => None,
        },
        Mark::Numbers => Some(is_text(path, want, int_list_text(loose_ints(answer, field)))),
        _ => match text_list(answer, field) {
            Some(all) => list_reading(mark, all, want, path),
            None => None,
        },
    }
}

/// The report has got what it says of the field, or nothing where the field is not shaped so.
pub open spec fn ruled(it: Option<Ruling>, before: Verdict, after: Verdict, shaped: bool) -> bool {
    match it {
        Some(ruling) => shaped && after == (Verdict {
            rulings: before.rulings.push(ruling),
            ..before
        }),
        None => !shaped && after == before,
    }
}

/// Adds what the report says of a field that must be `want`; says whether the field has the shape
/// that `want` has.
fn rule_is(check: &mut Check, answer: &Json, field: &str, want: &str, path: &str) -> (shaped: bool)
    ensures
        ruled(is_reading(*answer, field@, want@, path@), old(check)@, final(check)@, shaped),
{
    let found = look_up(answer, field);
    if let Some(n) = parse_whole(want) {
        if let Some(j) = found {
            if let Some(got) = j.as_whole() {
                check.eq_int(path, n as i128, got as i128);
                return true;
            }
        }
        return false;
    }
    let truth = same_text(want, "true");
    if truth || same_text(want, "false") {
        if let Some(Json::Bool(b)) = found {
            check.eq_bool(path, truth, *b);
            return true;
        }
        return false;
    }
    if want.unicode_len() > 0 && want.get_char(0) == '"' {
        if let Some(j) = found {
            if let Json::Text(s) = j {
                let got = j.render();
                assert(got@ == json_quoted(s@));
                check.eq_text(path, want, got.as_str());
                return true;
            }
        }
        return false;
    }
    let got = raw(answer, field);
    check.eq_text(path, want, got.as_str());
    true
}

/// Adds what the report says of a list of texts.
fn rule_list(check: &mut Check, mark: Mark, all: Vec<String>, want: &str, path: &str) -> (shaped: bool)
    ensures
        ruled(list_reading(mark, texts(all@), want@, path@), old(check)@, final(check)@, shaped),
{
    match mark {
        Mark::Texts => {
            let got = names_to_json(&all);
            check.eq_text(path, want, got.as_str());
            true
        },
        Mark::Has => match read_worded(want) {
            Some((part, words)) => {
                let mut there = false;
                let mut i: usize = 0;
                while i < all.len()
                    invariant
                        i <= all@.len(),
                        there == exists|k: int| 0 <= k < i && #[trigger] texts(all@)[k] == part@,
                    decreases all@.len() - i,
                {
                    if same_text(all[i].as_str(), part) {
                        assert(texts(all@)[i as int] == part@);
                        there = true;
                    }
                    i += 1;
                }
                assert(there == texts(all@).contains(part@));
                check.that(path, words, there, Fact::Texts(all));
                true
            },
            None => false,
        },
        Mark::Lacks => match read_worded(want) {
            Some((part, words)) => {
                let none = count_texts(How::Holds, &all, part) == 0;
                check.that(path, words, none, Fact::Texts(all));
                true
            },
            None => false,
        },
        Mark::Counts => match read_numbered(want) {
            Some((n, part)) => {
                let count: usize = count_texts(How::Is, &all, part);
                check.eq_int(path, n as i128, count as i128);
                true
            },
            None => false,
        },
        Mark::Begins => match read_numbered(want) {
            Some((n, part)) => {
                let count: usize = count_texts(How::Begins, &all, part);
                check.eq_int(path, n as i128, count as i128);
                true
            },
            None => false,
        },
        _ => false,
    }
}

/// Adds what the report says of a field; says whether the field has the shape the demand asks for.
fn rule_on(check: &mut Check, mark: Mark, answer: &Json, field: &str, want: &str, path: &str) -> (shaped: bool)
    ensures
        ruled(reading(mark, *answer, field@, want@, path@), old(check)@, final(check)@, shaped),
{
    match mark {
        Mark::Is => rule_is(check, answer, field, want, path),
        Mark::IsNot => {
            if let Some(j) = look_up(answer, field) {
                if let Json::Text(s) = j {
                    let got = j.render();
                    assert(got@ == json_quoted(s@));
                    check.ne(path, text_fact(want), Fact::Text(got));
                    return true;
                }
            }
            false
        },
        Mark::AtLeast => {
            if let Some(n) = parse_whole(want) {
                if let Some(j) = look_up(answer, field) {
                    if let Some(got) = j.as_whole() {
                        check.at_least(path, n as i128, got as i128);
                        return true;
                    }
                }
            }
            false
        },
        Mark::Ints => match int_list(answer, field) {
            Ok(ns) => {
                let got = int_list_to_text(ns.as_slice());
                check.eq_text(path, want, got.as_str());
                true
            },
            Err(_) => false,
        },
        Mark::Numbers => {
            let ns = read_loose_ints(answer, field);
            let got = int_list_to_text(ns.as_slice());
            check.eq_text(path, want, got.as_str());
            true
        },
        _ => match read_text_list(answer, field) {
            Some(all) => rule_list(check, mark, all, want, path),
            None => false,
        },
    }
}

/// An answer that has not the shape the script says it has.
#[derive(Debug)]
pub struct Misshapen {
    /// The command that was answered so.
    pub command: String,
    /// The field that is missing or of another shape.
    pub field: String,
}

/// The error for a field that is missing or of another shape.
fn misshapen(command: &str, field: &str) -> (e: Misshapen)
    ensures
        e.command@ == command@,
        e.field@ == field@,
{
    Misshapen { command: String::from_str(command), field: String::from_str(field) }
}

/// Reads a whole number out of an answer, in either shape.
pub fn expect_i64(answer: &Json, command: &str, field: &str) -> (r: Result<i64, Misshapen>)
    ensures
        match lookup(*answer, field@) {
            Some(j) => match whole(j) {
                Some(n) => r == Ok::<i64, Misshapen>(n),
                None => r is Err,
            },
            None => r is Err,
        },
        r matches Err(e) ==> e.command@ == command@ && e.field@ == field@,
{
    if let Some(j) = look_up(answer, field) {
        if let Some(n) = j.as_whole() {
            return Ok(n);
        }
    }
    Err(misshapen(command, field))
}

/// Reads `true` or `false` out of an answer.
pub fn expect_bool(answer: &Json, command: &str, field: &str) -> (r: Result<bool, Misshapen>)
    ensures
        match lookup(*answer, field@) {
            Some(Json::Bool(b)) => r == Ok::<bool, Misshapen>(b),
            _ => r is Err,
        },
        r matches Err(e) ==> e.command@ == command@ && e.field@ == field@,
{
    if let Some(Json::Bool(b)) = look_up(answer, field) {
        return Ok(*b);
    }
    Err(misshapen(command, field))
}

/// Reads a string out of an answer.
pub fn expect_str(answer: &Json, command: &str, field: &str) -> (r: Result<String, Misshapen>)
    ensures
        match lookup(*answer, field@) {
            Some(Json::Text(s)) => r is Ok && r->Ok_0@ == s@,
            _ => r is Err,
        },
        r matches Err(e) ==> e.command@ == command@ && e.field@ == field@,
{
    if let Some(Json::Text(s)) = look_up(answer, field) {
        return Ok(s.clone());
    }
    Err(misshapen(command, field))
}

/// Reads a list of strings out of an answer.
pub fn expect_strs(answer: &Json, command: &str, field: &str) -> (r: Result<Vec<String>, Misshapen>)
    ensures
        match lookup(*answer, field@) {
            Some(Json::Array(items)) => match text_items(items@) {
                Some(all) => r is Ok && texts(r->Ok_0@) == all,
                None => r is Err,
            },
            _ => r is Err,
        },
        r matches Err(e) ==> e.command@ == command@ && e.field@ == field@,
{
    if let Some(Json::Array(items)) = look_up(answer, field) {
        if let Some(all) = read_texts(items) {
            return Ok(all);
        }
    }
    Err(misshapen(command, field))
}

/// The whole number a field is, in either shape.
pub open spec fn whole_field(answer: Json, field: Seq<char>) -> Option<i64> {
    match lookup(answer, field) {
        Some(j) => whole(j),
        None => None,
    }
}

/// The compact JSON text of a field; a missing one is `null`.
pub open spec fn raw_text(answer: Json, field: Seq<char>) -> Seq<char> {
    match lookup(answer, field) {
        Some(j) => json_text(j),
        None => "null"@,
    }
}

/// The compact JSON text of a field; a missing one is `null`.
pub fn raw(answer: &Json, field: &str) -> (s: String)
    ensures
        s@ == raw_text(*answer, field@),
{
    match look_up(answer, field) {
        Some(j) => j.render(),
        None => String::from_str("null"),
    }
}

/// The whole numbers among some items; everything else is passed over.
pub open spec fn int_items(items: Seq<Json>) -> Seq<i64>
    decreases items.len(),
{
    if items.len() == 0 {
        Seq::empty()
    } else {
        match items.last() {
            Json::Int(n) => int_items(items.drop_last()).push(n),
            _ => int_items(items.drop_last()),
        }
    }
}

/// The whole numbers in a list of an answer; none where there is no list.
pub open spec fn loose_ints(answer: Json, field: Seq<char>) -> Seq<i64> {
    match lookup(answer, field) {
        Some(Json::Array(items)) => int_items(items@),
        _ => Seq::empty(),
    }
}

/// The whole numbers in a list of an answer; none where there is no list.
pub fn read_loose_ints(answer: &Json, field: &str) -> (r: Vec<i64>)
    ensures
        r@ == loose_ints(*answer, field@),
{
    let mut out: Vec<i64> = Vec::new();
    if let Some(Json::Array(items)) = look_up(answer, field) {
        let mut i: usize = 0;
        assert(items@.take(0) =~= Seq::empty());
        while i < items.len()
            invariant
                i <= items@.len(),
                out@ == int_items(items@.take(i as int)),
            decreases items@.len() - i,
        {
            assert(items@.take(i + 1).drop_last() =~= items@.take(i as int));
            if let Json::Int(n) = &items[i] {
                out.push(*n);
            }
            i += 1;
        }
        assert(items@.take(i as int) =~= items@);
    }
    out
}

/// Where a conversation stands.
#[verifier::ext_equal]
pub struct Talk {
    /// What the report says so far.
    pub rulings: Seq<Ruling>,
    /// How many commands have been sent.
    pub sent: nat,
    /// The answer that demands are about, counted from one.
    pub at: nat,
    /// What that answer is called; the command that is to be sent, where it waits for one.
    pub name: Seq<char>,
    pub pile: Seq<Seq<char>>,
    /// Demands are passed over.
    pub over: bool,
    /// The next command has not been answered yet.
    pub waiting: bool,
}

/// The list that a pile makes.
pub open spec fn pile_text(pile: Seq<Seq<char>>) -> Seq<char> {
    seq!['['] + joined(pile, ","@) + seq![']']
}

impl Talk {
    /// A conversation in which nothing has been said.
    pub open spec fn start() -> Talk {
        Talk {
            rulings: Seq::empty(),
            sent: 0,
            at: 0,
            name: Seq::empty(),
            pile: Seq::empty(),
            over: false,
            waiting: false,
        }
    }

    /// The next command is sent, or waited for where it has no answer.
    pub open spec fn sends(self, command: Seq<char>, answers: nat) -> Talk {
        if self.sent < answers {
            Talk { sent: self.sent + 1, at: self.sent + 1, name: command, ..self }
        } else {
            Talk { name: command, waiting: true, ..self }
        }
    }

    /// Something is demanded of an answer; nothing where the field has not the shape.
    pub open spec fn demands(
        self,
        answer: Json,
        mark: Mark,
        field: Seq<char>,
        want: Seq<char>,
        path: Seq<char>,
    ) -> Option<Talk> {
        if mark == Mark::Shape || mark == Mark::Gather {
            match shaped(answer, field, want) {
                Some(s) => Some(
                    if mark == Mark::Gather {
                        Talk { pile: self.pile.push(s), ..self }
                    } else {
                        self
                    },
                ),
                None => None,
            }
        } else {
            match reading(mark, answer, field, want, path) {
                Some(ruling) => Some(Talk { rulings: self.rulings.push(ruling), ..self }),
                None => None,
            }
        }
    }

    /// Where the conversation stands after one more line; nothing where the line cannot be read out of
    /// the answers.
    pub open spec fn after(self, line: Line, answers: Seq<Json>) -> Option<Talk> {
        if self.waiting {
            Some(self)
        } else {
            match line {
                Line::Send(command) => Some(self.sends(command, answers.len())),
                Line::SendWith { answer, field, command } => if 1 <= answer <= answers.len() {
                    match lookup(answers[answer - 1], field) {
                        Some(Json::Text(s)) => Some(self.sends(command + " "@ + s@, answers.len())),
                        _ => None,
                    }
                } else {
                    None
                },
                Line::About { answer, name } => Some(Talk { at: answer, name, ..self }),
                Line::Stop => Some(Talk { over: self.over || !all_hold(self.rulings), ..self }),
                Line::Go => Some(Talk { over: false, ..self }),
                Line::Blank => Some(self),
                Line::Want { mark, field, want, path } => if self.over {
                    Some(self)
                } else if mark == Mark::Pile {
                    Some(
                        Talk {
                            rulings: self.rulings.push(is_text(path, want, pile_text(self.pile))),
                            pile: Seq::empty(),
                            ..self
                        },
                    )
                } else if 1 <= self.at <= answers.len() {
                    self.demands(answers[self.at - 1], mark, field, want, path)
                } else {
                    None
                },
            }
        }
    }
}

/// Where a conversation stands after the first `n` lines of a script; nothing where one of them cannot be
/// read out of the answers. From the first command without an answer on everything is left.
pub open spec fn judged(lines: Seq<Line>, answers: Seq<Json>, n: int) -> Option<Talk>
    decreases n,
{
    if n <= 0 {
        Some(Talk::start())
    } else {
        match judged(lines, answers, n - 1) {
            None => None,
            Some(t) => t.after(lines[n - 1], answers),
        }
    }
}

/// What a field is called in an error: behind a dot stands the name of the inner one.
pub open spec fn inner_name(field: Seq<char>) -> Seq<char> {
    let dot = first_at(field, '.', 0);
    if dot < field.len() {
        field.skip(dot + 1)
    } else {
        field
    }
}

/// What a field is called in an error.
fn name_inner(field: &str) -> (s: String)
    ensures
        s@ == inner_name(field@),
{
    let n: usize = field.unicode_len();
    let dot: usize = find_char(field, '.', 0, n);
    if dot < n {
        let inner = field.substring_char(dot + 1, n);
        assert(inner@ =~= field@.skip(dot + 1));
        String::from_str(inner)
    } else {
        String::from_str(field)
    }
}

/// The field that a line reads out of an answer.
pub open spec fn field_read(line: Line) -> Option<Seq<char>> {
    match line {
        Line::Want { field, .. } => Some(field),
        Line::SendWith { field, .. } => Some(field),
        _ => None,
    }
}

/// The line at `k` is the first that cannot be read out of the answers.
pub open spec fn breaks_at(lines: Seq<Line>, answers: Seq<Json>, k: int) -> bool {
    &&& 0 <= k < lines.len()
    &&& judged(lines, answers, k) is Some
    &&& judged(lines, answers, k + 1) is None
}

/// The first line that cannot be read out of the answers reads that field of the answer called so.
pub open spec fn broken(lines: Seq<Line>, answers: Seq<Json>, command: Seq<char>, field: Seq<char>) -> bool {
    exists|k: int| #[trigger]
        breaks_at(lines, answers, k) && judged(lines, answers, k)->0.name == command && (
        field_read(lines[k]) matches Some(f) && inner_name(f) == field)
}

proof fn lemma_judged_stops(lines: Seq<Line>, answers: Seq<Json>, i: int, n: int)
    requires
        0 <= i <= n,
        judged(lines, answers, i) is None,
    ensures
        judged(lines, answers, n) is None,
    decreases n - i,
{
    if i < n {
        lemma_judged_stops(lines, answers, i, n - 1);
    }
}

proof fn lemma_judged_waits(lines: Seq<Line>, answers: Seq<Json>, i: int, n: int)
    requires
        0 <= i <= n,
        judged(lines, answers, i) matches Some(t) && t.waiting,
    ensures
        judged(lines, answers, n) == judged(lines, answers, i),
    decreases n - i,
{
    if i < n {
        lemma_judged_waits(lines, answers, i, n - 1);
    }
}

/// A conversation as it is followed.
struct Follow {
    check: Check,
    sent: usize,
    at: u64,
    name: String,
    pile: Vec<String>,
    over: bool,
    waiting: bool,
}

impl Follow {
    spec fn talk(self) -> Talk {
        Talk {
            rulings: self.check@.rulings,
            sent: self.sent as nat,
            at: self.at as nat,
            name: self.name@,
            pile: texts(self.pile@),
            over: self.over,
            waiting: self.waiting,
        }
    }

    /// What does not change while a script is followed.
    spec fn kept(self, before: Follow) -> bool {
        self.check@ == (Verdict { rulings: self.check@.rulings, ..before.check@ })
    }

    /// Sends the next command, or waits for it.
    fn send(&mut self, command: String, answers: usize)
        requires
            !old(self).waiting,
            old(self).sent <= answers,
        ensures
            final(self).talk() == old(self).talk().sends(command@, answers as nat),
            final(self).check == old(self).check,
            final(self).sent <= answers,
    {
        self.name = command;
        if self.sent < answers {
            self.sent = self.sent + 1;
            self.at = self.sent as u64;
        } else {
            self.waiting = true;
        }
    }

    /// Follows a demand; says whether the field has the shape.
    fn demand(&mut self, answers: &Vec<Json>, mark: Mark, field: &str, want: &str, path: &str) -> (shaped: bool)
        requires
            !old(self).waiting,
            old(self).sent <= answers@.len(),
        ensures
            match old(self).talk().after(
                Line::Want { mark, field: field@, want: want@, path: path@ },
                answers@,
            ) {
                Some(t) => shaped && final(self).talk() == t,
                None => !shaped && final(self).talk() == old(self).talk(),
            },
            final(self).kept(*old(self)),
            final(self).sent == old(self).sent,
    {
        if self.over {
            return true;
        }
        if mark == Mark::Pile {
            let mut got = String::from_str("[");
            got.append(join_texts(&self.pile, ",").as_str());
            got.append("]");
            proof {
                reveal_strlit("[");
                reveal_strlit("]");
                assert(got@ =~= pile_text(texts(self.pile@)));
            }
            self.check.eq_text(path, want, got.as_str());
            self.pile = Vec::new();
            assert(texts(self.pile@) =~= Seq::<Seq<char>>::empty());
            return true;
        }
        if self.at < 1 || self.at > answers.len() as u64 {
            return false;
        }
        let answer = &answers[(self.at - 1) as usize];
        if mark == Mark::Shape || mark == Mark::Gather {
            match read_shaped(answer, field, want) {
                Some(s) => {
                    if mark == Mark::Gather {
                        let ghost before = texts(self.pile@);
                        self.pile.push(s);
                        assert(texts(self.pile@) =~= before.push(s@));
                    }
                    return true;
                },
                None => {
                    return false;
                },
            }
        }
        rule_on(&mut self.check, mark, answer, field, want, path)
    }
}

/// Follows a script as far as the answers go. There is an error exactly where a line cannot be read out of
/// them.
fn play(text: &str, answers: &Vec<Json>) -> (r: Result<Follow, Misshapen>)
    ensures
        match judged(script_of(text@), answers@, script_of(text@).len() as int) {
            Some(t) => r is Ok && r->Ok_0.talk() == t && r->Ok_0.check@ == Verdict::plain(
                subject_of(text@),
                t.rulings,
                Seq::empty(),
            ),
            None => r is Err,
        },
        r matches Err(e) ==> broken(script_of(text@), answers@, e.command@, e.field@),
{
    let lines = split_lines(text);
    let ghost script = script_of(text@);
    proof {
        lemma_some_line(text@);
        assert(lines@.len() == texts(lines@).len());
        assert(texts(lines@)[0] == lines@[0]@);
    }
    let mut f = Follow {
        check: Check::new(lines[0].as_str()),
        sent: 0,
        at: 0,
        name: String::new(),
        pile: Vec::new(),
        over: false,
        waiting: false,
    };
    let count: usize = answers.len();
    let mut i: usize = 1;
    assert(f.name@ =~= Seq::<char>::empty());
    assert(texts(f.pile@) =~= Seq::<Seq<char>>::empty());
    while i < lines.len()
        invariant
            1 <= i <= lines@.len(),
            count == answers@.len(),
            texts(lines@) == lines_from(text@, 0),
            script == script_of(text@),
            script.len() == lines@.len() - 1,
            f.sent <= count,
            judged(script, answers@, i - 1) == Some(f.talk()),
            f.check@ == Verdict::plain(subject_of(text@), f.check@.rulings, Seq::empty()),
        decreases lines@.len() - i,
    {
        if f.waiting {
            proof {
                lemma_judged_waits(script, answers@, i - 1, script.len() as int);
            }
            return Ok(f);
        }
        proof {
            assert(script[i - 1] == line_of(texts(lines@)[i as int]));
        }
        match read_line(lines[i].as_str()) {
            ScriptLine::Send(command) => {
                f.send(command, count);
            },
            ScriptLine::SendWith { answer, field, command } => {
                let mut whole: Option<String> = None;
                if answer >= 1 && answer <= count as u64 {
                    if let Some(Json::Text(s)) = look_up(&answers[(answer - 1) as usize], field.as_str()) {
                        let mut sent = command;
                        sent.append(" ");
                        sent.append(s.as_str());
                        whole = Some(sent);
                    }
                }
                match whole {
                    Some(sent) => {
                        f.send(sent, count);
                    },
                    None => {
                        proof {
                            assert(judged(script, answers@, i as int) is None);
                            assert(breaks_at(script, answers@, i - 1));
                            lemma_judged_stops(script, answers@, i as int, script.len() as int);
                        }
                        return Err(Misshapen { command: f.name, field: name_inner(field.as_str()) });
                    },
                }
            },
            ScriptLine::About { answer, name } => {
                f.at = answer;
                f.name = name;
            },
            ScriptLine::Stop => {
                if !f.check.ok() {
                    f.over = true;
                }
            },
            ScriptLine::Go => {
                f.over = false;
            },
            ScriptLine::Blank => {},
            ScriptLine::Want { mark, field, want, path } => {
                if !f.demand(answers, mark, field.as_str(), want.as_str(), path.as_str()) {
                    proof {
                        assert(judged(script, answers@, i as int) is None);
                        assert(breaks_at(script, answers@, i - 1));
                        lemma_judged_stops(script, answers@, i as int, script.len() as int);
                    }
                    return Err(Misshapen { command: f.name, field: name_inner(field.as_str()) });
                }
            },
        }
        i += 1;
    }
    Ok(f)
}

/// Holds the answers of a conversation, as far as they have come, against its script. There is a verdict
/// exactly where every one of them has the shape the script says.
pub fn judge(text: &str, answers: &Vec<Json>) -> (r: Result<Check, Misshapen>)
    ensures
        match judged(script_of(text@), answers@, script_of(text@).len() as int) {
            Some(t) => r is Ok && r->Ok_0@ == Verdict::plain(subject_of(text@), t.rulings, Seq::empty()),
            None => r is Err,
        },
        r matches Err(e) ==> broken(script_of(text@), answers@, e.command@, e.field@),
{
    match play(text, answers) {
        Ok(f) => Ok(f.check),
        Err(e) => Err(e),
    }
}

/// The command that a conversation waits for, once these answers have come; nothing where all have.
pub fn next_command(text: &str, answers: &Vec<Json>) -> (r: Result<Option<String>, Misshapen>)
    ensures
        match judged(script_of(text@), answers@, script_of(text@).len() as int) {
            Some(t) => match r {
                Ok(Some(command)) => t.waiting && command@ == t.name,
                Ok(None) => !t.waiting,
                Err(_) => false,
            },
            None => r is Err,
        },
        r matches Err(e) ==> broken(script_of(text@), answers@, e.command@, e.field@),
{
    match play(text, answers) {
        Ok(f) => Ok(
            if f.waiting {
                Some(f.name)
            } else {
                None
            },
        ),
        Err(e) => Err(e),
    }
}

/// A search finds the first place at or after its start, or the end where there is none.
pub proof fn search_finds_the_first(s: Seq<char>, c: char, i: int, k: int)
    requires
        0 <= i <= k <= s.len(),
        forall|j: int| i <= j < k ==> #[trigger] s[j] != c,
        k == s.len() || s[k] == c,
    ensures
        first_at(s, c, i) == k,
    decreases k - i,
{
    if i < k {
        assert(s[i] != c);
        search_finds_the_first(s, c, i + 1, k);
    }
}

/// Nothing before the place that a search finds is what it looks for.
pub proof fn search_passes_over_nothing(s: Seq<char>, c: char, i: int, k: int)
    requires
        0 <= i <= k < s.len(),
        s[k] == c,
    ensures
        first_at(s, c, i) <= k,
    decreases k - i,
{
    if i < k {
        search_passes_over_nothing(s, c, i + 1, k);
    }
}

proof fn lemma_lines_back(s: Seq<char>, i: int, k: int)
    requires
        0 <= i <= s.len(),
    ensures
        lines_from(s, i).len() > 0,
        joined(lines_from(s, i), seq!['\n']) == s.skip(i),
        0 <= k < lines_from(s, i).len() ==> !lines_from(s, i)[k].contains('\n'),
    decreases s.len() - i,
{
    let end = first_at(s, '\n', i);
    lemma_first_at(s, '\n', i);
    let line = s.subrange(i, end);
    if line.contains('\n') {
        let j = choose|j: int| 0 <= j < line.len() && line[j] == '\n';
        search_passes_over_nothing(s, '\n', i, i + j);
    }
    if end >= s.len() {
        assert(s.skip(i) =~= line);
        texts_are_joined_in_order(Seq::empty(), s.skip(i), seq!['\n']);
    } else {
        lemma_lines_back(s, end + 1, k - 1);
        let rest = lines_from(s, end + 1);
        let all = seq![line] + rest;
        lemma_joined_front(line, rest, seq!['\n']);
        assert(s.skip(i) =~= line + seq!['\n'] + s.skip(end + 1));
        if 0 < k < all.len() {
            assert(all[k] == rest[k - 1]);
        }
    }
}

proof fn lemma_joined_front(first: Seq<char>, rest: Seq<Seq<char>>, sep: Seq<char>)
    requires
        rest.len() > 0,
    ensures
        joined(seq![first] + rest, sep) == first + sep + joined(rest, sep),
    decreases rest.len(),
{
    let front = rest.drop_last();
    assert(rest =~= front.push(rest.last()));
    assert(seq![first] + rest =~= (seq![first] + front).push(rest.last()));
    texts_are_joined_in_order(seq![first] + front, rest.last(), sep);
    texts_are_joined_in_order(front, rest.last(), sep);
    if front.len() > 0 {
        lemma_joined_front(first, front, sep);
        assert(first + sep + joined(front, sep) + sep + rest.last() =~= first + sep + (joined(front, sep) + sep
            + rest.last()));
    } else {
        assert(front =~= Seq::empty());
        assert(seq![first] + front =~= seq![first]);
        texts_are_joined_in_order(Seq::empty(), first, sep);
        assert(rest =~= seq![rest.last()]);
    }
}

/// A text is the lines it is split into, with the line breaks put back; no line holds one.
pub proof fn lines_put_together_are_the_text(s: Seq<char>, k: int)
    ensures
        lines_from(s, 0).len() > 0,
        joined(lines_from(s, 0), seq!['\n']) == s,
        0 <= k < lines_from(s, 0).len() ==> !lines_from(s, 0)[k].contains('\n'),
{
    lemma_lines_back(s, 0, k);
    assert(s.skip(0) =~= s);
}

/// The first line of a script is what it is about; each other line is read on its own.
pub proof fn script_is_read_line_by_line(text: Seq<char>, k: int)
    ensures
        subject_of(text) == lines_from(text, 0)[0],
        script_of(text).len() == lines_from(text, 0).len() - 1,
        0 <= k < script_of(text).len() ==> script_of(text)[k] == line_of(lines_from(text, 0)[k + 1]),
{
    lemma_lines_back(text, 0, 0);
}

/// A number is read up to the first space.
pub proof fn numbers_are_read_up_to_the_space(n: nat, rest: Seq<char>)
    requires
        n <= i64::MAX,
    ensures
        numbered(nat_text(n) + seq![' '] + rest) == Some((n, rest)),
        numbered(nat_text(n)) is None,
        numbered(rest) is Some ==> rest.contains(' '),
{
    let s = nat_text(n) + seq![' '] + rest;
    let gap = nat_text(n).len() as int;
    lemma_nat_text_digits(n);
    assert forall|j: int| 0 <= j < gap implies #[trigger] s[j] != ' ' by {
        assert(s[j] == nat_text(n)[j]);
        assert(is_digit(nat_text(n)[j]));
    }
    search_finds_the_first(s, ' ', 0, gap);
    assert(s.take(gap) =~= nat_text(n));
    assert(s.skip(gap + 1) =~= rest);
    numbers_are_runs_of_digits(s, n, 0);
    let t = nat_text(n);
    assert forall|j: int| 0 <= j < gap implies #[trigger] t[j] != ' ' by {
        assert(is_digit(nat_text(n)[j]));
    }
    search_finds_the_first(t, ' ', 0, gap);
    lemma_first_at(rest, ' ', 0);
}

/// How the lines of a script are written: commands, commands with a field of an answer at their end, and
/// whom what follows is about.
pub proof fn commands_are_written_behind_a_mark(command: Seq<char>, n: nat, field: Seq<char>, name: Seq<char>)
    requires
        n <= i64::MAX,
        !field.contains(' '),
    ensures
        line_of(seq!['>', ' '] + command) == Line::Send(command),
        line_of(seq!['@', ' '] + (nat_text(n) + seq![' '] + name)) == (Line::About { answer: n, name }),
        line_of(seq!['<', ' '] + (nat_text(n) + seq![' '] + (field + seq![' '] + command))) == (Line::SendWith {
            answer: n,
            field,
            command,
        }),
        line_of(seq!['.', ' '] + "stop"@) == Line::Stop,
        line_of(seq!['.', ' '] + "go"@) == Line::Go,
{
    let head = seq!['>', ' '] + command;
    assert(head.skip(2) =~= command);
    let tail = nat_text(n) + seq![' '] + name;
    assert((seq!['@', ' '] + tail).skip(2) =~= tail);
    numbers_are_read_up_to_the_space(n, name);
    let rest = field + seq![' '] + command;
    let more = nat_text(n) + seq![' '] + rest;
    assert((seq!['<', ' '] + more).skip(2) =~= more);
    numbers_are_read_up_to_the_space(n, rest);
    assert forall|j: int| 0 <= j < field.len() implies #[trigger] rest[j] != ' ' by {
        assert(rest[j] == field[j]);
        assert(field.contains(field[j]));
    }
    search_finds_the_first(rest, ' ', 0, field.len() as int);
    assert(rest.take(field.len() as int) =~= field);
    assert(rest.skip(field.len() + 1int) =~= command);
    assert((seq!['.', ' '] + "stop"@).skip(2) =~= "stop"@);
    assert((seq!['.', ' '] + "go"@).skip(2) =~= "go"@);
    reveal_strlit("stop");
    reveal_strlit("go");
    assert("stop"@.len() == 4 && "go"@.len() == 2);
}

/// How demands are written: the mark, the field, what is wanted and the path, with bars between.
pub proof fn demands_are_written_with_bars(c: char, field: Seq<char>, want: Seq<char>, path: Seq<char>)
    requires
        mark_of(c) is Some,
        !field.contains('|'),
        !want.contains('|'),
    ensures
        line_of(seq![c, ' '] + field + seq![' ', '|', ' '] + want + seq![' ', '|', ' '] + path) == (Line::Want {
            mark: mark_of(c)->0,
            field,
            want,
            path,
        }),
{
    let s = seq![c, ' '] + field + seq![' ', '|', ' '] + want + seq![' ', '|', ' '] + path;
    let a = field.len() + 3int;
    let b = a + want.len() + 3int;
    assert(s[0] == c && s[1] == ' ');
    assert forall|j: int| 2 <= j < a implies #[trigger] s[j] != '|' by {
        if j < a - 1 {
            assert(s[j] == field[j - 2]);
            assert(field.contains(field[j - 2]));
        }
    }
    assert(s[a] == '|');
    search_finds_the_first(s, '|', 2, a);
    assert forall|j: int| a + 1 <= j < b implies #[trigger] s[j] != '|' by {
        if a + 2 <= j < b - 1 {
            assert(s[j] == want[j - a - 2]);
            assert(want.contains(want[j - a - 2]));
        }
    }
    assert(s[b] == '|');
    search_finds_the_first(s, '|', a + 1, b);
    assert(s.subrange(2, a - 1) =~= field);
    assert(s.subrange(a + 2, b - 1) =~= want);
    assert(s.skip(b + 2) =~= path);
}

/// The marks; a line under any other, or with no space behind it, says nothing.
pub proof fn marks_are_these(s: Seq<char>, c: char)
    ensures
        mark_of('=') == Some(Mark::Is),
        mark_of('!') == Some(Mark::IsNot),
        mark_of('+') == Some(Mark::AtLeast),
        mark_of('$') == Some(Mark::Texts),
        mark_of('%') == Some(Mark::Ints),
        mark_of('^') == Some(Mark::Numbers),
        mark_of('?') == Some(Mark::Has),
        mark_of('/') == Some(Mark::Lacks),
        mark_of('*') == Some(Mark::Counts),
        mark_of(':') == Some(Mark::Begins),
        mark_of('~') == Some(Mark::Shape),
        mark_of('&') == Some(Mark::Gather),
        mark_of('#') == Some(Mark::Pile),
        mark_of('>') is None && mark_of('@') is None && mark_of('<') is None && mark_of('.') is None,
        s.len() < 2 || s[1] != ' ' ==> line_of(s) == Line::Blank,
        line_of(s) is Want ==> mark_of(s[0]) == Some(line_of(s)->mark),
        line_of(s) is Send ==> s[0] == '>',
        line_of(s) is SendWith ==> s[0] == '<',
        line_of(s) is About ==> s[0] == '@',
        line_of(s) is Stop || line_of(s) is Go ==> s[0] == '.',
{
}

/// The commands of a script are those it sends, in order.
pub proof fn commands_are_sent_in_order(lines: Seq<Line>, line: Line, command: Seq<char>)
    ensures
        sent(Seq::empty()) == Seq::<Seq<char>>::empty(),
        sent(lines.push(Line::Send(command))) == sent(lines).push(command),
        !(line is Send) ==> sent(lines.push(line)) == sent(lines),
{
    assert(lines.push(line).drop_last() =~= lines);
    assert(lines.push(Line::Send(command)).drop_last() =~= lines);
}

/// A field is looked up by its name, and a name with a dot in the object that the part before it names.
pub proof fn fields_are_looked_up_through_the_dot(answer: Json, outer: Seq<char>, name: Seq<char>)
    requires
        !outer.contains('.'),
    ensures
        lookup(answer, outer) == field_of(answer, outer),
        lookup(answer, outer + seq!['.'] + name) == (match field_of(answer, outer) {
            Some(inner) => field_of(inner, name),
            None => None,
        }),
        inner_name(outer) == outer,
        inner_name(outer + seq!['.'] + name) == name,
{
    let n = outer.len() as int;
    let s = outer + seq!['.'] + name;
    assert forall|j: int| 0 <= j < n implies #[trigger] outer[j] != '.' by {
        assert(outer.contains(outer[j]));
    }
    search_finds_the_first(outer, '.', 0, n);
    assert forall|j: int| 0 <= j < n implies #[trigger] s[j] != '.' by {
        assert(s[j] == outer[j]);
    }
    search_finds_the_first(s, '.', 0, n);
    assert(s.take(n) =~= outer);
    assert(s.skip(n + 1) =~= name);
}

/// A list of texts can be read where every item is a text, and reads as these.
pub proof fn list_reads_as_its_texts(items: Seq<Json>, i: int)
    ensures
        text_items(items) is Some <==> forall|k: int| 0 <= k < items.len() ==> #[trigger] items[k] is Text,
        text_items(items) matches Some(all) ==> all.len() == items.len() && (0 <= i < items.len() ==> (
        items[i] matches Json::Text(s) && all[i] == s@)),
    decreases items.len(),
{
    if items.len() > 0 {
        let front = items.drop_last();
        list_reads_as_its_texts(front, i);
        if forall|k: int| 0 <= k < items.len() ==> #[trigger] items[k] is Text {
            assert(items[items.len() - 1] is Text);
            assert forall|k: int| 0 <= k < front.len() implies #[trigger] front[k] is Text by {
                assert(items[k] is Text);
            }
        }
        if text_items(items) is Some {
            assert forall|k: int| 0 <= k < items.len() implies #[trigger] items[k] is Text by {
                if k < front.len() {
                    assert(front[k] is Text);
                }
            }
        }
    }
}

/// One text holds another where it stands somewhere in it.
pub proof fn text_holds_what_stands_in_it(s: Seq<char>, part: Seq<char>, i: int)
    requires
        0 <= i,
    ensures
        holds_from(s, part, i) <==> exists|k: int|
            i <= k && k + part.len() <= s.len() && #[trigger] s.subrange(k, k + part.len()) == part,
    decreases s.len() + 1 - i,
{
    if i + part.len() <= s.len() {
        text_holds_what_stands_in_it(s, part, i + 1);
    }
}

/// What it is for a text to be, to begin with and to hold another.
pub proof fn texts_stand_as_they_say(before: Seq<char>, part: Seq<char>, after: Seq<char>, s: Seq<char>)
    ensures
        stands(How::Is, s, part) <==> s == part,
        stands(How::Begins, part + after, part),
        stands(How::Begins, s, part) ==> s == part + s.skip(part.len() as int),
        stands(How::Holds, before + part + after, part),
{
    let whole = before + part + after;
    let n = before.len() as int;
    assert((part + after).take(part.len() as int) =~= part);
    if stands(How::Begins, s, part) {
        assert(s =~= s.take(part.len() as int) + s.skip(part.len() as int));
    }
    assert(whole.subrange(n, n + part.len()) =~= part);
    text_holds_what_stands_in_it(whole, part, 0);
}

/// Texts are counted one by one: what stands so counts, what does not does not.
pub proof fn texts_are_counted_one_by_one(how: How, all: Seq<Seq<char>>, s: Seq<char>, part: Seq<char>)
    ensures
        count_of(how, Seq::empty(), part) == 0,
        stands(how, s, part) ==> count_of(how, all.push(s), part) == count_of(how, all, part) + 1,
        !stands(how, s, part) ==> count_of(how, all.push(s), part) == count_of(how, all, part),
{
    assert(all.push(s).drop_last() =~= all);
}

/// The numbers of a list are its numbers, in order, whatever else is in it.
pub proof fn loose_numbers_leave_out_the_rest(items: Seq<Json>, item: Json, n: i64)
    ensures
        int_items(Seq::empty()) == Seq::<i64>::empty(),
        int_items(items.push(Json::Int(n))) == int_items(items).push(n),
        !(item is Int) ==> int_items(items.push(item)) == int_items(items),
{
    assert(items.push(item).drop_last() =~= items);
    assert(items.push(Json::Int(n)).drop_last() =~= items);
}

/// What a field is read as, where it is not there or of another kind.
pub proof fn missing_fields_are_nothing(answer: Json, field: Seq<char>)
    requires
        lookup(answer, field) is None,
    ensures
        raw_text(answer, field) == "null"@,
        loose_ints(answer, field) == Seq::<i64>::empty(),
        whole_field(answer, field) is None,
        text_list(answer, field) is None,
{
}

/// What a field is read as, where it is there.
pub proof fn fields_read_as_they_are(answer: Json, field: Seq<char>, j: Json)
    requires
        lookup(answer, field) == Some(j),
    ensures
        raw_text(answer, field) == json_text(j),
        whole_field(answer, field) == whole(j),
        j matches Json::Array(items) ==> loose_ints(answer, field) == int_items(items@) && text_list(answer, field)
            == text_items(items@),
        !(j is Array) ==> loose_ints(answer, field) == Seq::<i64>::empty() && text_list(answer, field) is None,
{
}

/// Words stand behind a semicolon between two spaces.
pub proof fn words_stand_behind_a_semicolon(part: Seq<char>, words: Seq<char>)
    requires
        !part.contains(';'),
    ensures
        worded(part + seq![' ', ';', ' '] + words) == Some((part, words)),
        worded(part) is None,
{
    let s = part + seq![' ', ';', ' '] + words;
    let cut = part.len() + 1int;
    assert forall|j: int| 0 <= j < cut implies #[trigger] s[j] != ';' by {
        if j < cut - 1 {
            assert(s[j] == part[j]);
            assert(part.contains(part[j]));
        }
    }
    assert(s[cut] == ';');
    search_finds_the_first(s, ';', 0, cut);
    assert(s.take(cut - 1) =~= part);
    assert(s.skip(cut + 2) =~= words);
    assert forall|j: int| 0 <= j < part.len() implies #[trigger] part[j] != ';' by {
        assert(part.contains(part[j]));
    }
    search_finds_the_first(part, ';', 0, part.len() as int);
}

/// A demand that a field is a number, a flag, a text or anything else holds exactly where it is that; a field
/// of another kind cannot be ruled on.
pub proof fn field_is_what_is_demanded(answer: Json, field: Seq<char>, n: i64, b: bool, s: Seq<char>, path: Seq<char>)
    ensures
        reading(Mark::Is, answer, field, int_text(n as int), path) matches Some(r) ==> r.path == path && (r.holds()
            <==> whole_field(answer, field) == Some(n)),
        reading(Mark::Is, answer, field, int_text(n as int), path) is Some <==> whole_field(answer, field) is Some,
        reading(Mark::Is, answer, field, "true"@, path) matches Some(r) ==> r.path == path && (r.holds() <==> lookup(
            answer,
            field,
        ) == Some(Json::Bool(true))),
        reading(Mark::Is, answer, field, "false"@, path) matches Some(r) ==> r.path == path && (r.holds() <==> lookup(
            answer,
            field,
        ) == Some(Json::Bool(false))),
        reading(Mark::Is, answer, field, "true"@, path) is Some <==> lookup(answer, field) matches Some(Json::Bool(_)),
        reading(Mark::Is, answer, field, json_quoted(s), path) matches Some(r) ==> r.path == path && (r.holds() <==> (
        lookup(answer, field) matches Some(Json::Text(t)) && json_quoted(t@) == json_quoted(s))),
        reading(Mark::Is, answer, field, json_quoted(s), path) is Some <==> lookup(answer, field) matches Some(
            Json::Text(_),
        ),
        reading(Mark::Is, answer, field, "null"@, path) matches Some(r) && r.path == path && (r.holds() <==> raw_text(
            answer,
            field,
        ) == "null"@),
{
    decimal_reads_back(n);
    reveal_strlit("true");
    reveal_strlit("false");
    reveal_strlit("null");
    assert("true"@[0] == 't' && "false"@[0] == 'f' && "null"@[0] == 'n');
    assert("true"@.len() == 4 && "false"@.len() == 5 && "null"@.len() == 4);
    numbers_are_runs_of_digits("true"@, 0, 0);
    numbers_are_runs_of_digits("false"@, 0, 0);
    numbers_are_runs_of_digits("null"@, 0, 0);
    assert(json_quoted(s)[0] == '"');
    numbers_are_runs_of_digits(json_quoted(s), 0, 0);
}

/// A demand that a text is another, that a number is large enough or that a list of numbers is so holds
/// exactly where that is so.
pub proof fn field_differs_or_suffices(answer: Json, field: Seq<char>, least: i64, want: Seq<char>, path: Seq<char>)
    ensures
        reading(Mark::IsNot, answer, field, want, path) is Some <==> lookup(answer, field) matches Some(
            Json::Text(_),
        ),
        reading(Mark::IsNot, answer, field, want, path) matches Some(r) ==> r.path == path && (r.holds() <==> (
        lookup(answer, field) matches Some(Json::Text(t)) && json_quoted(t@) != want)),
        reading(Mark::AtLeast, answer, field, int_text(least as int), path) is Some <==> whole_field(answer, field)
            is Some,
        reading(Mark::AtLeast, answer, field, int_text(least as int), path) matches Some(r) ==> r.path == path && (
        r.holds() <==> (whole_field(answer, field) matches Some(n) && n >= least)),
        reading(Mark::Ints, answer, field, want, path) is Some <==> whole_list(answer, field) is Some,
        reading(Mark::Ints, answer, field, want, path) matches Some(r) ==> r.path == path && (r.holds() <==> (
        whole_list(answer, field) matches Some(ns) && int_list_text(ns) == want)),
        reading(Mark::Numbers, answer, field, want, path) matches Some(r) && r.path == path && (r.holds()
            <==> int_list_text(loose_ints(answer, field)) == want),
{
    decimal_reads_back(least);
}

/// A demand of a list of texts holds exactly where the list is so, has the text, has nothing that holds it,
/// or has it so many times.
pub proof fn list_is_what_is_demanded(
    answer: Json,
    field: Seq<char>,
    all: Seq<Seq<char>>,
    n: nat,
    part: Seq<char>,
    words: Seq<char>,
    path: Seq<char>,
)
    requires
        text_list(answer, field) == Some(all),
        n <= i64::MAX,
        !part.contains(';'),
    ensures
        reading(Mark::Texts, answer, field, part, path) matches Some(r) && r.path == path && (r.holds()
            <==> json_names(all) == part),
        reading(Mark::Has, answer, field, part + seq![' ', ';', ' '] + words, path) matches Some(r) && r.path == path
            && (r.holds() <==> all.contains(part)) && r.demand == Demand::That(words, all.contains(part)),
        reading(Mark::Lacks, answer, field, part + seq![' ', ';', ' '] + words, path) matches Some(r) && r.path == path
            && (r.holds() <==> count_of(How::Holds, all, part) == 0),
        reading(Mark::Counts, answer, field, nat_text(n) + seq![' '] + part, path) matches Some(r) && r.path == path
            && (r.holds() <==> count_of(How::Is, all, part) == n),
        reading(Mark::Begins, answer, field, nat_text(n) + seq![' '] + part, path) matches Some(r) && r.path == path
            && (r.holds() <==> count_of(How::Begins, all, part) == n),
{
    words_stand_behind_a_semicolon(part, words);
    numbers_are_read_up_to_the_space(n, part);
}

/// Where a field is no list of texts, nothing can be demanded of it as one.
pub proof fn other_fields_are_no_lists(answer: Json, field: Seq<char>, want: Seq<char>, path: Seq<char>)
    requires
        text_list(answer, field) is None,
    ensures
        reading(Mark::Texts, answer, field, want, path) is None,
        reading(Mark::Has, answer, field, want, path) is None,
        reading(Mark::Lacks, answer, field, want, path) is None,
        reading(Mark::Counts, answer, field, want, path) is None,
        reading(Mark::Begins, answer, field, want, path) is None,
{
}

/// A field has the kind of a sample where it is a number, a flag, a text, a list of numbers or a list of texts
/// as the sample is, and is then written out.
pub proof fn fields_have_the_kind_of_the_sample(answer: Json, field: Seq<char>, n: i64, s: Seq<char>)
    ensures
        shaped(answer, field, int_text(n as int)) == (match whole_field(answer, field) {
            Some(got) => Some(int_text(got as int)),
            None => None,
        }),
        shaped(answer, field, json_quoted(s)) == (match lookup(answer, field) {
            Some(Json::Text(t)) => Some(json_quoted(t@)),
            _ => None,
        }),
        lookup(answer, field) matches Some(Json::Bool(b)) ==> shaped(answer, field, "true"@) == Some(
            json_text(Json::Bool(b)),
        ) && shaped(answer, field, "false"@) == Some(json_text(Json::Bool(b))),
        !(lookup(answer, field) matches Some(Json::Bool(_))) ==> shaped(answer, field, "true"@) is None && shaped(
            answer,
            field,
            "false"@,
        ) is None,
        shaped(answer, field, "[0]"@) == (match whole_list(answer, field) {
            Some(ns) => Some(int_list_text(ns)),
            None => None,
        }),
        shaped(answer, field, "[]"@) == (match text_list(answer, field) {
            Some(all) => Some(json_names(all)),
            None => None,
        }),
{
    decimal_reads_back(n);
    reveal_strlit("true");
    reveal_strlit("false");
    reveal_strlit("[0]");
    reveal_strlit("[]");
    assert("true"@[0] == 't' && "false"@[0] == 'f' && "[0]"@[0] == '[' && "[]"@[0] == '[');
    assert("true"@.len() == 4 && "false"@.len() == 5 && "[0]"@.len() == 3 && "[]"@.len() == 2);
    numbers_are_runs_of_digits("true"@, 0, 0);
    numbers_are_runs_of_digits("false"@, 0, 0);
    numbers_are_runs_of_digits("[0]"@, 0, 0);
    numbers_are_runs_of_digits("[]"@, 0, 0);
    assert(json_quoted(s)[0] == '"');
    numbers_are_runs_of_digits(json_quoted(s), 0, 0);
}

/// A conversation starts with nothing sent and nothing ruled on.
pub proof fn conversation_starts_with_nothing(lines: Seq<Line>, answers: Seq<Json>)
    ensures
        judged(lines, answers, 0) matches Some(t) && t.rulings.len() == 0 && t.sent == 0 && t.at == 0 && t.name.len()
            == 0 && t.pile.len() == 0 && !t.over && !t.waiting,
{
}

/// A command takes the next answer, or the conversation waits for one where there is none; what waits stays
/// as it is.
pub proof fn commands_take_the_next_answer(t: Talk, line: Line, command: Seq<char>, answers: Seq<Json>)
    ensures
        t.waiting ==> t.after(line, answers) == Some(t),
        !t.waiting && t.sent < answers.len() ==> (t.after(Line::Send(command), answers) matches Some(u) && u.sent
            == t.sent + 1 && u.at == u.sent && u.name == command && u.rulings == t.rulings && u.pile == t.pile
            && u.over == t.over && !u.waiting),
        !t.waiting && t.sent >= answers.len() ==> (t.after(Line::Send(command), answers) matches Some(u) && u.waiting
            && u.name == command && u.sent == t.sent && u.rulings == t.rulings && u.pile == t.pile),
{
}

/// A command with a field of an answer is that command with the text of the field behind a space; without such
/// a text the conversation breaks.
pub proof fn commands_carry_what_an_answer_said(
    t: Talk,
    answer: nat,
    field: Seq<char>,
    command: Seq<char>,
    answers: Seq<Json>,
)
    requires
        !t.waiting,
    ensures
        1 <= answer <= answers.len() ==> (match lookup(answers[answer - 1], field) {
            Some(Json::Text(s)) => t.after((Line::SendWith { answer, field, command }), answers) == t.after(
                Line::Send(command + seq![' '] + s@),
                answers,
            ),
            _ => t.after((Line::SendWith { answer, field, command }), answers) is None,
        }),
        !(1 <= answer <= answers.len()) ==> t.after((Line::SendWith { answer, field, command }), answers) is None,
{
    reveal_strlit(" ");
    assert(" "@ =~= seq![' ']);
}

/// What follows is about the answer that was named; a stop passes over the rest once something has failed,
/// until it goes on.
pub proof fn demands_are_passed_over_after_a_failure(
    t: Talk,
    answer: nat,
    name: Seq<char>,
    mark: Mark,
    field: Seq<char>,
    want: Seq<char>,
    path: Seq<char>,
    answers: Seq<Json>,
)
    requires
        !t.waiting,
    ensures
        t.after((Line::About { answer, name }), answers) matches Some(u) && u.at == answer && u.name == name
            && u.rulings == t.rulings && u.sent == t.sent && u.over == t.over && u.pile == t.pile && !u.waiting,
        t.after(Line::Stop, answers) matches Some(u) && (u.over <==> t.over || !all_hold(t.rulings)) && u.rulings
            == t.rulings && u.at == t.at && u.name == t.name && u.sent == t.sent && u.pile == t.pile && !u.waiting,
        t.after(Line::Go, answers) matches Some(u) && !u.over && u.rulings == t.rulings && u.at == t.at && u.name
            == t.name && u.sent == t.sent && u.pile == t.pile && !u.waiting,
        t.after(Line::Blank, answers) == Some(t),
        t.over ==> t.after((Line::Want { mark, field, want, path }), answers) == Some(t),
{
}

/// A demand is ruled on by the answer it is about, and the ruling goes to the end of the report; samples only
/// gather what they read, and a pile rules on what was gathered.
pub proof fn demands_are_ruled_on_by_their_answer(
    t: Talk,
    mark: Mark,
    field: Seq<char>,
    want: Seq<char>,
    path: Seq<char>,
    answers: Seq<Json>,
)
    requires
        !t.waiting,
        !t.over,
        1 <= t.at <= answers.len(),
    ensures
        mark != Mark::Shape && mark != Mark::Gather && mark != Mark::Pile ==> (match reading(
            mark,
            answers[t.at - 1],
            field,
            want,
            path,
        ) {
            Some(r) => t.after((Line::Want { mark, field, want, path }), answers) matches Some(u) && u.rulings
                == t.rulings.push(r) && u.at == t.at && u.sent == t.sent && u.name == t.name && u.pile == t.pile
                && !u.over && !u.waiting,
            None => t.after((Line::Want { mark, field, want, path }), answers) is None,
        }),
        shaped(answers[t.at - 1], field, want) matches Some(s) ==> t.after(
            (Line::Want { mark: Mark::Shape, field, want, path }),
            answers,
        ) == Some(t),
        shaped(answers[t.at - 1], field, want) is None ==> t.after(
            (Line::Want { mark: Mark::Shape, field, want, path }),
            answers,
        ) is None,
        shaped(answers[t.at - 1], field, want) matches Some(s) ==> (t.after(
            (Line::Want { mark: Mark::Gather, field, want, path }),
            answers,
        ) matches Some(u) && u.pile == t.pile.push(s) && u.rulings == t.rulings && u.at == t.at && u.sent == t.sent
            && u.name == t.name && !u.over && !u.waiting),
        shaped(answers[t.at - 1], field, want) is None ==> t.after(
            (Line::Want { mark: Mark::Gather, field, want, path }),
            answers,
        ) is None,
{
}

/// A pile rules on what was gathered, in brackets with commas between, and starts anew.
pub proof fn piles_rule_on_what_was_gathered(
    t: Talk,
    field: Seq<char>,
    want: Seq<char>,
    path: Seq<char>,
    answers: Seq<Json>,
)
    requires
        !t.waiting,
        !t.over,
    ensures
        t.after((Line::Want { mark: Mark::Pile, field, want, path }), answers) matches Some(u) && u.pile.len() == 0
            && u.rulings.len() == t.rulings.len() + 1 && u.rulings.drop_last() == t.rulings && u.rulings.last().path
            == path && (u.rulings.last().holds() <==> want == seq!['['] + joined(t.pile, seq![',']) + seq![']'])
            && u.at == t.at && u.sent == t.sent && u.name == t.name && !u.over && !u.waiting,
{
    reveal_strlit(",");
    assert(","@ =~= seq![',']);
    assert(t.rulings.push(is_text(path, want, pile_text(t.pile))).drop_last() =~= t.rulings);
}

/// A conversation is followed line by line, and one that breaks stays broken.
pub proof fn conversation_is_followed_line_by_line(lines: Seq<Line>, answers: Seq<Json>, n: int)
    requires
        0 < n,
    ensures
        judged(lines, answers, n - 1) is None ==> judged(lines, answers, n) is None,
        judged(lines, answers, n - 1) matches Some(t) ==> judged(lines, answers, n) == t.after(lines[n - 1], answers),
{
}

/// No more answers are taken than there are, and the report only grows.
pub proof fn report_only_grows(lines: Seq<Line>, answers: Seq<Json>, n: int)
    requires
        0 <= n,
    ensures
        judged(lines, answers, n) matches Some(t) ==> t.sent <= answers.len(),
        judged(lines, answers, n) matches Some(t) ==> (judged(lines, answers, n + 1) matches Some(u) ==> t.rulings
            == u.rulings || t.rulings == u.rulings.drop_last()),
    decreases n,
{
    if n > 0 {
        report_only_grows(lines, answers, n - 1);
    }
    if judged(lines, answers, n) is Some && judged(lines, answers, n + 1) is Some {
        let t = judged(lines, answers, n)->0;
        let u = judged(lines, answers, n + 1)->0;
        assert(u == t.after(lines[n], answers)->0);
        if u.rulings.len() > t.rulings.len() {
            assert(u.rulings.drop_last() =~= t.rulings);
        }
    }
}

/// A conversation breaks at one line at most.
pub proof fn conversation_breaks_once(lines: Seq<Line>, answers: Seq<Json>, j: int, k: int)
    requires
        breaks_at(lines, answers, j),
        breaks_at(lines, answers, k),
    ensures
        j == k,
{
    if j < k {
        lemma_stays_broken(lines, answers, j + 1, k);
    } else if k < j {
        lemma_stays_broken(lines, answers, k + 1, j);
    }
}

proof fn lemma_stays_broken(lines: Seq<Line>, answers: Seq<Json>, n: int, m: int)
    requires
        0 < n <= m,
        judged(lines, answers, n) is None,
    ensures
        judged(lines, answers, m) is None,
    decreases m - n,
{
    if n < m {
        lemma_stays_broken(lines, answers, n, m - 1);
    }
}

/// Where a search finds nothing, there is nothing to find.
pub proof fn nothing_found_is_nothing_there(s: Seq<char>, c: char)
    requires
        first_at(s, c, 0) == s.len(),
    ensures
        !s.contains(c),
{
    if s.contains(c) {
        let k = choose|k: int| 0 <= k < s.len() && s[k] == c;
        search_passes_over_nothing(s, c, 0, k);
    }
}

/// Where two texts go on alike, a search goes alike.
pub proof fn lemma_same_rest(s: Seq<char>, i: int, t: Seq<char>, j: int, c: char)
    requires
        0 <= i <= s.len(),
        0 <= j <= t.len(),
        s.skip(i) == t.skip(j),
    ensures
        s.len() - i == t.len() - j,
        first_at(s, c, i) - i == first_at(t, c, j) - j,
    decreases s.len() - i,
{
    let rest = s.skip(i);
    let same = t.skip(j);
    assert(rest.len() == s.len() - i && same.len() == t.len() - j);
    assert(rest =~= same);
    if i < s.len() {
        assert(rest[0] == s[i] && same[0] == t[j]);
        assert(s.skip(i + 1) =~= s.skip(i).skip(1));
        assert(t.skip(j + 1) =~= t.skip(j).skip(1));
        lemma_same_rest(s, i + 1, t, j + 1, c);
    }
}

proof fn lemma_same_lines(s: Seq<char>, i: int, t: Seq<char>, j: int)
    requires
        0 <= i <= s.len(),
        0 <= j <= t.len(),
        s.skip(i) == t.skip(j),
    ensures
        lines_from(s, i) == lines_from(t, j),
    decreases s.len() - i,
{
    lemma_same_rest(s, i, t, j, '\n');
    lemma_first_at(s, '\n', i);
    let end = first_at(s, '\n', i);
    let stop = first_at(t, '\n', j);
    if end < s.len() {
        assert(s.subrange(i, end) =~= s.skip(i).subrange(0, end - i));
        assert(t.subrange(j, stop) =~= t.skip(j).subrange(0, stop - j));
        assert(s.skip(end + 1) =~= s.skip(i).skip(end + 1 - i));
        assert(t.skip(stop + 1) =~= t.skip(j).skip(stop + 1 - j));
        lemma_same_lines(s, end + 1, t, stop + 1);
    }
}

/// A line break ends one line and begins the next.
pub proof fn line_breaks_end_lines(line: Seq<char>, rest: Seq<char>)
    requires
        !line.contains('\n'),
    ensures
        lines_from(line, 0) == seq![line],
        lines_from(line + seq!['\n'] + rest, 0) == seq![line] + lines_from(rest, 0),
{
    let n = line.len() as int;
    let s = line + seq!['\n'] + rest;
    assert forall|j: int| 0 <= j < n implies #[trigger] line[j] != '\n' by {
        assert(line.contains(line[j]));
    }
    search_finds_the_first(line, '\n', 0, n);
    assert(line.skip(0) =~= line);
    assert forall|j: int| 0 <= j < n implies #[trigger] s[j] != '\n' by {
        assert(s[j] == line[j]);
    }
    search_finds_the_first(s, '\n', 0, n);
    assert(s.subrange(0, n) =~= line);
    assert(s.skip(n + 1) =~= rest.skip(0));
    lemma_same_lines(s, n + 1, rest, 0);
}

} // verus!
