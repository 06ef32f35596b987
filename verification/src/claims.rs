//! Claims about what a driver saw.
//!
//! A driver writes down what it saw as named facts, and where it saw the same kind of thing several
//! times (on every member, in every round) as the rows of a table. What a test demands of them is a
//! list of claims. A claim names the table it is made of, or none; its rule; the fact it looks at; what
//! it wants; and how the report calls it. Claims about the same table that follow one another are made
//! together, row by row. Tables whose names are the same up to a slash are of one group, and claims about
//! a group are made together too: of the rows of all its tables, in the order they were written down, each
//! row by the claims about its own table.
//!
//! The rules are `=`, `!=`, `>=`, `<=`, and `in` with two numbers; `see`, the fact is only reported;
//! `note`, the last text is a note, and `remark`, it is a remark; `block`, the fact is a longer text and
//! the last one its title; and `? ` with a condition, the claim in words of which the third text names
//! what is shown.
//!
//! What is wanted is a number, `true`, `false`, `null`, a text behind `'`, a list of texts, one on each
//! line, behind `[`, or the name of a fact. Behind the name of a fact may stand a plus sign and a
//! number. In a text, the name of a fact in curly brackets stands for what the fact says.
//!
//! A condition is the name of a fact that must be true, or behind `!` one that must be false; `empty`,
//! `some`, `positive`, `rising` or `steady` and the name of a list; or two facts with `=`, `!=`, `<`,
//! `>`, `in`, `of`, `notof` or `each` between them.
use vstd::prelude::*;
use crate::check::{
    all_hold, check_passes_where_every_ruling_holds, is_at_least, is_at_most, is_fact, is_seen, is_that,
    is_within, Check, Demand, Fact, Ruling, Truth, Verdict,
};
use crate::prim::{
    find_char, first_at, lemma_first_at, lemma_same_rest, lines_from, search_finds_the_first, split_lines,
};
use crate::text::{
    decimal_reads_back, int_text, numbers_are_runs_of_digits, parse_whole, push_wide, put_text, same_text,
    texts, whole_number,
};

verus! {

/// Named facts.
pub type Seen = Seq<(Seq<char>, Truth)>;

/// One row of a table: its table, and its own facts.
#[verifier::ext_equal]
pub struct RowSeen {
    pub table: Seq<char>,
    pub facts: Seen,
}

/// What a driver saw.
#[verifier::ext_equal]
pub struct SceneSeen {
    pub facts: Seen,
    pub rows: Seq<RowSeen>,
}

/// What some named facts say.
pub open spec fn seen_of(facts: Seq<(String, Fact)>) -> Seen {
    facts.map_values(|f: (String, Fact)| (f.0@, f.1@))
}

/// One row of a table: its table, and its own facts.
#[derive(Debug)]
pub struct Row {
    pub table: String,
    pub facts: Vec<(String, Fact)>,
}

impl View for Row {
    type V = RowSeen;

    open spec fn view(&self) -> RowSeen {
        RowSeen { table: self.table@, facts: seen_of(self.facts@) }
    }
}

/// What a driver saw.
#[derive(Debug)]
pub struct Record {
    pub facts: Vec<(String, Fact)>,
    pub rows: Vec<Row>,
}

impl View for Record {
    type V = SceneSeen;

    open spec fn view(&self) -> SceneSeen {
        SceneSeen { facts: seen_of(self.facts@), rows: self.rows@.map_values(|r: Row| r@) }
    }
}

impl Record {
    /// A record in which nothing stands.
    pub fn new() -> (r: Record)
        ensures
            r@ == (SceneSeen { facts: Seq::empty(), rows: Seq::empty() }),
    {
        let r = Record { facts: Vec::new(), rows: Vec::new() };
        assert(r@ =~= (SceneSeen { facts: Seq::empty(), rows: Seq::empty() }));
        r
    }

    /// Writes a fact down.
    pub fn put(&mut self, name: &str, fact: Fact)
        ensures
            final(self)@ == (SceneSeen {
                facts: old(self)@.facts.push((name@, fact@)),
                ..old(self)@
            }),
    {
        self.facts.push((String::from_str(name), fact));
        assert(self@.facts =~= old(self)@.facts.push((name@, fact@)));
        assert(self@.rows =~= old(self)@.rows);
    }

    /// Starts a new row of a table.
    pub fn row(&mut self, table: &str)
        ensures
            final(self)@ == (SceneSeen {
                rows: old(self)@.rows.push(RowSeen { table: table@, facts: Seq::empty() }),
                ..old(self)@
            }),
    {
        let row = Row { table: String::from_str(table), facts: Vec::new() };
        assert(row@ =~= (RowSeen { table: table@, facts: Seq::empty() }));
        self.rows.push(row);
        assert(self@.rows =~= old(self)@.rows.push(RowSeen { table: table@, facts: Seq::empty() }));
    }

    /// Writes a fact down in the last row; there must be one.
    pub fn put_in_row(&mut self, name: &str, fact: Fact)
        requires
            old(self)@.rows.len() > 0,
        ensures
            final(self)@ == (SceneSeen {
                rows: old(self)@.rows.drop_last().push(
                    RowSeen {
                        facts: old(self)@.rows.last().facts.push((name@, fact@)),
                        ..old(self)@.rows.last()
                    },
                ),
                ..old(self)@
            }),
    {
        if let Some(mut row) = self.rows.pop() {
            let ghost was = row@;
            row.facts.push((String::from_str(name), fact));
            assert(row@.facts =~= was.facts.push((name@, fact@)));
            self.rows.push(row);
            assert(self@.rows =~= old(self)@.rows.drop_last().push(
                RowSeen {
                    facts: old(self)@.rows.last().facts.push((name@, fact@)),
                    ..old(self)@.rows.last()
                },
            ));
        }
    }
}

/// A claim in a row: the table, the rule, the fact, what is wanted and the path.
pub type ClaimRow = (&'static str, &'static str, &'static str, &'static str, &'static str);

/// The claims of one test: what it is about, and what it demands.
pub type Claims<const N: usize> = (&'static str, [ClaimRow; N]);

/// Where a name first stands among the first `n` facts.
pub open spec fn first_named(seen: Seen, name: Seq<char>, n: int) -> Option<int>
    decreases n,
{
    if n <= 0 {
        None
    } else {
        match first_named(seen, name, n - 1) {
            Some(i) => Some(i),
            None => if seen[n - 1].0 == name {
                Some(n - 1)
            } else {
                None
            },
        }
    }
}

/// What the fact of that name says, where there is one.
pub open spec fn named(seen: Seen, name: Seq<char>) -> Option<Truth> {
    match first_named(seen, name, seen.len() as int) {
        Some(i) => Some(seen[i].1),
        None => None,
    }
}

/// What a row's own fact of that name says, or else the one outside the tables.
pub open spec fn found(row: Seen, all: Seen, name: Seq<char>) -> Option<Truth> {
    match named(row, name) {
        Some(t) => Some(t),
        None => named(all, name),
    }
}

/// The fact that a name, and a plus sign and a number behind it, stand for.
pub open spec fn operand(row: Seen, all: Seen, s: Seq<char>) -> Option<Truth> {
    let plus = first_at(s, '+', 0);
    if plus < s.len() {
        match (found(row, all, s.take(plus)), whole_number(s.skip(plus + 1))) {
            (Some(Truth::Int(n)), Some(more)) => if i128::MIN <= n + more <= i128::MAX {
                Some(Truth::Int(n + more))
            } else {
                None
            },
            _ => None,
        }
    } else {
        found(row, all, s)
    }
}

/// A fact in words, where it is a number, a text, `true` or `false`.
pub open spec fn said(t: Truth) -> Option<Seq<char>> {
    match t {
        Truth::Int(n) => Some(int_text(n)),
        Truth::Text(s) => Some(s),
        Truth::Bool(b) => Some(
            if b {
                "true"@
            } else {
                "false"@
            },
        ),
        _ => None,
    }
}

/// A text from `i` on, with every name in curly brackets replaced by what its fact says.
pub open spec fn filled(row: Seen, all: Seen, s: Seq<char>, i: int) -> Option<Seq<char>>
    decreases s.len() - i,
{
    if i >= s.len() || i < 0 {
        Some(Seq::empty())
    } else if s[i] == '{' {
        let end = first_at(s, '}', i + 1);
        if i < end < s.len() {
            match operand(row, all, s.subrange(i + 1, end)) {
                Some(t) => match (said(t), filled(row, all, s, end + 1)) {
                    (Some(word), Some(rest)) => Some(word + rest),
                    _ => None,
                },
                None => None,
            }
        } else {
            None
        }
    } else {
        match filled(row, all, s, i + 1) {
            Some(rest) => Some(seq![s[i]] + rest),
            None => None,
        }
    }
}

/// Each of some texts, filled.
pub open spec fn all_filled(row: Seen, all: Seen, parts: Seq<Seq<char>>) -> Option<Seq<Seq<char>>>
    decreases parts.len(),
{
    if parts.len() == 0 {
        Some(Seq::empty())
    } else {
        match (all_filled(row, all, parts.drop_last()), filled(row, all, parts.last(), 0)) {
            (Some(before), Some(one)) => Some(before.push(one)),
            _ => None,
        }
    }
}

/// What a want stands for.
pub open spec fn wanted(row: Seen, all: Seen, s: Seq<char>) -> Option<Truth> {
    if whole_number(s) is Some {
        Some(Truth::Int(whole_number(s)->0 as int))
    } else if s == "true"@ {
        Some(Truth::Bool(true))
    } else if s == "false"@ {
        Some(Truth::Bool(false))
    } else if s == "null"@ {
        Some(Truth::Null)
    } else if s.len() > 0 && s[0] == '\'' {
        match filled(row, all, s.skip(1), 0) {
            Some(text) => Some(Truth::Text(text)),
            None => None,
        }
    } else if s.len() > 0 && s[0] == '[' {
        match all_filled(row, all, lines_from(s.skip(1), 0)) {
            Some(list) => Some(Truth::Texts(list)),
            None => None,
        }
    } else {
        operand(row, all, s)
    }
}

/// Every number is larger than the one before it.
pub open spec fn rising(ns: Seq<i64>) -> bool {
    forall|i: int| 0 < i < ns.len() ==> ns[i - 1] < #[trigger] ns[i]
}

/// No number is smaller than the one before it.
pub open spec fn steady(ns: Seq<i64>) -> bool {
    forall|i: int| 0 < i < ns.len() ==> ns[i - 1] <= #[trigger] ns[i]
}

/// Every number is larger than zero.
pub open spec fn positive(ns: Seq<i64>) -> bool {
    forall|i: int| 0 <= i < ns.len() ==> #[trigger] ns[i] > 0
}

/// Every text of a list is `s`.
pub open spec fn each_says(all: Seq<Seq<char>>, s: Seq<char>) -> bool {
    forall|i: int| 0 <= i < all.len() ==> #[trigger] all[i] == s
}

/// Every number of a list is `n`.
pub open spec fn each_is(ns: Seq<i64>, n: int) -> bool {
    forall|i: int| 0 <= i < ns.len() ==> #[trigger] ns[i] == n
}

/// A list of numbers has `n` in it.
pub open spec fn has_number(ns: Seq<i64>, n: int) -> bool {
    exists|i: int| 0 <= i < ns.len() && #[trigger] ns[i] == n
}

/// Whether a list is so.
pub open spec fn list_is(how: Seq<char>, t: Truth) -> Option<bool> {
    match t {
        Truth::Texts(all) => if how == "empty"@ {
            Some(all.len() == 0)
        } else if how == "some"@ {
            Some(all.len() > 0)
        } else {
            None
        },
        Truth::Ints(ns) => if how == "empty"@ {
            Some(ns.len() == 0)
        } else if how == "positive"@ {
            Some(positive(ns))
        } else if how == "rising"@ {
            Some(rising(ns))
        } else if how == "steady"@ {
            Some(steady(ns))
        } else {
            None
        },
        _ => None,
    }
}

/// Whether two facts stand to each other so.
pub open spec fn pair_is(a: Truth, how: Seq<char>, b: Truth) -> Option<bool> {
    if how == "="@ {
        Some(a == b)
    } else if how == "!="@ {
        Some(a != b)
    } else {
        match (a, b) {
            (Truth::Int(m), Truth::Int(n)) => if how == "<"@ {
                Some(m < n)
            } else if how == ">"@ {
                Some(m > n)
            } else {
                None
            },
            (Truth::Int(n), Truth::Ints(ns)) => if how == "in"@ {
                Some(has_number(ns, n))
            } else {
                None
            },
            (Truth::Ints(ns), Truth::Int(n)) => if how == "each"@ {
                Some(each_is(ns, n))
            } else {
                None
            },
            (Truth::Texts(all), Truth::Text(s)) => if how == "each"@ {
                Some(each_says(all, s))
            } else {
                None
            },
            (Truth::Text(s), Truth::Texts(all)) => if how == "of"@ {
                Some(all.contains(s))
            } else if how == "notof"@ {
                Some(!all.contains(s))
            } else {
                None
            },
            _ => None,
        }
    }
}

/// Whether a condition holds.
pub open spec fn condition(row: Seen, all: Seen, s: Seq<char>) -> Option<bool> {
    let first = first_at(s, ' ', 0);
    if first < s.len() {
        let rest = s.skip(first + 1);
        let second = first_at(rest, ' ', 0);
        if second < rest.len() {
            match (wanted(row, all, s.take(first)), wanted(row, all, rest.skip(second + 1))) {
                (Some(a), Some(b)) => pair_is(a, rest.take(second), b),
                _ => None,
            }
        } else {
            match operand(row, all, rest) {
                Some(t) => list_is(s.take(first), t),
                None => None,
            }
        }
    } else if s.len() > 0 && s[0] == '!' {
        match operand(row, all, s.skip(1)) {
            Some(Truth::Bool(b)) => Some(!b),
            _ => None,
        }
    } else {
        match operand(row, all, s) {
            Some(Truth::Bool(b)) => Some(b),
            _ => None,
        }
    }
}

/// What the report shows: a fact, or two numbers with a space between their names.
pub open spec fn shown(row: Seen, all: Seen, s: Seq<char>) -> Option<Truth> {
    let gap = first_at(s, ' ', 0);
    if gap < s.len() {
        match (operand(row, all, s.take(gap)), operand(row, all, s.skip(gap + 1))) {
            (Some(Truth::Int(a)), Some(Truth::Int(b))) => if i64::MIN <= a <= i64::MAX && i64::MIN
                <= b <= i64::MAX {
                Some(Truth::Ints(seq![a as i64, b as i64]))
            } else {
                None
            },
            _ => None,
        }
    } else {
        operand(row, all, s)
    }
}

/// What the report says of a claim, where every fact that it speaks of is there and of its kind.
pub open spec fn ruling_on(row: Seen, all: Seen, claim: ClaimRow, path: Seq<char>) -> Option<Ruling> {
    let rule = claim.1@;
    if rule.len() >= 2 && rule[0] == '?' {
        match (
            condition(row, all, rule.skip(2)),
            shown(row, all, claim.2@),
            filled(row, all, claim.3@, 0),
        ) {
            (Some(holds), Some(got), Some(words)) => Some(is_that(path, words, holds, got)),
            _ => None,
        }
    } else if rule == "see"@ {
        match shown(row, all, claim.2@) {
            Some(got) => Some(is_seen(path, got)),
            None => None,
        }
    } else if rule == "in"@ {
        let gap = first_at(claim.3@, ' ', 0);
        if gap < claim.3@.len() {
            match (
                operand(row, all, claim.2@),
                wanted(row, all, claim.3@.take(gap)),
                wanted(row, all, claim.3@.skip(gap + 1)),
            ) {
                (Some(Truth::Int(got)), Some(Truth::Int(least)), Some(Truth::Int(most))) => Some(
                    is_within(path, least, most, got),
                ),
                _ => None,
            }
        } else {
            None
        }
    } else {
        match (operand(row, all, claim.2@), wanted(row, all, claim.3@)) {
            (Some(got), Some(want)) => if rule == "="@ {
                Some(is_fact(path, want, got))
            } else if rule == "!="@ {
                Some(Ruling { path, demand: Demand::IsNot(want), got })
            } else {
                match (got, want) {
                    (Truth::Int(g), Truth::Int(w)) => if rule == ">="@ {
                        Some(is_at_least(path, w, g))
                    } else if rule == "<="@ {
                        Some(is_at_most(path, w, g))
                    } else {
                        None
                    },
                    _ => None,
                }
            },
            _ => None,
        }
    }
}

/// What the report says once a claim is made.
#[verifier::opaque]
pub open spec fn claimed(row: Seen, all: Seen, claim: ClaimRow, v: Verdict) -> Option<Verdict> {
    match filled(row, all, claim.4@, 0) {
        None => None,
        Some(path) => if claim.1@ == "note"@ {
            Some(Verdict { notes: v.notes.push(path), ..v })
        } else if claim.1@ == "remark"@ {
            Some(Verdict { remarks: v.remarks.push(path), ..v })
        } else if claim.1@ == "block"@ {
            match operand(row, all, claim.2@) {
                Some(Truth::Text(text)) => Some(Verdict { blocks: v.blocks.push((path, text)), ..v }),
                _ => None,
            }
        } else {
            match ruling_on(row, all, claim, path) {
                Some(ruling) => Some(Verdict { rulings: v.rulings.push(ruling), ..v }),
                None => None,
            }
        },
    }
}

/// The group a table is of: its name up to a slash.
pub open spec fn group_of(table: Seq<char>) -> Seq<char> {
    table.take(first_at(table, '/', 0))
}

/// What the report says once those of the claims from `i` up to `j` that are about a row's table are made
/// of the row, and the first of them that cannot be made, where there is one; nothing is claimed from
/// there on.
pub open spec fn row_claimed(
    row: RowSeen,
    all: Seen,
    claims: Seq<ClaimRow>,
    i: int,
    j: int,
    v: Verdict,
) -> (Verdict, Option<int>)
    decreases j - i,
{
    if i >= j {
        (v, None)
    } else if claims[i].0@ != row.table {
        row_claimed(row, all, claims, i + 1, j, v)
    } else {
        match claimed(row.facts, all, claims[i], v) {
            Some(w) => row_claimed(row, all, claims, i + 1, j, w),
            None => (v, Some(i)),
        }
    }
}

/// What the report says once the claims from `i` up to `j` are made of every row of their group, from
/// row `r` on, and the first of them that cannot be made.
pub open spec fn group_claimed(
    scene: SceneSeen,
    claims: Seq<ClaimRow>,
    i: int,
    j: int,
    r: int,
    v: Verdict,
) -> (Verdict, Option<int>)
    decreases scene.rows.len() - r,
{
    if r >= scene.rows.len() || r < 0 {
        (v, None)
    } else if group_of(scene.rows[r].table) == group_of(claims[i].0@) {
        match row_claimed(scene.rows[r], scene.facts, claims, i, j, v) {
            (w, None) => group_claimed(scene, claims, i, j, r + 1, w),
            stopped => stopped,
        }
    } else {
        group_claimed(scene, claims, i, j, r + 1, v)
    }
}

/// Where the claims about the group of claim `i` end, from `j` on.
pub open spec fn block_end(claims: Seq<ClaimRow>, i: int, j: int) -> int
    decreases claims.len() - j,
{
    if j >= claims.len() || j < 0 || claims[j].0@.len() == 0 || group_of(claims[j].0@) != group_of(claims[i].0@) {
        j
    } else {
        block_end(claims, i, j + 1)
    }
}

/// What the report says once the claims from `i` on are made, and the first of them that cannot be
/// made, where there is one; nothing is claimed from there on.
pub open spec fn all_claimed(
    scene: SceneSeen,
    claims: Seq<ClaimRow>,
    i: int,
    v: Verdict,
) -> (Verdict, Option<int>)
    decreases claims.len() - i,
{
    if i >= claims.len() || i < 0 {
        (v, None)
    } else if claims[i].0@.len() == 0 {
        match claimed(Seq::empty(), scene.facts, claims[i], v) {
            Some(w) => all_claimed(scene, claims, i + 1, w),
            None => (v, Some(i)),
        }
    } else {
        let end = block_end(claims, i, i + 1);
        match group_claimed(scene, claims, i, end, 0, v) {
            (w, None) => if i < end <= claims.len() {
                all_claimed(scene, claims, end, w)
            } else {
                (w, None)
            },
            stopped => stopped,
        }
    }
}

/// Of two whole numbers exactly one of less, equal and greater holds; one is greater exactly where the other
/// is less, and less exactly where the difference is positive.
pub proof fn numbers_compare_as_numbers_do(m: int, n: int)
    ensures
        pair_is(Truth::Int(m), "<"@, Truth::Int(n)) == Some(n - m > 0),
        pair_is(Truth::Int(m), ">"@, Truth::Int(n)) == Some(m - n > 0),
        pair_is(Truth::Int(m), "="@, Truth::Int(n)) == Some(m - n == 0),
        pair_is(Truth::Int(m), "!="@, Truth::Int(n)) == Some(m - n != 0),
        pair_is(Truth::Int(m), ">"@, Truth::Int(n)) == pair_is(Truth::Int(n), "<"@, Truth::Int(m)),
        pair_is(Truth::Int(m), "<"@, Truth::Int(n)) == Some(true) || pair_is(
            Truth::Int(m),
            "="@,
            Truth::Int(n),
        ) == Some(true) || pair_is(Truth::Int(m), ">"@, Truth::Int(n)) == Some(true),
        pair_is(Truth::Int(m + 1), ">"@, Truth::Int(m)) == Some(true),
        pair_is(Truth::Int(m), ">"@, Truth::Int(m + 1)) == Some(false),
{
    lemma_signs_differ();
}

/// The words of a comparison are told apart.
proof fn lemma_signs_differ()
    ensures
        "<"@ != "="@,
        "<"@ != "!="@,
        ">"@ != "="@,
        ">"@ != "!="@,
        "<"@ != ">"@,
        "="@ != "!="@,
        "in"@ != "="@,
        "in"@ != "!="@,
        "each"@ != "="@,
        "each"@ != "!="@,
        "of"@ != "="@,
        "of"@ != "!="@,
        "notof"@ != "="@,
        "notof"@ != "!="@,
        "of"@ != "notof"@,
        "empty"@ != "some"@,
        "empty"@ != "positive"@,
        "empty"@ != "rising"@,
        "empty"@ != "steady"@,
        "positive"@ != "rising"@,
        "positive"@ != "steady"@,
        "rising"@ != "steady"@,
{
    reveal_strlit("<");
    reveal_strlit("=");
    reveal_strlit(">");
    reveal_strlit("!=");
    reveal_strlit("in");
    reveal_strlit("each");
    reveal_strlit("of");
    reveal_strlit("notof");
    reveal_strlit("empty");
    reveal_strlit("some");
    reveal_strlit("positive");
    reveal_strlit("rising");
    reveal_strlit("steady");
    assert("<"@[0] == '<' && "="@[0] == '=' && ">"@[0] == '>' && "!="@[0] == '!');
    assert("of"@.len() == 2 && "notof"@.len() == 5 && "empty"@.len() == 5 && "some"@.len() == 4);
    assert("positive"@[0] == 'p' && "rising"@[0] == 'r' && "steady"@[0] == 's');
}

/// Two facts of any kind are equal or not, and not both.
pub proof fn facts_are_equal_or_not(a: Truth, b: Truth)
    ensures
        pair_is(a, "="@, b) == Some(a == b),
        pair_is(a, "!="@, b) == Some(a != b),
        pair_is(a, "="@, a) == Some(true),
        pair_is(a, "="@, b) == pair_is(b, "="@, a),
        pair_is(a, "="@, b) != pair_is(a, "!="@, b),
{
    lemma_signs_differ();
}

/// A number is in a list exactly where it stands somewhere in it, and every number of a list is `n` exactly
/// where no other stands in it; so it is for texts, and a text is of a list or not of it.
pub proof fn membership_goes_by_what_stands_in_the_list(ns: Seq<i64>, n: i64, all: Seq<Seq<char>>, s: Seq<char>)
    ensures
        pair_is(Truth::Int(n as int), "in"@, Truth::Ints(ns)) == Some(ns.contains(n)),
        pair_is(Truth::Ints(ns), "each"@, Truth::Int(n as int)) == Some(
            forall|i: int| 0 <= i < ns.len() ==> #[trigger] ns[i] == n,
        ),
        pair_is(Truth::Texts(all), "each"@, Truth::Text(s)) == Some(
            forall|i: int| 0 <= i < all.len() ==> #[trigger] all[i] == s,
        ),
        pair_is(Truth::Text(s), "of"@, Truth::Texts(all)) == Some(all.contains(s)),
        pair_is(Truth::Text(s), "notof"@, Truth::Texts(all)) == Some(!all.contains(s)),
        pair_is(Truth::Ints(Seq::<i64>::empty()), "each"@, Truth::Int(n as int)) == Some(true),
        pair_is(Truth::Ints(seq![n]), "each"@, Truth::Int(n as int)) == Some(true),
        pair_is(Truth::Int(n as int), "in"@, Truth::Ints(ns.push(n))) == Some(true),
        pair_is(Truth::Int(n as int), "in"@, Truth::Ints(Seq::<i64>::empty())) == Some(false),
{
    lemma_signs_differ();
    assert(has_number(ns, n as int) == ns.contains(n)) by {
        if ns.contains(n) {
            let i = choose|i: int| 0 <= i < ns.len() && ns[i] == n;
            assert(ns[i] == n);
        }
    }
    assert(ns.push(n)[ns.len() as int] == n);
}

/// A list that rises has every number above every number before it, and a steady one has none below one
/// before it.
pub proof fn rising_and_steady_lists_are_so_throughout(ns: Seq<i64>, i: int, j: int)
    requires
        0 <= i < j < ns.len(),
    ensures
        list_is("rising"@, Truth::Ints(ns)) == Some(true) ==> ns[i] < ns[j],
        list_is("steady"@, Truth::Ints(ns)) == Some(true) ==> ns[i] <= ns[j],
{
    lemma_signs_differ();
    if rising(ns) {
        lemma_rises(ns, i, j);
    }
    if steady(ns) {
        lemma_stays(ns, i, j);
    }
}

/// A list in which every number is above every one before it rises.
pub proof fn list_that_goes_up_rises(ns: Seq<i64>)
    requires
        forall|i: int, j: int| 0 <= i < j < ns.len() ==> #[trigger] ns[i] < #[trigger] ns[j],
    ensures
        list_is("rising"@, Truth::Ints(ns)) == Some(true),
        list_is("steady"@, Truth::Ints(ns)) == Some(true),
{
    lemma_signs_differ();
}

/// A list in which no number is below one before it is steady, and does not rise where two are the same.
pub proof fn list_that_never_goes_down_is_steady(ns: Seq<i64>, k: int)
    requires
        forall|i: int, j: int| 0 <= i < j < ns.len() ==> #[trigger] ns[i] <= #[trigger] ns[j],
    ensures
        list_is("steady"@, Truth::Ints(ns)) == Some(true),
        0 < k < ns.len() && ns[k - 1] == ns[k] ==> list_is("rising"@, Truth::Ints(ns)) == Some(false),
{
    lemma_signs_differ();
}

/// A list is positive exactly where no number of it is zero or less, and empty or not as its length has it.
pub proof fn lists_are_positive_or_empty(ns: Seq<i64>, all: Seq<Seq<char>>)
    ensures
        list_is("positive"@, Truth::Ints(ns)) == Some(
            forall|i: int| 0 <= i < ns.len() ==> 0 < #[trigger] ns[i],
        ),
        list_is("empty"@, Truth::Ints(ns)) == Some(ns.len() == 0),
        list_is("empty"@, Truth::Texts(all)) == Some(all.len() == 0),
        list_is("some"@, Truth::Texts(all)) == Some(all.len() != 0),
{
    lemma_signs_differ();
}

proof fn lemma_rises(ns: Seq<i64>, i: int, j: int)
    requires
        rising(ns),
        0 <= i < j < ns.len(),
    ensures
        ns[i] < ns[j],
    decreases j - i,
{
    assert(ns[j - 1] < ns[j]);
    if i < j - 1 {
        lemma_rises(ns, i, j - 1);
    }
}

proof fn lemma_stays(ns: Seq<i64>, i: int, j: int)
    requires
        steady(ns),
        0 <= i < j < ns.len(),
    ensures
        ns[i] <= ns[j],
    decreases j - i,
{
    assert(ns[j - 1] <= ns[j]);
    if i < j - 1 {
        lemma_stays(ns, i, j - 1);
    }
}

/// A claim that speaks of a fact which is not there, or is of another kind.
#[derive(Clone, Copy, Debug)]
pub struct Unseen {
    /// Where the claim stands in its list; the length of the list where it is what the test is about
    /// that names such a fact.
    pub at: usize,
}

/// The facts a claim is made of: a row's own, if it is made of one, and those outside the tables.
struct Facts<'a> {
    row: Option<&'a Vec<(String, Fact)>>,
    all: &'a Vec<(String, Fact)>,
}

/// What a row's own facts say; nothing where there is no row.
spec fn row_of(row: Option<&Vec<(String, Fact)>>) -> Seen {
    match row {
        Some(facts) => seen_of(facts@),
        None => Seq::empty(),
    }
}

/// The fact of that name, where there is one.
fn find_named<'a>(facts: &'a Vec<(String, Fact)>, name: &str) -> (r: Option<&'a Fact>)
    ensures
        match named(seen_of(facts@), name@) {
            Some(t) => r is Some && r->0@ == t,
            None => r is None,
        },
{
    let ghost seen = seen_of(facts@);
    let mut i: usize = 0;
    while i < facts.len()
        invariant
            i <= facts@.len(),
            seen == seen_of(facts@),
            first_named(seen, name@, i as int) is None,
        decreases facts@.len() - i,
    {
        if same_text(facts[i].0.as_str(), name) {
            proof {
                assert(seen[i as int].0 == name@);
                lemma_first_named_stays(seen, name@, i + 1, seen.len() as int);
            }
            return Some(&facts[i].1);
        }
        assert(seen[i as int].0 != name@);
        i += 1;
    }
    None
}

proof fn lemma_first_named_stays(seen: Seen, name: Seq<char>, i: int, n: int)
    requires
        0 <= i <= n,
        first_named(seen, name, i) is Some,
    ensures
        first_named(seen, name, n) == first_named(seen, name, i),
    decreases n - i,
{
    if i < n {
        lemma_first_named_stays(seen, name, i, n - 1);
    }
}

impl<'a> Facts<'a> {
    spec fn row(self) -> Seen {
        row_of(self.row)
    }

    spec fn all(self) -> Seen {
        seen_of(self.all@)
    }

    fn find(&self, name: &str) -> (r: Option<&'a Fact>)
        ensures
            match found(self.row(), self.all(), name@) {
                Some(t) => r is Some && r->0@ == t,
                None => r is None,
            },
    {
        if let Some(facts) = self.row {
            if let Some(fact) = find_named(facts, name) {
                return Some(fact);
            }
        }
        find_named(self.all, name)
    }

    /// The fact that a name, and a plus sign and a number behind it, stand for.
    fn operand(&self, s: &str) -> (r: Option<Fact>)
        ensures
            match operand(self.row(), self.all(), s@) {
                Some(t) => r is Some && r->0@ == t,
                None => r is None,
            },
    {
        let n: usize = s.unicode_len();
        let plus: usize = find_char(s, '+', 0, n);
        if plus < n {
            let name = s.substring_char(0, plus);
            let more = s.substring_char(plus + 1, n);
            assert(name@ =~= s@.take(plus as int));
            assert(more@ =~= s@.skip(plus + 1));
            if let Some(Fact::Int(base)) = self.find(name) {
                if let Some(more) = parse_whole(more) {
                    let more: i128 = more as i128;
                    if (more >= 0 && *base <= i128::MAX - more) || (more < 0 && *base >= i128::MIN - more) {
                        return Some(Fact::Int(*base + more));
                    }
                }
            }
            return None;
        }
        match self.find(s) {
            Some(fact) => Some(fact.copy()),
            None => None,
        }
    }

    /// A text with every name in curly brackets replaced by what its fact says.
    fn fill(&self, s: &str) -> (r: Option<String>)
        ensures
            match filled(self.row(), self.all(), s@, 0) {
                Some(text) => r is Some && r->0@ == text,
                None => r is None,
            },
    {
        let n: usize = s.unicode_len();
        let mut out = String::new();
        let ghost whole = filled(self.row(), self.all(), s@, 0);
        let mut i: usize = 0;
        assert(whole is Some ==> out@ + whole->0 =~= whole->0);
        while i < n
            invariant
                n == s@.len(),
                i <= n,
                whole == filled(self.row(), self.all(), s@, 0),
                match filled(self.row(), self.all(), s@, i as int) {
                    Some(rest) => whole == Some(out@ + rest),
                    None => whole is None,
                },
            decreases n - i,
        {
            let ghost before = out@;
            let ghost at = filled(self.row(), self.all(), s@, i as int);
            let c = s.get_char(i);
            if c == '{' {
                let end: usize = find_char(s, '}', i + 1, n);
                if end >= n {
                    return None;
                }
                let name = s.substring_char(i + 1, end);
                assert(name@ =~= s@.subrange(i + 1, end as int));
                let ghost rest = filled(self.row(), self.all(), s@, end + 1);
                match self.operand(name) {
                    Some(Fact::Int(k)) => {
                        push_wide(&mut out, k);
                    },
                    Some(Fact::Text(word)) => {
                        out.append(word.as_str());
                    },
                    Some(Fact::Bool(b)) => {
                        out.append(
                            if b {
                                "true"
                            } else {
                                "false"
                            },
                        );
                    },
                    _ => {
                        return None;
                    },
                }
                proof {
                    if rest is Some {
                        assert(out@ + rest->0 =~= before + at->0);
                    }
                }
                i = end + 1;
            } else {
                out.push(c);
                proof {
                    let rest = filled(self.row(), self.all(), s@, i + 1);
                    if rest is Some {
                        assert(out@ + rest->0 =~= before + at->0);
                    }
                }
                i += 1;
            }
        }
        assert(out@ + Seq::<char>::empty() =~= out@);
        Some(out)
    }

    /// Each of some texts, filled.
    fn fill_all(&self, parts: &Vec<String>) -> (r: Option<Vec<String>>)
        ensures
            match all_filled(self.row(), self.all(), texts(parts@)) {
                Some(list) => r is Some && texts(r->0@) == list,
                None => r is None,
            },
    {
        let ghost all = texts(parts@);
        let mut out: Vec<String> = Vec::new();
        let mut i: usize = 0;
        assert(all.take(0) =~= Seq::empty());
        assert(texts(out@) =~= Seq::<Seq<char>>::empty());
        while i < parts.len()
            invariant
                i <= parts@.len(),
                all == texts(parts@),
                all_filled(self.row(), self.all(), all.take(i as int)) == Some(texts(out@)),
            decreases parts@.len() - i,
        {
            assert(all.take(i + 1).drop_last() =~= all.take(i as int));
            assert(all.take(i + 1).last() == parts@[i as int]@);
            match self.fill(parts[i].as_str()) {
                Some(one) => {
                    put_text(&mut out, one);
                },
                None => {
                    proof {
                        lemma_all_filled_stops(self.row(), self.all(), all, i + 1, all.len() as int);
                        assert(all.take(all.len() as int) =~= all);
                    }
                    return None;
                },
            }
            i += 1;
        }
        assert(all.take(i as int) =~= all);
        Some(out)
    }

    /// What a want stands for.
    fn want(&self, s: &str) -> (r: Option<Fact>)
        ensures
            match wanted(self.row(), self.all(), s@) {
                Some(t) => r is Some && r->0@ == t,
                None => r is None,
            },
    {
        if let Some(n) = parse_whole(s) {
            return Some(Fact::Int(n as i128));
        }
        if same_text(s, "true") {
            return Some(Fact::Bool(true));
        }
        if same_text(s, "false") {
            return Some(Fact::Bool(false));
        }
        if same_text(s, "null") {
            return Some(Fact::Null);
        }
        let n: usize = s.unicode_len();
        if n > 0 && s.get_char(0) == '\'' {
            let rest = s.substring_char(1, n);
            assert(rest@ =~= s@.skip(1));
            return match self.fill(rest) {
                Some(text) => Some(Fact::Text(text)),
                None => None,
            };
        }
        if n > 0 && s.get_char(0) == '[' {
            let rest = s.substring_char(1, n);
            assert(rest@ =~= s@.skip(1));
            let parts = split_lines(rest);
            return match self.fill_all(&parts) {
                Some(list) => Some(Fact::Texts(list)),
                None => None,
            };
        }
        self.operand(s)
    }

    /// Whether a condition holds.
    fn condition(&self, s: &str) -> (r: Option<bool>)
        ensures
            r == condition(self.row(), self.all(), s@),
    {
        let n: usize = s.unicode_len();
        let first: usize = find_char(s, ' ', 0, n);
        if first < n {
            let head = s.substring_char(0, first);
            let rest = s.substring_char(first + 1, n);
            assert(head@ =~= s@.take(first as int));
            assert(rest@ =~= s@.skip(first + 1));
            let m: usize = rest.unicode_len();
            let second: usize = find_char(rest, ' ', 0, m);
            if second < m {
                let how = rest.substring_char(0, second);
                let tail = rest.substring_char(second + 1, m);
                assert(how@ =~= rest@.take(second as int));
                assert(tail@ =~= rest@.skip(second + 1));
                if let Some(a) = self.want(head) {
                    if let Some(b) = self.want(tail) {
                        return judge_pair(&a, how, &b);
                    }
                }
                return None;
            }
            return match self.operand(rest) {
                Some(fact) => judge_list(head, &fact),
                None => None,
            };
        }
        if n > 0 && s.get_char(0) == '!' {
            let name = s.substring_char(1, n);
            assert(name@ =~= s@.skip(1));
            return match self.operand(name) {
                Some(Fact::Bool(b)) => Some(!b),
                _ => None,
            };
        }
        match self.operand(s) {
            Some(Fact::Bool(b)) => Some(b),
            _ => None,
        }
    }

    /// What the report shows.
    fn show(&self, s: &str) -> (r: Option<Fact>)
        ensures
            match shown(self.row(), self.all(), s@) {
                Some(t) => r is Some && r->0@ == t,
                None => r is None,
            },
    {
        let n: usize = s.unicode_len();
        let gap: usize = find_char(s, ' ', 0, n);
        if gap < n {
            let head = s.substring_char(0, gap);
            let tail = s.substring_char(gap + 1, n);
            assert(head@ =~= s@.take(gap as int));
            assert(tail@ =~= s@.skip(gap + 1));
            if let Some(Fact::Int(a)) = self.operand(head) {
                if let Some(Fact::Int(b)) = self.operand(tail) {
                    let least: i128 = i64::MIN as i128;
                    let most: i128 = i64::MAX as i128;
                    if least <= a && a <= most && least <= b && b <= most {
                        let mut both: Vec<i64> = Vec::new();
                        both.push(a as i64);
                        both.push(b as i64);
                        assert(both@ =~= seq![a as i64, b as i64]);
                        return Some(Fact::Ints(both));
                    }
                }
            }
            return None;
        }
        self.operand(s)
    }

    /// Makes one claim; says whether every fact it speaks of is there and of its kind.
    fn rule(&self, c: &mut Check, claim: &ClaimRow, path: &str) -> (made: bool)
        ensures
            match ruling_on(self.row(), self.all(), *claim, path@) {
                Some(ruling) => made && final(c)@ == (Verdict {
                    rulings: old(c)@.rulings.push(ruling),
                    ..old(c)@
                }),
                None => !made && final(c)@ == old(c)@,
            },
    {
        let rule = claim.1;
        let n: usize = rule.unicode_len();
        if n >= 2 && rule.get_char(0) == '?' {
            let test = rule.substring_char(2, n);
            assert(test@ =~= rule@.skip(2));
            if let Some(holds) = self.condition(test) {
                if let Some(got) = self.show(claim.2) {
                    if let Some(words) = self.fill(claim.3) {
                        c.that(path, words.as_str(), holds, got);
                        return true;
                    }
                }
            }
            return false;
        }
        if same_text(rule, "see") {
            return match self.show(claim.2) {
                Some(got) => {
                    c.observe(path, got);
                    true
                },
                None => false,
            };
        }
        if same_text(rule, "in") {
            let m: usize = claim.3.unicode_len();
            let gap: usize = find_char(claim.3, ' ', 0, m);
            if gap < m {
                let head = claim.3.substring_char(0, gap);
                let tail = claim.3.substring_char(gap + 1, m);
                assert(head@ =~= claim.3@.take(gap as int));
                assert(tail@ =~= claim.3@.skip(gap + 1));
                if let Some(Fact::Int(got)) = self.operand(claim.2) {
                    if let Some(Fact::Int(least)) = self.want(head) {
                        if let Some(Fact::Int(most)) = self.want(tail) {
                            c.within(path, least, most, got);
                            return true;
                        }
                    }
                }
            }
            return false;
        }
        if let Some(got) = self.operand(claim.2) {
            if let Some(want) = self.want(claim.3) {
                if same_text(rule, "=") {
                    c.eq(path, want, got);
                    return true;
                }
                if same_text(rule, "!=") {
                    c.ne(path, want, got);
                    return true;
                }
                if let Fact::Int(g) = got {
                    if let Fact::Int(w) = want {
                        if same_text(rule, ">=") {
                            c.at_least(path, w, g);
                            return true;
                        }
                        if same_text(rule, "<=") {
                            c.at_most(path, w, g);
                            return true;
                        }
                    }
                }
            }
        }
        false
    }

    /// Makes one claim; says whether every fact it speaks of is there and of its kind.
    fn claim(&self, c: &mut Check, claim: &ClaimRow) -> (made: bool)
        ensures
            match claimed(self.row(), self.all(), *claim, old(c)@) {
                Some(v) => made && final(c)@ == v,
                None => !made && final(c)@ == old(c)@,
            },
    {
        reveal(claimed);
        match self.fill(claim.4) {
            None => false,
            Some(path) => {
                if same_text(claim.1, "note") {
                    c.note(path.as_str());
                    true
                } else if same_text(claim.1, "remark") {
                    c.remark(path.as_str());
                    true
                } else if same_text(claim.1, "block") {
                    match self.operand(claim.2) {
                        Some(Fact::Text(text)) => {
                            c.block(path.as_str(), text.as_str());
                            true
                        },
                        _ => false,
                    }
                } else {
                    self.rule(c, claim, path.as_str())
                }
            },
        }
    }
}

proof fn lemma_all_filled_stops(row: Seen, all: Seen, parts: Seq<Seq<char>>, i: int, n: int)
    requires
        0 <= i <= n <= parts.len(),
        all_filled(row, all, parts.take(i)) is None,
    ensures
        all_filled(row, all, parts.take(n)) is None,
    decreases n - i,
{
    if i < n {
        lemma_all_filled_stops(row, all, parts, i, n - 1);
        assert(parts.take(n).drop_last() =~= parts.take(n - 1));
    }
}

/// Whether every number is larger than the one before it, or where `equal` is set no smaller.
fn climbs(ns: &Vec<i64>, equal: bool) -> (r: bool)
    ensures
        r == if equal {
            steady(ns@)
        } else {
            rising(ns@)
        },
{
    let mut i: usize = 1;
    while i < ns.len()
        invariant
            1 <= i,
            i <= ns@.len() || ns@.len() == 0,
            forall|k: int|
                0 < k < i && k < ns@.len() ==> ns@[k - 1] <= #[trigger] ns@[k] && (ns@[k - 1] < ns@[k]
                    || equal),
        decreases ns@.len() - i,
    {
        if ns[i - 1] > ns[i] || (ns[i - 1] == ns[i] && !equal) {
            assert(0 < i < ns@.len());
            return false;
        }
        i += 1;
    }
    true
}

/// Whether every number is larger than zero.
fn all_positive(ns: &Vec<i64>) -> (r: bool)
    ensures
        r == positive(ns@),
{
    let mut i: usize = 0;
    while i < ns.len()
        invariant
            i <= ns@.len(),
            forall|k: int| 0 <= k < i ==> #[trigger] ns@[k] > 0,
        decreases ns@.len() - i,
    {
        if ns[i] <= 0 {
            return false;
        }
        i += 1;
    }
    true
}

/// Whether every text of a list is `s`.
fn all_say(all: &Vec<String>, s: &str) -> (r: bool)
    ensures
        r == each_says(texts(all@), s@),
{
    let mut i: usize = 0;
    while i < all.len()
        invariant
            i <= all@.len(),
            forall|k: int| 0 <= k < i ==> #[trigger] texts(all@)[k] == s@,
        decreases all@.len() - i,
    {
        if !same_text(all[i].as_str(), s) {
            assert(texts(all@)[i as int] != s@);
            return false;
        }
        i += 1;
    }
    true
}

/// Whether a list is so.
fn judge_list(how: &str, fact: &Fact) -> (r: Option<bool>)
    ensures
        r == list_is(how@, fact@),
{
    match fact {
        Fact::Texts(all) => {
            assert(texts(all@).len() == all@.len());
            if same_text(how, "empty") {
                Some(all.len() == 0)
            } else if same_text(how, "some") {
                Some(all.len() > 0)
            } else {
                None
            }
        },
        Fact::Ints(ns) => {
            if same_text(how, "empty") {
                Some(ns.len() == 0)
            } else if same_text(how, "positive") {
                Some(all_positive(ns))
            } else if same_text(how, "rising") {
                Some(climbs(ns, false))
            } else if same_text(how, "steady") {
                Some(climbs(ns, true))
            } else {
                None
            }
        },
        _ => None,
    }
}

/// Whether every number of a list is `n`, or where `any` is set whether one of them is.
fn matches_number(ns: &Vec<i64>, n: i128, any: bool) -> (r: bool)
    ensures
        r == if any {
            has_number(ns@, n as int)
        } else {
            each_is(ns@, n as int)
        },
{
    let mut i: usize = 0;
    while i < ns.len()
        invariant
            i <= ns@.len(),
            forall|k: int| 0 <= k < i ==> (#[trigger] ns@[k] == n) == !any,
        decreases ns@.len() - i,
    {
        if (ns[i] as i128 == n) == any {
            assert(ns@[i as int] == n || ns@[i as int] != n);
            return any;
        }
        i += 1;
    }
    !any
}

/// Whether a text stands in a list.
fn stands_in(s: &str, all: &Vec<String>) -> (r: bool)
    ensures
        r == texts(all@).contains(s@),
{
    let mut i: usize = 0;
    while i < all.len()
        invariant
            i <= all@.len(),
            forall|k: int| 0 <= k < i ==> #[trigger] texts(all@)[k] != s@,
        decreases all@.len() - i,
    {
        if same_text(all[i].as_str(), s) {
            assert(texts(all@)[i as int] == s@);
            return true;
        }
        i += 1;
    }
    false
}

/// Whether two facts stand to each other so.
fn judge_pair(a: &Fact, how: &str, b: &Fact) -> (r: Option<bool>)
    ensures
        r == pair_is(a@, how@, b@),
{
    if same_text(how, "=") {
        return Some(a.same(b));
    }
    if same_text(how, "!=") {
        return Some(!a.same(b));
    }
    match (a, b) {
        (Fact::Int(m), Fact::Int(n)) => {
            if same_text(how, "<") {
                Some(*m < *n)
            } else if same_text(how, ">") {
                Some(*m > *n)
            } else {
                None
            }
        },
        (Fact::Int(n), Fact::Ints(ns)) => {
            if same_text(how, "in") {
                Some(matches_number(ns, *n, true))
            } else {
                None
            }
        },
        (Fact::Ints(ns), Fact::Int(n)) => {
            if same_text(how, "each") {
                Some(matches_number(ns, *n, false))
            } else {
                None
            }
        },
        (Fact::Texts(all), Fact::Text(s)) => {
            if same_text(how, "each") {
                Some(all_say(all, s.as_str()))
            } else {
                None
            }
        },
        (Fact::Text(s), Fact::Texts(all)) => {
            if same_text(how, "of") {
                Some(stands_in(s.as_str(), all))
            } else if same_text(how, "notof") {
                Some(!stands_in(s.as_str(), all))
            } else {
                None
            }
        },
        _ => None,
    }
}

/// Whether two tables are of one group.
fn same_group(a: &str, b: &str) -> (r: bool)
    ensures
        r == (group_of(a@) == group_of(b@)),
{
    let m: usize = a.unicode_len();
    let n: usize = b.unicode_len();
    let first = a.substring_char(0, find_char(a, '/', 0, m));
    let second = b.substring_char(0, find_char(b, '/', 0, n));
    assert(first@ =~= group_of(a@));
    assert(second@ =~= group_of(b@));
    same_text(first, second)
}

/// Makes those of the claims from `i` up to `j` that are about a row's table of the row; returns the first
/// that cannot be made.
fn claim_row(
    c: &mut Check,
    row: &Row,
    all: &Vec<(String, Fact)>,
    claims: &[ClaimRow],
    i: usize,
    j: usize,
) -> (r: Option<usize>)
    requires
        i <= j <= claims@.len(),
    ensures
        ({
            let (v, stop) = row_claimed(
                row@,
                seen_of(all@),
                claims@,
                i as int,
                j as int,
                old(c)@,
            );
            final(c)@ == v && match stop {
                Some(at) => r matches Some(k) && k == at,
                None => r is None,
            }
        }),
{
    let ghost start = c@;
    let facts = Facts { row: Some(&row.facts), all };
    let mut k: usize = i;
    while k < j
        invariant
            i <= k <= j <= claims@.len(),
            start == old(c)@,
            facts.row() == row@.facts,
            facts.all() == seen_of(all@),
            row_claimed(row@, seen_of(all@), claims@, i as int, j as int, start) == row_claimed(
                row@,
                seen_of(all@),
                claims@,
                k as int,
                j as int,
                c@,
            ),
        decreases j - k,
    {
        if same_text(claims[k].0, row.table.as_str()) {
            if !facts.claim(c, &claims[k]) {
                return Some(k);
            }
        }
        k += 1;
    }
    None
}

/// Makes the claims of a list, up to the first that speaks of a fact which is not there, or is of
/// another kind.
pub fn claim(c: &mut Check, claims: &[ClaimRow], record: &Record) -> (r: Result<(), Unseen>)
    ensures
        ({
            let (v, stop) = all_claimed(record@, claims@, 0, old(c)@);
            final(c)@ == v && match stop {
                Some(at) => r matches Err(e) && e.at == at,
                None => r is Ok,
            }
        }),
{
    let ghost start = c@;
    let ghost scene = record@;
    let mut i: usize = 0;
    while i < claims.len()
        invariant
            i <= claims@.len(),
            start == old(c)@,
            scene == record@,
            all_claimed(scene, claims@, 0, start) == all_claimed(scene, claims@, i as int, c@),
        decreases claims@.len() - i,
    {
        let table = claims[i].0;
        if table.unicode_len() == 0 {
            let facts = Facts { row: None, all: &record.facts };
            if !facts.claim(c, &claims[i]) {
                return Err(Unseen { at: i });
            }
            i += 1;
        } else {
            let mut j: usize = i + 1;
            while j < claims.len() && claims[j].0.unicode_len() > 0 && same_group(claims[j].0, table)
                invariant
                    i < j <= claims@.len(),
                    table@ == claims@[i as int].0@,
                    block_end(claims@, i as int, i + 1) == block_end(claims@, i as int, j as int),
                decreases claims@.len() - j,
            {
                j += 1;
            }
            let ghost before = c@;
            let mut r: usize = 0;
            while r < record.rows.len()
                invariant
                    i < j <= claims@.len(),
                    r <= record.rows@.len(),
                    start == old(c)@,
                    scene == record@,
                    table@ == claims@[i as int].0@,
                    group_claimed(scene, claims@, i as int, j as int, 0, before) == group_claimed(
                        scene,
                        claims@,
                        i as int,
                        j as int,
                        r as int,
                        c@,
                    ),
                    all_claimed(scene, claims@, 0, start) == all_claimed(
                        scene,
                        claims@,
                        i as int,
                        before,
                    ),
                    claims@[i as int].0@.len() > 0,
                    block_end(claims@, i as int, i + 1) == j,
                decreases record.rows@.len() - r,
            {
                let row = &record.rows[r];
                assert(scene.rows[r as int] == row@);
                if same_group(row.table.as_str(), table) {
                    if let Some(at) = claim_row(c, row, &record.facts, claims, i, j) {
                        return Err(Unseen { at });
                    }
                }
                r += 1;
            }
            i = j;
        }
    }
    Ok(())
}

/// Makes every claim of a test, starting from nothing; what the test is about may name facts too.
pub fn judge(about: &str, claims: &[ClaimRow], record: &Record) -> (r: Result<Check, Unseen>)
    ensures
        match filled(Seq::empty(), record@.facts, about@, 0) {
            Some(subject) => match all_claimed(
                record@,
                claims@,
                0,
                Verdict::plain(subject, Seq::empty(), Seq::empty()),
            ) {
                (v, None) => r is Ok && r->Ok_0@ == v,
                (_, Some(at)) => r matches Err(e) && e.at == at,
            },
            None => r matches Err(e) && e.at == claims@.len(),
        },
{
    let facts = Facts { row: None, all: &record.facts };
    match facts.fill(about) {
        Some(subject) => {
            let mut c = Check::new(subject.as_str());
            match claim(&mut c, claims, record) {
                Ok(()) => Ok(c),
                Err(e) => Err(e),
            }
        },
        None => Err(Unseen { at: claims.len() }),
    }
}

/// A fact is the first of its name.
pub proof fn fact_is_the_first_of_its_name(seen: Seen, name: Seq<char>, i: int)
    requires
        0 <= i < seen.len(),
        forall|k: int| 0 <= k < i ==> (#[trigger] seen[k]).0 != name,
    ensures
        seen[i].0 == name ==> named(seen, name) == Some(seen[i].1),
        seen[i].0 != name && i == seen.len() - 1 ==> named(seen, name) is None,
        named(Seq::empty(), name) is None,
{
    lemma_none_named(seen, name, i);
    if seen[i].0 == name {
        lemma_name_stays(seen, name, i + 1, seen.len() as int);
    }
}

proof fn lemma_none_named(seen: Seen, name: Seq<char>, n: int)
    requires
        n <= seen.len(),
        forall|k: int| 0 <= k < n ==> (#[trigger] seen[k]).0 != name,
    ensures
        first_named(seen, name, n) is None,
    decreases n,
{
    if n > 0 {
        lemma_none_named(seen, name, n - 1);
    }
}

proof fn lemma_name_stays(seen: Seen, name: Seq<char>, n: int, m: int)
    requires
        n <= m,
        first_named(seen, name, n) is Some,
    ensures
        first_named(seen, name, m) == first_named(seen, name, n),
    decreases m - n,
{
    if n < m {
        lemma_name_stays(seen, name, n, m - 1);
    }
}

/// What a row says of a name comes before what is said of everything.
pub proof fn rows_come_first(row: Seen, all: Seen, name: Seq<char>)
    ensures
        named(row, name) is Some ==> found(row, all, name) == named(row, name),
        named(row, name) is None ==> found(row, all, name) == named(all, name),
{
}

/// A name is looked up as it is, and a number behind a plus sign is added to what it stands for.
pub proof fn numbers_are_added_to_facts(row: Seen, all: Seen, name: Seq<char>, more: i64)
    requires
        !name.contains('+'),
    ensures
        operand(row, all, name) == found(row, all, name),
        found(row, all, name) matches Some(Truth::Int(n)) ==> (i128::MIN <= n + more <= i128::MAX ==> operand(
            row,
            all,
            name + seq!['+'] + int_text(more as int),
        ) == Some(Truth::Int(n + more))),
        !(found(row, all, name) matches Some(Truth::Int(_))) ==> operand(
            row,
            all,
            name + seq!['+'] + int_text(more as int),
        ) is None,
{
    let n = name.len() as int;
    let s = name + seq!['+'] + int_text(more as int);
    assert forall|j: int| 0 <= j < n implies #[trigger] name[j] != '+' by {
        assert(name.contains(name[j]));
    }
    search_finds_the_first(name, '+', 0, n);
    assert forall|j: int| 0 <= j < n implies #[trigger] s[j] != '+' by {
        assert(s[j] == name[j]);
    }
    search_finds_the_first(s, '+', 0, n);
    assert(s.take(n) =~= name);
    assert(s.skip(n + 1) =~= int_text(more as int));
    decimal_reads_back(more);
}

/// What numbers, texts and flags say in a text; nothing else says anything there.
pub proof fn facts_are_said_plainly(n: int, s: Seq<char>, t: Truth)
    ensures
        said(Truth::Int(n)) == Some(int_text(n)),
        said(Truth::Text(s)) == Some(s),
        said(Truth::Bool(true)) == Some("true"@),
        said(Truth::Bool(false)) == Some("false"@),
        !(t is Int) && !(t is Text) && !(t is Bool) ==> said(t) is None,
{
}

proof fn lemma_filled_by_rest(row: Seen, all: Seen, s: Seq<char>, i: int, t: Seq<char>, j: int)
    requires
        0 <= i <= s.len(),
        0 <= j <= t.len(),
        s.skip(i) == t.skip(j),
    ensures
        filled(row, all, s, i) == filled(row, all, t, j),
    decreases s.len() - i,
{
    let rest = s.skip(i);
    let same = t.skip(j);
    assert(rest.len() == s.len() - i && same.len() == t.len() - j);
    assert(rest =~= same);
    if i < s.len() {
        assert(rest[0] == s[i] && same[0] == t[j]);
        assert(s.skip(i + 1) =~= s.skip(i).skip(1));
        assert(t.skip(j + 1) =~= t.skip(j).skip(1));
        lemma_filled_by_rest(row, all, s, i + 1, t, j + 1);
        if s[i] == '{' {
            lemma_same_rest(s, i + 1, t, j + 1, '}');
            lemma_first_at(s, '}', i + 1);
            let end = first_at(s, '}', i + 1);
            let stop = first_at(t, '}', j + 1);
            if end < s.len() {
                assert(s.subrange(i + 1, end) =~= s.skip(i).subrange(1, end - i));
                assert(t.subrange(j + 1, stop) =~= t.skip(j).subrange(1, stop - j));
                assert(s.skip(end + 1) =~= s.skip(i).skip(end + 1 - i));
                assert(t.skip(stop + 1) =~= t.skip(j).skip(stop + 1 - j));
                lemma_filled_by_rest(row, all, s, end + 1, t, stop + 1);
            }
        }
    }
}

/// What stands before the first curly bracket of a text stays as it is.
pub proof fn plain_text_stays(row: Seen, all: Seen, plain: Seq<char>, rest: Seq<char>)
    requires
        !plain.contains('{'),
    ensures
        filled(row, all, plain + rest, 0) == (match filled(row, all, rest, 0) {
            Some(r) => Some(plain + r),
            None => None,
        }),
        filled(row, all, plain, 0) == Some(plain),
    decreases plain.len(),
{
    let s = plain + rest;
    if plain.len() == 0 {
        assert(s =~= rest);
        assert(forall|r: Seq<char>| #[trigger] (plain + r) =~= r);
        assert(plain =~= Seq::empty());
    } else {
        let tail = plain.skip(1);
        assert(plain.contains(plain[0]));
        assert(s[0] == plain[0]);
        if tail.contains('{') {
            let j = choose|j: int| 0 <= j < tail.len() && tail[j] == '{';
            assert(plain[j + 1] == '{');
        }
        plain_text_stays(row, all, tail, rest);
        assert(s.skip(1) =~= (tail + rest).skip(0));
        lemma_filled_by_rest(row, all, s, 1, tail + rest, 0);
        assert(plain.skip(1) =~= tail.skip(0));
        lemma_filled_by_rest(row, all, plain, 1, tail, 0);
        assert(plain =~= seq![plain[0]] + tail);
        if let Some(r) = filled(row, all, rest, 0) {
            assert(seq![s[0]] + (tail + r) =~= plain + r);
        }
    }
}

/// The name of a fact in curly brackets stands for what the fact says; a fact that is not there, or says
/// nothing, leaves the whole text without meaning.
pub proof fn names_in_brackets_stand_for_their_facts(row: Seen, all: Seen, name: Seq<char>, rest: Seq<char>)
    requires
        !name.contains('}'),
    ensures
        filled(row, all, seq!['{'] + name + seq!['}'] + rest, 0) == (match operand(row, all, name) {
            Some(t) => match (said(t), filled(row, all, rest, 0)) {
                (Some(word), Some(r)) => Some(word + r),
                _ => None,
            },
            None => None,
        }),
        filled(row, all, seq!['{'] + name, 0) is None,
{
    let s = seq!['{'] + name + seq!['}'] + rest;
    let end = name.len() + 1int;
    assert forall|j: int| 1 <= j < end implies #[trigger] s[j] != '}' by {
        assert(s[j] == name[j - 1]);
        assert(name.contains(name[j - 1]));
    }
    assert(s[end] == '}');
    search_finds_the_first(s, '}', 1, end);
    assert(s.subrange(1, end) =~= name);
    assert(s.skip(end + 1) =~= rest.skip(0));
    lemma_filled_by_rest(row, all, s, end + 1, rest, 0);
    let t = seq!['{'] + name;
    assert forall|j: int| 1 <= j < t.len() implies #[trigger] t[j] != '}' by {
        assert(t[j] == name[j - 1]);
        assert(name.contains(name[j - 1]));
    }
    search_finds_the_first(t, '}', 1, t.len() as int);
}

/// A list of texts is filled in text by text.
pub proof fn lists_are_filled_in_one_by_one(row: Seen, all: Seen, parts: Seq<Seq<char>>, i: int)
    ensures
        all_filled(row, all, parts) matches Some(list) ==> list.len() == parts.len() && (0 <= i < parts.len()
            ==> filled(row, all, parts[i], 0) == Some(list[i])),
        0 <= i < parts.len() && filled(row, all, parts[i], 0) is None ==> all_filled(row, all, parts) is None,
    decreases parts.len(),
{
    if parts.len() > 0 {
        lists_are_filled_in_one_by_one(row, all, parts.drop_last(), i);
    }
}

/// A list of texts can be filled in where each of them can.
pub proof fn lists_are_filled_in_where_all_are(row: Seen, all: Seen, parts: Seq<Seq<char>>)
    requires
        forall|i: int| 0 <= i < parts.len() ==> filled(row, all, #[trigger] parts[i], 0) is Some,
    ensures
        all_filled(row, all, parts) is Some,
    decreases parts.len(),
{
    if parts.len() > 0 {
        let front = parts.drop_last();
        assert forall|i: int| 0 <= i < front.len() implies filled(row, all, #[trigger] front[i], 0) is Some by {
            assert(front[i] == parts[i]);
        }
        assert(filled(row, all, parts[parts.len() - 1], 0) is Some);
        lists_are_filled_in_where_all_are(row, all, front);
    }
}

proof fn lemma_words_told_apart()
    ensures
        "true"@.len() == 4 && "true"@[0] == 't',
        "false"@.len() == 5 && "false"@[0] == 'f',
        "null"@.len() == 4 && "null"@[0] == 'n',
        whole_number("true"@) is None,
        whole_number("false"@) is None,
        whole_number("null"@) is None,
{
    reveal_strlit("true");
    reveal_strlit("false");
    reveal_strlit("null");
    numbers_are_runs_of_digits("true"@, 0, 0);
    numbers_are_runs_of_digits("false"@, 0, 0);
    numbers_are_runs_of_digits("null"@, 0, 0);
}

/// What is wanted is a number, one of three words, a text, a list of texts, or what a fact says.
pub proof fn wants_are_read_by_their_start(row: Seen, all: Seen, n: i64, text: Seq<char>, c: char)
    requires
        !('0' <= c <= '9') && c != '-' && c != '+' && c != '\'' && c != '[',
    ensures
        wanted(row, all, int_text(n as int)) == Some(Truth::Int(n as int)),
        wanted(row, all, "true"@) == Some(Truth::Bool(true)),
        wanted(row, all, "false"@) == Some(Truth::Bool(false)),
        wanted(row, all, "null"@) == Some(Truth::Null),
        wanted(row, all, seq!['\''] + text) == (match filled(row, all, text, 0) {
            Some(s) => Some(Truth::Text(s)),
            None => None,
        }),
        wanted(row, all, seq!['['] + text) == (match all_filled(row, all, lines_from(text, 0)) {
            Some(list) => Some(Truth::Texts(list)),
            None => None,
        }),
        c != 't' && c != 'f' && c != 'n' ==> wanted(row, all, seq![c] + text) == operand(row, all, seq![c] + text),
        seq![c] + text != "true"@ && seq![c] + text != "false"@ && seq![c] + text != "null"@ ==> wanted(
            row,
            all,
            seq![c] + text,
        ) == operand(row, all, seq![c] + text),
{
    decimal_reads_back(n);
    lemma_words_told_apart();
    let quoted = seq!['\''] + text;
    let list = seq!['['] + text;
    let name = seq![c] + text;
    assert(quoted[0] == '\'' && list[0] == '[' && name[0] == c);
    numbers_are_runs_of_digits(quoted, 0, 0);
    numbers_are_runs_of_digits(list, 0, 0);
    numbers_are_runs_of_digits(name, 0, 0);
    assert(quoted.skip(1) =~= text);
    assert(list.skip(1) =~= text);
}

proof fn lemma_no_gap(s: Seq<char>)
    requires
        !s.contains(' '),
    ensures
        first_at(s, ' ', 0) == s.len(),
{
    assert forall|j: int| 0 <= j < s.len() implies #[trigger] s[j] != ' ' by {
        assert(s.contains(s[j]));
    }
    search_finds_the_first(s, ' ', 0, s.len() as int);
}

proof fn lemma_gap(a: Seq<char>, b: Seq<char>)
    requires
        !a.contains(' '),
    ensures
        first_at(a + seq![' '] + b, ' ', 0) == a.len(),
        (a + seq![' '] + b).take(a.len() as int) == a,
        (a + seq![' '] + b).skip(a.len() + 1int) == b,
{
    let s = a + seq![' '] + b;
    assert forall|j: int| 0 <= j < a.len() implies #[trigger] s[j] != ' ' by {
        assert(s[j] == a[j]);
        assert(a.contains(a[j]));
    }
    search_finds_the_first(s, ' ', 0, a.len() as int);
    assert(s.take(a.len() as int) =~= a);
    assert(s.skip(a.len() + 1int) =~= b);
}

/// A condition compares two things, asks something of a list, or says that a fact is true or false.
pub proof fn conditions_are_read_by_their_spaces(
    row: Seen,
    all: Seen,
    a: Seq<char>,
    how: Seq<char>,
    b: Seq<char>,
    name: Seq<char>,
)
    requires
        !a.contains(' '),
        !how.contains(' '),
        !name.contains(' '),
    ensures
        condition(row, all, a + seq![' '] + (how + seq![' '] + b)) == (match (wanted(row, all, a), wanted(row, all, b)) {
            (Some(x), Some(y)) => pair_is(x, how, y),
            _ => None,
        }),
        condition(row, all, how + seq![' '] + name) == (match operand(row, all, name) {
            Some(t) => list_is(how, t),
            None => None,
        }),
        operand(row, all, name) matches Some(Truth::Bool(b)) ==> condition(row, all, seq!['!'] + name) == Some(!b),
        !(operand(row, all, name) matches Some(Truth::Bool(_))) ==> condition(row, all, seq!['!'] + name) is None,
        name.len() > 0 && name[0] != '!' ==> (operand(row, all, name) matches Some(Truth::Bool(b)) ==> condition(
            row,
            all,
            name,
        ) == Some(b)),
        name.len() > 0 && name[0] != '!' && !(operand(row, all, name) matches Some(Truth::Bool(_))) ==> condition(
            row,
            all,
            name,
        ) is None,
{
    lemma_gap(a, how + seq![' '] + b);
    lemma_gap(how, b);
    lemma_gap(how, name);
    lemma_no_gap(name);
    let negated = seq!['!'] + name;
    if negated.contains(' ') {
        let j = choose|j: int| 0 <= j < negated.len() && negated[j] == ' ';
        assert(name[j - 1] == ' ');
    }
    lemma_no_gap(negated);
    assert(negated.skip(1) =~= name);
}

/// What is shown is a fact, or two numbers.
pub proof fn facts_are_shown_alone_or_in_pairs(row: Seen, all: Seen, a: Seq<char>, b: Seq<char>)
    requires
        !a.contains(' '),
    ensures
        shown(row, all, a) == operand(row, all, a),
        operand(row, all, a) matches Some(Truth::Int(m)) ==> (operand(row, all, b) matches Some(Truth::Int(n)) ==> (
        i64::MIN <= m <= i64::MAX && i64::MIN <= n <= i64::MAX ==> (shown(row, all, a + seq![' '] + b) matches Some(
            Truth::Ints(ns),
        ) && ns.len() == 2 && ns[0] == m && ns[1] == n))),
        !(operand(row, all, a) matches Some(Truth::Int(_))) ==> shown(row, all, a + seq![' '] + b) is None,
        !(operand(row, all, b) matches Some(Truth::Int(_))) ==> shown(row, all, a + seq![' '] + b) is None,
{
    lemma_no_gap(a);
    lemma_gap(a, b);
}

proof fn lemma_rules_told_apart()
    ensures
        "="@.len() == 1 && "="@[0] == '=',
        "!="@.len() == 2 && "!="@[0] == '!',
        ">="@.len() == 2 && ">="@[0] == '>',
        "<="@.len() == 2 && "<="@[0] == '<',
        "in"@.len() == 2 && "in"@[0] == 'i',
        "see"@.len() == 3 && "see"@[0] == 's',
        "note"@.len() == 4 && "note"@[0] == 'n',
        "remark"@.len() == 6 && "remark"@[0] == 'r',
        "block"@.len() == 5 && "block"@[0] == 'b',
{
    reveal_strlit("=");
    reveal_strlit("!=");
    reveal_strlit(">=");
    reveal_strlit("<=");
    reveal_strlit("in");
    reveal_strlit("see");
    reveal_strlit("note");
    reveal_strlit("remark");
    reveal_strlit("block");
}

/// A claim that a fact is what is wanted, or is not, holds exactly where that is so; a fact that is not there
/// cannot be ruled on.
pub proof fn claims_of_equality_hold_where_facts_are_equal(row: Seen, all: Seen, claim: ClaimRow, path: Seq<char>)
    ensures
        claim.1@ == "="@ ==> (ruling_on(row, all, claim, path) matches Some(r) ==> r.path == path && operand(
            row,
            all,
            claim.2@,
        ) == Some(r.got) && (r.holds() <==> operand(row, all, claim.2@) == wanted(row, all, claim.3@))),
        claim.1@ == "!="@ ==> (ruling_on(row, all, claim, path) matches Some(r) ==> r.path == path && operand(
            row,
            all,
            claim.2@,
        ) == Some(r.got) && (r.holds() <==> operand(row, all, claim.2@) != wanted(row, all, claim.3@))),
        claim.1@ == "="@ || claim.1@ == "!="@ ==> (ruling_on(row, all, claim, path) is Some <==> operand(
            row,
            all,
            claim.2@,
        ) is Some && wanted(row, all, claim.3@) is Some),
{
    lemma_rules_told_apart();
}

/// A claim that a number is no less, no more or between two holds exactly where that is so.
pub proof fn claims_of_size_hold_where_numbers_are_so(
    row: Seen,
    all: Seen,
    claim: ClaimRow,
    path: Seq<char>,
    got: int,
    want: int,
)
    requires
        operand(row, all, claim.2@) == Some(Truth::Int(got)),
        wanted(row, all, claim.3@) == Some(Truth::Int(want)),
    ensures
        claim.1@ == ">="@ ==> (ruling_on(row, all, claim, path) matches Some(r) && r.path == path && r.got == Truth::Int(
            got,
        ) && (r.holds() <==> got >= want)),
        claim.1@ == "<="@ ==> (ruling_on(row, all, claim, path) matches Some(r) && r.path == path && r.got == Truth::Int(
            got,
        ) && (r.holds() <==> got <= want)),
{
    lemma_rules_told_apart();
}

/// A claim that a number lies between two holds exactly where it does, the two themselves among them.
pub proof fn claims_of_range_hold_where_numbers_lie_in_it(
    row: Seen,
    all: Seen,
    claim: ClaimRow,
    path: Seq<char>,
    a: Seq<char>,
    b: Seq<char>,
    got: int,
    least: int,
    most: int,
)
    requires
        claim.1@ == "in"@,
        claim.3@ == a + seq![' '] + b,
        !a.contains(' '),
        operand(row, all, claim.2@) == Some(Truth::Int(got)),
        wanted(row, all, a) == Some(Truth::Int(least)),
        wanted(row, all, b) == Some(Truth::Int(most)),
    ensures
        ruling_on(row, all, claim, path) matches Some(r) && r.path == path && r.got == Truth::Int(got) && (r.holds()
            <==> least <= got && got <= most),
{
    lemma_rules_told_apart();
    lemma_gap(a, b);
}

/// A claim in words holds exactly where its condition does, and says the words and what is shown; what is only
/// seen always holds.
pub proof fn claims_in_words_hold_where_their_condition_does(
    row: Seen,
    all: Seen,
    claim: ClaimRow,
    path: Seq<char>,
    s: Seq<char>,
)
    ensures
        claim.1@ == seq!['?', ' '] + s ==> (ruling_on(row, all, claim, path) matches Some(r) ==> r.path == path && (
        condition(row, all, s) == Some(r.holds())) && shown(row, all, claim.2@) == Some(r.got) && (
        r.demand matches Demand::That(words, _) && filled(row, all, claim.3@, 0) == Some(words))),
        claim.1@ == seq!['?', ' '] + s ==> (ruling_on(row, all, claim, path) is Some <==> condition(row, all, s)
            is Some && shown(row, all, claim.2@) is Some && filled(row, all, claim.3@, 0) is Some),
        claim.1@ == "see"@ ==> (ruling_on(row, all, claim, path) matches Some(r) ==> r.path == path && r.holds()
            && shown(row, all, claim.2@) == Some(r.got)),
        claim.1@ == "see"@ ==> (ruling_on(row, all, claim, path) is Some <==> shown(row, all, claim.2@) is Some),
{
    lemma_rules_told_apart();
    assert((seq!['?', ' '] + s).skip(2) =~= s);
}

/// A note, a remark or a longer text goes to the end of its list and rules on nothing; any other claim adds
/// its ruling.
pub proof fn claims_go_where_they_belong(row: Seen, all: Seen, claim: ClaimRow, v: Verdict)
    ensures
        claimed(row, all, claim, v) matches Some(w) ==> w.subject == v.subject && filled(row, all, claim.4@, 0) is Some,
        claim.1@ == "note"@ ==> (claimed(row, all, claim, v) matches Some(w) ==> filled(row, all, claim.4@, 0) == Some(
            w.notes.last(),
        ) && w.notes == v.notes.push(w.notes.last()) && w.rulings == v.rulings && w.remarks == v.remarks && w.blocks
            == v.blocks),
        claim.1@ == "remark"@ ==> (claimed(row, all, claim, v) matches Some(w) ==> filled(row, all, claim.4@, 0)
            == Some(w.remarks.last()) && w.remarks == v.remarks.push(w.remarks.last()) && w.rulings == v.rulings
            && w.notes == v.notes && w.blocks == v.blocks),
        claim.1@ == "block"@ ==> (claimed(row, all, claim, v) matches Some(w) ==> w.blocks == v.blocks.push(
            w.blocks.last(),
        ) && filled(row, all, claim.4@, 0) == Some(w.blocks.last().0) && operand(row, all, claim.2@) == Some(
            Truth::Text(w.blocks.last().1),
        ) && w.rulings == v.rulings && w.notes == v.notes && w.remarks == v.remarks),
        claim.1@ != "note"@ && claim.1@ != "remark"@ && claim.1@ != "block"@ ==> (claimed(row, all, claim, v) matches Some(
            w,
        ) ==> w.rulings == v.rulings.push(w.rulings.last()) && ruling_on(row, all, claim, w.rulings.last().path)
            == Some(w.rulings.last()) && filled(row, all, claim.4@, 0) == Some(w.rulings.last().path) && w.notes
            == v.notes && w.remarks == v.remarks && w.blocks == v.blocks),
{
    reveal(claimed);
    lemma_rules_told_apart();
    if let Some(path) = filled(row, all, claim.4@, 0) {
        lemma_ruling_is_under_its_path(row, all, claim, path);
    }
}

proof fn lemma_ruling_is_under_its_path(row: Seen, all: Seen, claim: ClaimRow, path: Seq<char>)
    ensures
        ruling_on(row, all, claim, path) matches Some(r) ==> r.path == path,
{
}

/// Notes and remarks can be made wherever their text can be filled in; longer texts where there is one;
/// anything else where it can be ruled on.
pub proof fn claims_can_be_made_where_their_facts_are(row: Seen, all: Seen, claim: ClaimRow, v: Verdict, path: Seq<char>)
    requires
        filled(row, all, claim.4@, 0) == Some(path),
    ensures
        claim.1@ == "note"@ || claim.1@ == "remark"@ ==> claimed(row, all, claim, v) is Some,
        claim.1@ == "block"@ ==> (claimed(row, all, claim, v) is Some <==> operand(row, all, claim.2@) matches Some(
            Truth::Text(_),
        )),
        claim.1@ != "note"@ && claim.1@ != "remark"@ && claim.1@ != "block"@ ==> (claimed(row, all, claim, v) is Some
            <==> ruling_on(row, all, claim, path) is Some),
{
    reveal(claimed);
    lemma_rules_told_apart();
}

/// The group of a table is its name up to a slash.
pub proof fn group_is_the_name_up_to_a_slash(group: Seq<char>, rest: Seq<char>)
    requires
        !group.contains('/'),
    ensures
        group_of(group) == group,
        group_of(group + seq!['/'] + rest) == group,
{
    let n = group.len() as int;
    let s = group + seq!['/'] + rest;
    assert forall|j: int| 0 <= j < n implies #[trigger] group[j] != '/' by {
        assert(group.contains(group[j]));
    }
    search_finds_the_first(group, '/', 0, n);
    assert forall|j: int| 0 <= j < n implies #[trigger] s[j] != '/' by {
        assert(s[j] == group[j]);
    }
    search_finds_the_first(s, '/', 0, n);
    assert(group.take(n) =~= group);
    assert(s.take(n) =~= group);
}

/// The claim passes: it can be made, and its ruling, where it makes one, holds.
pub open spec fn passes(row: Seen, all: Seen, claim: ClaimRow) -> bool {
    claimed(row, all, claim, Verdict::plain(Seq::empty(), Seq::empty(), Seq::empty())) matches Some(w) && all_hold(
        w.rulings,
    )
}

proof fn lemma_claim_added(row: Seen, all: Seen, claim: ClaimRow, v: Verdict)
    ensures
        claimed(row, all, claim, v) matches Some(w) ==> (all_hold(w.rulings) <==> all_hold(v.rulings) && passes(
            row,
            all,
            claim,
        )),
        claimed(row, all, claim, v) is None ==> !passes(row, all, claim),
{
    reveal(claimed);
    let none = Verdict::plain(Seq::empty(), Seq::empty(), Seq::empty());
    if let Some(path) = filled(row, all, claim.4@, 0) {
        if let Some(r) = ruling_on(row, all, claim, path) {
            check_passes_where_every_ruling_holds(v.rulings, r);
            check_passes_where_every_ruling_holds(none.rulings, r);
        }
    }
}

/// A row passes exactly where every claim about its table does, as long as nothing is missing.
pub proof fn row_passes_where_every_claim_about_its_table_does(
    row: RowSeen,
    all: Seen,
    claims: Seq<ClaimRow>,
    i: int,
    j: int,
    v: Verdict,
)
    requires
        row_claimed(row, all, claims, i, j, v).1 is None,
    ensures
        all_hold(row_claimed(row, all, claims, i, j, v).0.rulings) <==> all_hold(v.rulings) && forall|c: int|
            i <= c < j && (#[trigger] claims[c]).0@ == row.table ==> passes(row.facts, all, claims[c]),
    decreases j - i,
{
    if i < j {
        if claims[i].0@ == row.table {
            lemma_claim_added(row.facts, all, claims[i], v);
            let w = claimed(row.facts, all, claims[i], v)->0;
            row_passes_where_every_claim_about_its_table_does(row, all, claims, i + 1, j, w);
        } else {
            row_passes_where_every_claim_about_its_table_does(row, all, claims, i + 1, j, v);
        }
        assert forall|c: int|
            (i <= c < j && (#[trigger] claims[c]).0@ == row.table && (forall|d: int|
                i + 1 <= d < j && (#[trigger] claims[d]).0@ == row.table ==> passes(row.facts, all, claims[d])) && (
            claims[i].0@ == row.table ==> passes(row.facts, all, claims[i]))) implies passes(
            row.facts,
            all,
            claims[c],
        ) by {
            if c != i {
                assert(i + 1 <= c);
            }
        }
    }
}

/// Every row passes, by the claims from one to another about its table.
pub open spec fn rows_pass(scene: SceneSeen, claims: Seq<ClaimRow>, i: int, j: int, from: int) -> bool {
    forall|r: int, c: int|
        from <= r < scene.rows.len() && i <= c < j && (#[trigger] claims[c]).0@ == (#[trigger] scene.rows[r]).table
            ==> passes(scene.rows[r].facts, scene.facts, claims[c])
}

/// Claims about the tables of one group pass exactly where they do of every row of their table.
pub proof fn group_passes_where_every_row_does(
    scene: SceneSeen,
    claims: Seq<ClaimRow>,
    i: int,
    j: int,
    r: int,
    v: Verdict,
)
    requires
        0 <= r <= scene.rows.len(),
        forall|c: int| i <= c < j ==> group_of((#[trigger] claims[c]).0@) == group_of(claims[i].0@),
        group_claimed(scene, claims, i, j, r, v).1 is None,
    ensures
        all_hold(group_claimed(scene, claims, i, j, r, v).0.rulings) <==> all_hold(v.rulings) && rows_pass(
            scene,
            claims,
            i,
            j,
            r,
        ),
    decreases scene.rows.len() - r,
{
    if r < scene.rows.len() {
        let row = scene.rows[r];
        if group_of(row.table) == group_of(claims[i].0@) {
            row_passes_where_every_claim_about_its_table_does(row, scene.facts, claims, i, j, v);
            let w = row_claimed(row, scene.facts, claims, i, j, v).0;
            group_passes_where_every_row_does(scene, claims, i, j, r + 1, w);
            if all_hold(group_claimed(scene, claims, i, j, r, v).0.rulings) {
                assert forall|q: int, c: int|
                    r <= q < scene.rows.len() && i <= c < j && (#[trigger] claims[c]).0@ == (
                    #[trigger] scene.rows[q]).table implies passes(scene.rows[q].facts, scene.facts, claims[c]) by {
                    if q > r {
                        assert(r + 1 <= q);
                    }
                }
            }
            if all_hold(v.rulings) && rows_pass(scene, claims, i, j, r) {
                assert(rows_pass(scene, claims, i, j, r + 1));
                assert forall|c: int| i <= c < j && (#[trigger] claims[c]).0@ == row.table implies passes(
                    row.facts,
                    scene.facts,
                    claims[c],
                ) by {
                    assert(claims[c].0@ == scene.rows[r].table);
                }
            }
        } else {
            group_passes_where_every_row_does(scene, claims, i, j, r + 1, v);
            assert forall|c: int| i <= c < j implies (#[trigger] claims[c]).0@ != row.table by {
                assert(group_of(claims[c].0@) == group_of(claims[i].0@));
            }
            if rows_pass(scene, claims, i, j, r + 1) {
                assert forall|q: int, c: int|
                    r <= q < scene.rows.len() && i <= c < j && (#[trigger] claims[c]).0@ == (
                    #[trigger] scene.rows[q]).table implies passes(scene.rows[q].facts, scene.facts, claims[c]) by {
                    if q > r {
                        assert(r + 1 <= q);
                    }
                }
            }
        }
    }
}

/// Claims that follow one another are made together as long as they are about tables of one group.
pub proof fn blocks_end_where_the_group_does(claims: Seq<ClaimRow>, i: int, j: int, c: int)
    requires
        0 <= i < j <= claims.len(),
    ensures
        j <= block_end(claims, i, j) <= claims.len(),
        j <= c < block_end(claims, i, j) ==> claims[c].0@.len() > 0 && group_of(claims[c].0@) == group_of(claims[i].0@),
        block_end(claims, i, j) < claims.len() ==> claims[block_end(claims, i, j)].0@.len() == 0 || group_of(
            claims[block_end(claims, i, j)].0@,
        ) != group_of(claims[i].0@),
    decreases claims.len() - j,
{
    if j < claims.len() && claims[j].0@.len() > 0 && group_of(claims[j].0@) == group_of(claims[i].0@) {
        blocks_end_where_the_group_does(claims, i, j + 1, c);
    }
}

/// Everything from one claim on passes: those about no table, and of every row those about its table.
pub open spec fn everything_passes(scene: SceneSeen, claims: Seq<ClaimRow>, from: int) -> bool {
    &&& forall|c: int|
        from <= c < claims.len() && (#[trigger] claims[c]).0@.len() == 0 ==> passes(
            Seq::empty(),
            scene.facts,
            claims[c],
        )
    &&& forall|r: int, c: int|
        0 <= r < scene.rows.len() && from <= c < claims.len() && (#[trigger] claims[c]).0@.len() > 0 && claims[c].0@
            == (#[trigger] scene.rows[r]).table ==> passes(scene.rows[r].facts, scene.facts, claims[c])
}

/// A report passes exactly where every claim does: those about no table, and those about one of every row of
/// it, as long as no fact is missing.
pub proof fn report_passes_where_every_claim_does(scene: SceneSeen, claims: Seq<ClaimRow>, i: int, v: Verdict)
    requires
        0 <= i <= claims.len(),
        all_claimed(scene, claims, i, v).1 is None,
    ensures
        all_hold(all_claimed(scene, claims, i, v).0.rulings) <==> all_hold(v.rulings) && everything_passes(
            scene,
            claims,
            i,
        ),
    decreases claims.len() - i,
{
    if i < claims.len() {
        if claims[i].0@.len() == 0 {
            lemma_claim_added(Seq::empty(), scene.facts, claims[i], v);
            let w = claimed(Seq::empty(), scene.facts, claims[i], v)->0;
            report_passes_where_every_claim_does(scene, claims, i + 1, w);
            lemma_everything_from(scene, claims, i, i + 1);
        } else {
            let end = block_end(claims, i, i + 1);
            blocks_end_where_the_group_does(claims, i, i + 1, i);
            assert forall|c: int| i <= c < end implies group_of((#[trigger] claims[c]).0@) == group_of(claims[i].0@)
                && claims[c].0@.len() > 0 by {
                blocks_end_where_the_group_does(claims, i, i + 1, c);
            }
            group_passes_where_every_row_does(scene, claims, i, end, 0, v);
            let w = group_claimed(scene, claims, i, end, 0, v).0;
            report_passes_where_every_claim_does(scene, claims, end, w);
            lemma_everything_from(scene, claims, i, end);
        }
    }
}

proof fn lemma_everything_from(scene: SceneSeen, claims: Seq<ClaimRow>, i: int, end: int)
    requires
        0 <= i < end <= claims.len(),
        claims[i].0@.len() == 0 ==> end == i + 1,
        claims[i].0@.len() > 0 ==> forall|c: int| i <= c < end ==> (#[trigger] claims[c]).0@.len() > 0,
    ensures
        claims[i].0@.len() == 0 ==> (everything_passes(scene, claims, i) <==> passes(
            Seq::empty(),
            scene.facts,
            claims[i],
        ) && everything_passes(scene, claims, end)),
        claims[i].0@.len() > 0 ==> (everything_passes(scene, claims, i) <==> rows_pass(scene, claims, i, end, 0)
            && everything_passes(scene, claims, end)),
{
    if everything_passes(scene, claims, i) && claims[i].0@.len() > 0 {
        assert forall|r: int, c: int|
            0 <= r < scene.rows.len() && i <= c < end && (#[trigger] claims[c]).0@ == (
            #[trigger] scene.rows[r]).table implies passes(scene.rows[r].facts, scene.facts, claims[c]) by {
            assert(claims[c].0@.len() > 0);
        }
    }
}

/// Claims are made in order: what a claim about no table adds comes before all that follows it, and the first
/// that cannot be made ends the report.
pub proof fn claims_are_made_in_order(scene: SceneSeen, claims: Seq<ClaimRow>, i: int, v: Verdict)
    requires
        0 <= i < claims.len(),
        claims[i].0@.len() == 0,
    ensures
        claimed(Seq::empty(), scene.facts, claims[i], v) matches Some(w) ==> all_claimed(scene, claims, i, v)
            == all_claimed(scene, claims, i + 1, w),
        claimed(Seq::empty(), scene.facts, claims[i], v) is None ==> all_claimed(scene, claims, i, v) == (v, Some(i)),
        all_claimed(scene, claims, claims.len() as int, v) == (v, None::<int>),
{
}

/// A group of claims is made of its rows one after the other, in the order they were written down, and then
/// the next claims are made.
pub proof fn groups_are_made_row_by_row(scene: SceneSeen, claims: Seq<ClaimRow>, i: int, r: int, v: Verdict)
    requires
        0 <= i < claims.len(),
        claims[i].0@.len() > 0,
        0 <= r < scene.rows.len(),
    ensures
        group_claimed(scene, claims, i, block_end(claims, i, i + 1), 0, v).1 is None ==> all_claimed(
            scene,
            claims,
            i,
            v,
        ) == all_claimed(
            scene,
            claims,
            block_end(claims, i, i + 1),
            group_claimed(scene, claims, i, block_end(claims, i, i + 1), 0, v).0,
        ),
        group_claimed(scene, claims, i, block_end(claims, i, i + 1), 0, v).1 is Some ==> all_claimed(
            scene,
            claims,
            i,
            v,
        ) == group_claimed(scene, claims, i, block_end(claims, i, i + 1), 0, v),
        group_of(scene.rows[r].table) != group_of(claims[i].0@) ==> group_claimed(
            scene,
            claims,
            i,
            block_end(claims, i, i + 1),
            r,
            v,
        ) == group_claimed(scene, claims, i, block_end(claims, i, i + 1), r + 1, v),
        group_of(scene.rows[r].table) == group_of(claims[i].0@) ==> (match row_claimed(
            scene.rows[r],
            scene.facts,
            claims,
            i,
            block_end(claims, i, i + 1),
            v,
        ) {
            (w, None) => group_claimed(scene, claims, i, block_end(claims, i, i + 1), r, v) == group_claimed(
                scene,
                claims,
                i,
                block_end(claims, i, i + 1),
                r + 1,
                w,
            ),
            stopped => group_claimed(scene, claims, i, block_end(claims, i, i + 1), r, v) == stopped,
        }),
{
    blocks_end_where_the_group_does(claims, i, i + 1, i);
}

/// Of a row, the claims about its table are made one after the other, and no others.
pub proof fn rows_are_claimed_in_order(row: RowSeen, all: Seen, claims: Seq<ClaimRow>, i: int, j: int, v: Verdict)
    requires
        i <= j,
    ensures
        row_claimed(row, all, claims, i, i, v) == (v, None::<int>),
        row_claimed(row, all, claims, i, j, v).1 is Some ==> row_claimed(row, all, claims, i, j + 1, v) == row_claimed(
            row,
            all,
            claims,
            i,
            j,
            v,
        ),
        row_claimed(row, all, claims, i, j, v).1 is None && claims[j].0@ != row.table ==> row_claimed(
            row,
            all,
            claims,
            i,
            j + 1,
            v,
        ) == row_claimed(row, all, claims, i, j, v),
        row_claimed(row, all, claims, i, j, v).1 is None && claims[j].0@ == row.table ==> row_claimed(
            row,
            all,
            claims,
            i,
            j + 1,
            v,
        ) == (match claimed(row.facts, all, claims[j], row_claimed(row, all, claims, i, j, v).0) {
            Some(w) => (w, None::<int>),
            None => (row_claimed(row, all, claims, i, j, v).0, Some(j)),
        }),
    decreases j - i,
{
    if i < j {
        if claims[i].0@ != row.table {
            rows_are_claimed_in_order(row, all, claims, i + 1, j, v);
        } else if let Some(w) = claimed(row.facts, all, claims[i], v) {
            rows_are_claimed_in_order(row, all, claims, i + 1, j, w);
        }
    } else if claims[j].0@ == row.table {
        reveal_with_fuel(row_claimed, 2);
    } else {
        reveal_with_fuel(row_claimed, 2);
    }
}

/// Things are only compared with things of their kind.
pub proof fn comparisons_are_of_like_things(a: Truth, b: Truth)
    ensures
        pair_is(a, "<"@, b) is Some <==> a is Int && b is Int,
        pair_is(a, ">"@, b) is Some <==> a is Int && b is Int,
        pair_is(a, "in"@, b) is Some <==> a is Int && b is Ints,
        pair_is(a, "each"@, b) is Some <==> a is Ints && b is Int || a is Texts && b is Text,
        pair_is(a, "of"@, b) is Some <==> a is Text && b is Texts,
        pair_is(a, "notof"@, b) is Some <==> a is Text && b is Texts,
{
    reveal_strlit("<");
    reveal_strlit(">");
    reveal_strlit("=");
    reveal_strlit("!=");
    reveal_strlit("in");
    reveal_strlit("each");
    reveal_strlit("of");
    reveal_strlit("notof");
    assert("<"@.len() == 1 && ">"@.len() == 1 && "="@.len() == 1 && "!="@.len() == 2 && "in"@.len() == 2 && "each"@.len() == 4 && "of"@.len() == 2 && "notof"@.len() == 5);
    assert("<"@[0] == '<' && ">"@[0] == '>' && "="@[0] == '=' && "!="@[0] == '!' && "in"@[0] == 'i' && "each"@[0] == 'e' && "of"@[0] == 'o' && "notof"@[0] == 'n');
}

/// Each word about a list goes with its kind of list.
pub proof fn lists_are_asked_what_fits_them(t: Truth)
    ensures
        list_is("empty"@, t) is Some <==> t is Texts || t is Ints,
        list_is("some"@, t) is Some <==> t is Texts,
        list_is("positive"@, t) is Some <==> t is Ints,
        list_is("rising"@, t) is Some <==> t is Ints,
        list_is("steady"@, t) is Some <==> t is Ints,
{
    reveal_strlit("empty");
    reveal_strlit("some");
    reveal_strlit("positive");
    reveal_strlit("rising");
    reveal_strlit("steady");
    assert("empty"@.len() == 5 && "some"@.len() == 4 && "positive"@.len() == 8);
    assert("rising"@.len() == 6 && "steady"@.len() == 6 && "rising"@[0] == 'r' && "steady"@[0] == 's');
}

/// A claim of size is of two numbers, and holds exactly where the one is no less, or no more, than the other.
pub proof fn claims_of_size_are_of_numbers(row: Seen, all: Seen, claim: ClaimRow, path: Seq<char>)
    ensures
        claim.1@ == ">="@ ==> (ruling_on(row, all, claim, path) matches Some(r) ==> r.path == path && operand(
            row,
            all,
            claim.2@,
        ) == Some(r.got) && (r.holds() <==> (operand(row, all, claim.2@) matches Some(Truth::Int(got)) && wanted(
            row,
            all,
            claim.3@,
        ) matches Some(Truth::Int(want)) && got >= want))),
        claim.1@ == "<="@ ==> (ruling_on(row, all, claim, path) matches Some(r) ==> r.path == path && operand(
            row,
            all,
            claim.2@,
        ) == Some(r.got) && (r.holds() <==> (operand(row, all, claim.2@) matches Some(Truth::Int(got)) && wanted(
            row,
            all,
            claim.3@,
        ) matches Some(Truth::Int(want)) && got <= want))),
{
    lemma_rules_told_apart();
}

/// A claim of range is of three numbers, and holds exactly where the one lies between the others.
pub proof fn claims_of_range_are_of_numbers(
    row: Seen,
    all: Seen,
    claim: ClaimRow,
    path: Seq<char>,
    a: Seq<char>,
    b: Seq<char>,
)
    requires
        claim.1@ == "in"@,
        claim.3@ == a + seq![' '] + b,
        !a.contains(' '),
    ensures
        ruling_on(row, all, claim, path) matches Some(r) ==> r.path == path && operand(row, all, claim.2@) == Some(
            r.got,
        ) && (r.holds() <==> (operand(row, all, claim.2@) matches Some(Truth::Int(got)) && wanted(row, all, a) matches Some(
            Truth::Int(least),
        ) && wanted(row, all, b) matches Some(Truth::Int(most)) && least <= got <= most)),
{
    lemma_rules_told_apart();
    lemma_gap(a, b);
}

} // verus!
