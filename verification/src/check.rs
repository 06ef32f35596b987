//! Checks: what a test looked at, what it demanded and what it saw.
use vstd::prelude::*;
use crate::text::{copy_texts, nat_text, push_nat, same_text, texts};

verus! {

/// Something a test can see or demand.
#[verifier::ext_equal]
pub enum Truth {
    Int(int),
    Bool(bool),
    Text(Seq<char>),
    Null,
    Ints(Seq<i64>),
    Texts(Seq<Seq<char>>),
    Bytes(Seq<Seq<u8>>),
}

/// Something a test can see or demand.
#[derive(Debug)]
pub enum Fact {
    Int(i128),
    Bool(bool),
    Text(String),
    Null,
    Ints(Vec<i64>),
    Texts(Vec<String>),
    /// A list of byte strings, such as keys.
    Bytes(Vec<Vec<u8>>),
}

/// What a list of byte strings holds.
pub open spec fn byte_lists(lists: Seq<Vec<u8>>) -> Seq<Seq<u8>> {
    lists.map_values(|b: Vec<u8>| b@)
}

impl View for Fact {
    type V = Truth;

    open spec fn view(&self) -> Truth {
        match self {
            Fact::Int(n) => Truth::Int(*n as int),
            Fact::Bool(b) => Truth::Bool(*b),
            Fact::Text(s) => Truth::Text(s@),
            Fact::Null => Truth::Null,
            Fact::Ints(ns) => Truth::Ints(ns@),
            Fact::Texts(ss) => Truth::Texts(texts(ss@)),
            Fact::Bytes(bs) => Truth::Bytes(byte_lists(bs@)),
        }
    }
}

/// A text as a fact.
pub fn text_fact(s: &str) -> (f: Fact)
    ensures
        f@ == Truth::Text(s@),
{
    Fact::Text(String::from_str(s))
}

fn same_ints(a: &Vec<i64>, b: &Vec<i64>) -> (r: bool)
    ensures
        r == (a@ == b@),
{
    if a.len() != b.len() {
        return false;
    }
    let mut i: usize = 0;
    while i < a.len()
        invariant
            i <= a@.len(),
            a@.len() == b@.len(),
            forall|k: int| 0 <= k < i ==> a@[k] == b@[k],
        decreases a@.len() - i,
    {
        if a[i] != b[i] {
            return false;
        }
        i += 1;
    }
    assert(a@ =~= b@);
    true
}

/// Whether two byte strings hold the same bytes.
pub fn same_bytes(a: &[u8], b: &[u8]) -> (r: bool)
    ensures
        r == (a@ == b@),
{
    if a.len() != b.len() {
        return false;
    }
    let mut i: usize = 0;
    while i < a.len()
        invariant
            i <= a@.len(),
            a@.len() == b@.len(),
            forall|k: int| 0 <= k < i ==> a@[k] == b@[k],
        decreases a@.len() - i,
    {
        if a[i] != b[i] {
            return false;
        }
        i += 1;
    }
    assert(a@ =~= b@);
    true
}

/// Whether two lists of texts hold the same.
pub fn same_texts(a: &Vec<String>, b: &Vec<String>) -> (r: bool)
    ensures
        r == (texts(a@) == texts(b@)),
{
    if a.len() != b.len() {
        assert(texts(a@).len() != texts(b@).len());
        return false;
    }
    let mut i: usize = 0;
    while i < a.len()
        invariant
            i <= a@.len(),
            a@.len() == b@.len(),
            forall|k: int| 0 <= k < i ==> #[trigger] texts(a@)[k] == texts(b@)[k],
        decreases a@.len() - i,
    {
        if !same_text(a[i].as_str(), b[i].as_str()) {
            assert(texts(a@)[i as int] != texts(b@)[i as int]);
            return false;
        }
        i += 1;
    }
    assert(texts(a@) =~= texts(b@));
    true
}

fn same_byte_lists(a: &Vec<Vec<u8>>, b: &Vec<Vec<u8>>) -> (r: bool)
    ensures
        r == (byte_lists(a@) == byte_lists(b@)),
{
    if a.len() != b.len() {
        assert(byte_lists(a@).len() != byte_lists(b@).len());
        return false;
    }
    let mut i: usize = 0;
    while i < a.len()
        invariant
            i <= a@.len(),
            a@.len() == b@.len(),
            forall|k: int| 0 <= k < i ==> #[trigger] byte_lists(a@)[k] == byte_lists(b@)[k],
        decreases a@.len() - i,
    {
        if !same_bytes(a[i].as_slice(), b[i].as_slice()) {
            assert(byte_lists(a@)[i as int] != byte_lists(b@)[i as int]);
            return false;
        }
        i += 1;
    }
    assert(byte_lists(a@) =~= byte_lists(b@));
    true
}

impl Fact {
    /// A fact of its own that says the same.
    pub fn copy(&self) -> (f: Fact)
        ensures
            f@ == self@,
    {
        match self {
            Fact::Int(n) => Fact::Int(*n),
            Fact::Bool(b) => Fact::Bool(*b),
            Fact::Text(s) => Fact::Text(s.clone()),
            Fact::Null => Fact::Null,
            Fact::Ints(ns) => {
                let own = ns.clone();
                assert(own@ =~= ns@);
                Fact::Ints(own)
            },
            Fact::Texts(all) => Fact::Texts(copy_texts(all)),
            Fact::Bytes(all) => {
                let mut own: Vec<Vec<u8>> = Vec::new();
                let mut i: usize = 0;
                while i < all.len()
                    invariant
                        i <= all@.len(),
                        byte_lists(own@) == byte_lists(all@).take(i as int),
                    decreases all@.len() - i,
                {
                    let ghost before = byte_lists(own@);
                    let one = all[i].clone();
                    assert(one@ =~= all@[i as int]@);
                    own.push(one);
                    assert(byte_lists(own@) =~= before.push(one@));
                    assert(byte_lists(own@) =~= byte_lists(all@).take(i + 1));
                    i += 1;
                }
                assert(byte_lists(own@) =~= byte_lists(all@));
                Fact::Bytes(own)
            },
        }
    }

    /// Whether two facts are the same.
    pub fn same(&self, other: &Fact) -> (r: bool)
        ensures
            r == (self@ == other@),
    {
        match (self, other) {
            (Fact::Int(a), Fact::Int(b)) => *a == *b,
            (Fact::Bool(a), Fact::Bool(b)) => *a == *b,
            (Fact::Text(a), Fact::Text(b)) => same_text(a.as_str(), b.as_str()),
            (Fact::Null, Fact::Null) => true,
            (Fact::Ints(a), Fact::Ints(b)) => same_ints(a, b),
            (Fact::Texts(a), Fact::Texts(b)) => same_texts(a, b),
            (Fact::Bytes(a), Fact::Bytes(b)) => same_byte_lists(a, b),
            _ => false,
        }
    }
}

/// What a test demands of something it saw.
#[verifier::ext_equal]
pub enum Demand {
    Is(Truth),
    IsNot(Truth),
    AtLeast(int),
    AtMost(int),
    Within(int, int),
    /// A claim in words, and whether it held.
    That(Seq<char>, bool),
    /// Nothing: it is only to be reported.
    Nothing,
}

/// What a test demands of something it saw.
#[derive(Debug)]
pub enum Rule {
    Is(Fact),
    IsNot(Fact),
    AtLeast(i128),
    AtMost(i128),
    Within(i128, i128),
    That(String, bool),
    Nothing,
}

impl View for Rule {
    type V = Demand;

    open spec fn view(&self) -> Demand {
        match self {
            Rule::Is(f) => Demand::Is(f@),
            Rule::IsNot(f) => Demand::IsNot(f@),
            Rule::AtLeast(n) => Demand::AtLeast(*n as int),
            Rule::AtMost(n) => Demand::AtMost(*n as int),
            Rule::Within(a, b) => Demand::Within(*a as int, *b as int),
            Rule::That(claim, holds) => Demand::That(claim@, *holds),
            Rule::Nothing => Demand::Nothing,
        }
    }
}

/// One thing a test looked at: where, what it demanded, and what it saw.
#[verifier::ext_equal]
pub struct Ruling {
    pub path: Seq<char>,
    pub demand: Demand,
    pub got: Truth,
}

impl Ruling {
    /// Whether what was seen is what was demanded.
    pub open spec fn holds(self) -> bool {
        match self.demand {
            Demand::Is(want) => self.got == want,
            Demand::IsNot(other) => self.got != other,
            Demand::AtLeast(n) => self.got matches Truth::Int(got) && got >= n,
            Demand::AtMost(n) => self.got matches Truth::Int(got) && got <= n,
            Demand::Within(a, b) => self.got matches Truth::Int(got) && a <= got && got <= b,
            Demand::That(_, holds) => holds,
            Demand::Nothing => true,
        }
    }
}

/// Every one of them holds.
pub open spec fn all_hold(rulings: Seq<Ruling>) -> bool {
    forall|i: int| 0 <= i < rulings.len() ==> (#[trigger] rulings[i]).holds()
}

/// `path` must be `want`.
pub open spec fn is_fact(path: Seq<char>, want: Truth, got: Truth) -> Ruling {
    Ruling { path, demand: Demand::Is(want), got }
}

/// `path` must be the number `want`.
pub open spec fn is_int(path: Seq<char>, want: int, got: int) -> Ruling {
    is_fact(path, Truth::Int(want), Truth::Int(got))
}

/// `path` must be `want`.
pub open spec fn is_bool(path: Seq<char>, want: bool, got: bool) -> Ruling {
    is_fact(path, Truth::Bool(want), Truth::Bool(got))
}

/// `path` must be the text `want`.
pub open spec fn is_text(path: Seq<char>, want: Seq<char>, got: Seq<char>) -> Ruling {
    is_fact(path, Truth::Text(want), Truth::Text(got))
}

/// `path` must not be the number `other`.
pub open spec fn is_not_int(path: Seq<char>, other: int, got: int) -> Ruling {
    Ruling { path, demand: Demand::IsNot(Truth::Int(other)), got: Truth::Int(got) }
}

/// `path` must be `least` or more.
pub open spec fn is_at_least(path: Seq<char>, least: int, got: int) -> Ruling {
    Ruling { path, demand: Demand::AtLeast(least), got: Truth::Int(got) }
}

/// `path` must be `most` or less.
pub open spec fn is_at_most(path: Seq<char>, most: int, got: int) -> Ruling {
    Ruling { path, demand: Demand::AtMost(most), got: Truth::Int(got) }
}

/// `path` must be from `least` to `most`.
pub open spec fn is_within(path: Seq<char>, least: int, most: int, got: int) -> Ruling {
    Ruling { path, demand: Demand::Within(least, most), got: Truth::Int(got) }
}

/// The claim made of `path` must hold.
pub open spec fn is_that(path: Seq<char>, claim: Seq<char>, holds: bool, got: Truth) -> Ruling {
    Ruling { path, demand: Demand::That(claim, holds), got }
}

/// `path` is only to be reported.
pub open spec fn is_seen(path: Seq<char>, got: Truth) -> Ruling {
    Ruling { path, demand: Demand::Nothing, got }
}

/// One thing a test looked at: where, what it demanded, and what it saw.
#[derive(Debug)]
pub struct Finding {
    pub path: String,
    pub rule: Rule,
    pub got: Fact,
}

impl View for Finding {
    type V = Ruling;

    open spec fn view(&self) -> Ruling {
        Ruling { path: self.path@, demand: self.rule@, got: self.got@ }
    }
}

impl Finding {
    /// Whether what was seen is what was demanded.
    pub fn holds(&self) -> (r: bool)
        ensures
            r == self@.holds(),
    {
        match (&self.rule, &self.got) {
            (Rule::Is(want), got) => got.same(want),
            (Rule::IsNot(other), got) => !got.same(other),
            (Rule::That(_, holds), _) => *holds,
            (Rule::Nothing, _) => true,
            (Rule::AtLeast(n), Fact::Int(got)) => *got >= *n,
            (Rule::AtMost(n), Fact::Int(got)) => *got <= *n,
            (Rule::Within(a, b), Fact::Int(got)) => *a <= *got && *got <= *b,
            _ => false,
        }
    }
}

/// Everything a test looked at, and what it wants said besides: notes and longer texts that go with a
/// failure, and remarks that stand whether or not it fails.
#[derive(Debug)]
pub struct Check {
    subject: String,
    findings: Vec<Finding>,
    notes: Vec<String>,
    blocks: Vec<(String, String)>,
    remarks: Vec<String>,
}

/// What a test found.
#[verifier::ext_equal]
pub struct Verdict {
    pub subject: Seq<char>,
    pub rulings: Seq<Ruling>,
    pub notes: Seq<Seq<char>>,
    /// Longer texts, each under a title.
    pub blocks: Seq<(Seq<char>, Seq<char>)>,
    /// What the test says of itself, whether or not it fails.
    pub remarks: Seq<Seq<char>>,
}

impl Verdict {
    /// The verdict of a test that has nothing more to say.
    pub open spec fn plain(subject: Seq<char>, rulings: Seq<Ruling>, notes: Seq<Seq<char>>) -> Verdict {
        Verdict { subject, rulings, notes, blocks: Seq::empty(), remarks: Seq::empty() }
    }

    /// There is nothing besides the rulings and the notes.
    pub open spec fn quiet(self) -> bool {
        self.blocks.len() == 0 && self.remarks.len() == 0
    }
}

/// What some titled texts say.
pub open spec fn block_views(blocks: Seq<(String, String)>) -> Seq<(Seq<char>, Seq<char>)> {
    blocks.map_values(|b: (String, String)| (b.0@, b.1@))
}

/// What a list of findings says.
pub open spec fn rulings(findings: Seq<Finding>) -> Seq<Ruling> {
    findings.map_values(|f: Finding| f@)
}

impl View for Check {
    type V = Verdict;

    closed spec fn view(&self) -> Verdict {
        Verdict {
            subject: self.subject@,
            rulings: rulings(self.findings@),
            notes: texts(self.notes@),
            blocks: block_views(self.blocks@),
            remarks: texts(self.remarks@),
        }
    }
}

/// A test that did not pass: what it was about, what it found, what it noted, and the longer texts that
/// go with it.
#[derive(Debug)]
pub struct Failure {
    pub subject: String,
    pub findings: Vec<Finding>,
    pub notes: Vec<String>,
    pub blocks: Vec<(String, String)>,
}

impl Check {
    /// A check of `subject` that has looked at nothing yet.
    pub fn new(subject: &str) -> (c: Check)
        ensures
            c@ == Verdict::plain(subject@, Seq::empty(), Seq::empty()),
    {
        let c = Check {
            subject: String::from_str(subject),
            findings: Vec::new(),
            notes: Vec::new(),
            blocks: Vec::new(),
            remarks: Vec::new(),
        };
        assert(c@ =~= Verdict::plain(subject@, Seq::empty(), Seq::empty()));
        c
    }

    fn find(&mut self, path: &str, rule: Rule, got: Fact)
        ensures
            final(self)@ == (Verdict {
                rulings: old(self)@.rulings.push(
                    Ruling { path: path@, demand: rule@, got: got@ },
                ),
                ..old(self)@
            }),
    {
        self.findings.push(Finding { path: String::from_str(path), rule, got });
        assert(rulings(self.findings@) =~= old(self)@.rulings.push(
            Ruling { path: path@, demand: rule@, got: got@ },
        ));
    }

    /// `path` must be `want`.
    pub fn eq(&mut self, path: &str, want: Fact, got: Fact)
        ensures
            final(self)@ == (Verdict {
                rulings: old(self)@.rulings.push(is_fact(path@, want@, got@)),
                ..old(self)@
            }),
    {
        self.find(path, Rule::Is(want), got);
    }

    /// `path` must be the number `want`.
    pub fn eq_int(&mut self, path: &str, want: i128, got: i128)
        ensures
            final(self)@ == (Verdict {
                rulings: old(self)@.rulings.push(is_int(path@, want as int, got as int)),
                ..old(self)@
            }),
    {
        self.find(path, Rule::Is(Fact::Int(want)), Fact::Int(got));
    }

    /// `path` must be `want`.
    pub fn eq_bool(&mut self, path: &str, want: bool, got: bool)
        ensures
            final(self)@ == (Verdict {
                rulings: old(self)@.rulings.push(is_bool(path@, want, got)),
                ..old(self)@
            }),
    {
        self.find(path, Rule::Is(Fact::Bool(want)), Fact::Bool(got));
    }

    /// `path` must be the text `want`.
    pub fn eq_text(&mut self, path: &str, want: &str, got: &str)
        ensures
            final(self)@ == (Verdict {
                rulings: old(self)@.rulings.push(is_text(path@, want@, got@)),
                ..old(self)@
            }),
    {
        self.find(path, Rule::Is(text_fact(want)), text_fact(got));
    }

    /// `path` must not be `other`.
    pub fn ne(&mut self, path: &str, other: Fact, got: Fact)
        ensures
            final(self)@ == (Verdict {
                rulings: old(self)@.rulings.push(
                    Ruling { path: path@, demand: Demand::IsNot(other@), got: got@ },
                ),
                ..old(self)@
            }),
    {
        self.find(path, Rule::IsNot(other), got);
    }

    /// `path` must not be the number `other`.
    pub fn ne_int(&mut self, path: &str, other: i128, got: i128)
        ensures
            final(self)@ == (Verdict {
                rulings: old(self)@.rulings.push(is_not_int(path@, other as int, got as int)),
                ..old(self)@
            }),
    {
        self.find(path, Rule::IsNot(Fact::Int(other)), Fact::Int(got));
    }

    /// `path` must be `least` or more.
    pub fn at_least(&mut self, path: &str, least: i128, got: i128)
        ensures
            final(self)@ == (Verdict {
                rulings: old(self)@.rulings.push(is_at_least(path@, least as int, got as int)),
                ..old(self)@
            }),
    {
        self.find(path, Rule::AtLeast(least), Fact::Int(got));
    }

    /// `path` must be `most` or less.
    pub fn at_most(&mut self, path: &str, most: i128, got: i128)
        ensures
            final(self)@ == (Verdict {
                rulings: old(self)@.rulings.push(is_at_most(path@, most as int, got as int)),
                ..old(self)@
            }),
    {
        self.find(path, Rule::AtMost(most), Fact::Int(got));
    }

    /// `path` must be from `least` to `most`.
    pub fn within(&mut self, path: &str, least: i128, most: i128, got: i128)
        ensures
            final(self)@ == (Verdict {
                rulings: old(self)@.rulings.push(
                    is_within(path@, least as int, most as int, got as int),
                ),
                ..old(self)@
            }),
    {
        self.find(path, Rule::Within(least, most), Fact::Int(got));
    }

    /// The claim made of `path` must hold; `got` is what it was made of.
    pub fn that(&mut self, path: &str, claim: &str, holds: bool, got: Fact)
        ensures
            final(self)@ == (Verdict {
                rulings: old(self)@.rulings.push(is_that(path@, claim@, holds, got@)),
                ..old(self)@
            }),
    {
        self.find(path, Rule::That(String::from_str(claim), holds), got);
    }

    /// `path` is only to be reported.
    pub fn observe(&mut self, path: &str, got: Fact)
        ensures
            final(self)@ == (Verdict {
                rulings: old(self)@.rulings.push(is_seen(path@, got@)),
                ..old(self)@
            }),
    {
        self.find(path, Rule::Nothing, got);
    }

    /// Something a reader of the verdict should know.
    pub fn note(&mut self, note: &str)
        ensures
            final(self)@ == (Verdict { notes: old(self)@.notes.push(note@), ..old(self)@ }),
    {
        self.notes.push(String::from_str(note));
        assert(texts(self.notes@) =~= old(self)@.notes.push(note@));
    }

    /// A longer text that goes with a failure, under a title.
    pub fn block(&mut self, title: &str, text: &str)
        ensures
            final(self)@ == (Verdict { blocks: old(self)@.blocks.push((title@, text@)), ..old(self)@ }),
    {
        self.blocks.push((String::from_str(title), String::from_str(text)));
        assert(block_views(self.blocks@) =~= old(self)@.blocks.push((title@, text@)));
    }

    /// Something the test says of itself, whether or not it fails.
    pub fn remark(&mut self, remark: &str)
        ensures
            final(self)@ == (Verdict { remarks: old(self)@.remarks.push(remark@), ..old(self)@ }),
    {
        self.remarks.push(String::from_str(remark));
        assert(texts(self.remarks@) =~= old(self)@.remarks.push(remark@));
    }

    /// What the test says of itself, whether or not it fails.
    pub fn remarks(&self) -> (r: &Vec<String>)
        ensures
            texts(r@) == self@.remarks,
    {
        &self.remarks
    }

    /// Whether everything looked at so far is as demanded.
    pub fn ok(&self) -> (r: bool)
        ensures
            r == all_hold(self@.rulings),
    {
        let mut i: usize = 0;
        while i < self.findings.len()
            invariant
                i <= self.findings@.len(),
                forall|k: int| 0 <= k < i ==> (#[trigger] rulings(self.findings@)[k]).holds(),
            decreases self.findings@.len() - i,
        {
            if !self.findings[i].holds() {
                assert(!rulings(self.findings@)[i as int].holds());
                return false;
            }
            i += 1;
        }
        true
    }

    /// Ends the check: there is a failure exactly where something is not as demanded.
    pub fn finish(self) -> (r: Result<(), Failure>)
        ensures
            r is Ok <==> all_hold(self@.rulings),
            r matches Err(f) ==> f.subject@ == self@.subject && rulings(f.findings@)
                == self@.rulings && texts(f.notes@) == self@.notes && block_views(f.blocks@)
                == self@.blocks,
    {
        if self.ok() {
            Ok(())
        } else {
            Err(
                Failure {
                    subject: self.subject,
                    findings: self.findings,
                    notes: self.notes,
                    blocks: self.blocks,
                },
            )
        }
    }
}

/// What a run of steps finds when it stops after the first step in which something does not hold.
pub open spec fn until_failure(groups: Seq<Seq<Ruling>>) -> Seq<Ruling>
    decreases groups.len(),
{
    if groups.len() == 0 {
        Seq::empty()
    } else {
        let before = until_failure(groups.drop_last());
        if all_hold(before) {
            before + groups.last()
        } else {
            before
        }
    }
}

/// A run of steps passes exactly where every one of them does.
pub proof fn run_passes_where_every_step_does(groups: Seq<Seq<Ruling>>)
    ensures
        all_hold(until_failure(groups)) <==> forall|i: int|
            0 <= i < groups.len() ==> all_hold(#[trigger] groups[i]),
    decreases groups.len(),
{
    if groups.len() > 0 {
        let front = groups.drop_last();
        run_passes_where_every_step_does(front);
        let before = until_failure(front);
        let all = until_failure(groups);
        if all_hold(before) {
            assert forall|i: int| 0 <= i < front.len() implies all_hold(#[trigger] groups[i]) by {
                assert(front[i] == groups[i]);
            }
            if all_hold(groups.last()) {
                assert forall|k: int| 0 <= k < all.len() implies (#[trigger] all[k]).holds() by {
                    if k < before.len() {
                        assert(all[k] == before[k]);
                    } else {
                        assert(all[k] == groups.last()[k - before.len()]);
                    }
                }
                assert(groups[groups.len() - 1] == groups.last());
            } else {
                let k = choose|k: int| 0 <= k < groups.last().len() && !groups.last()[k].holds();
                assert(all[before.len() + k] == groups.last()[k]);
                assert(groups[groups.len() - 1] == groups.last());
            }
        } else {
            let i = choose|i: int| 0 <= i < front.len() && !all_hold(#[trigger] front[i]);
            assert(groups[i] == front[i]);
        }
    }
}

/// A step more, where everything so far holds, adds what that step finds.
pub proof fn lemma_until_failure_step(groups: Seq<Seq<Ruling>>, i: int)
    requires
        0 <= i < groups.len(),
        all_hold(until_failure(groups.take(i))),
    ensures
        until_failure(groups.take(i + 1)) == until_failure(groups.take(i)) + groups[i],
{
    assert(groups.take(i + 1).drop_last() =~= groups.take(i));
}

/// Where the run has come to its end, or something does not hold, nothing more is added.
pub proof fn lemma_until_failure_rest(groups: Seq<Seq<Ruling>>, i: int)
    requires
        0 <= i <= groups.len(),
        i == groups.len() || !all_hold(until_failure(groups.take(i))),
    ensures
        until_failure(groups.take(i)) == until_failure(groups),
    decreases groups.len() - i,
{
    if i == groups.len() {
        assert(groups.take(i) =~= groups);
    } else {
        assert(groups.take(i + 1).drop_last() =~= groups.take(i));
        lemma_until_failure_rest(groups, i + 1);
    }
}

/// How the report names a field of the answer to step `i` of a plan.
pub open spec fn step_path(i: nat, command: Seq<char>, field: Seq<char>) -> Seq<char> {
    "step["@ + nat_text(i) + "] "@ + command + " \u{2192} "@ + field
}

/// How the report names a field of the answer to step `i` of a plan.
pub fn name_step(i: usize, command: &str, field: &str) -> (s: String)
    ensures
        s@ == step_path(i as nat, command@, field@),
{
    let mut s = String::from_str("step[");
    push_nat(&mut s, i as u64);
    s.append("] ");
    s.append(command);
    s.append(" \u{2192} ");
    s.append(field);
    s
}

/// How the report names something about trial `t`.
pub open spec fn trial_path(t: nat, what: Seq<char>) -> Seq<char> {
    "trial["@ + nat_text(t) + "] "@ + what
}

/// How the report names something about trial `t`.
pub fn name_trial(t: usize, what: &str) -> (s: String)
    ensures
        s@ == trial_path(t as nat, what@),
{
    let mut s = String::from_str("trial[");
    push_nat(&mut s, t as u64);
    s.append("] ");
    s.append(what);
    s
}

/// A list of texts as a fact of its own.
pub fn texts_fact(all: &Vec<String>) -> (f: Fact)
    ensures
        f@ == Truth::Texts(texts(all@)),
{
    Fact::Texts(copy_texts(all))
}

/// The note a planned run starts with: its seed, and how many of what it is made of.
pub open spec fn seed_note(seed: nat, count: nat, what: Seq<char>) -> Seq<char> {
    "seed "@ + nat_text(seed) + ", "@ + nat_text(count) + " "@ + what
}

/// The note a planned run starts with: its seed, and how many of what it is made of.
pub fn note_seed(seed: u64, count: usize, what: &str) -> (s: String)
    ensures
        s@ == seed_note(seed as nat, count as nat, what@),
{
    let mut s = String::from_str("seed ");
    push_nat(&mut s, seed);
    s.append(", ");
    push_nat(&mut s, count as u64);
    s.append(" ");
    s.append(what);
    s
}

/// What was seen is ruled on as the words say: it is the wanted one, it is another, it is no less, no more, or
/// neither; a claim holds where it was found to hold, and what is only reported always does.
pub proof fn rulings_hold_as_they_say(path: Seq<char>, want: int, got: int, most: int, a: Truth, b: Truth, holds: bool)
    ensures
        is_int(path, want, got).holds() <==> want == got,
        is_not_int(path, want, got).holds() <==> want != got,
        is_at_least(path, want, got).holds() <==> got - want >= 0,
        is_at_most(path, want, got).holds() <==> want - got >= 0,
        is_within(path, want, most, got).holds() <==> want <= got <= most,
        is_fact(path, a, b).holds() <==> a == b,
        is_that(path, path, holds, a).holds() <==> holds,
        is_seen(path, a).holds(),
        (Ruling { path, demand: Demand::IsNot(a), got: b }).holds() <==> a != b,
        is_int(path, want, got).path == path,
        is_at_least(path, want, got).path == path,
        is_at_most(path, want, got).path == path,
        is_within(path, want, most, got).path == path,
        is_fact(path, a, b).path == path,
        is_fact(path, a, b).got == b,
        is_that(path, path, holds, a).path == path,
        is_that(path, path, holds, a).got == a,
        is_seen(path, a).path == path,
        is_seen(path, a).got == a,
{
}

/// A flag or a text is the wanted one exactly where the two are the same.
pub proof fn flags_and_texts_are_ruled_on_as_they_are(path: Seq<char>, a: bool, b: bool, s: Seq<char>, t: Seq<char>)
    ensures
        is_bool(path, a, b).holds() <==> a == b,
        is_text(path, s, t).holds() <==> s == t,
        is_bool(path, a, b).got == Truth::Bool(b),
        is_text(path, s, t).got == Truth::Text(t),
        is_bool(path, a, b).path == path,
        is_text(path, s, t).path == path,
{
}

/// A check passes where every ruling in it holds, and one that does not spoils it.
pub proof fn check_passes_where_every_ruling_holds(rulings: Seq<Ruling>, r: Ruling)
    ensures
        all_hold(Seq::empty()),
        all_hold(rulings.push(r)) <==> all_hold(rulings) && r.holds(),
{
    let all = rulings.push(r);
    if all_hold(all) {
        assert(all[rulings.len() as int].holds());
        assert forall|i: int| 0 <= i < rulings.len() implies (#[trigger] rulings[i]).holds() by {
            assert(all[i].holds());
        }
    }
}

/// A run is ruled on up to and with its first step that fails, and no further.
pub proof fn run_ends_with_its_first_failure(groups: Seq<Seq<Ruling>>, k: int)
    requires
        0 <= k < groups.len(),
        forall|i: int| 0 <= i < k ==> all_hold(#[trigger] groups[i]),
        !all_hold(groups[k]),
    ensures
        until_failure(groups) == until_failure(groups.take(k)) + groups[k],
        all_hold(until_failure(groups.take(k))),
        !all_hold(until_failure(groups)),
{
    let front = groups.take(k);
    assert forall|i: int| 0 <= i < front.len() implies all_hold(#[trigger] front[i]) by {
        assert(front[i] == groups[i]);
    }
    run_passes_where_every_step_does(front);
    lemma_until_failure_step(groups, k);
    run_passes_where_every_step_does(groups);
    let some = groups.take(k + 1);
    run_passes_where_every_step_does(some);
    assert(some[k] == groups[k]);
    lemma_until_failure_rest(groups, k + 1);
}

/// A run without a failure is ruled on to its end, in order.
pub proof fn run_without_failure_is_ruled_on_whole(groups: Seq<Seq<Ruling>>, group: Seq<Ruling>)
    requires
        all_hold(until_failure(groups)),
    ensures
        until_failure(groups.push(group)) == until_failure(groups) + group,
        until_failure(Seq::empty()) == Seq::<Ruling>::empty(),
{
    assert(groups.push(group).drop_last() =~= groups);
}

/// How the report names a step, a trial and a seed.
pub proof fn report_names_steps_and_trials(i: nat, command: Seq<char>, field: Seq<char>, count: nat)
    ensures
        step_path(i, command, field) == "step["@ + nat_text(i) + "] "@ + command + " \u{2192} "@ + field,
        trial_path(i, field) == "trial["@ + nat_text(i) + "] "@ + field,
        seed_note(i, count, field) == "seed "@ + nat_text(i) + ", "@ + nat_text(count) + " "@ + field,
{
}

/// A verdict starts with what it is about and nothing besides its rulings and notes.
pub proof fn plain_verdict_has_nothing_besides(subject: Seq<char>, rulings: Seq<Ruling>, notes: Seq<Seq<char>>)
    ensures
        Verdict::plain(subject, rulings, notes).subject == subject,
        Verdict::plain(subject, rulings, notes).rulings == rulings,
        Verdict::plain(subject, rulings, notes).notes == notes,
        Verdict::plain(subject, rulings, notes).quiet(),
{
}

} // verus!
