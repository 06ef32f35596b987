//! Stage 61: Single-decree Paxos.
//!
//! One value, agreed once: two promises an acceptor makes, and one rule about which value a
//! proposer is allowed to propose.
use rand::rngs::StdRng;
use vstd::prelude::*;
use crate::check::{note_seed, seed_note, Check};
use crate::draw::{draw_i64, draw_ratio, draw_usize};
use crate::examples::{described, prim_described, prim_examples, ExampleSpec, PrimRow};
use crate::stages::{names_topic_at, opens_topic, rows_on_topic, rows_written, tests, tests_of, Ladder, Stage, TestRow};
use crate::json::Json;
use crate::prim::Misshapen;
use crate::quorum::{majorities_meet, majority_of};
use crate::steps::{asked, judge_steps, run_judged, wants_of, Asked, Step, Want, Wanted};
use crate::text::{int_text, nat_text, push_int, push_nat, same_text};

verus! {

/// A numbered proposal of a value.
pub struct Proposal {
    pub n: int,
    pub value: Seq<char>,
}

/// An acceptor: the highest number it has promised, and the last proposal it accepted.
pub struct Acceptor {
    pub promised: int,
    pub last: Option<Proposal>,
}

impl Acceptor {
    /// An acceptor that has promised nothing and accepted nothing.
    pub open spec fn fresh() -> Acceptor {
        Acceptor { promised: 0, last: None }
    }

    /// The acceptor once asked to promise `n`: it does so only for a strictly higher number.
    pub open spec fn prepared(self, n: int) -> Acceptor {
        if n > self.promised {
            Acceptor { promised: n, ..self }
        } else {
            self
        }
    }

    /// The acceptor once asked to accept a proposal: it refuses one below what it promised, and
    /// accepting implies promising.
    pub open spec fn accepted(self, p: Proposal) -> Acceptor {
        if p.n >= self.promised {
            Acceptor { promised: p.n, last: Some(p) }
        } else {
            self
        }
    }
}

/// The acceptors whose last accepted proposal has the number `n`.
pub open spec fn holders(accs: Seq<Acceptor>, n: int) -> Set<int> {
    Set::new(|i: int| 0 <= i < accs.len() && accs[i].last is Some && accs[i].last->0.n == n)
}

/// The acceptors whose last accepted proposal has the value `value`.
pub open spec fn agreeing(accs: Seq<Acceptor>, value: Seq<char>) -> Set<int> {
    Set::new(|i: int| 0 <= i < accs.len() && accs[i].last is Some && accs[i].last->0.value == value)
}

/// A majority of the acceptors holds the proposal numbered `n`.
pub open spec fn backed(accs: Seq<Acceptor>, n: int) -> bool {
    holders(accs, n).len() >= majority_of(accs.len())
}

/// The acceptor at `i` is the first to hold the highest number that a majority holds.
pub open spec fn decides(accs: Seq<Acceptor>, i: int) -> bool {
    &&& 0 <= i < accs.len()
    &&& accs[i].last is Some
    &&& backed(accs, accs[i].last->0.n)
    &&& forall|m: int| #[trigger] backed(accs, m) ==> m <= accs[i].last->0.n
    &&& forall|j: int|
        0 <= j < i && (#[trigger] accs[j]).last is Some ==> accs[j].last->0.n != accs[i].last->0.n
}

/// The value a learner reports as chosen.
pub open spec fn learned(accs: Seq<Acceptor>) -> Option<Seq<char>> {
    if exists|i: int| decides(accs, i) {
        Some(accs[choose|i: int| decides(accs, i)].last->0.value)
    } else {
        None
    }
}

proof fn lemma_index_sets_finite(accs: Seq<Acceptor>)
    ensures
        forall|n: int| (#[trigger] holders(accs, n)).finite() && holders(accs, n).len() <= accs.len(),
        forall|v: Seq<char>|
            (#[trigger] agreeing(accs, v)).finite() && agreeing(accs, v).len() <= accs.len(),
{
    let all = vstd::set_lib::set_int_range(0, accs.len() as int);
    vstd::set_lib::lemma_int_range(0, accs.len() as int);
    assert forall|n: int| (#[trigger] holders(accs, n)).finite() && holders(accs, n).len()
        <= accs.len() by {
        assert(holders(accs, n).subset_of(all));
        vstd::set_lib::lemma_len_subset(holders(accs, n), all);
    }
    assert forall|v: Seq<char>| (#[trigger] agreeing(accs, v)).finite() && agreeing(accs, v).len()
        <= accs.len() by {
        assert(agreeing(accs, v).subset_of(all));
        vstd::set_lib::lemma_len_subset(agreeing(accs, v), all);
    }
}

/// A number that a majority holds is held by somebody.
proof fn lemma_backed_is_held(accs: Seq<Acceptor>, n: int)
    requires
        backed(accs, n),
    ensures
        exists|i: int| 0 <= i < accs.len() && (#[trigger] accs[i]).last is Some && accs[i].last->0.n == n,
{
    lemma_index_sets_finite(accs);
    let i = holders(accs, n).choose();
    if holders(accs, n).is_empty() {
        assert(holders(accs, n) =~= Set::empty());
    }
    assert(holders(accs, n).contains(i));
    assert(accs[i].last is Some);
}

/// Only one acceptor decides.
proof fn lemma_decider_is_unique(accs: Seq<Acceptor>, i: int)
    requires
        decides(accs, i),
    ensures
        learned(accs) == Some(accs[i].last->0.value),
{
    let j = choose|j: int| decides(accs, j);
    assert(backed(accs, accs[i].last->0.n));
    assert(backed(accs, accs[j].last->0.n));
    if i < j {
        assert(accs[i].last is Some);
    } else if j < i {
        assert(accs[j].last is Some);
    }
}

/// One acceptor, as the model keeps it.
#[derive(Debug)]
pub struct AcceptorState {
    promised: i64,
    last: Option<(i64, String)>,
}

impl View for AcceptorState {
    type V = Acceptor;

    closed spec fn view(&self) -> Acceptor {
        Acceptor {
            promised: self.promised as int,
            last: match self.last {
                Some(p) => Some(Proposal { n: p.0 as int, value: p.1@ }),
                None => None,
            },
        }
    }
}

/// The acceptors, as the paper states them.
pub struct Model {
    acceptors: Vec<AcceptorState>,
}

impl View for Model {
    type V = Seq<Acceptor>;

    closed spec fn view(&self) -> Seq<Acceptor> {
        self.acceptors@.map_values(|a: AcceptorState| a@)
    }
}

impl Model {
    pub fn new(count: usize) -> (m: Model)
        ensures
            m@ == Seq::new(count as nat, |i: int| Acceptor::fresh()),
    {
        let mut acceptors: Vec<AcceptorState> = Vec::new();
        let mut i: usize = 0;
        while i < count
            invariant
                i <= count,
                acceptors@.len() == i,
                forall|k: int| 0 <= k < i ==> (#[trigger] acceptors@[k])@ == Acceptor::fresh(),
            decreases count - i,
        {
            acceptors.push(AcceptorState { promised: 0, last: None });
            i += 1;
        }
        let m = Model { acceptors };
        assert(m@ =~= Seq::new(count as nat, |i: int| Acceptor::fresh()));
        m
    }

    /// How many acceptors there are.
    pub fn count(&self) -> (r: usize)
        ensures
            r == self@.len(),
    {
        self.acceptors.len()
    }

    pub fn majority(&self) -> (r: usize)
        ensures
            r == majority_of(self@.len()),
    {
        self.acceptors.len() / 2 + 1
    }

    /// The number of the last proposal the acceptor at `i` accepted.
    pub fn last_n(&self, i: usize) -> (r: Option<i64>)
        requires
            i < self@.len(),
        ensures
            match self@[i as int].last {
                Some(p) => r is Some && r->0 == p.n,
                None => r is None,
            },
    {
        match &self.acceptors[i].last {
            Some(p) => Some(p.0),
            None => None,
        }
    }

    /// The value of the last proposal the acceptor at `i` accepted.
    pub fn last_value(&self, i: usize) -> (r: Option<String>)
        requires
            i < self@.len(),
        ensures
            match self@[i as int].last {
                Some(p) => r is Some && r->0@ == p.value,
                None => r is None,
            },
    {
        match &self.acceptors[i].last {
            Some(p) => Some(p.1.clone()),
            None => None,
        }
    }

    /// Returns what the acceptor must answer: `(promised, promised_n)`.
    pub fn prepare(&mut self, i: usize, n: i64) -> (r: (bool, i64))
        requires
            i < old(self)@.len(),
        ensures
            final(self)@ == old(self)@.update(i as int, old(self)@[i as int].prepared(n as int)),
            r.0 == (n > old(self)@[i as int].promised),
            r.1 == final(self)@[i as int].promised,
    {
        let granted = n > self.acceptors[i].promised;
        if granted {
            self.acceptors[i].promised = n;
        }
        assert(self@ =~= old(self)@.update(i as int, old(self)@[i as int].prepared(n as int)));
        (granted, self.acceptors[i].promised)
    }

    /// Returns what the acceptor must answer: `(accepted, promised_n)`.
    pub fn accept(&mut self, i: usize, n: i64, value: &str) -> (r: (bool, i64))
        requires
            i < old(self)@.len(),
        ensures
            final(self)@ == old(self)@.update(
                i as int,
                old(self)@[i as int].accepted(Proposal { n: n as int, value: value@ }),
            ),
            r.0 == (n >= old(self)@[i as int].promised),
            r.1 == final(self)@[i as int].promised,
    {
        let taken = n >= self.acceptors[i].promised;
        if taken {
            let state = AcceptorState {
                promised: n,
                last: Some((n, String::from_str(value))),
            };
            self.acceptors.set(i, state);
        }
        assert(self@ =~= old(self)@.update(
            i as int,
            old(self)@[i as int].accepted(Proposal { n: n as int, value: value@ }),
        ));
        (taken, self.acceptors[i].promised)
    }

    /// How many acceptors hold the proposal numbered `n`.
    fn count_holders(&self, n: i64) -> (c: usize)
        ensures
            c == holders(self@, n as int).len(),
    {
        let mut i: usize = 0;
        let mut c: usize = 0;
        let ghost mut seen: Set<int> = Set::empty();
        while i < self.acceptors.len()
            invariant
                i <= self@.len(),
                self@.len() == self.acceptors@.len(),
                c <= i,
                seen.finite(),
                seen.len() == c,
                forall|k: int| #[trigger] seen.contains(k) <==> k < i && holders(self@, n as int).contains(k),
            decreases self@.len() - i,
        {
            if let Some(held) = self.last_n(i) {
                if held == n {
                    c += 1;
                    proof {
                        seen = seen.insert(i as int);
                    }
                }
            }
            i += 1;
        }
        assert(seen =~= holders(self@, n as int));
        c
    }

    /// How many acceptors hold the value `value`.
    fn count_agreeing(&self, value: &str) -> (c: usize)
        ensures
            c == agreeing(self@, value@).len(),
    {
        let mut i: usize = 0;
        let mut c: usize = 0;
        let ghost mut seen: Set<int> = Set::empty();
        while i < self.acceptors.len()
            invariant
                i <= self@.len(),
                self@.len() == self.acceptors@.len(),
                c <= i,
                seen.finite(),
                seen.len() == c,
                forall|k: int| #[trigger] seen.contains(k) <==> k < i && agreeing(self@, value@).contains(k),
            decreases self@.len() - i,
        {
            if let Some(held) = self.last_value(i) {
                if same_text(held.as_str(), value) {
                    c += 1;
                    proof {
                        seen = seen.insert(i as int);
                    }
                }
            }
            i += 1;
        }
        assert(seen =~= agreeing(self@, value@));
        c
    }

    /// Returns what a learner must answer: `(chosen, value, count)`.
    pub fn learn(&self) -> (r: (bool, Option<String>, usize))
        ensures
            match learned(self@) {
                Some(value) => {
                    &&& r.0
                    &&& r.1 is Some
                    &&& r.1->0@ == value
                    &&& r.2 == agreeing(self@, value).len()
                },
                None => !r.0 && r.1 is None && r.2 == 0,
            },
            r.0 == (exists|n: int| backed(self@, n)),
    {
        let majority: usize = self.majority();
        let mut best: Option<(i64, usize)> = None;
        let mut i: usize = 0;
        while i < self.acceptors.len()
            invariant
                i <= self@.len(),
                self@.len() == self.acceptors@.len(),
                majority == majority_of(self@.len()),
                best matches Some(b) ==> {
                    &&& b.1 < i
                    &&& self@[b.1 as int].last is Some
                    &&& self@[b.1 as int].last->0.n == b.0
                    &&& backed(self@, b.0 as int)
                    &&& forall|j: int|
                        0 <= j < b.1 && (#[trigger] self@[j]).last is Some ==> self@[j].last->0.n
                            != b.0
                },
                forall|j: int|
                    0 <= j < i && (#[trigger] self@[j]).last is Some && backed(
                        self@,
                        self@[j].last->0.n,
                    ) ==> best is Some && self@[j].last->0.n <= (best->0).0,
            decreases self@.len() - i,
        {
            if let Some(n) = self.last_n(i) {
                let held: usize = self.count_holders(n);
                if held >= majority {
                    let higher = match best {
                        Some(b) => n > b.0,
                        None => true,
                    };
                    if higher {
                        best = Some((n, i));
                    }
                }
            }
            i += 1;
        }
        proof {
            assert forall|m: int| #[trigger] backed(self@, m) implies best is Some && m <= (best->0).0 by {
                lemma_backed_is_held(self@, m);
            }
        }
        match best {
            Some(b) => {
                assert(decides(self@, b.1 as int));
                proof {
                    lemma_decider_is_unique(self@, b.1 as int);
                }
                match self.last_value(b.1) {
                    Some(value) => {
                        let count: usize = self.count_agreeing(value.as_str());
                        (true, Some(value), count)
                    },
                    None => (false, None, 0),
                }
            },
            None => {
                assert forall|k: int| !decides(self@, k) by {
                    if decides(self@, k) {
                        assert(backed(self@, self@[k].last->0.n));
                    }
                }
                (false, None, 0)
            },
        }
    }
}

/// What a promise reports: the last proposal its acceptor had accepted, where it names one.
pub open spec fn report(promise: (Option<i64>, Option<String>)) -> Option<Proposal> {
    match promise {
        (Some(n), Some(v)) => Some(Proposal { n: n as int, value: v@ }),
        _ => None,
    }
}

/// What each promise of a list reports.
pub open spec fn reports(promises: Seq<(Option<i64>, Option<String>)>) -> Seq<Option<Proposal>> {
    promises.map_values(|p: (Option<i64>, Option<String>)| report(p))
}

/// The highest-numbered proposal among the reports, the earliest of them where two are as high.
pub open spec fn highest(reports: Seq<Option<Proposal>>) -> Option<Proposal>
    decreases reports.len(),
{
    if reports.len() == 0 {
        None
    } else {
        let before = highest(reports.drop_last());
        match reports.last() {
            Some(p) => if before is None || p.n > before->0.n {
                Some(p)
            } else {
                before
            },
            None => before,
        }
    }
}

/// The value a proposer is allowed to propose: that of the highest-numbered proposal its promises
/// reported, and its own only when none did.
pub open spec fn allowed_value(reports: Seq<Option<Proposal>>, own: Seq<char>) -> Seq<char> {
    match highest(reports) {
        Some(p) => p.value,
        None => own,
    }
}

/// The value a proposer is allowed to propose, given the promises it holds.
pub fn proposer_value(promises: &[(Option<i64>, Option<String>)], own: &str) -> (v: String)
    ensures
        v@ == allowed_value(reports(promises@), own@),
{
    let mut best: Option<(i64, String)> = None;
    let mut i: usize = 0;
    while i < promises.len()
        invariant
            i <= promises@.len(),
            match best {
                Some(b) => highest(reports(promises@).take(i as int)) == Some(
                    Proposal { n: b.0 as int, value: b.1@ },
                ),
                None => highest(reports(promises@).take(i as int)) is None,
            },
        decreases promises@.len() - i,
    {
        proof {
            let all = reports(promises@);
            assert(all.take(i + 1).drop_last() =~= all.take(i as int));
            assert(all.take(i + 1).last() == report(promises@[i as int]));
        }
        let promise = &promises[i];
        if let Some(n) = promise.0 {
            if let Some(v) = &promise.1 {
                let higher = match &best {
                    Some(b) => n > b.0,
                    None => true,
                };
                if higher {
                    best = Some((n, v.clone()));
                }
            }
        }
        i += 1;
    }
    assert(reports(promises@).take(i as int) =~= reports(promises@));
    match best {
        Some(b) => b.1,
        None => String::from_str(own),
    }
}

/// The `last_n` and `last_value` arguments of a `promise`, spelled as the grammar wants.
pub fn promise_args(last_n: Option<i64>, last_value: &Option<String>) -> (r: (i64, String))
    ensures
        match report((last_n, *last_value)) {
            Some(p) => r.0 == p.n && r.1@ == p.value,
            None => r.0 == -1 && r.1@ == "-"@,
        },
{
    match (last_n, last_value) {
        (Some(n), Some(v)) => (n, v.clone()),
        _ => (-1, String::from_str("-")),
    }
}

/// An acceptor's promise never goes down, and a number it accepted is never above its promise.
pub proof fn promises_only_rise(a: Acceptor, n: int, p: Proposal)
    ensures
        a.prepared(n).promised >= a.promised,
        a.accepted(p).promised >= a.promised,
        Acceptor::fresh().last is None,
        (a.last is Some ==> a.last->0.n <= a.promised) ==> {
            &&& a.prepared(n).last is Some ==> a.prepared(n).last->0.n <= a.prepared(n).promised
            &&& a.accepted(p).last is Some ==> a.accepted(p).last->0.n <= a.accepted(p).promised
        },
{
}

/// A request that is refused changes nothing, and one that comes in twice does nothing the second
/// time.
pub proof fn refusals_and_repeats_change_nothing(a: Acceptor, n: int, p: Proposal)
    ensures
        n <= a.promised ==> a.prepared(n) == a,
        p.n < a.promised ==> a.accepted(p) == a,
        a.prepared(n).prepared(n) == a.prepared(n),
        a.accepted(p).accepted(p) == a.accepted(p),
{
}

/// At any moment a majority holds at most one number.
pub proof fn one_number_is_backed(accs: Seq<Acceptor>, m: int, n: int)
    requires
        backed(accs, m),
        backed(accs, n),
    ensures
        m == n,
{
    let all = vstd::set_lib::set_int_range(0, accs.len() as int);
    vstd::set_lib::lemma_int_range(0, accs.len() as int);
    assert(holders(accs, m).subset_of(all));
    assert(holders(accs, n).subset_of(all));
    majorities_meet(all, holders(accs, m), holders(accs, n));
}

/// Which report a proposer follows: it is one of those it holds, none is numbered higher, and there
/// is none only where no promise reported a proposal.
pub proof fn proposer_follows_the_highest_report(reports: Seq<Option<Proposal>>)
    ensures
        highest(reports) is None <==> forall|i: int|
            0 <= i < reports.len() ==> (#[trigger] reports[i]) is None,
        highest(reports) is Some ==> reports.contains(highest(reports)),
        forall|i: int|
            0 <= i < reports.len() && (#[trigger] reports[i]) is Some ==> highest(reports) is Some
                && reports[i]->0.n <= highest(reports)->0.n,
    decreases reports.len(),
{
    if reports.len() > 0 {
        let front = reports.drop_last();
        proposer_follows_the_highest_report(front);
        assert forall|i: int| 0 <= i < reports.len() && (#[trigger] reports[i]) is Some implies highest(
            reports,
        ) is Some && reports[i]->0.n <= highest(reports)->0.n by {
            if i < front.len() {
                assert(front[i] == reports[i]);
            }
        }
        if highest(reports) is Some {
            if highest(reports) == reports.last() {
                assert(reports[reports.len() - 1] == highest(reports));
            } else {
                let k = choose|k: int| 0 <= k < front.len() && front[k] == highest(front);
                assert(reports[k] == highest(reports));
            }
        }
        if highest(reports) is None {
            assert forall|i: int| 0 <= i < reports.len() implies (#[trigger] reports[i]) is None by {
                if i < front.len() {
                    assert(front[i] == reports[i]);
                }
            }
        }
        if forall|i: int| 0 <= i < reports.len() ==> (#[trigger] reports[i]) is None {
            assert forall|i: int| 0 <= i < front.len() implies (#[trigger] front[i]) is None by {
                assert(front[i] == reports[i]);
            }
            assert(reports[reports.len() - 1] is None);
        }
    }
}

/// A whole decree: the acceptors, and what has been promised, proposed and accepted so far.
pub struct Decree {
    pub acceptors: Seq<Acceptor>,
    /// What the acceptor reported when it promised the number, by acceptor and number.
    pub promises: Map<(int, int), Option<Proposal>>,
    /// The acceptors whose promises a proposer collected before it proposed, by number.
    pub backing: Map<int, Seq<int>>,
    /// The value proposed under each number.
    pub proposed: Map<int, Seq<char>>,
    /// Which acceptor accepted which number, ever.
    pub votes: Set<(int, int)>,
}

/// One thing that can happen in a decree, in any order and any number of times.
pub enum Move {
    /// An acceptor is asked to promise a number.
    Prepare { i: int, n: int },
    /// A proposer that holds the promises of `backers` for its number proposes.
    Propose { n: int, own: Seq<char>, backers: Seq<int> },
    /// An acceptor is asked to accept what was proposed under a number.
    Accept { i: int, n: int },
}

impl Decree {
    pub open spec fn fresh(count: nat) -> Decree {
        Decree {
            acceptors: Seq::new(count, |i: int| Acceptor::fresh()),
            promises: Map::empty(),
            backing: Map::empty(),
            proposed: Map::empty(),
            votes: Set::empty(),
        }
    }

    /// What the backers reported when they promised `n`.
    pub open spec fn heard(self, n: int, backers: Seq<int>) -> Seq<Option<Proposal>> {
        backers.map_values(|i: int| self.promises[(i, n)])
    }

    /// A majority of distinct acceptors, each of which has promised `n`.
    pub open spec fn may_propose(self, n: int, backers: Seq<int>) -> bool {
        &&& backers.no_duplicates()
        &&& backers.len() >= majority_of(self.acceptors.len())
        &&& forall|k: int|
            0 <= k < backers.len() ==> 0 <= #[trigger] backers[k] < self.acceptors.len()
                && self.promises.contains_key((backers[k], n))
    }

    /// The decree once something more has happened. A proposer proposes once per number, and only
    /// what its promises allow; an acceptor is only asked to accept what was proposed.
    pub open spec fn after(self, m: Move) -> Decree {
        match m {
            Move::Prepare { i, n } => if 0 <= i < self.acceptors.len() && n
                > self.acceptors[i].promised {
                Decree {
                    acceptors: self.acceptors.update(i, self.acceptors[i].prepared(n)),
                    promises: self.promises.insert((i, n), self.acceptors[i].last),
                    ..self
                }
            } else {
                self
            },
            Move::Propose { n, own, backers } => if !self.proposed.contains_key(n)
                && self.may_propose(n, backers) {
                Decree {
                    backing: self.backing.insert(n, backers),
                    proposed: self.proposed.insert(n, allowed_value(self.heard(n, backers), own)),
                    ..self
                }
            } else {
                self
            },
            Move::Accept { i, n } => if 0 <= i < self.acceptors.len() && self.proposed.contains_key(n)
                && n >= self.acceptors[i].promised {
                Decree {
                    acceptors: self.acceptors.update(
                        i,
                        self.acceptors[i].accepted(Proposal { n, value: self.proposed[n] }),
                    ),
                    votes: self.votes.insert((i, n)),
                    ..self
                }
            } else {
                self
            },
        }
    }

    pub open spec fn run(self, moves: Seq<Move>) -> Decree
        decreases moves.len(),
    {
        if moves.len() == 0 {
            self
        } else {
            self.run(moves.drop_last()).after(moves.last())
        }
    }

    /// The acceptors that ever accepted `n`.
    pub open spec fn voters(self, n: int) -> Set<int> {
        Set::new(|i: int| 0 <= i < self.acceptors.len() && self.votes.contains((i, n)))
    }

    /// The value proposed under `n` is chosen: a majority accepted it.
    pub open spec fn chosen(self, n: int) -> bool {
        self.proposed.contains_key(n) && self.voters(n).len() >= majority_of(self.acceptors.len())
    }

    /// What holds of a decree at every moment.
    pub open spec fn sound(self) -> bool {
        // An acceptor's last accepted proposal is the highest it ever accepted.
        &&& forall|i: int|
            0 <= i < self.acceptors.len() && (#[trigger] self.acceptors[i]).last is Some ==> {
                let p = self.acceptors[i].last->0;
                &&& p.n <= self.acceptors[i].promised
                &&& self.votes.contains((i, p.n))
                &&& self.proposed.contains_key(p.n)
                &&& self.proposed[p.n] == p.value
            }
        &&& forall|i: int, k: int| #[trigger]
            self.votes.contains((i, k)) ==> {
                &&& 0 <= i < self.acceptors.len()
                &&& self.proposed.contains_key(k)
                &&& self.acceptors[i].last is Some
                &&& k <= self.acceptors[i].last->0.n
            }
        // A promise reports the highest number accepted below it, and none is accepted since.
        &&& forall|i: int, n: int| #[trigger]
            self.promises.contains_key((i, n)) ==> {
                &&& 0 <= i < self.acceptors.len()
                &&& n <= self.acceptors[i].promised
                &&& self.promises[(i, n)] is Some ==> {
                    let p = self.promises[(i, n)]->0;
                    &&& p.n < n
                    &&& self.proposed.contains_key(p.n)
                    &&& self.proposed[p.n] == p.value
                }
            }
        &&& forall|i: int, n: int, k: int| #[trigger]
            self.promises.contains_key((i, n)) && #[trigger] self.votes.contains((i, k)) && k < n
                ==> self.promises[(i, n)] is Some && k <= self.promises[(i, n)]->0.n
        // Every proposal rests on the promises of a majority.
        &&& forall|n: int| #[trigger]
            self.proposed.contains_key(n) ==> {
                &&& self.backing.contains_key(n)
                &&& self.may_propose(n, self.backing[n])
                &&& highest(self.heard(n, self.backing[n])) is Some ==> self.proposed[n] == highest(
                    self.heard(n, self.backing[n]),
                )->0.value
            }
    }
}

/// A fresh decree is sound, and nothing that happens in a sound one ends that.
proof fn lemma_sound(count: nat, d: Decree, m: Move)
    ensures
        Decree::fresh(count).sound(),
        d.sound() ==> d.after(m).sound(),
{
    if d.sound() {
        let e = d.after(m);
        match m {
            Move::Prepare { i, n } => {
                if 0 <= i < d.acceptors.len() && n > d.acceptors[i].promised {
                    assert forall|k: int| #[trigger] e.proposed.contains_key(k) implies {
                        &&& e.may_propose(k, e.backing[k])
                        &&& e.heard(k, e.backing[k]) == d.heard(k, d.backing[k])
                    } by {
                        let b = d.backing[k];
                        assert(d.may_propose(k, b));
                        assert forall|x: int| 0 <= x < b.len() implies e.promises[(#[trigger] b[x], k)]
                            == d.promises[(b[x], k)] && e.promises.contains_key((b[x], k)) by {
                            assert(d.promises.contains_key((b[x], k)));
                        }
                        assert(e.heard(k, b) =~= d.heard(k, b));
                    }
                }
            },
            Move::Propose { n, own, backers } => {
                if !d.proposed.contains_key(n) && d.may_propose(n, backers) {
                    assert forall|k: int| #[trigger] e.proposed.contains_key(k) implies {
                        &&& e.may_propose(k, e.backing[k])
                        &&& e.heard(k, e.backing[k]) == d.heard(k, e.backing[k])
                    } by {
                        if k != n {
                            assert(d.may_propose(k, d.backing[k]));
                        }
                        assert(e.heard(k, e.backing[k]) =~= d.heard(k, e.backing[k]));
                    }
                }
            },
            Move::Accept { i, n } => {
                if e != d {
                    assert forall|k: int| #[trigger] e.proposed.contains_key(k) implies {
                        &&& e.may_propose(k, e.backing[k])
                        &&& e.heard(k, e.backing[k]) == d.heard(k, e.backing[k])
                    } by {
                        assert(d.may_propose(k, d.backing[k]));
                        assert(e.heard(k, e.backing[k]) =~= d.heard(k, e.backing[k]));
                    }
                }
            },
        }
    }
}

proof fn lemma_run_sound(count: nat, moves: Seq<Move>)
    ensures
        Decree::fresh(count).run(moves).sound(),
        Decree::fresh(count).run(moves).acceptors.len() == count,
    decreases moves.len(),
{
    lemma_sound(count, Decree::fresh(count), Move::Accept { i: -1, n: 0 });
    if moves.len() > 0 {
        lemma_run_sound(count, moves.drop_last());
        lemma_sound(count, Decree::fresh(count).run(moves.drop_last()), moves.last());
    }
}

/// A value once chosen is the only one that any higher-numbered proposal carries.
proof fn lemma_chosen_is_carried(d: Decree, k: int, n: int)
    requires
        d.sound(),
        d.chosen(k),
        d.proposed.contains_key(n),
        k <= n,
    ensures
        d.proposed[n] == d.proposed[k],
    decreases n - k,
{
    if k < n {
        let b = d.backing[n];
        assert(d.may_propose(n, b));
        let all = vstd::set_lib::set_int_range(0, d.acceptors.len() as int);
        vstd::set_lib::lemma_int_range(0, d.acceptors.len() as int);
        b.unique_seq_to_set();
        assert(b.to_set().subset_of(all));
        assert(d.voters(k).subset_of(all));
        majorities_meet(all, b.to_set(), d.voters(k));
        let i = choose|i: int| #[trigger] b.to_set().contains(i) && d.voters(k).contains(i);
        let x = choose|x: int| 0 <= x < b.len() && b[x] == i;
        assert(d.promises.contains_key((b[x], n)));
        assert(d.votes.contains((i, k)));
        let heard = d.heard(n, b);
        assert(heard[x] == d.promises[(i, n)]);
        proposer_follows_the_highest_report(heard);
        let best = highest(heard)->0;
        assert(best.n >= k);
        let y = choose|y: int| 0 <= y < heard.len() && heard[y] == highest(heard);
        assert(d.promises.contains_key((b[y], n)));
        assert(heard[y] == d.promises[(b[y], n)]);
        lemma_chosen_is_carried(d, k, best.n);
    }
}

/// What was proposed and accepted stays proposed and accepted.
proof fn lemma_history_grows(d: Decree, moves: Seq<Move>)
    ensures
        d.run(moves).acceptors.len() == d.acceptors.len(),
        d.votes.subset_of(d.run(moves).votes),
        forall|n: int| #[trigger]
            d.proposed.contains_key(n) ==> d.run(moves).proposed.contains_key(n) && d.run(
                moves,
            ).proposed[n] == d.proposed[n],
    decreases moves.len(),
{
    if moves.len() > 0 {
        lemma_history_grows(d, moves.drop_last());
    }
}

/// What a learner reports was chosen.
proof fn lemma_learned_is_chosen(d: Decree)
    requires
        d.sound(),
        learned(d.acceptors) is Some,
    ensures
        exists|n: int| #[trigger] d.chosen(n) && d.proposed[n] == learned(d.acceptors)->0,
{
    let i = choose|i: int| decides(d.acceptors, i);
    let n = d.acceptors[i].last->0.n;
    let all = vstd::set_lib::set_int_range(0, d.acceptors.len() as int);
    vstd::set_lib::lemma_int_range(0, d.acceptors.len() as int);
    assert(d.voters(n).subset_of(all));
    vstd::set_lib::lemma_set_subset_finite(all, d.voters(n));
    assert forall|j: int| holders(d.acceptors, n).contains(j) implies d.voters(n).contains(j) by {
        assert(d.acceptors[j].last is Some);
    }
    vstd::set_lib::lemma_len_subset(holders(d.acceptors, n), d.voters(n));
    assert(d.chosen(n));
}

/// At most one value is ever chosen: whatever a learner reports after some moves of a decree, no
/// further moves make a learner report another.
pub proof fn chosen_value_is_final(count: nat, moves: Seq<Move>, more: Seq<Move>)
    ensures
        ({
            let early = Decree::fresh(count).run(moves);
            let late = early.run(more);
            learned(early.acceptors) is Some && learned(late.acceptors) is Some ==> learned(
                early.acceptors,
            ) == learned(late.acceptors)
        }),
{
    let early = Decree::fresh(count).run(moves);
    let late = early.run(more);
    if learned(early.acceptors) is Some && learned(late.acceptors) is Some {
        lemma_run_sound(count, moves);
        lemma_run_continues(Decree::fresh(count), moves, more);
        lemma_run_sound(count, moves + more);
        lemma_learned_is_chosen(early);
        lemma_learned_is_chosen(late);
        lemma_history_grows(early, more);
        let a = choose|n: int| #[trigger] early.chosen(n) && early.proposed[n] == learned(early.acceptors)->0;
        let b = choose|n: int| #[trigger] late.chosen(n) && late.proposed[n] == learned(late.acceptors)->0;
        lemma_chosen_stays(early, late, a);
        if a <= b {
            lemma_chosen_is_carried(late, a, b);
        } else {
            lemma_chosen_is_carried(late, b, a);
        }
    }
}

proof fn lemma_chosen_stays(early: Decree, late: Decree, n: int)
    requires
        early.chosen(n),
        early.acceptors.len() == late.acceptors.len(),
        early.votes.subset_of(late.votes),
        late.proposed.contains_key(n),
    ensures
        late.chosen(n),
{
    let all = vstd::set_lib::set_int_range(0, late.acceptors.len() as int);
    vstd::set_lib::lemma_int_range(0, late.acceptors.len() as int);
    assert(late.voters(n).subset_of(all));
    vstd::set_lib::lemma_set_subset_finite(all, late.voters(n));
    assert forall|i: int| early.voters(n).contains(i) implies late.voters(n).contains(i) by {
        assert(early.votes.contains((i, n)));
    }
    vstd::set_lib::lemma_len_subset(early.voters(n), late.voters(n));
}

proof fn lemma_run_continues(d: Decree, moves: Seq<Move>, more: Seq<Move>)
    ensures
        d.run(moves).run(more) == d.run(moves + more),
    decreases more.len(),
{
    if more.len() == 0 {
        assert(moves + more =~= moves);
    } else {
        lemma_run_continues(d, moves, more.drop_last());
        assert((moves + more).drop_last() =~= moves + more.drop_last());
    }
}

/// A value once chosen forces every later proposal: whichever majority promises a higher number,
/// the value its reports allow is the chosen one.
pub proof fn later_proposals_carry_the_chosen_value(
    count: nat,
    moves: Seq<Move>,
    k: int,
    n: int,
    own: Seq<char>,
    backers: Seq<int>,
)
    requires
        Decree::fresh(count).run(moves).chosen(k),
        k < n,
        !Decree::fresh(count).run(moves).proposed.contains_key(n),
        Decree::fresh(count).run(moves).may_propose(n, backers),
    ensures
        allowed_value(Decree::fresh(count).run(moves).heard(n, backers), own) == Decree::fresh(
            count,
        ).run(moves).proposed[k],
{
    let d = Decree::fresh(count).run(moves);
    let m = Move::Propose { n, own, backers };
    lemma_run_sound(count, moves);
    lemma_sound(count, d, m);
    let e = d.after(m);
    assert(e.voters(k) =~= d.voters(k));
    lemma_chosen_is_carried(e, k, n);
}

/// The acceptors and the proposer that a conversation is about.
pub struct Desk {
    pub accs: Seq<Acceptor>,
    /// What the proposer would propose if no promise reported anything.
    pub own: Seq<char>,
    /// What the promises that the proposer holds reported.
    pub promises: Seq<Option<Proposal>>,
}

/// One thing the program is told or asked; acceptors are counted from zero.
pub enum Ask {
    Init { count: nat },
    /// With `full`, the answer must also carry what the acceptor last accepted.
    Prepare { i: int, n: int, full: bool },
    Accept { i: int, n: int, value: Seq<char> },
    Propose { n: int, own: Seq<char> },
    Promise { i: int, report: Option<Proposal> },
    /// With `full`, the answer must also carry the value and how many hold it.
    Learn { full: bool },
}

/// The name of the acceptor at `i`.
pub open spec fn acceptor_name(i: int) -> Seq<char> {
    "a"@ + nat_text((i + 1) as nat)
}

impl Ask {
    pub open spec fn command(self) -> Seq<char> {
        match self {
            Ask::Init { count } => "init "@ + nat_text(count),
            Ask::Prepare { i, n, .. } => "prepare "@ + acceptor_name(i) + " "@ + int_text(n),
            Ask::Accept { i, n, value } => "accept "@ + acceptor_name(i) + " "@ + int_text(n) + " "@
                + value,
            Ask::Propose { n, own } => "propose "@ + int_text(n) + " "@ + own,
            Ask::Promise { i, report } => match report {
                Some(p) => "promise "@ + acceptor_name(i) + " "@ + int_text(p.n) + " "@ + p.value,
                None => "promise "@ + acceptor_name(i) + " "@ + int_text(-1) + " "@ + "-"@,
            },
            Ask::Learn { .. } => "learn"@,
        }
    }
}

/// A number where there is one, and null where there is none.
pub open spec fn wanted_number(p: Option<Proposal>) -> Wanted {
    match p {
        Some(p) => Wanted::Int(p.n),
        None => Wanted::Null,
    }
}

/// A value where there is one, and null where there is none.
pub open spec fn wanted_value(v: Option<Seq<char>>) -> Wanted {
    match v {
        Some(v) => Wanted::Text(v),
        None => Wanted::Null,
    }
}

impl Desk {
    /// Fresh acceptors, and a proposer that has done nothing.
    pub open spec fn of(count: nat) -> Desk {
        Desk {
            accs: Seq::new(count, |i: int| Acceptor::fresh()),
            own: Seq::empty(),
            promises: Seq::empty(),
        }
    }

    /// The desk once something has been told or asked.
    pub open spec fn after(self, a: Ask) -> Desk {
        match a {
            Ask::Init { count } => Desk::of(count),
            Ask::Prepare { i, n, .. } => Desk {
                accs: self.accs.update(i, self.accs[i].prepared(n)),
                ..self
            },
            Ask::Accept { i, n, value } => Desk {
                accs: self.accs.update(i, self.accs[i].accepted(Proposal { n, value })),
                ..self
            },
            Ask::Propose { n, own } => Desk { own, promises: Seq::empty(), ..self },
            Ask::Promise { i, report } => Desk { promises: self.promises.push(report), ..self },
            Ask::Learn { .. } => self,
        }
    }

    /// How many acceptors hold the chosen value.
    pub open spec fn agreement(self) -> nat {
        match learned(self.accs) {
            Some(value) => agreeing(self.accs, value).len(),
            None => 0,
        }
    }

    /// What the answer has to carry.
    pub open spec fn wants(self, a: Ask) -> Seq<(Seq<char>, Wanted)> {
        let then = self.after(a);
        match a {
            Ask::Init { count } => seq![("majority"@, Wanted::Int(majority_of(count) as int))],
            Ask::Prepare { i, n, full } => {
                let promise = seq![
                    ("promised"@, Wanted::Bool(n > self.accs[i].promised)),
                    ("promised_n"@, Wanted::Int(then.accs[i].promised)),
                ];
                if full {
                    let last = self.accs[i].last;
                    promise.push(("last_n"@, wanted_number(last))).push(
                        (
                            "last_value"@,
                            wanted_value(
                                match last {
                                    Some(p) => Some(p.value),
                                    None => None,
                                },
                            ),
                        ),
                    )
                } else {
                    promise
                }
            },
            Ask::Accept { i, n, value } => seq![
                ("accepted"@, Wanted::Bool(n >= self.accs[i].promised)),
                ("promised_n"@, Wanted::Int(then.accs[i].promised)),
            ],
            Ask::Propose { n, .. } => seq![("n"@, Wanted::Int(n))],
            Ask::Promise { .. } => seq![
                ("promises"@, Wanted::Int(then.promises.len() as int)),
                ("value"@, Wanted::Text(allowed_value(then.promises, self.own))),
            ],
            Ask::Learn { full } => {
                let chosen = seq![("chosen"@, Wanted::Bool(learned(self.accs) is Some))];
                if full {
                    chosen.push(("count"@, Wanted::Int(self.agreement() as int))).push(
                        ("value"@, wanted_value(learned(self.accs))),
                    )
                } else {
                    chosen
                }
            },
        }
    }

    /// The desk once a run of things has been told and asked.
    pub open spec fn run(self, asks: Seq<Ask>) -> Desk
        decreases asks.len(),
    {
        if asks.len() == 0 {
            self
        } else {
            self.run(asks.drop_last()).after(asks.last())
        }
    }

    /// The whole conversation: every command, with what its answer has to carry.
    pub open spec fn answered(self, asks: Seq<Ask>) -> Seq<Asked>
        decreases asks.len(),
    {
        if asks.len() == 0 {
            Seq::empty()
        } else {
            let front = asks.drop_last();
            self.answered(front).push(
                Asked { command: asks.last().command(), wants: self.run(front).wants(asks.last()) },
            )
        }
    }
}

/// A conversation in the making.
struct Bench {
    model: Model,
    own: String,
    promises: Vec<(Option<i64>, Option<String>)>,
    steps: Vec<Step>,
}

impl Bench {
    /// The acceptors and the proposer as they are by now.
    spec fn desk(self) -> Desk {
        Desk { accs: self.model@, own: self.own@, promises: reports(self.promises@) }
    }

    /// The conversation so far is what `asks` make of fresh acceptors.
    spec fn has_asked(self, start: nat, asks: Seq<Ask>) -> bool {
        &&& self.desk() == Desk::of(start).run(asks)
        &&& asked(self.steps@) == Desk::of(start).answered(asks)
    }

    fn new(count: usize) -> (b: Bench)
        ensures
            b.has_asked(count as nat, Seq::empty()),
            b.desk() == Desk::of(count as nat),
            b.steps@.len() == 0,
    {
        let b = Bench {
            model: Model::new(count),
            own: String::new(),
            promises: Vec::new(),
            steps: Vec::new(),
        };
        assert(b.desk().accs =~= Desk::of(count as nat).accs);
        assert(b.desk().own =~= Seq::<char>::empty());
        assert(b.desk().promises =~= Seq::<Option<Proposal>>::empty());
        assert(asked(b.steps@) =~= Seq::<Asked>::empty());
        b
    }

    /// Puts down one command and what its answer has to carry.
    fn put(&mut self, command: String, wants: Vec<(&'static str, Want)>)
        ensures
            final(self).desk() == old(self).desk(),
            final(self).steps@.len() == old(self).steps@.len() + 1,
            asked(final(self).steps@) == asked(old(self).steps@).push(
                Asked { command: command@, wants: wants_of(wants@) },
            ),
    {
        let ghost before = self.steps@;
        self.steps.push(Step { command, wants });
        assert(asked(self.steps@) =~= asked(before).push(
            Asked { command: command@, wants: wants_of(wants@) },
        ));
    }

    fn init(&mut self, count: usize)
        ensures
            final(self).desk() == old(self).desk().after(Ask::Init { count: count as nat }),
            final(self).said(*old(self), Ask::Init { count: count as nat }),
    {
        self.model = Model::new(count);
        self.own = String::new();
        self.promises = Vec::new();
        let mut command = String::from_str("init ");
        push_nat(&mut command, count as u64);
        let mut wants: Vec<(&'static str, Want)> = Vec::new();
        wants.push(("majority", Want::Int(self.model.majority() as i128)));
        proof {
            let ask = Ask::Init { count: count as nat };
            assert(self.desk().accs =~= Desk::of(count as nat).accs);
            assert(self.desk().own =~= Seq::<char>::empty());
            assert(self.desk().promises =~= Seq::<Option<Proposal>>::empty());
            assert(wants_of(wants@) =~= old(self).desk().wants(ask));
        }
        self.put(command, wants);
    }

    /// The conversation goes on by one thing told or asked.
    spec fn said(self, before: Bench, a: Ask) -> bool {
        asked(self.steps@) == asked(before.steps@).push(
            Asked { command: a.command(), wants: before.desk().wants(a) },
        )
    }

    fn push_name(command: &mut String, i: usize)
        requires
            i < usize::MAX,
        ensures
            final(command)@ == old(command)@ + acceptor_name(i as int),
    {
        command.append("a");
        push_nat(command, i as u64 + 1);
        assert(command@ =~= old(command)@ + acceptor_name(i as int));
    }

    fn prepare(&mut self, i: usize, n: i64, full: bool)
        requires
            i < old(self).desk().accs.len(),
        ensures
            final(self).desk() == old(self).desk().after(
                Ask::Prepare { i: i as int, n: n as int, full },
            ),
            final(self).said(*old(self), Ask::Prepare { i: i as int, n: n as int, full }),
    {
        assert(self.desk().accs.len() == self.model@.len());
        let _count: usize = self.model.count();
        let (granted, promised) = self.model.prepare(i, n);
        let mut command = String::from_str("prepare ");
        Self::push_name(&mut command, i);
        command.append(" ");
        push_int(&mut command, n);
        let mut wants: Vec<(&'static str, Want)> = Vec::new();
        wants.push(("promised", Want::Bool(granted)));
        wants.push(("promised_n", Want::Int(promised as i128)));
        if full {
            match self.model.last_n(i) {
                Some(last) => {
                    wants.push(("last_n", Want::Int(last as i128)));
                },
                None => {
                    wants.push(("last_n", Want::Null));
                },
            }
            match self.model.last_value(i) {
                Some(value) => {
                    wants.push(("last_value", Want::Text(value)));
                },
                None => {
                    wants.push(("last_value", Want::Null));
                },
            }
        }
        proof {
            let ask = Ask::Prepare { i: i as int, n: n as int, full };
            assert(wants_of(wants@) =~= old(self).desk().wants(ask));
            assert(command@ =~= ask.command());
        }
        self.put(command, wants);
    }

    fn accept(&mut self, i: usize, n: i64, value: &str)
        requires
            i < old(self).desk().accs.len(),
        ensures
            final(self).desk() == old(self).desk().after(
                Ask::Accept { i: i as int, n: n as int, value: value@ },
            ),
            final(self).said(*old(self), Ask::Accept { i: i as int, n: n as int, value: value@ }),
    {
        let _count: usize = self.model.count();
        let (taken, promised) = self.model.accept(i, n, value);
        let mut command = String::from_str("accept ");
        Self::push_name(&mut command, i);
        command.append(" ");
        push_int(&mut command, n);
        command.append(" ");
        command.append(value);
        let mut wants: Vec<(&'static str, Want)> = Vec::new();
        wants.push(("accepted", Want::Bool(taken)));
        wants.push(("promised_n", Want::Int(promised as i128)));
        proof {
            let ask = Ask::Accept { i: i as int, n: n as int, value: value@ };
            assert(wants_of(wants@) =~= old(self).desk().wants(ask));
            assert(command@ =~= ask.command());
        }
        self.put(command, wants);
    }

    fn propose(&mut self, n: i64, own: &str)
        ensures
            final(self).desk() == old(self).desk().after(Ask::Propose { n: n as int, own: own@ }),
            final(self).said(*old(self), Ask::Propose { n: n as int, own: own@ }),
    {
        self.own = String::from_str(own);
        self.promises = Vec::new();
        let mut command = String::from_str("propose ");
        push_int(&mut command, n);
        command.append(" ");
        command.append(own);
        let mut wants: Vec<(&'static str, Want)> = Vec::new();
        wants.push(("n", Want::Int(n as i128)));
        proof {
            let ask = Ask::Propose { n: n as int, own: own@ };
            assert(self.desk().promises =~= Seq::<Option<Proposal>>::empty());
            assert(wants_of(wants@) =~= old(self).desk().wants(ask));
            assert(command@ =~= ask.command());
        }
        self.put(command, wants);
    }

    /// The acceptor at `i` hands the proposer its promise, with what it last accepted.
    fn promise(&mut self, i: usize)
        requires
            i < old(self).desk().accs.len(),
        ensures
            final(self).desk() == old(self).desk().after(
                Ask::Promise { i: i as int, report: old(self).desk().accs[i as int].last },
            ),
            final(self).said(
                *old(self),
                Ask::Promise { i: i as int, report: old(self).desk().accs[i as int].last },
            ),
    {
        let _count: usize = self.model.count();
        let last_n = self.model.last_n(i);
        let last_value = self.model.last_value(i);
        let (arg_n, arg_v) = promise_args(last_n, &last_value);
        let ghost told = report((last_n, last_value));
        self.promises.push((last_n, last_value));
        let mut command = String::from_str("promise ");
        Self::push_name(&mut command, i);
        command.append(" ");
        push_int(&mut command, arg_n);
        command.append(" ");
        command.append(arg_v.as_str());
        let running = proposer_value(self.promises.as_slice(), self.own.as_str());
        let mut wants: Vec<(&'static str, Want)> = Vec::new();
        wants.push(("promises", Want::Int(self.promises.len() as i128)));
        wants.push(("value", Want::Text(running)));
        proof {
            let ask = Ask::Promise { i: i as int, report: old(self).desk().accs[i as int].last };
            assert(told == old(self).desk().accs[i as int].last);
            assert(self.desk().promises =~= old(self).desk().promises.push(told));
            assert(wants_of(wants@) =~= old(self).desk().wants(ask));
            assert(command@ =~= ask.command());
        }
        self.put(command, wants);
    }

    /// Says whether anything is chosen.
    fn learn(&mut self, full: bool) -> (chosen: bool)
        ensures
            final(self).desk() == old(self).desk(),
            final(self).said(*old(self), Ask::Learn { full }),
            chosen == (learned(old(self).desk().accs) is Some),
    {
        let (chosen, value, count) = self.model.learn();
        proof {
            lemma_index_sets_finite(self.model@);
            assert(self.desk().agreement() == count);
        }
        let mut wants: Vec<(&'static str, Want)> = Vec::new();
        wants.push(("chosen", Want::Bool(chosen)));
        if full {
            wants.push(("count", Want::Int(count as i128)));
            match value {
                Some(v) => {
                    wants.push(("value", Want::Text(v)));
                },
                None => {
                    wants.push(("value", Want::Null));
                },
            }
        }
        proof {
            assert(wants_of(wants@) =~= old(self).desk().wants(Ask::Learn { full }));
        }
        self.put(String::from_str("learn"), wants);
        chosen
    }
}

/// A conversation that goes on by one thing is what that thing makes of it.
proof fn lemma_goes_on(was: Bench, now: Bench, start: nat, asks: Seq<Ask>, round: Seq<Ask>, a: Ask)
    requires
        was.has_asked(start, asks + round),
        now.desk() == was.desk().after(a),
        now.said(was, a),
    ensures
        now.has_asked(start, asks + round.push(a)),
        was.desk() == Desk::of(start).run(round) ==> now.desk() == Desk::of(start).run(round.push(a)),
{
    let longer = asks + round.push(a);
    assert(longer.drop_last() =~= asks + round);
    assert(longer.last() == a);
    assert(round.push(a).drop_last() =~= round);
}

/// Whether bit `i` of a number below eight is set.
pub open spec fn bit(bits: nat, i: int) -> bool {
    if i == 0 {
        bits % 2 == 1
    } else if i == 1 {
        bits / 2 % 2 == 1
    } else {
        bits / 4 % 2 == 1
    }
}

/// The acceptors below `n` whose bit is set.
pub open spec fn firsts(bits: nat, n: int) -> Seq<usize>
    decreases n,
{
    if n <= 0 {
        Seq::empty()
    } else if bit(bits, n - 1) {
        firsts(bits, n - 1).push((n - 1) as usize)
    } else {
        firsts(bits, n - 1)
    }
}

/// The acceptors whose bit is set.
fn first_acceptors(bits: usize) -> (r: Vec<usize>)
    ensures
        r@ == firsts(bits as nat, 3),
        forall|k: int| 0 <= k < r@.len() ==> #[trigger] r@[k] < 3,
{
    let mut out: Vec<usize> = Vec::new();
    proof {
        reveal_with_fuel(firsts, 4);
    }
    if bits % 2 == 1 {
        out.push(0);
    }
    if bits / 2 % 2 == 1 {
        out.push(1);
    }
    if bits / 4 % 2 == 1 {
        out.push(2);
    }
    out
}

/// The four majorities of three acceptors.
pub open spec fn majority_at(m: nat) -> Seq<usize> {
    if m == 0 {
        seq![0, 1]
    } else if m == 1 {
        seq![0, 2]
    } else if m == 2 {
        seq![1, 2]
    } else {
        seq![0, 1, 2]
    }
}

/// One of the four majorities of three acceptors.
fn majority_of_three(m: usize) -> (r: Vec<usize>)
    ensures
        r@ == majority_at(m as nat),
        forall|k: int| 0 <= k < r@.len() ==> #[trigger] r@[k] < 3,
{
    let mut out: Vec<usize> = Vec::new();
    if m != 2 {
        out.push(0);
    }
    if m != 1 {
        out.push(1);
    }
    if m != 0 {
        out.push(2);
    }
    out
}

pub open spec fn red_prepare(i: usize) -> Ask {
    Ask::Prepare { i: i as int, n: 1, full: false }
}

pub open spec fn red_accept(i: usize) -> Ask {
    Ask::Accept { i: i as int, n: 1, value: "red"@ }
}

/// Prepare and accept, acceptor by acceptor.
pub open spec fn one_by_one(first: Seq<usize>) -> Seq<Ask>
    decreases first.len(),
{
    if first.len() == 0 {
        Seq::empty()
    } else {
        one_by_one(first.drop_last()).push(red_prepare(first.last())).push(red_accept(first.last()))
    }
}

/// Proposal 1 takes `red` to the acceptors it names, either prepare and accept for each of them or
/// all the prepares and then all the accepts.
pub open spec fn round_one(first: Seq<usize>, interleaved: bool) -> Seq<Ask> {
    if interleaved {
        one_by_one(first)
    } else {
        first.map_values(|i: usize| red_prepare(i)) + first.map_values(|i: usize| red_accept(i))
    }
}

/// Every promise for proposal 2, with what the acceptor had accepted.
pub open spec fn round_two(accs: Seq<Acceptor>, majority: Seq<usize>) -> Seq<Ask>
    decreases majority.len(),
{
    if majority.len() == 0 {
        Seq::empty()
    } else {
        let i = majority.last() as int;
        round_two(accs, majority.drop_last()).push(Ask::Prepare { i, n: 2, full: false }).push(
            Ask::Promise { i, report: accs[i].last },
        )
    }
}

/// What the acceptors of a majority report.
pub open spec fn reported(accs: Seq<Acceptor>, majority: Seq<usize>) -> Seq<Option<Proposal>> {
    majority.map_values(|i: usize| accs[i as int].last)
}

/// Proposal 2 asks the same majority to accept.
pub open spec fn second_accept(i: usize, value: Seq<char>) -> Ask {
    Ask::Accept { i: i as int, n: 2, value }
}

/// The acceptors as proposal 1 leaves them.
pub open spec fn left_by_one(first: Seq<usize>, interleaved: bool) -> Seq<Acceptor> {
    Desk::of(3).run(round_one(first, interleaved)).accs
}

/// The value proposal 2 is allowed to propose, which would rather be `blue`.
pub open spec fn forced(first: Seq<usize>, majority: Seq<usize>, interleaved: bool) -> Seq<char> {
    allowed_value(reported(left_by_one(first, interleaved), majority), "blue"@)
}

/// One scenario: proposal 1 to `first`, then proposal 2 to a majority.
pub open spec fn scenario(first: Seq<usize>, majority: Seq<usize>, interleaved: bool) -> Seq<Ask> {
    let value = forced(first, majority, interleaved);
    seq![Ask::Init { count: 3 }] + round_one(first, interleaved) + seq![
        Ask::Learn { full: false },
        Ask::Propose { n: 2, own: "blue"@ },
    ] + round_two(left_by_one(first, interleaved), majority) + majority.map_values(
        |i: usize| second_accept(i, value),
    ) + seq![Ask::Learn { full: true }]
}

/// The scenario numbered `s`: who accepts first, which majority promises, and in which order.
pub open spec fn scenario_at(s: nat) -> Seq<Ask> {
    scenario(firsts(s / 8, 3), majority_at(s / 2 % 4), s % 2 == 1)
}

/// The first `n` scenarios, one after the other.
pub open spec fn scenarios(n: nat) -> Seq<Ask>
    decreases n,
{
    if n == 0 {
        Seq::empty()
    } else {
        scenarios((n - 1) as nat) + scenario_at((n - 1) as nat)
    }
}

/// In scenario `s` proposal 1 already chooses a value.
pub open spec fn settles(s: nat) -> bool {
    learned(left_by_one(firsts(s / 8, 3), s % 2 == 1)) is Some
}

/// How many of the first `n` scenarios have a value chosen by proposal 1.
pub open spec fn settled_among(n: nat) -> nat
    decreases n,
{
    if n == 0 {
        0
    } else if settles((n - 1) as nat) {
        settled_among((n - 1) as nat) + 1
    } else {
        settled_among((n - 1) as nat)
    }
}

/// Proposal 1, as one scenario has it.
fn first_round(b: &mut Bench, first: &Vec<usize>, interleaved: bool, Ghost(asks): Ghost<Seq<Ask>>)
    requires
        old(b).has_asked(3, asks),
        old(b).desk() == Desk::of(3),
        forall|k: int| 0 <= k < first@.len() ==> #[trigger] first@[k] < 3,
    ensures
        final(b).has_asked(3, asks + round_one(first@, interleaved)),
        final(b).desk() == Desk::of(3).run(round_one(first@, interleaved)),
        final(b).desk().accs.len() == 3,
{
    let ghost mut round: Seq<Ask> = Seq::empty();
    assert(asks + round =~= asks);
    let mut k: usize = 0;
    if interleaved {
        assert(first@.take(0) =~= Seq::empty());
        while k < first.len()
            invariant
                k <= first@.len(),
                forall|k: int| 0 <= k < first@.len() ==> #[trigger] first@[k] < 3,
                b.has_asked(3, asks + round),
                b.desk() == Desk::of(3).run(round),
                b.desk().accs.len() == 3,
                round == one_by_one(first@.take(k as int)),
            decreases first@.len() - k,
        {
            let i: usize = first[k];
            let ghost was = *b;
            b.prepare(i, 1, false);
            proof {
                lemma_goes_on(was, *b, 3, asks, round, red_prepare(i));
                round = round.push(red_prepare(i));
            }
            let ghost was = *b;
            b.accept(i, 1, "red");
            proof {
                lemma_goes_on(was, *b, 3, asks, round, red_accept(i));
                round = round.push(red_accept(i));
                assert(first@.take(k + 1).drop_last() =~= first@.take(k as int));
                assert(first@.take(k + 1).last() == i);
            }
            k += 1;
        }
        assert(first@.take(k as int) =~= first@);
        return;
    }
    let ghost prepares = first@.map_values(|i: usize| red_prepare(i));
    let ghost accepts = first@.map_values(|i: usize| red_accept(i));
    assert(prepares.take(0) =~= Seq::empty());
    while k < first.len()
        invariant
            k <= first@.len(),
            forall|k: int| 0 <= k < first@.len() ==> #[trigger] first@[k] < 3,
            prepares == first@.map_values(|i: usize| red_prepare(i)),
            b.has_asked(3, asks + round),
            b.desk() == Desk::of(3).run(round),
            b.desk().accs.len() == 3,
            round == prepares.take(k as int),
        decreases first@.len() - k,
    {
        let i: usize = first[k];
        let ghost was = *b;
        b.prepare(i, 1, false);
        proof {
            lemma_goes_on(was, *b, 3, asks, round, red_prepare(i));
            round = round.push(red_prepare(i));
            assert(round =~= prepares.take(k + 1));
        }
        k += 1;
    }
    k = 0;
    assert(round =~= prepares + accepts.take(0));
    while k < first.len()
        invariant
            k <= first@.len(),
            forall|k: int| 0 <= k < first@.len() ==> #[trigger] first@[k] < 3,
            accepts == first@.map_values(|i: usize| red_accept(i)),
            b.has_asked(3, asks + round),
            b.desk() == Desk::of(3).run(round),
            b.desk().accs.len() == 3,
            round == prepares + accepts.take(k as int),
        decreases first@.len() - k,
    {
        let i: usize = first[k];
        let ghost was = *b;
        b.accept(i, 1, "red");
        proof {
            lemma_goes_on(was, *b, 3, asks, round, red_accept(i));
            round = round.push(red_accept(i));
            assert(round =~= prepares + accepts.take(k + 1));
        }
        k += 1;
    }
    assert(accepts.take(k as int) =~= accepts);
    assert(round =~= round_one(first@, interleaved));
}

/// The promises for proposal 2, as one scenario has them.
fn second_promises(b: &mut Bench, majority: &Vec<usize>, Ghost(asks): Ghost<Seq<Ask>>)
    requires
        old(b).has_asked(3, asks),
        old(b).desk().accs.len() == 3,
        old(b).desk().promises.len() == 0,
        majority@.len() <= 3,
        forall|k: int| 0 <= k < majority@.len() ==> #[trigger] majority@[k] < 3,
    ensures
        final(b).has_asked(3, asks + round_two(old(b).desk().accs, majority@)),
        final(b).desk().accs.len() == 3,
        final(b).desk().own == old(b).desk().own,
        final(b).desk().promises == reported(old(b).desk().accs, majority@),
{
    let ghost accs = b.desk().accs;
    let ghost own = b.desk().own;
    let ghost mut round: Seq<Ask> = Seq::empty();
    assert(asks + round =~= asks);
    assert(majority@.take(0) =~= Seq::empty());
    assert(b.desk().promises =~= reported(accs, majority@.take(0)));
    let mut k: usize = 0;
    while k < majority.len()
        invariant
            k <= majority@.len() <= 3,
            forall|k: int| 0 <= k < majority@.len() ==> #[trigger] majority@[k] < 3,
            b.has_asked(3, asks + round),
            b.desk().accs.len() == 3,
            accs.len() == 3,
            b.desk().own == own,
            forall|j: int| 0 <= j < 3 ==> (#[trigger] b.desk().accs[j]).last == accs[j].last,
            b.desk().promises == reported(accs, majority@.take(k as int)),
            round == round_two(accs, majority@.take(k as int)),
        decreases majority@.len() - k,
    {
        let i: usize = majority[k];
        let ghost ask = Ask::Prepare { i: i as int, n: 2, full: false };
        let ghost was = *b;
        b.prepare(i, 2, false);
        proof {
            lemma_goes_on(was, *b, 3, asks, round, ask);
            round = round.push(ask);
            assert forall|j: int| 0 <= j < 3 implies (#[trigger] b.desk().accs[j]).last
                == accs[j].last by {
                assert(was.desk().accs[j].last == accs[j].last);
            }
            assert(b.desk().accs[i as int].last == accs[i as int].last);
        }
        let ghost ask = Ask::Promise { i: i as int, report: accs[i as int].last };
        let ghost was = *b;
        b.promise(i);
        proof {
            lemma_goes_on(was, *b, 3, asks, round, ask);
            round = round.push(ask);
            assert(majority@.take(k + 1).drop_last() =~= majority@.take(k as int));
            assert(majority@.take(k + 1).last() == i);
            assert(b.desk().promises =~= reported(accs, majority@.take(k + 1)));
        }
        k += 1;
    }
    assert(majority@.take(k as int) =~= majority@);
}

/// The accepts of proposal 2, as one scenario has them.
fn second_accepts(b: &mut Bench, majority: &Vec<usize>, value: &str, Ghost(asks): Ghost<Seq<Ask>>)
    requires
        old(b).has_asked(3, asks),
        old(b).desk().accs.len() == 3,
        forall|k: int| 0 <= k < majority@.len() ==> #[trigger] majority@[k] < 3,
    ensures
        final(b).has_asked(3, asks + majority@.map_values(|i: usize| second_accept(i, value@))),
        final(b).desk().accs.len() == 3,
{
    let ghost accepts = majority@.map_values(|i: usize| second_accept(i, value@));
    let ghost mut round: Seq<Ask> = Seq::empty();
    assert(asks + round =~= asks);
    assert(accepts.take(0) =~= Seq::empty());
    let mut k: usize = 0;
    while k < majority.len()
        invariant
            k <= majority@.len(),
            forall|k: int| 0 <= k < majority@.len() ==> #[trigger] majority@[k] < 3,
            accepts == majority@.map_values(|i: usize| second_accept(i, value@)),
            b.has_asked(3, asks + round),
            b.desk().accs.len() == 3,
            round == accepts.take(k as int),
        decreases majority@.len() - k,
    {
        let i: usize = majority[k];
        let ghost was = *b;
        b.accept(i, 2, value);
        proof {
            lemma_goes_on(was, *b, 3, asks, round, second_accept(i, value@));
            round = round.push(second_accept(i, value@));
            assert(round =~= accepts.take(k + 1));
        }
        k += 1;
    }
    assert(accepts.take(k as int) =~= accepts);
}

/// One scenario, and whether proposal 1 chose a value in it.
fn play(
    b: &mut Bench,
    first: &Vec<usize>,
    majority: &Vec<usize>,
    interleaved: bool,
    Ghost(asks): Ghost<Seq<Ask>>,
) -> (settled: bool)
    requires
        old(b).has_asked(3, asks),
        majority@.len() <= 3,
        forall|k: int| 0 <= k < first@.len() ==> #[trigger] first@[k] < 3,
        forall|k: int| 0 <= k < majority@.len() ==> #[trigger] majority@[k] < 3,
    ensures
        final(b).has_asked(3, asks + scenario(first@, majority@, interleaved)),
        settled == (learned(left_by_one(first@, interleaved)) is Some),
{
    let ghost ask = Ask::Init { count: 3 };
    let ghost was = *b;
    assert(asks + Seq::<Ask>::empty() =~= asks);
    b.init(3);
    let ghost so_far = asks + seq![ask];
    proof {
        lemma_goes_on(was, *b, 3, asks, Seq::empty(), ask);
        assert(asks + Seq::<Ask>::empty().push(ask) =~= so_far);
    }
    first_round(b, first, interleaved, Ghost(so_far));
    let ghost so_far = so_far + round_one(first@, interleaved);
    let ghost accs = left_by_one(first@, interleaved);
    let ghost ask = Ask::Learn { full: false };
    let ghost was = *b;
    assert(so_far + Seq::<Ask>::empty() =~= so_far);
    let settled = b.learn(false);
    proof {
        lemma_goes_on(was, *b, 3, so_far, Seq::empty(), ask);
    }
    let ghost was = *b;
    b.propose(2, "blue");
    let ghost opening = seq![ask, Ask::Propose { n: 2, own: "blue"@ }];
    proof {
        lemma_goes_on(
            was,
            *b,
            3,
            so_far,
            Seq::<Ask>::empty().push(ask),
            Ask::Propose { n: 2, own: "blue"@ },
        );
        assert(so_far + Seq::<Ask>::empty().push(ask).push(Ask::Propose { n: 2, own: "blue"@ })
            =~= so_far + opening);
    }
    let ghost so_far = so_far + opening;
    second_promises(b, majority, Ghost(so_far));
    let ghost so_far = so_far + round_two(accs, majority@);
    let value = proposer_value(b.promises.as_slice(), b.own.as_str());
    assert(value@ == forced(first@, majority@, interleaved));
    second_accepts(b, majority, value.as_str(), Ghost(so_far));
    let ghost so_far = so_far + majority@.map_values(|i: usize| second_accept(i, value@));
    let ghost ask = Ask::Learn { full: true };
    let ghost was = *b;
    assert(so_far + Seq::<Ask>::empty() =~= so_far);
    b.learn(true);
    proof {
        lemma_goes_on(was, *b, 3, so_far, Seq::empty(), ask);
        assert(so_far + Seq::<Ask>::empty().push(ask) =~= asks + scenario(
            first@,
            majority@,
            interleaved,
        ));
    }
    settled
}

/// Every combination of who accepted first, who promised second and in which order: the whole
/// conversation, and in how many scenarios a value was already chosen by proposal 1.
pub fn every_scenario() -> (r: (Vec<Step>, usize))
    ensures
        asked(r.0@) == Desk::of(3).answered(scenarios(64)),
        r.1 == settled_among(64),
{
    let mut b = Bench::new(3);
    let mut settled: usize = 0;
    let mut s: usize = 0;
    while s < 64
        invariant
            s <= 64,
            b.has_asked(3, scenarios(s as nat)),
            settled == settled_among(s as nat),
            settled <= s,
        decreases 64 - s,
    {
        let first = first_acceptors(s / 8);
        let majority = majority_of_three(s / 2 % 4);
        if play(&mut b, &first, &majority, s % 2 == 1, Ghost(scenarios(s as nat))) {
            settled += 1;
        }
        s += 1;
    }
    (b.steps, settled)
}

/// The note that the sweep starts with.
pub open spec fn sweep_said(settled: nat, commands: nat) -> Seq<char> {
    "64 scenarios, "@ + nat_text(settled) + " of them with a value already chosen, "@ + nat_text(commands)
        + " commands"@
}

/// Holds the answers to the sweep that have come so far against it.
pub fn judge_sweep(steps: &Vec<Step>, settled: usize, answers: &Vec<Json>) -> (r: Result<Check, Misshapen>)
    requires
        answers@.len() <= steps@.len(),
    ensures
        run_judged(
            r,
            "every combination of who accepted first and who promised second"@,
            sweep_said(settled as nat, steps@.len()),
            steps@,
            answers@,
        ),
{
    let note = sweep_note(settled, steps.len());
    judge_steps(
        "every combination of who accepted first and who promised second",
        note.as_str(),
        steps,
        answers,
    )
}

/// Holds the answers to a seeded run that have come so far against it.
pub fn judge_run(seed: u64, steps: &Vec<Step>, answers: &Vec<Json>) -> (r: Result<Check, Misshapen>)
    requires
        answers@.len() <= steps@.len(),
    ensures
        run_judged(
            r,
            "sixty seeded acceptor events replayed against the tester's rules"@,
            seed_note(seed as nat, steps@.len(), "commands"@),
            steps@,
            answers@,
        ),
{
    let note = note_seed(seed, steps.len(), "commands");
    judge_steps(
        "sixty seeded acceptor events replayed against the tester's rules",
        note.as_str(),
        steps,
        answers,
    )
}

/// The note that the sweep starts with.
fn sweep_note(settled: usize, commands: usize) -> (s: String)
    ensures
        s@ == sweep_said(settled as nat, commands as nat),
{
    let mut s = String::from_str("64 scenarios, ");
    push_nat(&mut s, settled as u64);
    s.append(" of them with a value already chosen, ");
    push_nat(&mut s, commands as u64);
    s.append(" commands");
    s
}

/// The values a seeded run proposes.
pub const VALUES: [&'static str; 3] = ["red", "blue", "green"];

/// Whether a seeded run may draw this.
pub open spec fn drawable(a: Ask) -> bool {
    match a {
        Ask::Prepare { i, n, full } => 0 <= i < 5 && 1 <= n <= 8 && full,
        Ask::Accept { i, n, value } => 0 <= i < 5 && 1 <= n <= 8 && exists|k: int|
            0 <= k < 3 && value == #[trigger] VALUES[k]@,
        _ => false,
    }
}

/// Sixty things drawn, and what the answers have to carry; a learner is asked at the end.
pub open spec fn follows_the_rules(steps: Seq<Asked>) -> bool {
    exists|drawn: Seq<Ask>|
        drawn.len() == 60 && (forall|k: int| 0 <= k < 60 ==> drawable(#[trigger] drawn[k])) && steps
            == #[trigger] Desk::of(5).answered(drawn.push(Ask::Learn { full: true }))
}

/// Sixty seeded prepares and accepts over five acceptors, each with what the answer has to carry.
pub fn plan(rng: &mut StdRng) -> (steps: Vec<Step>)
    ensures
        steps@.len() == 61,
        follows_the_rules(asked(steps@)),
{
    let values = VALUES;
    let mut b = Bench::new(5);
    let ghost mut drawn: Seq<Ask> = Seq::empty();
    assert(Seq::<Ask>::empty() + drawn =~= drawn);
    let mut k: usize = 0;
    while k < 60
        invariant
            k <= 60,
            values@ == VALUES@,
            drawn.len() == k,
            b.desk().accs.len() == 5,
            b.has_asked(5, Seq::<Ask>::empty() + drawn),
            forall|j: int| 0 <= j < k ==> drawable(#[trigger] drawn[j]),
        decreases 60 - k,
    {
        let i: usize = draw_usize(rng, 0, 5);
        let n: i64 = draw_i64(rng, 1, 9);
        let ghost was = b;
        if draw_ratio(rng, 1, 2) {
            b.prepare(i, n, true);
            proof {
                let ask = Ask::Prepare { i: i as int, n: n as int, full: true };
                lemma_goes_on(was, b, 5, Seq::empty(), drawn, ask);
                drawn = drawn.push(ask);
            }
        } else {
            let pick: usize = draw_usize(rng, 0, 3);
            let value = values[pick];
            b.accept(i, n, value);
            proof {
                let ask = Ask::Accept { i: i as int, n: n as int, value: value@ };
                assert(value@ == VALUES[pick as int]@);
                lemma_goes_on(was, b, 5, Seq::empty(), drawn, ask);
                drawn = drawn.push(ask);
            }
        }
        k += 1;
    }
    let ghost was = b;
    b.learn(true);
    proof {
        let ask = Ask::Learn { full: true };
        lemma_goes_on(was, b, 5, Seq::empty(), drawn, ask);
        assert(Seq::<Ask>::empty() + drawn.push(ask) =~= drawn.push(ask));
        lemma_answered_len(Desk::of(5), drawn.push(ask));
        assert(asked(b.steps@).len() == b.steps@.len());
    }
    b.steps
}

proof fn lemma_answered_len(d: Desk, asks: Seq<Ask>)
    ensures
        d.answered(asks).len() == asks.len(),
    decreases asks.len(),
{
    if asks.len() > 0 {
        lemma_answered_len(d, asks.drop_last());
    }
}

/// Whatever proposal 1 leaves behind is nothing, or its own `red`.
proof fn lemma_round_one_is_red(asks: Seq<Ask>)
    requires
        forall|k: int| 0 <= k < asks.len() ==> exists|i: usize|
            i < 3 && (#[trigger] asks[k] == red_prepare(i) || asks[k] == red_accept(i)),
    ensures
        Desk::of(3).run(asks).accs.len() == 3,
        forall|j: int|
            0 <= j < 3 ==> (#[trigger] Desk::of(3).run(asks).accs[j]).last is None
                || Desk::of(3).run(asks).accs[j].last == Some(Proposal { n: 1, value: "red"@ }),
    decreases asks.len(),
{
    if asks.len() > 0 {
        let front = asks.drop_last();
        assert forall|k: int| 0 <= k < front.len() implies exists|i: usize|
            i < 3 && (#[trigger] front[k] == red_prepare(i) || front[k] == red_accept(i)) by {
            assert(front[k] == asks[k]);
        }
        lemma_round_one_is_red(front);
        let was = Desk::of(3).run(front);
        assert(asks[asks.len() - 1] == asks.last());
        let i = choose|i: usize|
            i < 3 && (asks.last() == red_prepare(i) || asks.last() == red_accept(i));
        assert forall|j: int| 0 <= j < 3 implies (#[trigger] Desk::of(3).run(asks).accs[j]).last is None
            || Desk::of(3).run(asks).accs[j].last == Some(Proposal { n: 1, value: "red"@ }) by {
            assert(was.accs[j].last is None || was.accs[j].last == Some(
                Proposal { n: 1, value: "red"@ },
            ));
        }
    }
}

proof fn lemma_round_one_asks(first: Seq<usize>, interleaved: bool)
    requires
        forall|k: int| 0 <= k < first.len() ==> #[trigger] first[k] < 3,
    ensures
        forall|k: int| 0 <= k < round_one(first, interleaved).len() ==> exists|i: usize|
            i < 3 && (#[trigger] round_one(first, interleaved)[k] == red_prepare(i) || round_one(
                first,
                interleaved,
            )[k] == red_accept(i)),
    decreases first.len(),
{
    let all = round_one(first, interleaved);
    if interleaved {
        if first.len() > 0 {
            let front = first.drop_last();
            lemma_round_one_asks(front, true);
            assert(first[first.len() - 1] < 3);
            assert forall|k: int| 0 <= k < all.len() implies exists|i: usize|
                i < 3 && (#[trigger] all[k] == red_prepare(i) || all[k] == red_accept(i)) by {
                let before = round_one(front, true);
                if k < before.len() {
                    assert(all[k] == before[k]);
                } else {
                    assert(all[k] == red_prepare(first.last()) || all[k] == red_accept(first.last()));
                }
            }
        }
    } else {
        assert forall|k: int| 0 <= k < all.len() implies exists|i: usize|
            i < 3 && (#[trigger] all[k] == red_prepare(i) || all[k] == red_accept(i)) by {
            let i = if k < first.len() {
                first[k]
            } else {
                first[k - first.len()]
            };
            assert(all[k] == red_prepare(i) || all[k] == red_accept(i));
        }
    }
}

/// Any two of three acceptors overlap, so a value that proposal 1 chose is visible to whichever
/// majority promises proposal 2: in each of the 64 scenarios proposal 2 then proposes that value.
pub proof fn settled_value_binds_the_next_proposal(s: nat)
    requires
        s < 64,
        settles(s),
    ensures
        learned(left_by_one(firsts(s / 8, 3), s % 2 == 1)) == Some(
            forced(firsts(s / 8, 3), majority_at(s / 2 % 4), s % 2 == 1),
        ),
{
    let first = firsts(s / 8, 3);
    let interleaved = s % 2 == 1;
    let majority = majority_at(s / 2 % 4);
    assert forall|k: int| 0 <= k < first.len() implies #[trigger] first[k] < 3 by {
        reveal_with_fuel(firsts, 4);
    }
    lemma_round_one_asks(first, interleaved);
    lemma_round_one_is_red(round_one(first, interleaved));
    let accs = left_by_one(first, interleaved);
    let red = Proposal { n: 1, value: "red"@ };
    let d = choose|i: int| decides(accs, i);
    assert(accs[d].last == Some(red));
    assert(learned(accs) == Some("red"@));
    assert(backed(accs, 1));
    let pair = reported(accs, majority);
    proposer_follows_the_highest_report(pair);
    assert(exists|k: int| 0 <= k < pair.len() && #[trigger] pair[k] == Some(red)) by {
        lemma_two_of_three_overlap(accs, majority);
    }
    let k = choose|k: int| 0 <= k < pair.len() && #[trigger] pair[k] == Some(red);
    assert(pair[k] is Some);
    assert(pair.contains(highest(pair)));
    let m = choose|m: int| 0 <= m < pair.len() && pair[m] == highest(pair);
    assert(pair[m] == accs[majority[m] as int].last);
    assert(accs[majority[m] as int].last == Some(red));
}

proof fn lemma_two_of_three_overlap(accs: Seq<Acceptor>, majority: Seq<usize>)
    requires
        accs.len() == 3,
        backed(accs, 1),
        exists|m: nat| majority == #[trigger] majority_at(m),
        forall|j: int|
            0 <= j < 3 ==> (#[trigger] accs[j]).last is None || accs[j].last == Some(
                Proposal { n: 1, value: "red"@ },
            ),
    ensures
        exists|k: int|
            0 <= k < reported(accs, majority).len() && #[trigger] reported(accs, majority)[k] == Some(
                Proposal { n: 1, value: "red"@ },
            ),
{
    let pair = reported(accs, majority);
    let all = vstd::set_lib::set_int_range(0, 3);
    vstd::set_lib::lemma_int_range(0, 3);
    let backers = set![majority[0] as int, majority[1] as int];
    assert(backers.len() == 2);
    assert(holders(accs, 1).subset_of(all));
    assert(backers.subset_of(all));
    majorities_meet(all, holders(accs, 1), backers);
    let i = choose|i: int| #[trigger] holders(accs, 1).contains(i) && backers.contains(i);
    assert(accs[i].last is Some);
    if i == majority[0] {
        assert(pair[0] == accs[i].last);
    } else {
        assert(pair[1] == accs[i].last);
    }
}

/// An acceptor promises a number exactly where it is above every number it has promised, and a promise
/// changes nothing of what it has accepted.
pub proof fn promise_needs_a_higher_number(a: Acceptor, n: int)
    ensures
        n > a.promised ==> a.prepared(n).promised == n,
        n <= a.promised ==> a.prepared(n).promised == a.promised,
        a.prepared(n).last == a.last,
        Acceptor::fresh().promised == 0,
        Acceptor::fresh().last is None,
{
}

/// An acceptor accepts a proposal exactly where it has promised no higher number; it then holds that
/// proposal, whatever it held before, and has promised its number.
pub proof fn acceptance_needs_no_higher_promise(a: Acceptor, p: Proposal)
    ensures
        p.n >= a.promised ==> a.accepted(p).last == Some(p) && a.accepted(p).promised == p.n,
        p.n < a.promised ==> a.accepted(p).last == a.last && a.accepted(p).promised == a.promised,
{
}

/// A value is learned exactly where more than half of the acceptors hold proposals of one number, and it is
/// the value that the first of them holds.
pub proof fn value_is_learned_from_a_majority_of_one_number(accs: Seq<Acceptor>, n: int, who: Set<int>, i: int)
    requires
        forall|k: int| #[trigger]
            who.contains(k) <==> 0 <= k < accs.len() && (accs[k].last matches Some(p) && p.n == n),
    ensures
        2 * who.len() > accs.len() ==> learned(accs) is Some,
        2 * who.len() > accs.len() && who.contains(i) && (forall|k: int| 0 <= k < i ==> !#[trigger] who.contains(k))
            ==> learned(accs) == Some(accs[i].last->0.value),
{
    lemma_index_sets_finite(accs);
    assert(holders(accs, n) =~= who);
    if 2 * who.len() > accs.len() {
        assert(backed(accs, n));
        let first = lemma_first_holder(accs, n, 0);
        assert(decides(accs, first)) by {
            assert forall|m: int| #[trigger] backed(accs, m) implies m <= accs[first].last->0.n by {
                one_number_is_backed(accs, m, n);
            }
        }
        lemma_decider_is_unique(accs, first);
        if who.contains(i) && (forall|k: int| 0 <= k < i ==> !#[trigger] who.contains(k)) {
            assert(first == i) by {
                assert(who.contains(first));
                if i < first {
                    assert(accs[i].last is Some && accs[i].last->0.n == n);
                }
            }
        }
    }
}

/// The first acceptor from `from` on that holds the number, where one does and none before `from`.
proof fn lemma_first_holder(accs: Seq<Acceptor>, n: int, from: int) -> (first: int)
    requires
        backed(accs, n),
        0 <= from <= accs.len(),
        forall|k: int| 0 <= k < from ==> !(#[trigger] accs[k].last is Some && accs[k].last->0.n == n),
    ensures
        from <= first < accs.len(),
        accs[first].last is Some,
        accs[first].last->0.n == n,
        forall|k: int| 0 <= k < first ==> !(#[trigger] accs[k].last is Some && accs[k].last->0.n == n),
    decreases accs.len() - from,
{
    lemma_backed_is_held(accs, n);
    if from == accs.len() {
        assert(holders(accs, n) =~= Set::empty());
        assert(false);
        from
    } else if accs[from].last is Some && accs[from].last->0.n == n {
        from
    } else {
        lemma_first_holder(accs, n, from + 1)
    }
}

/// A value that is learned is backed: more than half of the acceptors hold proposals of one number, and one
/// of them holds that value.
pub proof fn learned_value_is_held_by_a_majority(accs: Seq<Acceptor>, value: Seq<char>)
    requires
        learned(accs) == Some(value),
    ensures
        exists|i: int|
            0 <= i < accs.len() && (#[trigger] accs[i]).last is Some && accs[i].last->0.value == value && 2 * holders(
                accs,
                accs[i].last->0.n,
            ).len() > accs.len(),
{
    let i = choose|i: int| decides(accs, i);
    assert(accs[i].last is Some);
}

/// Those that hold a number, and those that agree on a value, are the acceptors whose last accepted proposal
/// has it.
pub proof fn holders_go_by_the_last_proposal(accs: Seq<Acceptor>, n: int, value: Seq<char>, i: int)
    ensures
        holders(accs, n).contains(i) <==> 0 <= i < accs.len() && (accs[i].last matches Some(p) && p.n == n),
        agreeing(accs, value).contains(i) <==> 0 <= i < accs.len() && (accs[i].last matches Some(p) && p.value
            == value),
        backed(accs, n) <==> 2 * holders(accs, n).len() > accs.len(),
{
}

/// Of the reports a proposer heard, the first with the highest number decides what it proposes; where nobody
/// reported anything it proposes its own.
pub proof fn first_highest_report_decides(reports: Seq<Option<Proposal>>, own: Seq<char>, k: int)
    ensures
        (forall|i: int| 0 <= i < reports.len() ==> (#[trigger] reports[i]) is None) ==> allowed_value(reports, own)
            == own,
        0 <= k < reports.len() && reports[k] is Some && (forall|i: int|
            0 <= i < reports.len() && (#[trigger] reports[i]) is Some ==> reports[i]->0.n <= reports[k]->0.n && (
            i < k ==> reports[i]->0.n < reports[k]->0.n)) ==> allowed_value(reports, own) == reports[k]->0.value
            && highest(reports) == reports[k],
    decreases reports.len(),
{
    proposer_follows_the_highest_report(reports);
    if 0 <= k < reports.len() && reports[k] is Some && (forall|i: int|
        0 <= i < reports.len() && (#[trigger] reports[i]) is Some ==> reports[i]->0.n <= reports[k]->0.n && (i < k
            ==> reports[i]->0.n < reports[k]->0.n)) {
        let front = reports.drop_last();
        proposer_follows_the_highest_report(front);
        if k < reports.len() - 1 {
            assert forall|i: int| 0 <= i < front.len() && (#[trigger] front[i]) is Some implies front[i]->0.n
                <= front[k]->0.n && (i < k ==> front[i]->0.n < front[k]->0.n) by {
                assert(reports[i] == front[i]);
            }
            first_highest_report_decides(front, own, k);
            assert(reports[reports.len() - 1] == reports.last());
        } else {
            if highest(front) is Some {
                let m = choose|m: int| 0 <= m < front.len() && front[m] == highest(front);
                assert(reports[m] == front[m]);
            }
        }
    }
}

/// What an answer reports is a proposal where it has both a number and a value, and nothing otherwise.
pub proof fn report_has_a_number_and_a_value(n: Option<i64>, v: Option<String>)
    ensures
        report((n, v)) is Some <==> n is Some && v is Some,
        report((n, v)) matches Some(p) ==> p.n == n->0 && p.value == v->0@,
{
}

/// A desk starts with so many acceptors that have promised and accepted nothing.
pub proof fn desk_starts_with_nothing(count: nat, i: int)
    ensures
        Desk::of(count).accs.len() == count,
        0 <= i < count ==> Desk::of(count).accs[i].promised == 0 && Desk::of(count).accs[i].last is None,
        Desk::of(count).promises.len() == 0,
{
}

/// Every ask reaches the acceptor it names and no other; a proposal starts with no promises, and a promise
/// adds its report to those the proposer holds.
pub proof fn asks_reach_whom_they_name(
    d: Desk,
    i: int,
    n: int,
    text: Seq<char>,
    full: bool,
    said: Option<Proposal>,
    other: int,
    count: nat,
)
    requires
        0 <= i < d.accs.len(),
    ensures
        d.after((Ask::Prepare { i, n, full })).accs[i] == d.accs[i].prepared(n),
        other != i && 0 <= other < d.accs.len() ==> d.after((Ask::Prepare { i, n, full })).accs[other] == d.accs[other],
        d.after((Ask::Prepare { i, n, full })).promises == d.promises,
        d.after((Ask::Prepare { i, n, full })).own == d.own,
        d.after((Ask::Accept { i, n, value: text })).accs[i] == d.accs[i].accepted((Proposal { n, value: text })),
        other != i && 0 <= other < d.accs.len() ==> d.after((Ask::Accept { i, n, value: text })).accs[other]
            == d.accs[other],
        d.after((Ask::Accept { i, n, value: text })).promises == d.promises,
        d.after((Ask::Accept { i, n, value: text })).own == d.own,
        d.after((Ask::Propose { n, own: text })).own == text,
        d.after((Ask::Propose { n, own: text })).promises.len() == 0,
        d.after((Ask::Propose { n, own: text })).accs == d.accs,
        d.after((Ask::Promise { i, report: said })).promises == d.promises.push(said),
        d.after((Ask::Promise { i, report: said })).accs == d.accs,
        d.after((Ask::Promise { i, report: said })).own == d.own,
        d.after((Ask::Learn { full })) == d,
        d.after((Ask::Init { count })) == Desk::of(count),
{
}

/// What the answers have to carry: a prepare whether the number was above the promise, and the promise then;
/// an accept whether it was no lower; a promise what the proposer may propose then; a learner what is chosen
/// and how many agree on it.
pub proof fn answers_tell_what_was_decided(
    d: Desk,
    i: int,
    n: int,
    text: Seq<char>,
    said: Option<Proposal>,
    count: nat,
)
    requires
        0 <= i < d.accs.len(),
    ensures
        d.wants((Ask::Init { count })) == seq![("majority"@, Wanted::Int(count as int / 2 + 1))],
        d.wants((Ask::Prepare { i, n, full: false })) == seq![
            ("promised"@, Wanted::Bool(n > d.accs[i].promised)),
            (
                "promised_n"@,
                Wanted::Int(
                    if n > d.accs[i].promised {
                        n
                    } else {
                        d.accs[i].promised
                    },
                ),
            ),
        ],
        d.wants((Ask::Prepare { i, n, full: true })).take(2) == d.wants((Ask::Prepare { i, n, full: false })),
        d.accs[i].last matches Some(p) ==> d.wants((Ask::Prepare { i, n, full: true })).skip(2) == seq![
            ("last_n"@, Wanted::Int(p.n)),
            ("last_value"@, Wanted::Text(p.value)),
        ],
        d.accs[i].last is None ==> d.wants((Ask::Prepare { i, n, full: true })).skip(2) == seq![
            ("last_n"@, Wanted::Null),
            ("last_value"@, Wanted::Null),
        ],
        d.wants((Ask::Accept { i, n, value: text })) == seq![
            ("accepted"@, Wanted::Bool(n >= d.accs[i].promised)),
            (
                "promised_n"@,
                Wanted::Int(
                    if n >= d.accs[i].promised {
                        n
                    } else {
                        d.accs[i].promised
                    },
                ),
            ),
        ],
        d.wants((Ask::Propose { n, own: text })) == seq![("n"@, Wanted::Int(n))],
        d.wants((Ask::Promise { i, report: said })) == seq![
            ("promises"@, Wanted::Int(d.promises.len() + 1int)),
            ("value"@, Wanted::Text(allowed_value(d.promises.push(said), d.own))),
        ],
        d.wants((Ask::Learn { full: false })) == seq![("chosen"@, Wanted::Bool(learned(d.accs) is Some))],
        learned(d.accs) matches Some(v) ==> d.wants((Ask::Learn { full: true })) == seq![
            ("chosen"@, Wanted::Bool(true)),
            ("count"@, Wanted::Int(agreeing(d.accs, v).len() as int)),
            ("value"@, Wanted::Text(v)),
        ],
        learned(d.accs) is None ==> d.wants((Ask::Learn { full: true })) == seq![
            ("chosen"@, Wanted::Bool(false)),
            ("count"@, Wanted::Int(0)),
            ("value"@, Wanted::Null),
        ],
{
    let p = d.wants((Ask::Prepare { i, n, full: false }));
    let q = d.wants((Ask::Prepare { i, n, full: true }));
    assert(q.take(2) =~= p);
    match d.accs[i].last {
        Some(l) => {
            assert(q.skip(2) =~= seq![("last_n"@, Wanted::Int(l.n)), ("last_value"@, Wanted::Text(l.value))]);
        },
        None => {
            assert(q.skip(2) =~= seq![("last_n"@, Wanted::Null), ("last_value"@, Wanted::Null)]);
        },
    }
}

/// Every ask of a conversation is answered by the acceptors as the asks before it have left them.
pub proof fn every_answer_is_of_its_moment(d: Desk, asks: Seq<Ask>, k: int)
    requires
        0 <= k < asks.len(),
    ensures
        d.answered(asks).len() == asks.len(),
        d.answered(asks)[k].command == asks[k].command(),
        d.answered(asks)[k].wants == d.run(asks.take(k)).wants(asks[k]),
    decreases asks.len(),
{
    let front = asks.drop_last();
    lemma_answered_len(d, asks);
    lemma_answered_len(d, front);
    if k < front.len() {
        every_answer_is_of_its_moment(d, front, k);
        assert(front.take(k) =~= asks.take(k));
    } else {
        assert(asks.take(k) =~= front);
    }
}

/// A run is made one ask after the other.
pub proof fn asks_happen_one_after_the_other(d: Desk, asks: Seq<Ask>, a: Ask)
    ensures
        d.run(Seq::empty()) == d,
        d.run(asks.push(a)) == d.run(asks).after(a),
{
    assert(asks.push(a).drop_last() =~= asks);
}

/// The command of an ask names it, the acceptor it is for, and its numbers and values; a promise that reports
/// nothing says so with a number below every other and a dash.
pub proof fn commands_name_their_ask(i: int, n: int, text: Seq<char>, count: nat, full: bool)
    requires
        i >= 0,
    ensures
        (Ask::Init { count }).command() == "init "@ + nat_text(count),
        (Ask::Prepare { i, n, full }).command() == "prepare a"@ + nat_text((i + 1) as nat) + " "@ + int_text(n),
        (Ask::Accept { i, n, value: text }).command() == "accept a"@ + nat_text((i + 1) as nat) + " "@ + int_text(
            n,
        ) + " "@ + text,
        (Ask::Propose { n, own: text }).command() == "propose "@ + int_text(n) + " "@ + text,
        (Ask::Promise { i, report: Some((Proposal { n, value: text })) }).command() == "promise a"@ + nat_text(
            (i + 1) as nat,
        ) + " "@ + int_text(n) + " "@ + text,
        (Ask::Promise { i, report: None }).command() == "promise a"@ + nat_text((i + 1) as nat) + " -1 -"@,
        (Ask::Learn { full }).command() == "learn"@,
{
    reveal_strlit("prepare ");
    reveal_strlit("accept ");
    reveal_strlit("promise ");
    reveal_strlit("a");
    reveal_strlit("prepare a");
    reveal_strlit("accept a");
    reveal_strlit("promise a");
    reveal_strlit(" -1 -");
    reveal_strlit(" ");
    reveal_strlit("-");
    assert((Ask::Prepare { i, n, full }).command() =~= "prepare a"@ + nat_text((i + 1) as nat) + " "@ + int_text(
        n,
    ));
    assert((Ask::Accept { i, n, value: text }).command() =~= "accept a"@ + nat_text((i + 1) as nat) + " "@
        + int_text(n) + " "@ + text);
    let p = Ask::Promise { i, report: Some((Proposal { n, value: text })) };
    assert(p.command() =~= "promise a"@ + nat_text((i + 1) as nat) + " "@ + int_text(n) + " "@ + text);
    let q = (Ask::Promise { i, report: None });
    assert(int_text(-1) =~= seq!['-', crate::text::digit(1)]);
    assert(q.command() =~= "promise a"@ + nat_text((i + 1) as nat) + " -1 -"@);
}

/// Proposal 1 reached those that were asked to accept it, and nobody else.
proof fn lemma_round_one_state(asks: Seq<Ask>, j: int)
    requires
        forall|k: int| 0 <= k < asks.len() ==> exists|i: usize|
            i < 3 && (#[trigger] asks[k] == red_prepare(i) || asks[k] == red_accept(i)),
        0 <= j < 3,
    ensures
        Desk::of(3).run(asks).accs.len() == 3,
        asks.contains(red_accept(j as usize)) ==> Desk::of(3).run(asks).accs[j].last == Some(
            (Proposal { n: 1, value: "red"@ }),
        ),
        !asks.contains(red_accept(j as usize)) ==> Desk::of(3).run(asks).accs[j].last is None,
        asks.contains(red_prepare(j as usize)) || asks.contains(red_accept(j as usize)) ==> Desk::of(3).run(
            asks,
        ).accs[j].promised == 1,
        !asks.contains(red_prepare(j as usize)) && !asks.contains(red_accept(j as usize)) ==> Desk::of(3).run(
            asks,
        ).accs[j].promised == 0,
    decreases asks.len(),
{
    if asks.len() > 0 {
        let front = asks.drop_last();
        assert forall|k: int| 0 <= k < front.len() implies exists|i: usize|
            i < 3 && (#[trigger] front[k] == red_prepare(i) || front[k] == red_accept(i)) by {
            assert(front[k] == asks[k]);
        }
        lemma_round_one_state(front, j);
        assert(front.push(asks.last()) =~= asks);
        lemma_pushed(front, asks.last(), red_accept(j as usize));
        lemma_pushed(front, asks.last(), red_prepare(j as usize));
        assert(asks[asks.len() - 1] == asks.last());
        let i = choose|i: usize|
            i < 3 && (asks.last() == red_prepare(i) || asks.last() == red_accept(i));
        assert(red_prepare(i) == red_prepare(j as usize) <==> i == j);
        assert(red_accept(i) == red_accept(j as usize) <==> i == j);
    }
}

proof fn lemma_pushed(asks: Seq<Ask>, last: Ask, a: Ask)
    ensures
        asks.push(last).contains(a) <==> asks.contains(a) || last == a,
{
    let all = asks.push(last);
    if asks.contains(a) {
        let k = choose|k: int| 0 <= k < asks.len() && asks[k] == a;
        assert(all[k] == a);
    }
    if last == a {
        assert(all[asks.len() as int] == a);
    }
}

proof fn lemma_round_one_reaches(first: Seq<usize>, interleaved: bool, j: usize)
    ensures
        round_one(first, interleaved).contains(red_accept(j)) <==> first.contains(j),
        round_one(first, interleaved).contains(red_prepare(j)) <==> first.contains(j),
    decreases first.len(),
{
    let all = round_one(first, interleaved);
    if interleaved {
        if first.len() > 0 {
            let front = first.drop_last();
            lemma_round_one_reaches(front, true, j);
            let before = one_by_one(front);
            let last = first.last();
            assert(front.push(last) =~= first);
            lemma_pushed(before, red_prepare(last), red_accept(j));
            lemma_pushed(before, red_prepare(last), red_prepare(j));
            lemma_pushed(before.push(red_prepare(last)), red_accept(last), red_accept(j));
            lemma_pushed(before.push(red_prepare(last)), red_accept(last), red_prepare(j));
            assert(red_prepare(last) == red_prepare(j) <==> last == j);
            assert(red_accept(last) == red_accept(j) <==> last == j);
            assert(first.contains(j) <==> front.contains(j) || last == j) by {
                if front.contains(j) {
                    let k = choose|k: int| 0 <= k < front.len() && front[k] == j;
                    assert(first[k] == j);
                }
                assert(first[first.len() - 1] == last);
                if first.contains(j) && last != j {
                    let k = choose|k: int| 0 <= k < first.len() && first[k] == j;
                    assert(front[k] == j);
                }
            }
        } else {
            assert(all.len() == 0);
        }
    } else {
        if first.contains(j) {
            let k = choose|k: int| 0 <= k < first.len() && first[k] == j;
            assert(all[k] == red_prepare(j));
            assert(all[first.len() + k] == red_accept(j));
        }
        if all.contains(red_accept(j)) {
            let k = choose|k: int| 0 <= k < all.len() && all[k] == red_accept(j);
            assert(k >= first.len());
            assert(first[k - first.len()] == j);
        }
        if all.contains(red_prepare(j)) {
            let k = choose|k: int| 0 <= k < all.len() && all[k] == red_prepare(j);
            assert(k < first.len());
            assert(first[k] == j);
        }
    }
}

/// However proposal 1 is made, one acceptor after the other or all promises first, exactly those it was taken
/// to hold it then, and the others have heard of nothing.
pub proof fn first_round_reaches_those_it_is_taken_to(first: Seq<usize>, interleaved: bool, j: int)
    requires
        forall|k: int| 0 <= k < first.len() ==> #[trigger] first[k] < 3,
        0 <= j < 3,
    ensures
        left_by_one(first, interleaved).len() == 3,
        first.contains(j as usize) ==> left_by_one(first, interleaved)[j] == (Acceptor {
            promised: 1,
            last: Some((Proposal { n: 1, value: "red"@ })),
        }),
        !first.contains(j as usize) ==> left_by_one(first, interleaved)[j] == (Acceptor { promised: 0, last: None }),
{
    lemma_round_one_asks(first, interleaved);
    lemma_round_one_state(round_one(first, interleaved), j);
    lemma_round_one_reaches(first, interleaved, j as usize);
}

/// Proposal 2 is bound to the first one's value exactly where one of those that promise it holds that, and
/// is free otherwise.
pub proof fn second_proposal_is_bound_by_whom_it_hears(first: Seq<usize>, majority: Seq<usize>, interleaved: bool)
    requires
        forall|k: int| 0 <= k < first.len() ==> #[trigger] first[k] < 3,
        forall|k: int| 0 <= k < majority.len() ==> #[trigger] majority[k] < 3,
    ensures
        forced(first, majority, interleaved) == (if exists|k: int|
            0 <= k < majority.len() && first.contains(#[trigger] majority[k]) {
            "red"@
        } else {
            "blue"@
        }),
{
    let accs = left_by_one(first, interleaved);
    let heard = reported(accs, majority);
    proposer_follows_the_highest_report(heard);
    assert forall|k: int| 0 <= k < majority.len() implies (#[trigger] heard[k] == (if first.contains(majority[k]) {
        Some((Proposal { n: 1, value: "red"@ }))
    } else {
        None
    })) by {
        first_round_reaches_those_it_is_taken_to(first, interleaved, majority[k] as int);
    }
    if exists|k: int| 0 <= k < majority.len() && first.contains(#[trigger] majority[k]) {
        let k = choose|k: int| 0 <= k < majority.len() && first.contains(#[trigger] majority[k]);
        assert(heard[k] is Some);
        let m = choose|m: int| 0 <= m < heard.len() && heard[m] == highest(heard);
        assert(heard[m] is Some);
    } else {
        assert forall|k: int| 0 <= k < heard.len() implies (#[trigger] heard[k]) is None by {
            assert(!first.contains(majority[k]));
        }
    }
}

/// The scenarios are every combination: for any choice of who accepted first, any majority that promises
/// second and either way of making the first proposal, one of the 64 is it.
pub proof fn every_combination_is_a_scenario(a: bool, b: bool, c: bool, m: nat, interleaved: bool) -> (s: nat)
    requires
        m < 4,
    ensures
        s < 64,
        firsts(s / 8, 3).contains(0) == a,
        firsts(s / 8, 3).contains(1) == b,
        firsts(s / 8, 3).contains(2) == c,
        s / 2 % 4 == m,
        (s % 2 == 1) == interleaved,
{
    let x: nat = if a {
        1
    } else {
        0
    };
    let y: nat = if b {
        1
    } else {
        0
    };
    let z: nat = if c {
        1
    } else {
        0
    };
    let w: nat = if interleaved {
        1
    } else {
        0
    };
    let bits: nat = (x + 2 * y + 4 * z) as nat;
    let s: nat = (8 * bits + 2 * m + w) as nat;
    assert(s / 8 == bits);
    lemma_firsts(bits);
    s
}

proof fn lemma_firsts(bits: nat)
    requires
        bits < 8,
    ensures
        firsts(bits, 3).contains(0) <==> bits % 2 == 1,
        firsts(bits, 3).contains(1) <==> bits / 2 % 2 == 1,
        firsts(bits, 3).contains(2) <==> bits / 4 % 2 == 1,
        forall|k: int| 0 <= k < firsts(bits, 3).len() ==> #[trigger] firsts(bits, 3)[k] < 3,
        forall|j: int, k: int| 0 <= j < k < firsts(bits, 3).len() ==> firsts(bits, 3)[j] < firsts(bits, 3)[k],
{
    reveal_with_fuel(firsts, 4);
    let all = firsts(bits, 3);
    let one: Seq<usize> = if bit(bits, 0) {
        Seq::<usize>::empty().push(0)
    } else {
        Seq::<usize>::empty()
    };
    let two: Seq<usize> = if bit(bits, 1) {
        one.push(1)
    } else {
        one
    };
    assert(all == if bit(bits, 2) {
        two.push(2)
    } else {
        two
    });
    if bit(bits, 0) {
        assert(all[0] == 0);
    }
    if bit(bits, 1) {
        assert(all[one.len() as int] == 1);
    }
    if bit(bits, 2) {
        assert(all[two.len() as int] == 2);
    }
}

/// Those that promise second are two of the three or all of them, each once and in order, and every such
/// choice is one of the four.
pub proof fn majorities_of_three_are_the_four(m: nat, p: usize, q: usize)
    requires
        m < 4,
        p < q < 3,
    ensures
        2 * majority_at(m).len() > 3,
        forall|k: int| 0 <= k < majority_at(m).len() ==> #[trigger] majority_at(m)[k] < 3,
        forall|j: int, k: int| 0 <= j < k < majority_at(m).len() ==> majority_at(m)[j] < majority_at(m)[k],
        majority_at((p + q - 1) as nat) == seq![p, q],
        majority_at(3) == seq![0usize, 1, 2],
{
    assert(majority_at((p + q - 1) as nat) =~= seq![p, q]);
}

/// A scenario starts afresh, makes proposal 1, asks what is chosen, makes proposal 2 with the promises of its
/// majority, has that majority accept it, and asks what is chosen again.
pub proof fn scenario_goes_through_both_proposals(first: Seq<usize>, majority: Seq<usize>, interleaved: bool)
    ensures
        ({
            let one = round_one(first, interleaved);
            let two = round_two(left_by_one(first, interleaved), majority);
            let all = scenario(first, majority, interleaved);
            let n = one.len() as int;
            &&& one.len() == 2 * first.len()
            &&& two.len() == 2 * majority.len()
            &&& all.len() == n + two.len() + majority.len() + 4
            &&& all[0] == (Ask::Init { count: 3 })
            &&& all.subrange(1, n + 1) == one
            &&& all[n + 1] == (Ask::Learn { full: false })
            &&& all[n + 2] == (Ask::Propose { n: 2, own: "blue"@ })
            &&& all.subrange(n + 3, n + 3 + two.len()) == two
            &&& forall|k: int|
                0 <= k < majority.len() ==> #[trigger] all[n + 3 + two.len() + k] == (Ask::Accept {
                    i: majority[k] as int,
                    n: 2,
                    value: forced(first, majority, interleaved),
                })
            &&& all.last() == (Ask::Learn { full: true })
        }),
{
    lemma_round_lens(first, majority, left_by_one(first, interleaved), interleaved);
    let one = round_one(first, interleaved);
    let two = round_two(left_by_one(first, interleaved), majority);
    let all = scenario(first, majority, interleaved);
    let n = one.len() as int;
    assert(all.subrange(1, n + 1) =~= one);
    assert(all.subrange(n + 3, n + 3 + two.len()) =~= two);
}

proof fn lemma_round_lens(first: Seq<usize>, majority: Seq<usize>, accs: Seq<Acceptor>, interleaved: bool)
    ensures
        round_one(first, interleaved).len() == 2 * first.len(),
        round_two(accs, majority).len() == 2 * majority.len(),
    decreases first.len() + majority.len(),
{
    if majority.len() > 0 {
        lemma_round_lens(first, majority.drop_last(), accs, interleaved);
    } else if interleaved && first.len() > 0 {
        lemma_round_lens(first.drop_last(), majority, accs, interleaved);
    }
}

/// One by one, each acceptor is asked to promise and then to accept before the next is asked anything;
/// otherwise all are asked to promise before one is asked to accept. The second proposal asks each of its
/// majority to promise and tells the proposer what it reports.
pub proof fn rounds_ask_in_order(first: Seq<usize>, majority: Seq<usize>, accs: Seq<Acceptor>, k: int)
    ensures
        0 <= k < first.len() ==> {
            &&& round_one(first, true)[2 * k] == (Ask::Prepare { i: first[k] as int, n: 1, full: false })
            &&& round_one(first, true)[2 * k + 1] == (Ask::Accept { i: first[k] as int, n: 1, value: "red"@ })
            &&& round_one(first, false)[k] == (Ask::Prepare { i: first[k] as int, n: 1, full: false })
            &&& round_one(first, false)[first.len() + k] == (Ask::Accept {
                i: first[k] as int,
                n: 1,
                value: "red"@,
            })
        },
        0 <= k < majority.len() ==> {
            &&& round_two(accs, majority)[2 * k] == (Ask::Prepare { i: majority[k] as int, n: 2, full: false })
            &&& round_two(accs, majority)[2 * k + 1] == (Ask::Promise {
                i: majority[k] as int,
                report: accs[majority[k] as int].last,
            })
        },
    decreases first.len() + majority.len(),
{
    lemma_round_lens(first, majority, accs, true);
    if 0 <= k < first.len() {
        let front = first.drop_last();
        lemma_round_lens(front, majority, accs, true);
        if k < front.len() {
            rounds_ask_in_order(front, majority, accs, k);
            assert(front[k] == first[k]);
        }
    }
    if 0 <= k < majority.len() {
        let front = majority.drop_last();
        lemma_round_lens(first, front, accs, true);
        if k < front.len() {
            rounds_ask_in_order(first, front, accs, k);
            assert(front[k] == majority[k]);
        }
    }
}

/// The scenarios are played one after the other, and a scenario has settled on a value before proposal 2
/// exactly where at least two of the three accepted proposal 1.
pub proof fn scenarios_are_played_in_turn(n: nat)
    ensures
        scenarios(0) == Seq::<Ask>::empty(),
        scenarios(n + 1) == scenarios(n) + scenario(firsts(n / 8, 3), majority_at(n / 2 % 4), n % 2 == 1),
        settled_among(0) == 0,
        settles(n) ==> settled_among(n + 1) == settled_among(n) + 1,
        !settles(n) ==> settled_among(n + 1) == settled_among(n),
        n < 64 ==> (settles(n) <==> firsts(n / 8, 3).len() >= 2),
{
    if n < 64 {
        let first = firsts(n / 8, 3);
        let accs = left_by_one(first, n % 2 == 1);
        lemma_firsts(n / 8);
        assert forall|j: int| 0 <= j < 3 implies accs.len() == 3 && (#[trigger] accs[j]).last == (if first.contains(
            j as usize,
        ) {
            Some((Proposal { n: 1, value: "red"@ }))
        } else {
            None
        }) by {
            first_round_reaches_those_it_is_taken_to(first, n % 2 == 1, j);
        }
        assert(accs.len() == 3) by {
            first_round_reaches_those_it_is_taken_to(first, n % 2 == 1, 0);
        }
        let who = holders(accs, 1);
        let to = first.map_values(|i: usize| i as int);
        assert(to.to_set() =~= who) by {
            assert forall|j: int| to.to_set().contains(j) <==> who.contains(j) by {
                if to.contains(j) {
                    let k = choose|k: int| 0 <= k < to.len() && to[k] == j;
                    assert(first[k] == j as usize);
                    assert(first.contains(j as usize));
                    assert(accs[j].last is Some);
                }
                if who.contains(j) {
                    assert(accs[j].last is Some);
                    let k = choose|k: int| 0 <= k < first.len() && first[k] == j as usize;
                    assert(to[k] == j);
                }
            }
        }
        assert(to.no_duplicates());
        to.unique_seq_to_set();
        assert(who.len() == first.len());
        if first.len() >= 2 {
            assert(forall|k: int| #[trigger]
                who.contains(k) <==> 0 <= k < accs.len() && (accs[k].last matches Some(p) && p.n == 1));
            value_is_learned_from_a_majority_of_one_number(accs, 1, who, 0);
        } else if settles(n) {
            let i = choose|i: int| decides(accs, i);
            assert(accs[i].last is Some);
            assert(backed(accs, 1));
        }
    }
}

/// What may be drawn of five acceptors: numbers one to eight, three values, and prepares that report
/// everything.
pub proof fn asks_are_drawn_of_five_acceptors(i: int, n: int, full: bool, text: Seq<char>)
    ensures
        drawable((Ask::Prepare { i, n, full })) <==> full && 0 <= i <= 4 && 1 <= n <= 8,
        drawable((Ask::Accept { i, n, value: text })) <==> 0 <= i <= 4 && 1 <= n <= 8 && (text == "red"@ || text
            == "blue"@ || text == "green"@),
{
    assert(VALUES[0]@ == "red"@ && VALUES[1]@ == "blue"@ && VALUES[2]@ == "green"@);
}

/// The topic the program is asked about.
pub const TOPIC: &'static str = "paxos";

/// A fresh acceptor has promised nothing and accepted nothing.
pub const A_FRESH_ACCEPTOR_IS_EMPTY: &'static str = "an acceptor that has been asked nothing
> init 3
> acceptor a2
> learn
@ 1 init 3
= acceptors | 3 | init.acceptors
= majority | 2 | init.majority
@ 2 acceptor a2
= promised_n | 0 | acceptor(a2).promised_n
= last_n | null | acceptor(a2).last_n
= last_value | null | acceptor(a2).last_value
@ 3 learn
= chosen | false | learn.chosen
= value | null | learn.value";

/// An acceptor promises a higher number and refuses a lower one.
pub const A_PROMISE_NEEDS_A_HIGHER_NUMBER: &'static str = "three prepares at falling and rising numbers
> init 3
> prepare a1 5
> prepare a1 3
> prepare a1 6
@ 2 prepare a1 5
= promised | true | prepare(a1, 5).promised
@ 3 prepare a1 3
= promised | false | prepare(a1, 3).promised
= promised_n | 5 | prepare(a1, 3).promised_n
@ 4 prepare a1 6
= promised | true | prepare(a1, 6).promised
= promised_n | 6 | prepare(a1, 6).promised_n";

/// The number an acceptor has already promised is not higher than itself.
pub const A_REPEATED_NUMBER_IS_REFUSED: &'static str = "the same prepare arriving twice
> init 5
> prepare a1 4
> prepare a1 4
@ 2 prepare a1 4
= promised | true | the first prepare(a1, 4).promised
@ 3 prepare a1 4
= promised | false | the second prepare(a1, 4).promised";

/// A refused prepare still says how high a proposer must go.
pub const A_REFUSAL_REPORTS_THE_PROMISE: &'static str = r#"a prepare refused by an acceptor that has already accepted
> init 3
> prepare a1 9
> accept a1 9 red
> prepare a1 2
= promised | false | prepare(a1, 2).promised
= promised_n | 9 | prepare(a1, 2).promised_n
= last_n | 9 | prepare(a1, 2).last_n
= last_value | "red" | prepare(a1, 2).last_value"#;

/// An accept at the promised number is taken and one below it is not.
pub const AN_ACCEPT_BELOW_THE_PROMISE_IS_REFUSED: &'static str = r#"accepts at and below the promised number
> init 3
> prepare a1 4
> accept a1 4 red
> accept a1 3 blue
> acceptor a1
@ 3 accept a1 4 red
= accepted | true | accept(a1, 4, red).accepted
@ 4 accept a1 3 blue
= accepted | false | accept(a1, 3, blue).accepted
@ 5 acceptor a1
= last_value | "red" | acceptor(a1).last_value
= last_n | 4 | acceptor(a1).last_n"#;

/// Accepting implies promising.
pub const ACCEPTING_IMPLIES_PROMISING: &'static str = "an accept arriving before any prepare
> init 3
> accept a1 7 red
> prepare a1 6
@ 2 accept a1 7 red
= accepted | true | accept(a1, 7, red).accepted
= promised_n | 7 | accept(a1, 7, red).promised_n
@ 3 prepare a1 6
= promised | false | prepare(a1, 6).promised";

/// A promise carries the highest-numbered proposal the acceptor accepted.
pub const A_PROMISE_CARRIES_THE_HIGHEST: &'static str = r#"what a promise reports after several accepts
> init 3
> accept a1 2 red
> accept a1 5 blue
> accept a1 3 green
> prepare a1 9
@ 4 accept a1 3 green
= accepted | false | accept(a1, 3, green).accepted
@ 5 prepare a1 9
= last_n | 5 | prepare(a1, 9).last_n
= last_value | "blue" | prepare(a1, 9).last_value"#;

/// A value is chosen once a majority has accepted the same proposal.
pub const A_MAJORITY_CHOOSES: &'static str = r#"a value accepted by one, two and then three of five acceptors
> init 5
> accept a1 1 red
> learn
> accept a2 1 red
> learn
> accept a3 1 red
> learn
@ 3 learn
= chosen | false | learn.chosen after one
@ 5 learn
= chosen | false | learn.chosen after two
@ 7 learn
= chosen | true | learn.chosen after three
= value | "red" | learn.value
= count | 3 | learn.count"#;

/// A proposer uses its own value only when no promise reported one.
pub const AN_UNCONSTRAINED_PROPOSER_USES_ITS_OWN_VALUE: &'static str = r#"a proposer whose promises reported nothing
> init 3
> propose 4 blue
> promise a1 -1 -
> promise a2 -1 -
@ 2 propose 4 blue
= n | 4 | propose(4, blue).n
@ 3 promise a1 -1 -
= value | "blue" | the first promise's value
@ 4 promise a2 -1 -
= value | "blue" | the second promise's value
= ready | true | the second promise's ready"#;

/// A proposer must adopt the highest-numbered value, not the last one it heard.
pub const A_PROPOSER_ADOPTS_THE_HIGHEST: &'static str = r#"promises arriving out of numbered order
> init 5
> propose 9 green
> promise a1 7 blue
> promise a2 3 red
> promise a3 -1 -
> proposer
@ 3 promise a1 7 blue
= value | "blue" | after promise(a1, 7, blue), value
@ 4 promise a2 3 red
= value | "blue" | after promise(a2, 3, red), value
@ 5 promise a3 -1 -
= value | "blue" | after promise(a3, -1, -), value
@ 6 proposer
= value | "blue" | proposer.value
= phase | "accept" | proposer.phase"#;

/// A majority of promises is what makes a proposer ready.
pub const A_MAJORITY_OF_PROMISES_MAKES_IT_READY: &'static str = "promises counted towards a majority of five
> init 5
> propose 2 red
> promise a1 -1 -
> promise a1 -1 -
> promise a2 -1 -
> promise a3 -1 -
@ 3 promise
= promises | 1 | after one, promises
@ 4 promise
= promises | 1 | after the repeat, promises
@ 5 promise
= promises | 2 | after two, promises
= ready | false | after two, ready
@ 6 promise
= promises | 3 | after three, promises
= ready | true | after three, ready";

/// A chosen value cannot be changed by a later proposal.
pub const A_CHOSEN_VALUE_IS_FINAL: &'static str = r#"a second proposal over a decree that was already chosen
> init 3
> prepare a1 1
> accept a1 1 red
> prepare a2 1
> accept a2 1 red
> learn
> propose 2 blue
> prepare a1 2
> promise a1 1 red
> prepare a3 2
> promise a3 -1 -
~ value | "" | -
< 11 value accept a1 2
< 11 value accept a3 2
> learn
@ 6 learn
= value | "red" | the first learn.value
@ 8 prepare a1 2
= last_value | "red" | prepare(a1, 2).last_value
@ 11 promise a3 -1 -
= value | "red" | the value the proposer is forced to use
@ 14 learn
= value | "red" | the second learn.value
= count | 3 | the second learn.count"#;

/// Two duelling proposers can starve each other for ever.
pub const TWO_PROPOSERS_CAN_LIVELOCK: &'static str = "six rounds of two proposers preempting each other
> init 3
> prepare a1 1
@ 2 prepare
~ promised | true | -
> prepare a2 1
@ 3 prepare
~ promised | true | -
> prepare a1 2
@ 4 prepare
~ promised | true | -
> prepare a2 2
@ 5 prepare
~ promised | true | -
> accept a1 1 red
@ 6 accept
~ accepted | true | -
> accept a2 1 red
@ 7 accept
~ accepted | true | -
> prepare a1 3
@ 8 prepare
~ promised | true | -
> prepare a2 3
@ 9 prepare
~ promised | true | -
> prepare a1 4
@ 10 prepare
~ promised | true | -
> prepare a2 4
@ 11 prepare
~ promised | true | -
> accept a1 3 red
@ 12 accept
~ accepted | true | -
> accept a2 3 red
@ 13 accept
~ accepted | true | -
> prepare a1 5
@ 14 prepare
~ promised | true | -
> prepare a2 5
@ 15 prepare
~ promised | true | -
> prepare a1 6
@ 16 prepare
~ promised | true | -
> prepare a2 6
@ 17 prepare
~ promised | true | -
> accept a1 5 red
@ 18 accept
~ accepted | true | -
> accept a2 5 red
@ 19 accept
~ accepted | true | -
> prepare a1 7
@ 20 prepare
~ promised | true | -
> prepare a2 7
@ 21 prepare
~ promised | true | -
> prepare a1 8
@ 22 prepare
~ promised | true | -
> prepare a2 8
@ 23 prepare
~ promised | true | -
> accept a1 7 red
@ 24 accept
~ accepted | true | -
> accept a2 7 red
@ 25 accept
~ accepted | true | -
> prepare a1 9
@ 26 prepare
~ promised | true | -
> prepare a2 9
@ 27 prepare
~ promised | true | -
> prepare a1 10
@ 28 prepare
~ promised | true | -
> prepare a2 10
@ 29 prepare
~ promised | true | -
> accept a1 9 red
@ 30 accept
~ accepted | true | -
> accept a2 9 red
@ 31 accept
~ accepted | true | -
> prepare a1 11
@ 32 prepare
~ promised | true | -
> prepare a2 11
@ 33 prepare
~ promised | true | -
> prepare a1 12
@ 34 prepare
~ promised | true | -
> prepare a2 12
@ 35 prepare
~ promised | true | -
> accept a1 11 red
@ 36 accept
~ accepted | true | -
> accept a2 11 red
@ 37 accept
~ accepted | true | -
> learn
> acceptor a1
@ 2 prepare
= promised | true | prepare a1 1
. stop
@ 3 prepare
= promised | true | prepare a2 1
. stop
@ 4 prepare
= promised | true | prepare a1 2
. stop
@ 5 prepare
= promised | true | prepare a2 2
. stop
@ 6 accept
= accepted | false | accept a1 1 red
. stop
@ 7 accept
= accepted | false | accept a2 1 red
. stop
@ 8 prepare
= promised | true | prepare a1 3
. stop
@ 9 prepare
= promised | true | prepare a2 3
. stop
@ 10 prepare
= promised | true | prepare a1 4
. stop
@ 11 prepare
= promised | true | prepare a2 4
. stop
@ 12 accept
= accepted | false | accept a1 3 red
. stop
@ 13 accept
= accepted | false | accept a2 3 red
. stop
@ 14 prepare
= promised | true | prepare a1 5
. stop
@ 15 prepare
= promised | true | prepare a2 5
. stop
@ 16 prepare
= promised | true | prepare a1 6
. stop
@ 17 prepare
= promised | true | prepare a2 6
. stop
@ 18 accept
= accepted | false | accept a1 5 red
. stop
@ 19 accept
= accepted | false | accept a2 5 red
. stop
@ 20 prepare
= promised | true | prepare a1 7
. stop
@ 21 prepare
= promised | true | prepare a2 7
. stop
@ 22 prepare
= promised | true | prepare a1 8
. stop
@ 23 prepare
= promised | true | prepare a2 8
. stop
@ 24 accept
= accepted | false | accept a1 7 red
. stop
@ 25 accept
= accepted | false | accept a2 7 red
. stop
@ 26 prepare
= promised | true | prepare a1 9
. stop
@ 27 prepare
= promised | true | prepare a2 9
. stop
@ 28 prepare
= promised | true | prepare a1 10
. stop
@ 29 prepare
= promised | true | prepare a2 10
. stop
@ 30 accept
= accepted | false | accept a1 9 red
. stop
@ 31 accept
= accepted | false | accept a2 9 red
. stop
@ 32 prepare
= promised | true | prepare a1 11
. stop
@ 33 prepare
= promised | true | prepare a2 11
. stop
@ 34 prepare
= promised | true | prepare a1 12
. stop
@ 35 prepare
= promised | true | prepare a2 12
. stop
@ 36 accept
= accepted | false | accept a1 11 red
. stop
@ 37 accept
= accepted | false | accept a2 11 red
. go
@ 38 learn
~ chosen | true | -
= chosen | false | learn.chosen
@ 39 acceptor a1
= last_n | null | acceptor(a1).last_n";

/// What somebody stuck on this stage is told, one after the other.
pub const HINTS: [&'static str; 4] = [
    "Topic `paxos`: every acceptor keeps a promised number and its highest accepted proposal",
    "An acceptor promises a number only when it is strictly greater than the last one",
    "Accepting implies promising, and an accept below the promise is refused outright",
    "A proposer must propose the value of the highest-numbered proposal its promises reported, \
     and its own only when none did",
];

/// The tests of this stage.
pub const TESTS: [TestRow; 15] = [
    (
        "a fresh acceptor has promised nothing and accepted nothing",
        "a_fresh_acceptor_is_empty",
        false,
        false,
        0,
        0,
        A_FRESH_ACCEPTOR_IS_EMPTY,
    ),
    (
        "an acceptor promises a higher number and refuses a lower one",
        "a_promise_needs_a_higher_number",
        false,
        false,
        0,
        0,
        A_PROMISE_NEEDS_A_HIGHER_NUMBER,
    ),
    (
        "the number an acceptor has already promised is not higher than itself",
        "a_repeated_number_is_refused",
        false,
        false,
        0,
        0,
        A_REPEATED_NUMBER_IS_REFUSED,
    ),
    (
        "a refused prepare still says how high a proposer must go",
        "a_refusal_reports_the_promise",
        false,
        false,
        0,
        0,
        A_REFUSAL_REPORTS_THE_PROMISE,
    ),
    (
        "an accept at the promised number is taken and one below it is not",
        "an_accept_below_the_promise_is_refused",
        false,
        false,
        0,
        0,
        AN_ACCEPT_BELOW_THE_PROMISE_IS_REFUSED,
    ),
    (
        "accepting implies promising",
        "accepting_implies_promising",
        false,
        false,
        0,
        0,
        ACCEPTING_IMPLIES_PROMISING,
    ),
    (
        "a promise carries the highest-numbered proposal the acceptor accepted",
        "a_promise_carries_the_highest",
        false,
        false,
        0,
        0,
        A_PROMISE_CARRIES_THE_HIGHEST,
    ),
    (
        "a value is chosen once a majority has accepted the same proposal",
        "a_majority_chooses",
        false,
        false,
        0,
        0,
        A_MAJORITY_CHOOSES,
    ),
    (
        "a proposer uses its own value only when no promise reported one",
        "an_unconstrained_proposer_uses_its_own_value",
        false,
        false,
        0,
        0,
        AN_UNCONSTRAINED_PROPOSER_USES_ITS_OWN_VALUE,
    ),
    (
        "a proposer must adopt the highest-numbered value, not the last one it heard",
        "a_proposer_adopts_the_highest",
        false,
        false,
        0,
        0,
        A_PROPOSER_ADOPTS_THE_HIGHEST,
    ),
    (
        "a majority of promises is what makes a proposer ready",
        "a_majority_of_promises_makes_it_ready",
        false,
        false,
        0,
        0,
        A_MAJORITY_OF_PROMISES_MAKES_IT_READY,
    ),
    (
        "a chosen value cannot be changed by a later proposal",
        "a_chosen_value_is_final",
        false,
        false,
        0,
        0,
        A_CHOSEN_VALUE_IS_FINAL,
    ),
    (
        "two duelling proposers can starve each other for ever",
        "two_proposers_can_livelock",
        true,
        false,
        0,
        0,
        TWO_PROPOSERS_CAN_LIVELOCK,
    ),
    (
        "sixty-four scenarios of two proposals never choose two values",
        "every_scenario_chooses_at_most_one_value",
        true,
        false,
        0,
        0,
        "",
    ),
    (
        "sixty seeded acceptor events match the tester's own replay",
        "a_long_seeded_run",
        true,
        false,
        0,
        0,
        "",
    ),
];

/// The worked examples of this stage.
pub const EXAMPLES: [PrimRow; 3] = [
    (
        "A round that chooses a value",
        "paxos",
        "init 3
prepare a1 1
prepare a2 1
accept a1 1 red
learn
accept a2 1 red
learn",
        "three acceptors, a prepare to two of them, and then an accept to each",
        "nothing is chosen after one accept, and `red` is chosen after the second",
        "Choosing is not something a proposer does; it is a fact about the acceptors that may be \
         true before anybody has noticed. The proposer here never learns the outcome — a \
         separate learner has to go and look, which is why `learn` is a command of its own.",
    ),
    (
        "A proposer forced to abandon its value",
        "paxos",
        "init 3
accept a1 2 red
propose 5 blue
promise a2 -1 -
promise a1 2 red
proposer",
        "a proposer that wants `blue`, and two promises, the second reporting `red`",
        "the proposer's value becomes `red` as soon as that promise arrives",
        "This one rule is the whole of Paxos safety. A proposer that keeps its own value, or \
         that keeps whichever promise arrived last, can choose a second value for a decree that \
         was already decided — and nothing downstream will ever notice, because both rounds \
         look perfectly legal from the outside.",
    ),
    (
        "Two proposers preempting each other",
        "paxos",
        "init 3
prepare a1 1
prepare a2 1
prepare a1 2
prepare a2 2
accept a1 1 red
accept a2 1 red
learn",
        "one proposer's prepares, a rival's higher prepares, then the first's accepts",
        "both accepts refused, and nothing chosen",
        "Repeat this and neither proposer ever finishes: Paxos is safe under duelling proposers \
         but not live. The cure is a distinguished proposer, which is exactly what Multi-Paxos \
         and Raft both build in.",
    ),
];

/// The worked examples of this stage.
pub fn examples() -> (examples: Vec<ExampleSpec>)
    ensures
        described(examples@) == EXAMPLES@.map_values(|row: PrimRow| prim_described(row)),
{
    prim_examples(EXAMPLES)
}

/// What the rows say of this stage's place in the suite.
proof fn lemma_in_place()
    ensures
        rows_written(TESTS@),
        rows_on_topic(EXAMPLES@, HINTS[0]@),
{
    assert(rows_written(TESTS@)) by {
        reveal_strlit("placeholder");
        reveal_strlit("a fresh acceptor has promised nothing and accepted nothing");
        assert(TESTS@[0].0@.len() == 58);
        reveal_strlit("an acceptor promises a higher number and refuses a lower one");
        assert(TESTS@[1].0@.len() == 60);
        reveal_strlit("the number an acceptor has already promised is not higher than itself");
        assert(TESTS@[2].0@.len() == 69);
        reveal_strlit("a refused prepare still says how high a proposer must go");
        assert(TESTS@[3].0@.len() == 56);
        reveal_strlit("an accept at the promised number is taken and one below it is not");
        assert(TESTS@[4].0@.len() == 65);
        reveal_strlit("accepting implies promising");
        assert(TESTS@[5].0@.len() == 27);
        reveal_strlit("a promise carries the highest-numbered proposal the acceptor accepted");
        assert(TESTS@[6].0@.len() == 69);
        reveal_strlit("a value is chosen once a majority has accepted the same proposal");
        assert(TESTS@[7].0@.len() == 64);
        reveal_strlit("a proposer uses its own value only when no promise reported one");
        assert(TESTS@[8].0@.len() == 63);
        reveal_strlit("a proposer must adopt the highest-numbered value, not the last one it heard");
        assert(TESTS@[9].0@.len() == 75);
        reveal_strlit("a majority of promises is what makes a proposer ready");
        assert(TESTS@[10].0@.len() == 53);
        reveal_strlit("a chosen value cannot be changed by a later proposal");
        assert(TESTS@[11].0@.len() == 52);
        reveal_strlit("two duelling proposers can starve each other for ever");
        assert(TESTS@[12].0@.len() == 53);
        reveal_strlit("sixty-four scenarios of two proposals never choose two values");
        assert(TESTS@[13].0@.len() == 61);
        reveal_strlit("sixty seeded acceptor events match the tester's own replay");
        assert(TESTS@[14].0@.len() == 58);
        assert forall|i: int| 0 <= i < 15 implies (#[trigger] TESTS@[i]).0@ != "placeholder"@ by {
            assert(i == 0 || i == 1 || i == 2 || i == 3 || i == 4 || i == 5 || i == 6 || i == 7 || i == 8 || i == 9 || i == 10 || i == 11 || i == 12 || i == 13 || i == 14);
        }
    }
    assert(names_topic_at(HINTS[0]@, "paxos"@, 6)) by {
        reveal_strlit("`");
        reveal_strlit("paxos");
        reveal_strlit("Topic `paxos`: every acceptor keeps a promised number and its highest accepted proposal");
        assert(HINTS[0]@.subrange(6, 13) =~= "`"@ + "paxos"@ + "`"@);
    }
    reveal_strlit("init ");
    assert(EXAMPLES@[0].2@.len() >= 5 && EXAMPLES@[0].2@.take(5) =~= "init "@) by {
        reveal_strlit(
            "init 3\n\
             prepare a1 1\n\
             prepare a2 1\n\
             accept a1 1 red\n\
             learn\n\
             accept a2 1 red\n\
             learn",
        );
    }
    assert(EXAMPLES@[1].2@.len() >= 5 && EXAMPLES@[1].2@.take(5) =~= "init "@) by {
        reveal_strlit(
            "init 3\n\
             accept a1 2 red\n\
             propose 5 blue\n\
             promise a2 -1 -\n\
             promise a1 2 red\n\
             proposer",
        );
    }
    assert(EXAMPLES@[2].2@.len() >= 5 && EXAMPLES@[2].2@.take(5) =~= "init "@) by {
        reveal_strlit(
            "init 3\n\
             prepare a1 1\n\
             prepare a2 1\n\
             prepare a1 2\n\
             prepare a2 2\n\
             accept a1 1 red\n\
             accept a2 1 red\n\
             learn",
        );
    }
}

/// What stage 61 holds.
pub open spec fn is_stage(s: Stage) -> bool {
    &&& s.number == 61
    &&& s.slug == "paxos_single_decree"
    &&& s.name == "Single-decree Paxos"
    &&& s.ext == false
    &&& s.ladder == Ladder::Algorithms
    &&& s.hints == HINTS
    &&& s.tests@ == tests_of(TESTS@)
    &&& described(s.examples@) == EXAMPLES@.map_values(|row: PrimRow| prim_described(row))
}

/// Stage 61.
pub fn stage() -> (s: Stage)
    ensures
        is_stage(s),
        s.in_place(),
{
    let s = Stage {
        number: 61,
        slug: "paxos_single_decree",
        name: "Single-decree Paxos",
        ext: false,
        ladder: Ladder::Algorithms,
        hints: HINTS,
        examples: examples(),
        tests: tests(TESTS),
    };
    proof {
        reveal(Stage::in_place);
        assert(s.examples@.len() == described(s.examples@).len());
        lemma_in_place();
        assert forall|i: int| 0 <= i < s.examples@.len() implies opens_topic(
            #[trigger] s.examples@[i]@,
            s.hints[0]@,
        ) by {
            assert(described(s.examples@)[i] == prim_described(EXAMPLES@[i]));
        }
    }
    s
}

} // verus!
