//! Stage 67: Choreographed saga.
//!
//! Nobody drives the saga; each service subscribes to the previous one's event and publishes its
//! own, and the compensation chain is just another set of events running the other way. A broker
//! redelivers, so an event handled twice must emit once; and two services can both say that they
//! have failed, so a second failure must be absorbed.
use rand::rngs::StdRng;
use vstd::prelude::*;
use crate::check::{
    all_hold, is_bool, is_fact, is_int, is_text, lemma_until_failure_rest, lemma_until_failure_step, name_step,
    note_seed, run_passes_where_every_step_does, seed_note, step_path, texts_fact, until_failure, Check, Ruling,
    Truth, Verdict,
};
use crate::draw::draw_usize;
use crate::examples::{described, prim_described, prim_examples, ExampleSpec, PrimRow};
use crate::stages::{names_topic_at, opens_topic, rows_on_topic, rows_written, tests, tests_of, Ladder, Stage, TestRow};
use crate::json::Json;
use crate::names::NameSet;
use crate::prim::{expect_bool, expect_strs, lookup, text_items, Misshapen};
use crate::stages::s66_saga_orchestrated::{demanded_ledger, done_entry, undone_entry};
use crate::text::{
    copy_texts, lemma_split_of_joined, same_text, split_at_last_dot, split_name, strs, texts,
};

verus! {

/// The three-step saga the stage uses throughout.
pub const THREE: &'static str = r#"init ["reserve","charge","ship"]"#;

/// How the saga stands.
#[derive(Clone, Copy, Debug, PartialEq, Eq, Structural)]
pub enum Outcome {
    Running,
    Committed,
    Compensated,
}

impl Outcome {
    /// The outcome as an `outcome` answer spells it.
    pub open spec fn text(self) -> Seq<char> {
        match self {
            Outcome::Running => "running"@,
            Outcome::Committed => "committed"@,
            Outcome::Compensated => "compensated"@,
        }
    }

    /// The outcome as an `outcome` answer spells it.
    pub fn name(self) -> (s: &'static str)
        ensures
            s@ == self.text(),
    {
        match self {
            Outcome::Running => "running",
            Outcome::Committed => "committed",
            Outcome::Compensated => "compensated",
        }
    }
}

/// A choreography: its steps, the events it acted upon, what it wrote down, and what it waits for.
#[verifier::ext_equal]
pub struct Choreography {
    pub names: Seq<Seq<char>>,
    pub handled: Seq<Seq<char>>,
    pub ledger: Seq<Seq<char>>,
    pub inflight_do: Set<Seq<char>>,
    pub inflight_undo: Set<Seq<char>>,
    pub compensating: bool,
    pub outcome: Outcome,
}

/// What an event says of a step.
pub enum Report {
    Start,
    Done { step: int },
    Failed { step: int },
    Undone { step: int },
    /// Nothing the saga knows of.
    Noise,
}

/// The event that has a step done.
pub open spec fn do_event(name: Seq<char>) -> Seq<char> {
    name + ".do"@
}

/// The event that has a step undone.
pub open spec fn undo_event(name: Seq<char>) -> Seq<char> {
    name + ".undo"@
}

/// Where a name first stands in a list.
pub open spec fn position(names: Seq<Seq<char>>, name: Seq<char>) -> Option<int> {
    if names.contains(name) {
        Some(names.index_of_first(name)->0)
    } else {
        None
    }
}

/// What an event says of a saga with the given steps.
pub open spec fn report(names: Seq<Seq<char>>, event: Seq<char>) -> Report {
    if event == "start"@ {
        Report::Start
    } else {
        match split_at_last_dot(event) {
            None => Report::Noise,
            Some(parts) => match position(names, parts.0) {
                None => Report::Noise,
                Some(step) => if parts.1 == "ok"@ {
                    Report::Done { step }
                } else if parts.1 == "fail"@ {
                    Report::Failed { step }
                } else if parts.1 == "undone"@ {
                    Report::Undone { step }
                } else {
                    Report::Noise
                },
            },
        }
    }
}

impl Choreography {
    pub open spec fn fresh(names: Seq<Seq<char>>) -> Choreography {
        Choreography {
            names,
            handled: Seq::empty(),
            ledger: Seq::empty(),
            inflight_do: Set::empty(),
            inflight_undo: Set::empty(),
            compensating: false,
            outcome: Outcome::Running,
        }
    }

    /// The saga and what it emits once everything from step `idx` on is undone: the step before it
    /// is to be undone next, and where there is none the saga is compensated.
    pub open spec fn undoing_before(self, idx: int) -> (Choreography, Seq<Seq<char>>) {
        if 1 <= idx <= self.names.len() {
            let prev = self.names[idx - 1];
            (
                Choreography { inflight_undo: self.inflight_undo.insert(prev), ..self },
                seq![undo_event(prev)],
            )
        } else {
            (Choreography { outcome: Outcome::Compensated, ..self }, Seq::empty())
        }
    }

    /// The saga once step `idx` has been asked for.
    pub open spec fn doing(self, idx: int) -> (Choreography, Seq<Seq<char>>) {
        let name = self.names[idx];
        (
            Choreography {
                ledger: self.ledger.push(done_entry(name)),
                inflight_do: self.inflight_do.insert(name),
                ..self
            },
            seq![do_event(name)],
        )
    }

    /// Whether an event applies in this state.
    pub open spec fn applies(self, r: Report) -> bool {
        match r {
            Report::Start => self.handled.len() == 0 && self.names.len() > 0,
            Report::Done { step } => !self.compensating && self.inflight_do.contains(self.names[step]),
            Report::Failed { step } => !self.compensating && self.inflight_do.contains(
                self.names[step],
            ),
            Report::Undone { step } => self.inflight_undo.contains(self.names[step]),
            Report::Noise => false,
        }
    }

    /// The reaction table: what an event that applies makes of the saga, and what it emits.
    pub open spec fn reaction(self, r: Report) -> (Choreography, Seq<Seq<char>>) {
        match r {
            Report::Start => self.doing(0),
            Report::Done { step } => {
                let heard = Choreography {
                    inflight_do: self.inflight_do.remove(self.names[step]),
                    ..self
                };
                if step + 1 < self.names.len() {
                    heard.doing(step + 1)
                } else {
                    (Choreography { outcome: Outcome::Committed, ..heard }, Seq::empty())
                }
            },
            Report::Failed { step } => Choreography {
                inflight_do: self.inflight_do.remove(self.names[step]),
                compensating: true,
                ..self
            }.undoing_before(step),
            Report::Undone { step } => Choreography {
                inflight_undo: self.inflight_undo.remove(self.names[step]),
                ledger: self.ledger.push(undone_entry(self.names[step])),
                ..self
            }.undoing_before(step),
            Report::Noise => (self, Seq::empty()),
        }
    }

    /// The saga once an event has come in.
    pub open spec fn after(self, event: Seq<char>) -> Choreography {
        let r = report(self.names, event);
        if self.applies(r) {
            let next = self.reaction(r).0;
            Choreography { handled: next.handled.push(event), ..next }
        } else {
            self
        }
    }

    /// What the saga emits when an event comes in.
    pub open spec fn emits(self, event: Seq<char>) -> Seq<Seq<char>> {
        let r = report(self.names, event);
        if self.applies(r) {
            self.reaction(r).1
        } else {
            Seq::empty()
        }
    }
}

/// The rules of the choreography, written out.
pub struct Model {
    names: Vec<String>,
    handled: Vec<String>,
    ledger: Vec<String>,
    inflight_do: NameSet,
    inflight_undo: NameSet,
    compensating: bool,
    outcome: Outcome,
}

impl View for Model {
    type V = Choreography;

    closed spec fn view(&self) -> Choreography {
        Choreography {
            names: texts(self.names@),
            handled: texts(self.handled@),
            ledger: texts(self.ledger@),
            inflight_do: self.inflight_do@,
            inflight_undo: self.inflight_undo@,
            compensating: self.compensating,
            outcome: self.outcome,
        }
    }
}

/// `prefix` and `name`, one behind the other.
fn labelled(prefix: &str, name: &str) -> (s: String)
    ensures
        s@ == prefix@ + name@,
{
    let mut s = String::from_str(prefix);
    s.append(name);
    s
}

/// Where `name` first stands in `names`.
fn find(names: &Vec<String>, name: &str) -> (r: Option<usize>)
    ensures
        match position(texts(names@), name@) {
            Some(i) => r is Some && r->0 == i && i < names@.len() && texts(names@)[i] == name@,
            None => r is None,
        },
{
    let mut i: usize = 0;
    while i < names.len()
        invariant
            i <= names@.len(),
            forall|k: int| 0 <= k < i ==> #[trigger] texts(names@)[k] != name@,
        decreases names@.len() - i,
    {
        if same_text(names[i].as_str(), name) {
            proof {
                let all = texts(names@);
                assert(all[i as int] == name@);
                all.index_of_first_ensures(name@);
                let first = all.index_of_first(name@)->0;
                if first < i {
                    assert(all[first] != name@);
                }
            }
            return Some(i);
        }
        i += 1;
    }
    None
}

impl Model {
    pub fn new(names: &[&str]) -> (m: Model)
        ensures
            m@ == Choreography::fresh(strs(names@)),
    {
        let mut own: Vec<String> = Vec::new();
        let mut i: usize = 0;
        while i < names.len()
            invariant
                i <= names@.len(),
                texts(own@) == strs(names@).take(i as int),
            decreases names@.len() - i,
        {
            let ghost so_far = texts(own@);
            own.push(String::from_str(names[i]));
            assert(texts(own@) =~= so_far.push(names@[i as int]@));
            assert(texts(own@) =~= strs(names@).take(i + 1));
            i += 1;
        }
        let m = Model {
            names: own,
            handled: Vec::new(),
            ledger: Vec::new(),
            inflight_do: NameSet::new(),
            inflight_undo: NameSet::new(),
            compensating: false,
            outcome: Outcome::Running,
        };
        assert(m@ =~= Choreography::fresh(strs(names@)));
        m
    }

    pub fn ledger(&self) -> (r: &Vec<String>)
        ensures
            texts(r@) == self@.ledger,
    {
        &self.ledger
    }

    pub fn outcome(&self) -> (r: Outcome)
        ensures
            r == self@.outcome,
    {
        self.outcome
    }

    /// Asks for the step before `idx` to be undone; where there is none, the saga is compensated.
    pub fn undo_before(&mut self, idx: usize) -> (emitted: Vec<String>)
        ensures
            final(self)@ == old(self)@.undoing_before(idx as int).0,
            texts(emitted@) == old(self)@.undoing_before(idx as int).1,
    {
        let mut emitted: Vec<String> = Vec::new();
        if idx >= 1 && idx <= self.names.len() {
            let prev = self.names[idx - 1].clone();
            self.inflight_undo.insert(prev.as_str());
            emitted.push(labelled(prev.as_str(), ".undo"));
            assert(texts(emitted@) =~= seq![undo_event(prev@)]);
        } else {
            self.outcome = Outcome::Compensated;
            assert(texts(emitted@) =~= Seq::<Seq<char>>::empty());
        }
        emitted
    }

    /// Asks for step `idx` to be done.
    fn ask_for(&mut self, idx: usize) -> (emitted: Vec<String>)
        requires
            idx < old(self)@.names.len(),
        ensures
            final(self)@ == old(self)@.doing(idx as int).0,
            texts(emitted@) == old(self)@.doing(idx as int).1,
    {
        let name = self.names[idx].clone();
        self.ledger.push(labelled("do:", name.as_str()));
        self.inflight_do.insert(name.as_str());
        assert(texts(self.ledger@) =~= old(self)@.ledger.push(done_entry(name@)));
        let mut emitted: Vec<String> = Vec::new();
        emitted.push(labelled(name.as_str(), ".do"));
        assert(texts(emitted@) =~= seq![do_event(name@)]);
        emitted
    }

    /// Remembers that `name` has been acted upon.
    fn remember(&mut self, name: &str)
        ensures
            final(self)@ == (Choreography {
                handled: old(self)@.handled.push(name@),
                ..old(self)@
            }),
    {
        self.handled.push(String::from_str(name));
        assert(texts(self.handled@) =~= old(self)@.handled.push(name@));
    }

    /// One event comes in; returns what the saga emits.
    pub fn apply(&mut self, name: &str) -> (emitted: Vec<String>)
        ensures
            final(self)@ == old(self)@.after(name@),
            texts(emitted@) == old(self)@.emits(name@),
    {
        let nothing: Vec<String> = Vec::new();
        assert(texts(nothing@) =~= Seq::<Seq<char>>::empty());
        if same_text(name, "start") {
            if self.handled.len() != 0 || self.names.len() == 0 {
                return nothing;
            }
            let emitted = self.ask_for(0);
            self.remember(name);
            return emitted;
        }
        let (step, kind) = match split_name(name) {
            Some(parts) => parts,
            None => {
                return nothing;
            },
        };
        let idx: usize = match find(&self.names, step) {
            Some(idx) => idx,
            None => {
                return nothing;
            },
        };
        proof {
            reveal_strlit("ok");
            reveal_strlit("fail");
            reveal_strlit("undone");
            assert("ok"@.len() != "fail"@.len());
            assert("ok"@.len() != "undone"@.len());
            assert("fail"@.len() != "undone"@.len());
        }
        let emitted = if same_text(kind, "ok") {
            if self.compensating || !self.inflight_do.remove(step) {
                assert(self.inflight_do@ =~= old(self).inflight_do@);
                return nothing;
            }
            let count: usize = self.names.len();
            if idx < count - 1 {
                self.ask_for(idx + 1)
            } else {
                self.outcome = Outcome::Committed;
                nothing
            }
        } else if same_text(kind, "fail") {
            if self.compensating || !self.inflight_do.remove(step) {
                assert(self.inflight_do@ =~= old(self).inflight_do@);
                return nothing;
            }
            self.compensating = true;
            self.undo_before(idx)
        } else if same_text(kind, "undone") {
            if !self.inflight_undo.remove(step) {
                assert(self.inflight_undo@ =~= old(self).inflight_undo@);
                return nothing;
            }
            self.ledger.push(labelled("undo:", step));
            assert(texts(self.ledger@) =~= old(self)@.ledger.push(undone_entry(step@)));
            self.undo_before(idx)
        } else {
            return nothing;
        };
        self.remember(name);
        emitted
    }

    /// True when this event has already been acted upon and must be absorbed as a duplicate.
    pub fn is_duplicate(&self, name: &str) -> (r: bool)
        ensures
            r == self@.handled.contains(name@),
    {
        find(&self.handled, name).is_some()
    }

    /// How many requests the saga is waiting for.
    pub fn inflight(&self) -> (r: usize)
        requires
            self@.inflight_do.len() + self@.inflight_undo.len() <= usize::MAX,
        ensures
            r == self@.inflight_do.len() + self@.inflight_undo.len(),
    {
        self.inflight_do.len() + self.inflight_undo.len()
    }
}

/// How far a saga has come.
pub enum Progress {
    /// Nothing has happened.
    Idle,
    /// It waits for step `k` to be done.
    Doing { k: int },
    /// Step `failed` failed, and it waits for step `next` to be undone.
    Undoing { failed: int, next: int },
    /// Every step was done.
    Committed,
    /// Step `failed` failed, and everything before it was undone.
    Compensated { failed: int },
}

/// The ledger's entries for the first `n` steps, each asked for.
pub open spec fn dones(names: Seq<Seq<char>>, n: int) -> Seq<Seq<char>> {
    Seq::new(n as nat, |i: int| done_entry(names[i]))
}

/// The ledger's entries for the steps below `failed`, down to `lowest`, each undone.
pub open spec fn undones(names: Seq<Seq<char>>, failed: int, lowest: int) -> Seq<Seq<char>> {
    Seq::new((failed - lowest) as nat, |i: int| undone_entry(names[failed - 1 - i]))
}

impl Choreography {
    /// The saga has come this far.
    pub open spec fn stands_at(self, p: Progress) -> bool {
        let n = self.names.len();
        match p {
            Progress::Idle => self == Choreography::fresh(self.names),
            Progress::Doing { k } => {
                &&& 0 <= k < n
                &&& self.handled.len() > 0
                &&& self.ledger == dones(self.names, k + 1)
                &&& self.inflight_do == set![self.names[k]]
                &&& self.inflight_undo == Set::<Seq<char>>::empty()
                &&& !self.compensating
                &&& self.outcome == Outcome::Running
            },
            Progress::Undoing { failed, next } => {
                &&& 0 <= next < failed < n
                &&& self.handled.len() > 0
                &&& self.ledger == dones(self.names, failed + 1) + undones(
                    self.names,
                    failed,
                    next + 1,
                )
                &&& self.inflight_do == Set::<Seq<char>>::empty()
                &&& self.inflight_undo == set![self.names[next]]
                &&& self.compensating
                &&& self.outcome == Outcome::Running
            },
            Progress::Committed => {
                &&& self.handled.len() > 0
                &&& self.ledger == dones(self.names, n as int)
                &&& self.inflight_do == Set::<Seq<char>>::empty()
                &&& self.inflight_undo == Set::<Seq<char>>::empty()
                &&& !self.compensating
                &&& self.outcome == Outcome::Committed
            },
            Progress::Compensated { failed } => {
                &&& 0 <= failed < n
                &&& self.handled.len() > 0
                &&& self.ledger == dones(self.names, failed + 1) + undones(self.names, failed, 0)
                &&& self.inflight_do == Set::<Seq<char>>::empty()
                &&& self.inflight_undo == Set::<Seq<char>>::empty()
                &&& self.compensating
                &&& self.outcome == Outcome::Compensated
            },
        }
    }

    /// The saga once a stream of events has come in.
    pub open spec fn run(self, events: Seq<Seq<char>>) -> Choreography
        decreases events.len(),
    {
        if events.len() == 0 {
            self
        } else {
            self.run(events.drop_last()).after(events.last())
        }
    }
}

/// How far a saga of `n` steps has come once one more event has come in.
pub open spec fn moved_on(p: Progress, r: Report, n: int) -> Progress {
    match (p, r) {
        (Progress::Idle, Report::Start) => if n > 0 {
            Progress::Doing { k: 0 }
        } else {
            p
        },
        (Progress::Doing { k }, Report::Done { step }) => if step != k {
            p
        } else if k + 1 < n {
            Progress::Doing { k: k + 1 }
        } else {
            Progress::Committed
        },
        (Progress::Doing { k }, Report::Failed { step }) => if step != k {
            p
        } else if k > 0 {
            Progress::Undoing { failed: k, next: k - 1 }
        } else {
            Progress::Compensated { failed: 0 }
        },
        (Progress::Undoing { failed, next }, Report::Undone { step }) => if step != next {
            p
        } else if next > 0 {
            Progress::Undoing { failed, next: next - 1 }
        } else {
            Progress::Compensated { failed }
        },
        _ => p,
    }
}

proof fn lemma_report_in_range(names: Seq<Seq<char>>, event: Seq<char>)
    ensures
        match report(names, event) {
            Report::Done { step } => 0 <= step < names.len(),
            Report::Failed { step } => 0 <= step < names.len(),
            Report::Undone { step } => 0 <= step < names.len(),
            _ => true,
        },
{
    if event != "start"@ && split_at_last_dot(event) is Some {
        let name = (split_at_last_dot(event)->0).0;
        if names.contains(name) {
            names.index_of_first_ensures(name);
        }
    }
}

/// The reaction table, whatever comes in and in whatever order: a saga whose steps have different
/// names moves on by one step at a time, and only on the event it waits for.
pub proof fn events_move_the_saga_on(c: Choreography, p: Progress, event: Seq<char>)
    requires
        c.names.no_duplicates(),
        c.stands_at(p),
    ensures
        c.after(event).stands_at(moved_on(p, report(c.names, event), c.names.len() as int)),
        c.after(event).names == c.names,
{
    lemma_report_in_range(c.names, event);
    let r = report(c.names, event);
    let q = moved_on(p, r, c.names.len() as int);
    let d = c.after(event);
    let n = c.names;
    match (p, r) {
        (Progress::Idle, Report::Start) => {
            if n.len() > 0 {
                assert(d.ledger =~= dones(n, 1));
                assert(d.inflight_do =~= set![n[0]]);
            }
        },
        (Progress::Doing { k }, Report::Done { step }) => {
            if c.applies(r) {
                assert(n[step] == n[k]);
                assert(step == k);
                if k + 1 < n.len() {
                    assert(d.ledger =~= dones(n, k + 2));
                    assert(d.inflight_do =~= set![n[k + 1]]);
                } else {
                    assert(d.inflight_do =~= Set::<Seq<char>>::empty());
                }
            }
        },
        (Progress::Doing { k }, Report::Failed { step }) => {
            if c.applies(r) {
                assert(n[step] == n[k]);
                assert(step == k);
                assert(d.inflight_do =~= Set::<Seq<char>>::empty());
                if k > 0 {
                    assert(d.ledger =~= dones(n, k + 1) + undones(n, k, k));
                    assert(d.inflight_undo =~= set![n[k - 1]]);
                } else {
                    assert(d.ledger =~= dones(n, 1) + undones(n, 0, 0));
                }
            }
        },
        (Progress::Undoing { failed, next }, Report::Undone { step }) => {
            if c.applies(r) {
                assert(n[step] == n[next]);
                assert(step == next);
                assert(d.ledger =~= dones(n, failed + 1) + undones(n, failed, next));
                if next > 0 {
                    assert(d.inflight_undo =~= set![n[next - 1]]);
                } else {
                    assert(d.inflight_undo =~= Set::<Seq<char>>::empty());
                }
            }
        },
        _ => {
            assert(!c.applies(r));
        },
    }
}

/// Whatever stream of events comes in, the saga stands where exactly one run of the reaction table
/// would bring it.
pub proof fn every_stream_follows_the_table(names: Seq<Seq<char>>, events: Seq<Seq<char>>)
    requires
        names.no_duplicates(),
    ensures
        Choreography::fresh(names).run(events).names == names,
        exists|p: Progress| Choreography::fresh(names).run(events).stands_at(p),
    decreases events.len(),
{
    let c = Choreography::fresh(names);
    if events.len() == 0 {
        assert(c.stands_at(Progress::Idle));
    } else {
        every_stream_follows_the_table(names, events.drop_last());
        let before = c.run(events.drop_last());
        let p = choose|p: Progress| before.stands_at(p);
        events_move_the_saga_on(before, p, events.last());
    }
}

/// There is never more than one request in flight.
pub proof fn one_request_in_flight(names: Seq<Seq<char>>, events: Seq<Seq<char>>)
    requires
        names.no_duplicates(),
    ensures
        ({
            let c = Choreography::fresh(names).run(events);
            c.inflight_do.len() + c.inflight_undo.len() <= 1
        }),
{
    every_stream_follows_the_table(names, events);
}

/// An event delivered twice emits once: the second time it changes nothing and emits nothing.
pub proof fn redelivered_event_emits_nothing(c: Choreography, p: Progress, event: Seq<char>)
    requires
        c.names.no_duplicates(),
        c.stands_at(p),
        c.applies(report(c.names, event)),
    ensures
        c.after(event).emits(event) == Seq::<Seq<char>>::empty(),
        c.after(event).after(event) == c.after(event),
{
    lemma_report_in_range(c.names, event);
    events_move_the_saga_on(c, p, event);
    let n = c.names;
    let d = c.after(event);
    let r = report(n, event);
    match (p, r) {
        (Progress::Doing { k }, Report::Done { step }) => {
            assert(n[step] == n[k]);
            assert(step == k);
            if k + 1 < n.len() {
                assert(n[k] != n[k + 1]);
            }
        },
        (Progress::Doing { k }, Report::Failed { step }) => {
            assert(d.compensating);
        },
        (Progress::Undoing { failed, next }, Report::Undone { step }) => {
            assert(n[step] == n[next]);
            assert(step == next);
            if next > 0 {
                assert(n[next] != n[next - 1]);
            }
        },
        _ => {},
    }
    assert(!d.applies(r));
}

/// Once the saga compensates, a further failure is absorbed rather than starting a second
/// compensation chain.
pub proof fn second_failure_is_absorbed(c: Choreography, event: Seq<char>, step: int)
    requires
        c.compensating,
        report(c.names, event) == (Report::Failed { step }),
    ensures
        c.after(event) == c,
        c.emits(event) == Seq::<Seq<char>>::empty(),
{
}

/// The happy path reaches exactly the ledger the orchestrated saga reaches.
pub proof fn happy_path_matches_the_orchestrated_ledger(c: Choreography)
    requires
        c.stands_at(Progress::Committed),
    ensures
        c.ledger == demanded_ledger(c.names, 0),
{
    assert(c.ledger =~= demanded_ledger(c.names, 0));
}

/// A compensated saga undid exactly what the orchestrated one undoes, in the same order; its ledger
/// differs by the one entry that says the failed step was asked for.
pub proof fn compensation_matches_the_orchestrated_ledger(c: Choreography, failed: int)
    requires
        c.stands_at(Progress::Compensated { failed }),
    ensures
        ({
            let orchestrated = demanded_ledger(c.names, (failed + 1) as nat);
            c.ledger == orchestrated.take(failed) + seq![done_entry(c.names[failed])]
                + orchestrated.skip(failed)
        }),
{
    let orchestrated = demanded_ledger(c.names, (failed + 1) as nat);
    assert(c.ledger =~= orchestrated.take(failed) + seq![done_entry(c.names[failed])]
        + orchestrated.skip(failed));
}

/// What a saga that has come this far has behind it and does not wait for again.
pub open spec fn spent(p: Progress, r: Report) -> bool {
    match (p, r) {
        (Progress::Idle, _) => false,
        (_, Report::Start) => true,
        (Progress::Doing { k }, Report::Done { step }) => step < k,
        (Progress::Undoing { failed, .. }, Report::Done { step }) => step < failed,
        (Progress::Committed, Report::Done { .. }) => true,
        (Progress::Compensated { failed }, Report::Done { step }) => step < failed,
        (Progress::Undoing { failed, .. }, Report::Failed { step }) => step == failed,
        (Progress::Compensated { failed }, Report::Failed { step }) => step == failed,
        (Progress::Undoing { failed, next }, Report::Undone { step }) => next < step < failed,
        (Progress::Compensated { failed }, Report::Undone { step }) => step < failed,
        _ => false,
    }
}

impl Choreography {
    /// Everything the saga acted upon lies behind it.
    pub open spec fn has_spent(self, p: Progress) -> bool {
        forall|i: int|
            0 <= i < self.handled.len() ==> spent(p, report(self.names, #[trigger] self.handled[i]))
    }
}

proof fn lemma_spent_stays_behind(c: Choreography, p: Progress, event: Seq<char>)
    requires
        c.names.no_duplicates(),
        c.stands_at(p),
        c.has_spent(p),
    ensures
        c.after(event).has_spent(moved_on(p, report(c.names, event), c.names.len() as int)),
{
    lemma_report_in_range(c.names, event);
    let r = report(c.names, event);
    let q = moved_on(p, r, c.names.len() as int);
    let d = c.after(event);
    let n = c.names;
    if c.applies(r) {
        match (p, r) {
            (Progress::Doing { k }, Report::Done { step }) => {
                assert(n[step] == n[k]);
            },
            (Progress::Doing { k }, Report::Failed { step }) => {
                assert(n[step] == n[k]);
            },
            (Progress::Undoing { failed, next }, Report::Undone { step }) => {
                assert(n[step] == n[next]);
            },
            _ => {},
        }
        assert(spent(q, r));
        assert forall|i: int| 0 <= i < d.handled.len() implies spent(
            q,
            report(n, #[trigger] d.handled[i]),
        ) by {
            if i < c.handled.len() {
                assert(d.handled[i] == c.handled[i]);
                lemma_report_in_range(n, c.handled[i]);
            }
        }
    } else {
        match (p, r) {
            (Progress::Doing { k }, Report::Done { step }) => {
                assert(c.inflight_do.contains(n[k]));
            },
            (Progress::Doing { k }, Report::Failed { step }) => {
                assert(c.inflight_do.contains(n[k]));
            },
            (Progress::Undoing { failed, next }, Report::Undone { step }) => {
                assert(c.inflight_undo.contains(n[next]));
            },
            _ => {},
        }
        assert(q == p);
    }
}

proof fn lemma_stream_has_spent(names: Seq<Seq<char>>, events: Seq<Seq<char>>)
    requires
        names.no_duplicates(),
    ensures
        Choreography::fresh(names).run(events).names == names,
        exists|p: Progress| #[trigger]
            Choreography::fresh(names).run(events).stands_at(p) && Choreography::fresh(names).run(
                events,
            ).has_spent(p),
    decreases events.len(),
{
    let c = Choreography::fresh(names);
    if events.len() == 0 {
        assert(c.stands_at(Progress::Idle));
        assert(c.has_spent(Progress::Idle));
    } else {
        let front = events.drop_last();
        lemma_stream_has_spent(names, front);
        let before = c.run(front);
        let p = choose|p: Progress| #[trigger] before.stands_at(p) && before.has_spent(p);
        events_move_the_saga_on(before, p, events.last());
        lemma_spent_stays_behind(before, p, events.last());
    }
}

/// An event that was once acted upon is never acted upon again, whatever came in between: it changes
/// nothing and emits nothing.
pub proof fn handled_event_is_absorbed(names: Seq<Seq<char>>, events: Seq<Seq<char>>, event: Seq<char>)
    requires
        names.no_duplicates(),
        Choreography::fresh(names).run(events).handled.contains(event),
    ensures
        Choreography::fresh(names).run(events.push(event)) == Choreography::fresh(names).run(events),
        Choreography::fresh(names).run(events).emits(event) == Seq::<Seq<char>>::empty(),
{
    lemma_stream_has_spent(names, events);
    lemma_report_in_range(names, event);
    let c = Choreography::fresh(names).run(events);
    let p = choose|p: Progress| #[trigger] c.stands_at(p) && c.has_spent(p);
    let i = choose|i: int| 0 <= i < c.handled.len() && c.handled[i] == event;
    let r = report(names, event);
    assert(spent(p, report(names, c.handled[i])));
    match (p, r) {
        (Progress::Doing { k }, Report::Done { step }) => {
            assert(names[step] != names[k]);
        },
        (Progress::Undoing { failed, next }, Report::Undone { step }) => {
            assert(names[step] != names[next]);
        },
        _ => {},
    }
    assert(!c.applies(r));
    assert(events.push(event).drop_last() =~= events);
}

/// What a service publishes is understood: the step's name, a dot and how it went.
pub proof fn published_events_are_understood(names: Seq<Seq<char>>, k: int)
    requires
        names.no_duplicates(),
        0 <= k < names.len(),
    ensures
        report(names, names[k] + ".ok"@) == (Report::Done { step: k }),
        report(names, names[k] + ".fail"@) == (Report::Failed { step: k }),
        report(names, names[k] + ".undone"@) == (Report::Undone { step: k }),
        report(names, "start"@) == Report::Start,
{
    reveal_strlit("start");
    reveal_strlit(".ok");
    reveal_strlit("ok");
    reveal_strlit(".fail");
    reveal_strlit("fail");
    reveal_strlit(".undone");
    reveal_strlit("undone");
    let name = names[k];
    names.index_of_first_ensures(name);
    assert(position(names, name) == Some(k));
    lemma_split_of_joined(name, "ok"@);
    lemma_split_of_joined(name, "fail"@);
    lemma_split_of_joined(name, "undone"@);
    assert(name + ".ok"@ =~= name.push('.') + "ok"@);
    assert(name + ".fail"@ =~= name.push('.') + "fail"@);
    assert(name + ".undone"@ =~= name.push('.') + "undone"@);
    assert(!"start"@.contains('.'));
    assert((name + ".ok"@)[name.len() as int] == '.');
    assert((name + ".fail"@)[name.len() as int] == '.');
    assert((name + ".undone"@)[name.len() as int] == '.');
    assert((name + ".ok"@).contains('.'));
    assert((name + ".fail"@).contains('.'));
    assert((name + ".undone"@).contains('.'));
    assert("ok"@.len() != "fail"@.len());
    assert("ok"@.len() != "undone"@.len());
    assert("fail"@.len() != "undone"@.len());
}

/// The steps of a seeded saga.
pub const STEPS: [&'static str; 3] = ["a", "b", "c"];

/// Every event a seeded stream is drawn from.
pub const POOL: [&'static str; 10] = [
    "start",
    "a.ok",
    "a.fail",
    "a.undone",
    "b.ok",
    "b.fail",
    "b.undone",
    "c.ok",
    "c.fail",
    "c.undone",
];

/// One event of a seeded stream, and what the saga must make of it.
#[derive(Debug)]
pub struct Planned {
    pub event: String,
    pub emitted: Vec<String>,
    pub duplicate: bool,
    pub ledger: Vec<String>,
}

/// The events of a stream.
pub open spec fn events(plan: Seq<Planned>) -> Seq<Seq<char>> {
    plan.map_values(|s: Planned| s.event@)
}

/// The seeded saga once a stream of events has come in.
pub open spec fn saga_after(events: Seq<Seq<char>>) -> Choreography {
    Choreography::fresh(strs(STEPS@)).run(events)
}

/// The step says what the reaction table makes of its event.
pub open spec fn step_follows(s: Planned, before: Choreography) -> bool {
    &&& exists|k: int| 0 <= k < POOL@.len() && s.event@ == #[trigger] POOL@[k]@
    &&& s.duplicate == before.handled.contains(s.event@)
    &&& texts(s.emitted@) == before.emits(s.event@)
    &&& texts(s.ledger@) == before.after(s.event@).ledger
}

/// Every step says what the reaction table makes of all the events up to it.
pub open spec fn follows_the_table(plan: Seq<Planned>) -> bool {
    forall|i: int|
        0 <= i < plan.len() ==> step_follows(#[trigger] plan[i], saga_after(events(plan.take(i))))
}

proof fn lemma_steps_differ()
    ensures
        strs(STEPS@).no_duplicates(),
{
    reveal_strlit("a");
    reveal_strlit("b");
    reveal_strlit("c");
    let all = strs(STEPS@);
    assert(all[0] == "a"@ && all[1] == "b"@ && all[2] == "c"@);
    assert("a"@[0] == 'a' && "b"@[0] == 'b' && "c"@[0] == 'c');
}

/// Forty seeded events, each with what it must emit, whether it is a duplicate and what the ledger must
/// then hold; and the outcome and the requests in flight at the end.
pub fn plan(rng: &mut StdRng) -> (r: (Vec<Planned>, Outcome, usize))
    ensures
        r.0@.len() == 40,
        follows_the_table(r.0@),
        r.1 == saga_after(events(r.0@)).outcome,
        r.2 == saga_after(events(r.0@)).inflight_do.len() + saga_after(events(r.0@)).inflight_undo.len(),
{
    let names = STEPS;
    let pool = POOL;
    let mut model = Model::new(&names);
    let mut plan: Vec<Planned> = Vec::new();
    assert(events(plan@) =~= Seq::<Seq<char>>::empty());
    proof {
        lemma_steps_differ();
    }
    let mut i: usize = 0;
    while i < 40
        invariant
            i <= 40,
            pool@ == POOL@,
            strs(STEPS@).no_duplicates(),
            plan@.len() == i,
            model@ == saga_after(events(plan@)),
            follows_the_table(plan@),
        decreases 40 - i,
    {
        let pick: usize = draw_usize(rng, 0, 10);
        let event = pool[pick];
        let ghost before = plan@;
        let duplicate = model.is_duplicate(event);
        let emitted: Vec<String> = if duplicate {
            let nothing: Vec<String> = Vec::new();
            proof {
                assert(texts(nothing@) =~= Seq::<Seq<char>>::empty());
                handled_event_is_absorbed(strs(STEPS@), events(before), event@);
                assert(events(before).push(event@).drop_last() =~= events(before));
            }
            nothing
        } else {
            model.apply(event)
        };
        let ledger = copy_texts(model.ledger());
        plan.push(Planned { event: String::from_str(event), emitted, duplicate, ledger });
        proof {
            assert(event@ == POOL@[pick as int]@);
            assert(events(plan@).drop_last() =~= events(before));
            assert(plan@.take(before.len() as int) =~= before);
            assert forall|k: int| 0 <= k < plan@.len() implies step_follows(
                #[trigger] plan@[k],
                saga_after(events(plan@.take(k))),
            ) by {
                if k < before.len() {
                    assert(before[k] == plan@[k]);
                    assert(plan@.take(k) =~= before.take(k));
                }
            }
        }
        i += 1;
    }
    proof {
        one_request_in_flight(strs(STEPS@), events(plan@));
    }
    let outcome = model.outcome();
    let inflight: usize = model.inflight();
    (plan, outcome, inflight)
}

/// What the program answered to one event.
#[derive(Debug)]
pub struct Seen {
    pub emitted: Vec<String>,
    pub duplicate: bool,
    pub ledger: Vec<String>,
}

/// The list of texts a field is.
pub open spec fn text_list(answer: Json, field: Seq<char>) -> Option<Seq<Seq<char>>> {
    match lookup(answer, field) {
        Some(Json::Array(items)) => text_items(items@),
        _ => None,
    }
}

/// Reads what the program answered to one event.
pub fn read_event(command: &str, answer: &Json) -> (r: Result<Seen, Misshapen>)
    ensures
        r is Ok <==> {
            &&& text_list(*answer, "emitted"@) is Some
            &&& lookup(*answer, "duplicate"@) matches Some(Json::Bool(_))
            &&& text_list(*answer, "ledger"@) is Some
        },
        r matches Ok(seen) ==> {
            &&& text_list(*answer, "emitted"@) == Some(texts(seen.emitted@))
            &&& lookup(*answer, "duplicate"@) == Some(Json::Bool(seen.duplicate))
            &&& text_list(*answer, "ledger"@) == Some(texts(seen.ledger@))
        },
        r matches Err(e) ==> e.command@ == command@ && e.field@ == if text_list(*answer, "emitted"@) is None {
            "emitted"@
        } else if !(lookup(*answer, "duplicate"@) matches Some(Json::Bool(_))) {
            "duplicate"@
        } else {
            "ledger"@
        },
{
    let emitted = match expect_strs(answer, command, "emitted") {
        Ok(all) => all,
        Err(e) => {
            return Err(e);
        },
    };
    let duplicate = match expect_bool(answer, command, "duplicate") {
        Ok(b) => b,
        Err(e) => {
            return Err(e);
        },
    };
    match expect_strs(answer, command, "ledger") {
        Ok(ledger) => Ok(Seen { emitted, duplicate, ledger }),
        Err(e) => Err(e),
    }
}

/// The command that delivers an event.
pub open spec fn delivery(event: Seq<char>) -> Seq<char> {
    "event "@ + event
}

/// The command that delivers an event.
pub fn deliver(event: &str) -> (s: String)
    ensures
        s@ == delivery(event@),
{
    labelled("event ", event)
}

/// What the report says of one event.
pub open spec fn step_rulings(i: nat, want: Planned, got: Seen) -> Seq<Ruling> {
    let command = delivery(want.event@);
    seq![
        is_fact(
            step_path(i, command, "emitted"@),
            Truth::Texts(texts(want.emitted@)),
            Truth::Texts(texts(got.emitted@)),
        ),
        is_bool(step_path(i, command, "duplicate"@), want.duplicate, got.duplicate),
        is_fact(
            step_path(i, command, "ledger"@),
            Truth::Texts(texts(want.ledger@)),
            Truth::Texts(texts(got.ledger@)),
        ),
    ]
}

/// What the report says of every event that was seen.
pub open spec fn all_rulings(plan: Seq<Planned>, seen: Seq<Seen>) -> Seq<Seq<Ruling>> {
    Seq::new(seen.len(), |i: int| step_rulings(i as nat, plan[i], seen[i]))
}

/// Holds what was seen against a seeded stream, up to the first event that differs, and then the
/// outcome and the requests in flight at its end.
pub fn judge_stream(
    seed: u64,
    plan: &Vec<Planned>,
    seen: &Vec<Seen>,
    want: (Outcome, usize),
    outcome: &str,
    inflight: i64,
) -> (c: Check)
    requires
        seen@.len() <= plan@.len(),
    ensures
        c@ == (Verdict {
            subject: "forty seeded events replayed against the reaction table"@,
            rulings: until_failure(all_rulings(plan@, seen@)) + seq![
                is_text("outcome.outcome"@, want.0.text(), outcome@),
                is_int("outcome.inflight"@, want.1 as int, inflight as int),
            ],
            notes: seq![seed_note(seed as nat, plan@.len(), "events"@)],
            blocks: Seq::empty(),
            remarks: Seq::empty(),
        }),
{
    let mut c = Check::new("forty seeded events replayed against the reaction table");
    c.note(note_seed(seed, plan.len(), "events").as_str());
    let ghost groups = all_rulings(plan@, seen@);
    let mut i: usize = 0;
    assert(groups.take(0) =~= Seq::empty());
    while i < seen.len() && c.ok()
        invariant
            i <= seen@.len() <= plan@.len(),
            groups == all_rulings(plan@, seen@),
            c@.subject == "forty seeded events replayed against the reaction table"@,
            c@.quiet(),
            c@.notes == seq![seed_note(seed as nat, plan@.len(), "events"@)],
            c@.rulings == until_failure(groups.take(i as int)),
        decreases seen@.len() - i,
    {
        let step = &plan[i];
        let got = &seen[i];
        let ghost before = c@.rulings;
        let command = deliver(step.event.as_str());
        c.eq(
            name_step(i, command.as_str(), "emitted").as_str(),
            texts_fact(&step.emitted),
            texts_fact(&got.emitted),
        );
        c.eq_bool(
            name_step(i, command.as_str(), "duplicate").as_str(),
            step.duplicate,
            got.duplicate,
        );
        c.eq(
            name_step(i, command.as_str(), "ledger").as_str(),
            texts_fact(&step.ledger),
            texts_fact(&got.ledger),
        );
        proof {
            assert(c@.rulings =~= before + groups[i as int]);
            lemma_until_failure_step(groups, i as int);
        }
        i += 1;
    }
    proof {
        lemma_until_failure_rest(groups, i as int);
    }
    let ghost before = c@.rulings;
    c.eq_text("outcome.outcome", want.0.name(), outcome);
    c.eq_int("outcome.inflight", want.1 as i128, inflight as i128);
    assert(c@.rulings =~= before + seq![
        is_text("outcome.outcome"@, want.0.text(), outcome@),
        is_int("outcome.inflight"@, want.1 as int, inflight as int),
    ]);
    c
}

/// What a saga does about an event, at every point it can stand at: the first step is asked for at the start,
/// the next one once a step is done, and nothing once the last one is; a failure has the step before the one
/// that failed undone, and an undone step the one before it; everything else is dropped and emits nothing.
pub proof fn events_emit_the_next_request(c: Choreography, p: Progress, event: Seq<char>)
    requires
        c.names.no_duplicates(),
        c.stands_at(p),
    ensures
        c.emits(event) == (match (p, report(c.names, event)) {
            (Progress::Idle, Report::Start) => if c.names.len() > 0 {
                seq![c.names[0] + ".do"@]
            } else {
                Seq::empty()
            },
            ((Progress::Doing { k }), (Report::Done { step })) => if step == k && k + 1 < c.names.len() {
                seq![c.names[k + 1] + ".do"@]
            } else {
                Seq::empty()
            },
            ((Progress::Doing { k }), (Report::Failed { step })) => if step == k && k > 0 {
                seq![c.names[k - 1] + ".undo"@]
            } else {
                Seq::empty()
            },
            ((Progress::Undoing { next, .. }), (Report::Undone { step })) => if step == next && next > 0 {
                seq![c.names[next - 1] + ".undo"@]
            } else {
                Seq::empty()
            },
            _ => Seq::empty(),
        }),
{
    let r = report(c.names, event);
    assert(r matches Report::Done { step } ==> 0 <= step < c.names.len()) by {
        lemma_report_step(c.names, event);
    }
    assert(r matches Report::Failed { step } ==> 0 <= step < c.names.len()) by {
        lemma_report_step(c.names, event);
    }
    assert(r matches Report::Undone { step } ==> 0 <= step < c.names.len()) by {
        lemma_report_step(c.names, event);
    }
}

proof fn lemma_report_step(names: Seq<Seq<char>>, event: Seq<char>)
    ensures
        report(names, event) matches Report::Done { step } ==> 0 <= step < names.len(),
        report(names, event) matches Report::Failed { step } ==> 0 <= step < names.len(),
        report(names, event) matches Report::Undone { step } ==> 0 <= step < names.len(),
{
    if let Some(parts) = split_at_last_dot(event) {
        if names.contains(parts.0) {
            names.index_of_first_ensures(parts.0);
        }
    }
}

/// An event is remembered as handled exactly where the saga did something about it; nothing that was handled
/// is forgotten.
pub proof fn handled_events_are_remembered(c: Choreography, event: Seq<char>)
    ensures
        c.applies(report(c.names, event)) ==> c.after(event).handled == c.handled.push(event),
        !c.applies(report(c.names, event)) ==> c.after(event) == c && c.emits(event).len() == 0,
{
}

/// What a saga waits for is what it answers to: the start where nothing was handled, the outcome of a step
/// that was asked for as long as nothing is being undone, and the undoing of a step that was asked to be
/// undone.
pub proof fn saga_answers_to_what_it_waits_for(c: Choreography, step: int)
    ensures
        c.applies(Report::Start) <==> c.handled.len() == 0 && c.names.len() > 0,
        c.applies((Report::Done { step })) <==> !c.compensating && c.inflight_do.contains(c.names[step]),
        c.applies((Report::Failed { step })) <==> !c.compensating && c.inflight_do.contains(c.names[step]),
        c.applies((Report::Undone { step })) <==> c.inflight_undo.contains(c.names[step]),
        !c.applies(Report::Noise),
{
}

/// A saga starts with its steps, nothing handled, nothing done and nothing asked for.
pub proof fn saga_starts_with_nothing(names: Seq<Seq<char>>)
    ensures
        Choreography::fresh(names).names == names,
        Choreography::fresh(names).handled.len() == 0,
        Choreography::fresh(names).ledger.len() == 0,
        Choreography::fresh(names).inflight_do.len() == 0,
        Choreography::fresh(names).inflight_undo.len() == 0,
        !Choreography::fresh(names).compensating,
        Choreography::fresh(names).outcome == Outcome::Running,
        Choreography::fresh(names).stands_at(Progress::Idle),
{
}

/// What the ledger and the outcome are at every point a saga can stand at: the steps asked for so far, in
/// order, then the undone ones, newest first; running until the last step is done or the first undone.
pub proof fn ledger_tells_where_the_saga_stands(c: Choreography, p: Progress, i: int)
    requires
        c.stands_at(p),
    ensures
        p matches Progress::Doing { k } ==> {
            &&& c.ledger.len() == k + 1
            &&& 0 <= i <= k ==> c.ledger[i] == "do:"@ + c.names[i]
            &&& c.outcome == Outcome::Running
        },
        p matches Progress::Undoing { failed, next } ==> {
            &&& c.ledger.len() == failed + 1 + (failed - next - 1)
            &&& 0 <= i <= failed ==> c.ledger[i] == "do:"@ + c.names[i]
            &&& failed < i < c.ledger.len() ==> c.ledger[i] == "undo:"@ + c.names[2 * failed - i]
            &&& c.outcome == Outcome::Running
        },
        p is Committed ==> {
            &&& c.ledger.len() == c.names.len()
            &&& 0 <= i < c.names.len() ==> c.ledger[i] == "do:"@ + c.names[i]
            &&& c.outcome == Outcome::Committed
        },
        p matches Progress::Compensated { failed } ==> {
            &&& c.ledger.len() == 2 * failed + 1
            &&& 0 <= i <= failed ==> c.ledger[i] == "do:"@ + c.names[i]
            &&& failed < i < c.ledger.len() ==> c.ledger[i] == "undo:"@ + c.names[2 * failed - i]
            &&& c.outcome == Outcome::Compensated
        },
        p is Idle ==> c.ledger.len() == 0 && c.outcome == Outcome::Running,
{
}

/// Once every step has reported that it was done, in order, a saga is committed; and a failure of step `k`
/// walks it back to the first.
pub proof fn happy_path_commits(names: Seq<Seq<char>>, n: int) -> (p: Progress)
    requires
        names.no_duplicates(),
        names.len() > 0,
        0 <= n <= names.len(),
    ensures
        Choreography::fresh(names).run(seq!["start"@] + oks(names, n)).stands_at(p),
        n < names.len() ==> p == (Progress::Doing { k: n }),
        n == names.len() ==> p == Progress::Committed,
        Choreography::fresh(names).run(seq!["start"@] + oks(names, n)).names == names,
    decreases n,
{
    let all = seq!["start"@] + oks(names, n);
    let c = Choreography::fresh(names);
    if n == 0 {
        assert(all =~= seq!["start"@]);
        assert(all.drop_last() =~= Seq::empty());
        assert(c.run(Seq::empty()) == c);
        published_events_are_understood(names, 0);
        events_move_the_saga_on(c, Progress::Idle, "start"@);
        (Progress::Doing { k: 0 })
    } else {
        let before = happy_path_commits(names, n - 1);
        let front = seq!["start"@] + oks(names, n - 1);
        assert(all.drop_last() =~= front);
        assert(all.last() == names[n - 1] + ".ok"@);
        published_events_are_understood(names, n - 1);
        events_move_the_saga_on(c.run(front), before, all.last());
        if n < names.len() {
            (Progress::Doing { k: n })
        } else {
            Progress::Committed
        }
    }
}

/// The reports that the first `n` steps were done.
pub open spec fn oks(names: Seq<Seq<char>>, n: int) -> Seq<Seq<char>> {
    Seq::new(n as nat, |i: int| names[i] + ".ok"@)
}

/// The reports that the steps below `failed`, down to `lowest`, were undone, newest first.
pub open spec fn undone_reports(names: Seq<Seq<char>>, failed: int, lowest: int) -> Seq<Seq<char>> {
    Seq::new((failed - lowest) as nat, |i: int| names[failed - 1 - i] + ".undone"@)
}

/// Where step `failed` fails after every one before it was done, the steps before it are undone, newest
/// first, and the saga is compensated once the first one is.
pub proof fn failure_walks_back_to_the_first(names: Seq<Seq<char>>, failed: int, lowest: int)
    requires
        names.no_duplicates(),
        0 <= lowest <= failed < names.len(),
    ensures
        ({
            let c = Choreography::fresh(names).run(
                seq!["start"@] + oks(names, failed) + seq![names[failed] + ".fail"@] + undone_reports(
                    names,
                    failed,
                    lowest,
                ),
            );
            &&& c.names == names
            &&& lowest == 0 ==> c.stands_at((Progress::Compensated { failed }))
            &&& lowest > 0 ==> c.stands_at((Progress::Undoing { failed, next: lowest - 1 }))
        }),
    decreases failed - lowest,
{
    let c = Choreography::fresh(names);
    let head = seq!["start"@] + oks(names, failed);
    let fail = seq![names[failed] + ".fail"@];
    let all = head + fail + undone_reports(names, failed, lowest);
    if lowest == failed {
        let p = happy_path_commits(names, failed);
        assert(all.drop_last() =~= head);
        published_events_are_understood(names, failed);
        events_move_the_saga_on(c.run(head), p, names[failed] + ".fail"@);
        assert(all.last() == names[failed] + ".fail"@);
    } else {
        failure_walks_back_to_the_first(names, failed, lowest + 1);
        let front = head + fail + undone_reports(names, failed, lowest + 1);
        assert(all.drop_last() =~= front);
        assert(all.last() == names[lowest] + ".undone"@);
        published_events_are_understood(names, lowest);
        events_move_the_saga_on(
            c.run(front),
            (Progress::Undoing { failed, next: lowest }),
            all.last(),
        );
    }
}

/// Events happen one after the other.
pub proof fn events_happen_one_after_the_other(c: Choreography, events: Seq<Seq<char>>, event: Seq<char>)
    ensures
        c.run(Seq::empty()) == c,
        c.run(events.push(event)) == c.run(events).after(event),
{
    assert(events.push(event).drop_last() =~= events);
}

/// The words a saga uses: a step's name and what is asked of it, an outcome, and how an event is delivered.
pub proof fn words_of_a_saga(name: Seq<char>)
    ensures
        do_event(name) == name + ".do"@,
        undo_event(name) == name + ".undo"@,
        delivery(name) == "event "@ + name,
        Outcome::Running.text() == "running"@,
        Outcome::Committed.text() == "committed"@,
        Outcome::Compensated.text() == "compensated"@,
        strs(STEPS@) == seq!["a"@, "b"@, "c"@],
        saga_after(Seq::empty()) == Choreography::fresh(seq!["a"@, "b"@, "c"@]),
{
    assert(strs(STEPS@) =~= seq!["a"@, "b"@, "c"@]);
}

/// What was seen of an event is what was planned.
pub open spec fn as_planned(want: Planned, got: Seen) -> bool {
    &&& texts(want.emitted@) == texts(got.emitted@)
    &&& want.duplicate == got.duplicate
    &&& texts(want.ledger@) == texts(got.ledger@)
}

/// A stream passes exactly where everything seen of every event, the outcome and how much is in flight are
/// the planned ones.
pub proof fn stream_passes_where_everything_is_the_planned_one(
    plan: Seq<Planned>,
    seen: Seq<Seen>,
    want: (Outcome, usize),
    outcome: Seq<char>,
    inflight: i64,
)
    requires
        seen.len() <= plan.len(),
    ensures
        all_hold(
            until_failure(all_rulings(plan, seen)) + seq![
                is_text("outcome.outcome"@, want.0.text(), outcome),
                is_int("outcome.inflight"@, want.1 as int, inflight as int),
            ],
        ) <==> outcome == want.0.text() && inflight == want.1 && forall|i: int|
            0 <= i < seen.len() ==> as_planned(plan[i], #[trigger] seen[i]),
{
    let groups = all_rulings(plan, seen);
    let run = until_failure(groups);
    let end = seq![
        is_text("outcome.outcome"@, want.0.text(), outcome),
        is_int("outcome.inflight"@, want.1 as int, inflight as int),
    ];
    run_passes_where_every_step_does(groups);
    assert(all_hold(run + end) <==> all_hold(run) && end[0].holds() && end[1].holds()) by {
        if all_hold(run + end) {
            assert((run + end)[run.len() as int].holds());
            assert((run + end)[run.len() + 1int].holds());
            assert forall|i: int| 0 <= i < run.len() implies (#[trigger] run[i]).holds() by {
                assert((run + end)[i].holds());
            }
        }
    }
    assert forall|i: int| 0 <= i < seen.len() implies (all_hold(#[trigger] groups[i]) <==> as_planned(
        plan[i],
        seen[i],
    )) by {
        let g = groups[i];
        assert(g == step_rulings(i as nat, plan[i], seen[i]));
        if all_hold(g) {
            assert(g[0].holds() && g[1].holds() && g[2].holds());
        }
    }
    if all_hold(run) {
        assert forall|i: int| 0 <= i < seen.len() implies as_planned(plan[i], #[trigger] seen[i]) by {
            assert(all_hold(groups[i]));
        }
    } else {
        let i = choose|i: int| 0 <= i < groups.len() && !all_hold(#[trigger] groups[i]);
        assert(!as_planned(plan[i], seen[i]));
    }
}

/// The topic the program is asked about.
pub const TOPIC: &'static str = "saga-choreo";

/// An event chain with no failure commits every step.
pub const A_CHAIN_WITH_NO_FAILURE_COMMITS: &'static str = r#"the forward chain of a three-step saga
> init ["reserve","charge","ship"]
> event start
> event reserve.ok
> event charge.ok
> event ship.ok
> outcome
@ 2 event start
$ emitted | ["reserve.do"] | event(start).emitted
@ 3 event reserve.ok
$ emitted | ["charge.do"] | event(reserve.ok).emitted
@ 4 event charge.ok
$ emitted | ["ship.do"] | event(charge.ok).emitted
@ 5 event ship.ok
$ emitted | [] | event(ship.ok).emitted
@ 6 outcome
= outcome | "committed" | outcome.outcome
= inflight | 0 | outcome.inflight"#;

/// The choreographed happy path reaches the orchestrated ledger.
pub const THE_HAPPY_PATH_MATCHES_THE_ORCHESTRATOR: &'static str = r#"the ledger a choreographed happy path leaves behind
> init ["reserve","charge","ship"]
> event start
> event reserve.ok
> event charge.ok
> event ship.ok
> ledger
$ entries | ["do:reserve","do:charge","do:ship"] | ledger.entries"#;

/// A failure undoes the earlier steps in reverse.
pub const A_FAILURE_UNDOES_IN_REVERSE: &'static str = r#"a failure at the last step, walked back to the first
> init ["reserve","charge","ship"]
> event start
> event reserve.ok
> event charge.ok
> event ship.fail
> event charge.undone
> event reserve.undone
> ledger
> outcome
@ 5 event ship.fail
$ emitted | ["charge.undo"] | event(ship.fail).emitted
@ 6 event charge.undone
$ emitted | ["reserve.undo"] | event(charge.undone).emitted
@ 7 event reserve.undone
$ emitted | [] | event(reserve.undone).emitted
@ 8 ledger
$ entries | ["do:reserve","do:charge","do:ship","undo:charge","undo:reserve"] | ledger.entries
@ 9 outcome
= outcome | "compensated" | outcome.outcome"#;

/// An event delivered twice emits only once.
pub const A_DUPLICATE_EVENT_EMITS_ONCE: &'static str = r#"one acknowledgement delivered three times
> init ["reserve","charge","ship"]
> event start
> event reserve.ok
> event reserve.ok
> event reserve.ok
> ledger
@ 3 event reserve.ok
$ emitted | ["charge.do"] | the first event(reserve.ok).emitted
= duplicate | false | the first event(reserve.ok).duplicate
@ 4 event reserve.ok
$ emitted | [] | the second event(reserve.ok).emitted
= duplicate | true | the second event(reserve.ok).duplicate
@ 5 event reserve.ok
= duplicate | true | the third event(reserve.ok).duplicate
@ 6 ledger
$ entries | ["do:reserve","do:charge"] | ledger.entries"#;

/// Two failure events start only one compensation chain.
pub const TWO_FAILURES_RUN_ONE_CHAIN: &'static str = r#"two failure events reaching one saga
> init ["reserve","charge","ship"]
> event start
> event reserve.ok
> event charge.fail
> event ship.fail
> event charge.fail
> event reserve.undone
> ledger
> outcome
@ 8 ledger
~ entries | [] | -
@ 4 event charge.fail
$ emitted | ["reserve.undo"] | event(charge.fail).emitted
@ 5 event ship.fail
$ emitted | [] | event(ship.fail).emitted
@ 6 event charge.fail
= duplicate | true | the repeated event(charge.fail).duplicate
@ 8 ledger
* entries | 1 undo:reserve | the number of undo:reserve entries
$ entries | ["do:reserve","do:charge","undo:reserve"] | ledger.entries
@ 9 outcome
= outcome | "compensated" | outcome.outcome"#;

/// An event that does not apply yet is dropped, not queued.
pub const A_PREMATURE_EVENT_IS_DROPPED: &'static str = r#"an acknowledgement that arrived before its own command
> init ["reserve","charge","ship"]
> event start
> event ship.ok
> event reserve.ok
> event charge.ok
> event ship.ok
> outcome
@ 3 event ship.ok
$ emitted | [] | the early event(ship.ok).emitted
= duplicate | false | the early event(ship.ok).duplicate
@ 6 event ship.ok
= duplicate | false | the proper event(ship.ok).duplicate
@ 7 outcome
= outcome | "committed" | outcome.outcome"#;

/// The saga commits only when the last step answers.
pub const THE_SAGA_COMMITS_ON_THE_LAST_STEP: &'static str = r#"the outcome at three points of the forward chain
> init ["reserve","charge","ship"]
> event start
> outcome
> event reserve.ok
> event charge.ok
> outcome
> event ship.ok
> outcome
@ 3 outcome
= outcome | "running" | outcome after start
= inflight | 1 | inflight after start
@ 6 outcome
= outcome | "running" | outcome with one step still out
= inflight | 1 | inflight with one step still out
@ 8 outcome
= outcome | "committed" | outcome after the last step"#;

/// A failure at the first step compensates nothing.
pub const A_FAILURE_AT_THE_FIRST_STEP: &'static str = r#"the first step failing, with nothing behind it
> init ["reserve","charge","ship"]
> event start
> event reserve.fail
> ledger
> outcome
@ 3 event reserve.fail
$ emitted | [] | event(reserve.fail).emitted
@ 4 ledger
$ entries | ["do:reserve"] | ledger.entries
@ 5 outcome
= outcome | "compensated" | outcome.outcome"#;

/// A repeated undone event does not undo twice.
pub const A_REPEATED_UNDONE_DOES_NOT_UNDO_TWICE: &'static str = r#"compensation acknowledgements delivered twice
> init ["reserve","charge","ship"]
> event start
> event reserve.ok
> event charge.ok
> event ship.fail
> event charge.undone
> event charge.undone
> event reserve.undone
> event reserve.undone
> ledger
~ entries | [] | -
@ 7 event charge.undone
= duplicate | true | the repeated event(charge.undone).duplicate
@ 9 event reserve.undone
= duplicate | true | the repeated event(reserve.undone).duplicate
@ 10 ledger
: entries | 2 undo: | the number of undo entries
$ entries | ["do:reserve","do:charge","do:ship","undo:charge","undo:reserve"] | ledger.entries"#;

/// What somebody stuck on this stage is told, one after the other.
pub const HINTS: [&'static str; 4] = [
    "Topic `saga-choreo`: each service reacts to one event and emits the next",
    "`<step>.fail` starts the chain; `<step>.undone` walks it one step further back",
    "The bus is at-least-once, so an event already handled must emit nothing",
    "Once a chain is running, a second failure is absorbed — one saga, one chain",
];

/// The tests of this stage.
pub const TESTS: [TestRow; 10] = [
    (
        "an event chain with no failure commits every step",
        "a_chain_with_no_failure_commits",
        false,
        false,
        0,
        0,
        A_CHAIN_WITH_NO_FAILURE_COMMITS,
    ),
    (
        "the choreographed happy path reaches the orchestrated ledger",
        "the_happy_path_matches_the_orchestrator",
        false,
        false,
        0,
        0,
        THE_HAPPY_PATH_MATCHES_THE_ORCHESTRATOR,
    ),
    (
        "a failure undoes the earlier steps in reverse",
        "a_failure_undoes_in_reverse",
        false,
        false,
        0,
        0,
        A_FAILURE_UNDOES_IN_REVERSE,
    ),
    (
        "an event delivered twice emits only once",
        "a_duplicate_event_emits_once",
        false,
        false,
        0,
        0,
        A_DUPLICATE_EVENT_EMITS_ONCE,
    ),
    (
        "two failure events start only one compensation chain",
        "two_failures_run_one_chain",
        false,
        false,
        0,
        0,
        TWO_FAILURES_RUN_ONE_CHAIN,
    ),
    (
        "an event that does not apply yet is dropped, not queued",
        "a_premature_event_is_dropped",
        false,
        false,
        0,
        0,
        A_PREMATURE_EVENT_IS_DROPPED,
    ),
    (
        "the saga commits only when the last step answers",
        "the_saga_commits_on_the_last_step",
        false,
        false,
        0,
        0,
        THE_SAGA_COMMITS_ON_THE_LAST_STEP,
    ),
    (
        "a failure at the first step compensates nothing",
        "a_failure_at_the_first_step",
        true,
        false,
        0,
        0,
        A_FAILURE_AT_THE_FIRST_STEP,
    ),
    (
        "a repeated undone event does not undo twice",
        "a_repeated_undone_does_not_undo_twice",
        true,
        false,
        0,
        0,
        A_REPEATED_UNDONE_DOES_NOT_UNDO_TWICE,
    ),
    (
        "forty seeded events match the tester's own reaction table",
        "a_seeded_event_stream",
        true,
        false,
        0,
        0,
        "",
    ),
];

/// The worked examples of this stage.
pub const EXAMPLES: [PrimRow; 2] = [
    (
        "A failure two steps in",
        "saga-choreo",
        r#"init ["reserve","charge","ship"]
event start
event reserve.ok
event charge.fail
event reserve.undone
ledger
outcome"#,
        "the chain started, one step acknowledged, the next failed",
        "each event but the last emits exactly one, and the ledger ends with undo:reserve",
        "Nothing here decides anything: `charge.fail` emits `reserve.undo` because that is the \
         rule the reserve service subscribes to, and the chain stops when it runs out of \
         earlier steps. The order is the reverse of the forward chain for the same reason it is \
         in an orchestrated saga — each undo is triggered by the one after it.",
    ),
    (
        "A bus that delivers the same event twice",
        "saga-choreo",
        r#"init ["reserve","charge","ship"]
event start
event reserve.ok
event reserve.ok
ledger"#,
        "one acknowledgement, delivered twice",
        "the first emits charge.do; the second emits nothing and says so",
        "At-least-once is the only delivery a broker can really offer, so the second copy is not \
         an error — it is the normal case. A handler that is not idempotent per event charges \
         the card twice here, and no amount of care further down the chain undoes that.",
    ),
];

/// The worked examples of this stage.
pub fn examples() -> (examples: Vec<ExampleSpec>)
    ensures
        described(examples@) == EXAMPLES@.map_values(|row: PrimRow| prim_described(row)),
{
    prim_examples(EXAMPLES)
}

/// What the rows say of this stage's place in the suite.
proof fn lemma_in_place()
    ensures
        rows_written(TESTS@),
        rows_on_topic(EXAMPLES@, HINTS[0]@),
{
    assert(rows_written(TESTS@)) by {
        reveal_strlit("placeholder");
        reveal_strlit("an event chain with no failure commits every step");
        assert(TESTS@[0].0@.len() == 49);
        reveal_strlit("the choreographed happy path reaches the orchestrated ledger");
        assert(TESTS@[1].0@.len() == 60);
        reveal_strlit("a failure undoes the earlier steps in reverse");
        assert(TESTS@[2].0@.len() == 45);
        reveal_strlit("an event delivered twice emits only once");
        assert(TESTS@[3].0@.len() == 40);
        reveal_strlit("two failure events start only one compensation chain");
        assert(TESTS@[4].0@.len() == 52);
        reveal_strlit("an event that does not apply yet is dropped, not queued");
        assert(TESTS@[5].0@.len() == 55);
        reveal_strlit("the saga commits only when the last step answers");
        assert(TESTS@[6].0@.len() == 48);
        reveal_strlit("a failure at the first step compensates nothing");
        assert(TESTS@[7].0@.len() == 47);
        reveal_strlit("a repeated undone event does not undo twice");
        assert(TESTS@[8].0@.len() == 43);
        reveal_strlit("forty seeded events match the tester's own reaction table");
        assert(TESTS@[9].0@.len() == 57);
        assert forall|i: int| 0 <= i < 10 implies (#[trigger] TESTS@[i]).0@ != "placeholder"@ by {
            assert(i == 0 || i == 1 || i == 2 || i == 3 || i == 4 || i == 5 || i == 6 || i == 7 || i == 8 || i == 9);
        }
    }
    assert(names_topic_at(HINTS[0]@, "saga-choreo"@, 6)) by {
        reveal_strlit("`");
        reveal_strlit("saga-choreo");
        reveal_strlit("Topic `saga-choreo`: each service reacts to one event and emits the next");
        assert(HINTS[0]@.subrange(6, 19) =~= "`"@ + "saga-choreo"@ + "`"@);
    }
    reveal_strlit("init ");
    assert(EXAMPLES@[0].2@.len() >= 5 && EXAMPLES@[0].2@.take(5) =~= "init "@) by {
        reveal_strlit(
            "init [\"reserve\",\"charge\",\"ship\"]\n\
             event start\n\
             event reserve.ok\n\
             event charge.fail\n\
             event reserve.undone\n\
             ledger\n\
             outcome",
        );
    }
    assert(EXAMPLES@[1].2@.len() >= 5 && EXAMPLES@[1].2@.take(5) =~= "init "@) by {
        reveal_strlit(
            "init [\"reserve\",\"charge\",\"ship\"]\n\
             event start\n\
             event reserve.ok\n\
             event reserve.ok\n\
             ledger",
        );
    }
}

/// What stage 67 holds.
pub open spec fn is_stage(s: Stage) -> bool {
    &&& s.number == 67
    &&& s.slug == "saga_choreographed"
    &&& s.name == "Choreographed saga"
    &&& s.ext == false
    &&& s.ladder == Ladder::Algorithms
    &&& s.hints == HINTS
    &&& s.tests@ == tests_of(TESTS@)
    &&& described(s.examples@) == EXAMPLES@.map_values(|row: PrimRow| prim_described(row))
}

/// Stage 67.
pub fn stage() -> (s: Stage)
    ensures
        is_stage(s),
        s.in_place(),
{
    let s = Stage {
        number: 67,
        slug: "saga_choreographed",
        name: "Choreographed saga",
        ext: false,
        ladder: Ladder::Algorithms,
        hints: HINTS,
        examples: examples(),
        tests: tests(TESTS),
    };
    proof {
        reveal(Stage::in_place);
        assert(s.examples@.len() == described(s.examples@).len());
        lemma_in_place();
        assert forall|i: int| 0 <= i < s.examples@.len() implies opens_topic(
            #[trigger] s.examples@[i]@,
            s.hints[0]@,
        ) by {
            assert(described(s.examples@)[i] == prim_described(EXAMPLES@[i]));
        }
    }
    s
}

} // verus!
