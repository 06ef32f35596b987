//! Stage 59: Raft snapshots and log compaction.
//!
//! A server throws away a committed prefix of its log and remembers it as one snapshot, so the log
//! no longer starts at index 1. This stage is about that boundary, and about the message a leader
//! sends when a follower has fallen behind the entries it still holds.
use rand::rngs::StdRng;
use vstd::prelude::*;
use crate::check::{
    all_hold, is_at_least, is_fact, is_int, lemma_until_failure_rest, lemma_until_failure_step, name_step,
    note_seed, run_passes_where_every_step_does, seed_note, step_path, until_failure, Check, Fact, Ruling,
    Truth, Verdict,
};
use crate::draw::{draw_i32, draw_i64};
use crate::json::Json;
use crate::prim::{expect_i64, loose_ints, read_loose_ints, whole_field, Misshapen};
use crate::examples::{described, prim_described, prim_examples, ExampleSpec, PrimRow};
use crate::stages::{names_topic_at, opens_topic, rows_on_topic, rows_written, tests, tests_of, Ladder, Stage, TestRow};
use crate::text::{decimal_reads_back, int_list_text, int_list_to_text, int_text, push_int, whole_number};

verus! {

/// What a server does with an incoming snapshot.
#[derive(Clone, Copy, Debug, PartialEq, Eq, Structural)]
pub enum Action {
    /// It is no newer than what the server has committed.
    Stale,
    /// The server holds the entry at the boundary, and keeps what follows it.
    Retained,
    /// The server does not hold that entry, and keeps nothing.
    Discarded,
}

impl Action {
    /// The action as an `install` answer spells it.
    pub open spec fn text(self) -> Seq<char> {
        match self {
            Action::Stale => "stale"@,
            Action::Retained => "retained"@,
            Action::Discarded => "discarded"@,
        }
    }

    /// The action as an `install` answer spells it.
    pub fn name(self) -> (s: &'static str)
        ensures
            s@ == self.text(),
    {
        match self {
            Action::Stale => "stale",
            Action::Retained => "retained",
            Action::Discarded => "discarded",
        }
    }
}

/// The shape a compacted log reports: where it starts, where it ends, and its boundary.
#[derive(Debug)]
pub struct Shape {
    pub first_index: i64,
    pub last_index: i64,
    pub commit_index: i64,
    pub snapshot_index: i64,
    pub snapshot_term: i64,
    pub terms: Vec<i64>,
}

/// A log with a compacted prefix: `log` holds only the entries that survived.
#[verifier::ext_equal]
pub struct Compacted {
    pub log: Seq<i64>,
    pub snapshot_index: int,
    pub snapshot_term: int,
    pub commit_index: int,
}

impl Compacted {
    /// A log of the given terms with nothing compacted and nothing committed.
    pub open spec fn of(terms: Seq<i64>) -> Compacted {
        Compacted { log: terms, snapshot_index: 0, snapshot_term: 0, commit_index: 0 }
    }

    pub open spec fn first_index(self) -> int {
        self.snapshot_index + 1
    }

    pub open spec fn last_index(self) -> int {
        self.snapshot_index + self.log.len()
    }

    /// The term at `index`: of a surviving entry, or of the snapshot's boundary.
    pub open spec fn term_at(self, index: int) -> Option<i64> {
        if index == self.snapshot_index {
            Some(self.snapshot_term as i64)
        } else if self.first_index() <= index <= self.last_index() {
            Some(self.log[index - self.first_index()])
        } else {
            None
        }
    }

    /// What holds of a compacted log at every moment: the snapshot covers committed entries only,
    /// and no more is committed than there is.
    pub open spec fn sound(self) -> bool {
        &&& 0 <= self.snapshot_index <= self.commit_index <= self.last_index()
        &&& i64::MIN <= self.snapshot_term <= i64::MAX
    }

    /// The log once everything up to `index` is known to be committed.
    pub open spec fn committed(self, index: int) -> Compacted {
        let wanted = if index <= self.last_index() {
            index
        } else {
            self.last_index()
        };
        if wanted > self.commit_index {
            Compacted { commit_index: wanted, ..self }
        } else {
            self
        }
    }

    /// The log once everything up to `index` is a snapshot, with the term it had there.
    pub open spec fn cut_at(self, index: int, term: int) -> Compacted {
        Compacted {
            log: self.log.skip(index - self.snapshot_index),
            snapshot_index: index,
            snapshot_term: term,
            ..self
        }
    }

    /// The log once a snapshot up to `index` has been asked for: nothing past the commit index is
    /// ever compacted, and what is compacted already stays so.
    pub open spec fn snapshotted(self, index: int) -> Compacted {
        if self.snapshot_index < index <= self.commit_index {
            self.cut_at(index, self.term_at(index)->0 as int)
        } else {
            self
        }
    }

    /// What the server does with a snapshot that reaches up to `index`, whose entry is of `term`.
    pub open spec fn action(self, index: int, term: int) -> Action {
        if index <= self.commit_index {
            Action::Stale
        } else if index <= self.last_index() && self.term_at(index) == Some(term as i64) {
            Action::Retained
        } else {
            Action::Discarded
        }
    }

    /// The log once a leader's snapshot has come in.
    pub open spec fn installed(self, index: int, term: int) -> Compacted {
        match self.action(index, term) {
            Action::Stale => self,
            Action::Retained => Compacted { commit_index: index, ..self.cut_at(index, term) },
            Action::Discarded => Compacted {
                log: Seq::empty(),
                snapshot_index: index,
                snapshot_term: term,
                commit_index: index,
            },
        }
    }
}

/// A log with a compacted prefix: `log` holds only the entries that survived.
pub struct Model {
    log: Vec<i64>,
    snapshot_index: i64,
    snapshot_term: i64,
    commit_index: i64,
}

impl View for Model {
    type V = Compacted;

    closed spec fn view(&self) -> Compacted {
        Compacted {
            log: self.log@,
            snapshot_index: self.snapshot_index as int,
            snapshot_term: self.snapshot_term as int,
            commit_index: self.commit_index as int,
        }
    }
}

impl Model {
    pub fn new(terms: &[i64]) -> (m: Model)
        ensures
            m@ == Compacted::of(terms@),
            m@.sound(),
    {
        let mut log: Vec<i64> = Vec::new();
        log.extend_from_slice(terms);
        assert(log@ =~= terms@);
        Model { log, snapshot_index: 0, snapshot_term: 0, commit_index: 0 }
    }

    pub fn first_index(&self) -> (r: i64)
        requires
            self@.snapshot_index < i64::MAX,
        ensures
            r == self@.first_index(),
    {
        self.snapshot_index + 1
    }

    pub fn last_index(&self) -> (r: i64)
        requires
            self@.sound(),
            self@.last_index() <= i64::MAX,
        ensures
            r == self@.last_index(),
    {
        self.snapshot_index + self.log.len() as i64
    }

    pub fn term_at(&self, index: i64) -> (r: Option<i64>)
        requires
            self@.sound(),
            self@.last_index() < i64::MAX,
        ensures
            r == self@.term_at(index as int),
    {
        if index == self.snapshot_index {
            return Some(self.snapshot_term);
        }
        let held: usize = self.log.len();
        if index >= self.first_index() && index <= self.snapshot_index + held as i64 {
            return Some(self.log[(index - self.first_index()) as usize]);
        }
        None
    }

    pub fn shape(&self) -> (s: Shape)
        requires
            self@.sound(),
            self@.last_index() < i64::MAX,
        ensures
            s.first_index == self@.first_index(),
            s.last_index == self@.last_index(),
            s.commit_index == self@.commit_index,
            s.snapshot_index == self@.snapshot_index,
            s.snapshot_term == self@.snapshot_term,
            s.terms@ == self@.log,
    {
        let terms = self.log.clone();
        assert(terms@ =~= self.log@);
        Shape {
            first_index: self.first_index(),
            last_index: self.last_index(),
            commit_index: self.commit_index,
            snapshot_index: self.snapshot_index,
            snapshot_term: self.snapshot_term,
            terms,
        }
    }

    pub fn commit(&mut self, index: i64)
        requires
            old(self)@.sound(),
            old(self)@.last_index() <= i64::MAX,
        ensures
            final(self)@ == old(self)@.committed(index as int),
            final(self)@.sound(),
    {
        let last: i64 = self.last_index();
        let wanted: i64 = if index <= last {
            index
        } else {
            last
        };
        if wanted > self.commit_index {
            self.commit_index = wanted;
        }
    }

    /// Returns whether the snapshot was taken.
    pub fn snapshot(&mut self, index: i64) -> (r: bool)
        requires
            old(self)@.sound(),
            old(self)@.last_index() < i64::MAX,
        ensures
            r == (index <= old(self)@.commit_index),
            final(self)@ == old(self)@.snapshotted(index as int),
            final(self)@.sound(),
    {
        if index > self.commit_index {
            return false;
        }
        if index > self.snapshot_index {
            let term: i64 = match self.term_at(index) {
                Some(term) => term,
                None => self.snapshot_term,
            };
            let held: usize = self.log.len();
            assert(index - self.snapshot_index <= held);
            let dropped: usize = (index - self.snapshot_index) as usize;
            self.log = self.log.split_off(dropped);
            self.snapshot_index = index;
            self.snapshot_term = term;
            assert(self@ =~= old(self)@.snapshotted(index as int));
        }
        true
    }

    /// Returns what the server must answer as `action`.
    pub fn install(&mut self, last_included_index: i64, last_included_term: i64) -> (a: Action)
        requires
            old(self)@.sound(),
            old(self)@.last_index() < i64::MAX,
        ensures
            a == old(self)@.action(last_included_index as int, last_included_term as int),
            final(self)@ == old(self)@.installed(
                last_included_index as int,
                last_included_term as int,
            ),
            final(self)@.sound(),
    {
        if last_included_index <= self.commit_index {
            return Action::Stale;
        }
        let matching = last_included_index >= self.first_index() && self.term_at(
            last_included_index,
        ) == Some(last_included_term);
        let action = if matching {
            let held: usize = self.log.len();
            assert(last_included_index - self.snapshot_index <= held);
            let dropped: usize = (last_included_index - self.snapshot_index) as usize;
            self.log = self.log.split_off(dropped);
            Action::Retained
        } else {
            self.log.clear();
            Action::Discarded
        };
        self.snapshot_index = last_included_index;
        self.snapshot_term = last_included_term;
        self.commit_index = last_included_index;
        assert(self@ =~= old(self)@.installed(last_included_index as int, last_included_term as int));
        action
    }
}

/// A list of terms as the command line wants it: compact JSON, no spaces.
pub fn terms_arg(terms: &[i64]) -> (out: String)
    ensures
        out@ == int_list_text(terms@),
{
    int_list_to_text(terms)
}

/// Whatever is done to a compacted log, its snapshot covers committed entries only, no more is
/// committed than there is, and it starts no later than one past its end.
pub proof fn boundaries_stay_in_order(terms: Seq<i64>, c: Compacted, index: int, term: int)
    requires
        i64::MIN <= term <= i64::MAX,
    ensures
        Compacted::of(terms).sound(),
        c.sound() ==> c.committed(index).sound(),
        c.sound() ==> c.snapshotted(index).sound(),
        c.sound() ==> c.installed(index, term).sound(),
        c.sound() ==> c.first_index() <= c.last_index() + 1,
{
}

/// Neither the commit index nor the snapshot index ever goes backwards.
pub proof fn nothing_goes_backwards(c: Compacted, index: int, term: int)
    requires
        c.sound(),
    ensures
        c.committed(index).commit_index >= c.commit_index,
        c.committed(index).snapshot_index == c.snapshot_index,
        c.snapshotted(index).commit_index == c.commit_index,
        c.snapshotted(index).snapshot_index >= c.snapshot_index,
        c.installed(index, term).commit_index >= c.commit_index,
        c.installed(index, term).snapshot_index >= c.snapshot_index,
{
}

/// Nothing past the commit index is ever compacted: such a snapshot changes nothing.
pub proof fn uncommitted_entries_are_never_compacted(c: Compacted, index: int)
    requires
        c.sound(),
    ensures
        index > c.commit_index ==> c.snapshotted(index) == c,
        c.snapshotted(index).snapshot_index <= c.commit_index,
{
}

/// Compaction keeps every entry above the boundary, and the boundary's own term, where a
/// consistency check finds them; nothing below the boundary can be found any more.
pub proof fn compaction_keeps_what_survives(c: Compacted, index: int)
    requires
        c.sound(),
        c.snapshot_index < index <= c.commit_index,
    ensures
        c.snapshotted(index).last_index() == c.last_index(),
        forall|i: int| i >= index ==> #[trigger] c.snapshotted(index).term_at(i) == c.term_at(i),
        forall|i: int| i < index ==> #[trigger] c.snapshotted(index).term_at(i) is None,
{
}

/// A snapshot asked for twice, or asked for at an index that is compacted already, is taken once.
pub proof fn repeated_snapshot_changes_nothing(c: Compacted, index: int, lower: int)
    requires
        c.sound(),
        lower <= index,
    ensures
        index <= c.commit_index ==> c.snapshotted(index).snapshotted(lower) == c.snapshotted(index),
{
}

/// A snapshot that reaches no further than what is committed changes nothing; in particular one
/// that comes in twice does nothing the second time.
pub proof fn stale_install_changes_nothing(c: Compacted, index: int, term: int, later: int)
    requires
        c.sound(),
    ensures
        index <= c.commit_index ==> c.installed(index, term) == c,
        c.installed(index, term).installed(index, later) == c.installed(index, term),
{
}

/// A server that holds the entry at an incoming snapshot's boundary keeps everything after it.
pub proof fn retained_install_keeps_the_tail(c: Compacted, index: int, term: int)
    requires
        c.sound(),
        i64::MIN <= term <= i64::MAX,
        c.action(index, term) == Action::Retained,
    ensures
        c.installed(index, term).last_index() == c.last_index(),
        forall|i: int| i >= index ==> #[trigger] c.installed(index, term).term_at(i) == c.term_at(i),
{
}

/// A server that does not hold that entry keeps nothing but the snapshot.
pub proof fn discarding_install_replaces_the_log(c: Compacted, index: int, term: int)
    requires
        c.sound(),
        c.action(index, term) == Action::Discarded,
    ensures
        c.installed(index, term).log.len() == 0,
        c.installed(index, term).last_index() == index,
        c.installed(index, term).term_at(index) == Some(term as i64),
{
}

/// The log that a plan starts with.
pub const SEED_TERMS: [i64; 8] = [1, 1, 2, 2, 3, 3, 4, 4];

/// One event of a plan.
#[derive(Clone, Copy, Debug)]
pub enum Event {
    Commit { index: i64 },
    Snapshot { index: i64 },
    Install { index: i64, term: i64 },
}

impl Event {
    /// The command that has the event happen.
    pub open spec fn text(self) -> Seq<char> {
        match self {
            Event::Commit { index } => "commit "@ + int_text(index as int),
            Event::Snapshot { index } => "snapshot "@ + int_text(index as int),
            Event::Install { index, term } => "install 9 "@ + int_text(index as int) + " "@
                + int_text(term as int),
        }
    }

    /// The command that has the event happen.
    pub fn command(&self) -> (s: String)
        ensures
            s@ == self.text(),
    {
        match self {
            Event::Commit { index } => {
                let mut s = String::from_str("commit ");
                push_int(&mut s, *index);
                s
            },
            Event::Snapshot { index } => {
                let mut s = String::from_str("snapshot ");
                push_int(&mut s, *index);
                s
            },
            Event::Install { index, term } => {
                let mut s = String::from_str("install 9 ");
                push_int(&mut s, *index);
                s.append(" ");
                push_int(&mut s, *term);
                s
            },
        }
    }

    /// Whether a plan may draw the event for a log in this state.
    pub open spec fn drawable(self, c: Compacted) -> bool {
        match self {
            Event::Commit { index } => 0 <= index <= c.last_index() + 2,
            Event::Snapshot { index } => 0 <= index <= c.last_index() + 1,
            Event::Install { index, term } => 0 <= index <= c.last_index() + 3 && 1 <= term <= 5,
        }
    }
}

impl Compacted {
    /// The log once an event has happened.
    pub open spec fn after(self, e: Event) -> Compacted {
        match e {
            Event::Commit { index } => self.committed(index as int),
            Event::Snapshot { index } => self.snapshotted(index as int),
            Event::Install { index, term } => self.installed(index as int, term as int),
        }
    }

    /// The log once a run of events has happened.
    pub open spec fn run(self, es: Seq<Event>) -> Compacted
        decreases es.len(),
    {
        if es.len() == 0 {
            self
        } else {
            self.run(es.drop_last()).after(es.last())
        }
    }

    /// The shape a log reports.
    pub open spec fn shows(self, s: Shape) -> bool {
        &&& s.first_index == self.first_index()
        &&& s.last_index == self.last_index()
        &&& s.commit_index == self.commit_index
        &&& s.snapshot_index == self.snapshot_index
        &&& s.snapshot_term == self.snapshot_term
        &&& s.terms@ == self.log
    }
}

/// One step of a plan: an event, and the shape it must leave behind.
#[derive(Debug)]
pub struct Planned {
    pub event: Event,
    pub command: String,
    pub shape: Shape,
}

/// The events of a plan.
pub open spec fn events(plan: Seq<Planned>) -> Seq<Event> {
    plan.map_values(|s: Planned| s.event)
}

/// The step says what the rules make of its event.
pub open spec fn step_follows(s: Planned, before: Compacted) -> bool {
    &&& s.event.drawable(before)
    &&& s.command@ == s.event.text()
    &&& before.after(s.event).shows(s.shape)
}

/// Every step says what the rules make of all the steps up to it.
pub open spec fn follows_the_rules(plan: Seq<Planned>) -> bool {
    forall|i: int|
        0 <= i < plan.len() ==> step_follows(
            #[trigger] plan[i],
            Compacted::of(SEED_TERMS@).run(events(plan.take(i))),
        )
}

impl Model {
    /// Has an event happen, and says what shape it must leave behind.
    pub fn step(&mut self, event: Event) -> (s: Planned)
        requires
            old(self)@.sound(),
            old(self)@.last_index() < i64::MAX,
            event matches Event::Install { index, .. } ==> index < i64::MAX,
        ensures
            final(self)@ == old(self)@.after(event),
            final(self)@.sound(),
            s.event == event,
            s.command@ == event.text(),
            final(self)@.shows(s.shape),
    {
        let command = event.command();
        match event {
            Event::Commit { index } => self.commit(index),
            Event::Snapshot { index } => {
                let _ = self.snapshot(index);
            },
            Event::Install { index, term } => {
                let _ = self.install(index, term);
            },
        }
        Planned { event, command, shape: self.shape() }
    }

    /// Draws an event for a log in this state.
    fn draw(&self, rng: &mut StdRng) -> (event: Event)
        requires
            self@.sound(),
            self@.last_index() < 1000,
        ensures
            event.drawable(self@),
    {
        match draw_i32(rng, 0, 3) {
            0 => Event::Commit { index: draw_i64(rng, 0, self.last_index() + 3) },
            1 => Event::Snapshot { index: draw_i64(rng, 0, self.last_index() + 2) },
            _ => {
                let index: i64 = draw_i64(rng, 0, self.last_index() + 4);
                Event::Install { index, term: draw_i64(rng, 1, 6) }
            },
        }
    }
}

/// Sixty seeded commits, snapshots and installs, each with the shape it must leave behind.
pub fn plan(rng: &mut StdRng) -> (plan: Vec<Planned>)
    ensures
        plan@.len() == 60,
        follows_the_rules(plan@),
{
    let seed_terms = SEED_TERMS;
    let mut model = Model::new(&seed_terms);
    let mut plan: Vec<Planned> = Vec::new();
    assert(events(plan@) =~= Seq::<Event>::empty());
    let mut i: usize = 0;
    while i < 60
        invariant
            i <= 60,
            plan@.len() == i,
            model@ == Compacted::of(SEED_TERMS@).run(events(plan@)),
            follows_the_rules(plan@),
            model@.sound(),
            model@.last_index() <= 8 + 3 * i,
        decreases 60 - i,
    {
        let event = model.draw(rng);
        let ghost before = plan@;
        let step = model.step(event);
        plan.push(step);
        proof {
            assert(events(plan@).drop_last() =~= events(before));
            assert(plan@.take(before.len() as int) =~= before);
            assert forall|k: int| 0 <= k < plan@.len() implies step_follows(
                #[trigger] plan@[k],
                Compacted::of(SEED_TERMS@).run(events(plan@.take(k))),
            ) by {
                if k < before.len() {
                    assert(before[k] == plan@[k]);
                    assert(plan@.take(k) =~= before.take(k));
                }
            }
        }
        i += 1;
    }
    plan
}

/// Reads the shape a `log` answer reports.
pub fn read_shape(log: &Json) -> (r: Result<Shape, Misshapen>)
    ensures
        r is Ok <==> {
            &&& whole_field(*log, "first_index"@) is Some
            &&& whole_field(*log, "last_index"@) is Some
            &&& whole_field(*log, "commit_index"@) is Some
            &&& whole_field(*log, "snapshot_index"@) is Some
            &&& whole_field(*log, "snapshot_term"@) is Some
        },
        r matches Ok(s) ==> {
            &&& whole_field(*log, "first_index"@) == Some(s.first_index)
            &&& whole_field(*log, "last_index"@) == Some(s.last_index)
            &&& whole_field(*log, "commit_index"@) == Some(s.commit_index)
            &&& whole_field(*log, "snapshot_index"@) == Some(s.snapshot_index)
            &&& whole_field(*log, "snapshot_term"@) == Some(s.snapshot_term)
            &&& s.terms@ == loose_ints(*log, "terms"@)
        },
        r matches Err(e) ==> e.command@ == "log"@ && e.field@ == if whole_field(*log, "first_index"@) is None {
            "first_index"@
        } else if whole_field(*log, "last_index"@) is None {
            "last_index"@
        } else if whole_field(*log, "commit_index"@) is None {
            "commit_index"@
        } else if whole_field(*log, "snapshot_index"@) is None {
            "snapshot_index"@
        } else {
            "snapshot_term"@
        },
{
    let first_index: i64 = match expect_i64(log, "log", "first_index") {
        Ok(n) => n,
        Err(e) => {
            return Err(e);
        },
    };
    let last_index: i64 = match expect_i64(log, "log", "last_index") {
        Ok(n) => n,
        Err(e) => {
            return Err(e);
        },
    };
    let commit_index: i64 = match expect_i64(log, "log", "commit_index") {
        Ok(n) => n,
        Err(e) => {
            return Err(e);
        },
    };
    let snapshot_index: i64 = match expect_i64(log, "log", "snapshot_index") {
        Ok(n) => n,
        Err(e) => {
            return Err(e);
        },
    };
    let snapshot_term: i64 = match expect_i64(log, "log", "snapshot_term") {
        Ok(n) => n,
        Err(e) => {
            return Err(e);
        },
    };
    let terms = read_loose_ints(log, "terms");
    Ok(Shape { first_index, last_index, commit_index, snapshot_index, snapshot_term, terms })
}

/// What the report says of one step of a plan: the whole shape, and that the log starts no later
/// than one past its end.
pub open spec fn step_rulings(i: nat, command: Seq<char>, want: Shape, got: Shape) -> Seq<Ruling> {
    seq![
        is_int(step_path(i, command, "first_index"@), want.first_index as int, got.first_index as int),
        is_int(step_path(i, command, "last_index"@), want.last_index as int, got.last_index as int),
        is_int(
            step_path(i, command, "commit_index"@),
            want.commit_index as int,
            got.commit_index as int,
        ),
        is_int(
            step_path(i, command, "snapshot_index"@),
            want.snapshot_index as int,
            got.snapshot_index as int,
        ),
        is_int(
            step_path(i, command, "snapshot_term"@),
            want.snapshot_term as int,
            got.snapshot_term as int,
        ),
        is_fact(
            step_path(i, command, "log.terms"@),
            Truth::Ints(want.terms@),
            Truth::Ints(got.terms@),
        ),
        is_at_least(
            step_path(i, command, "first_index <= last_index + 1"@),
            got.first_index as int,
            got.last_index + 1,
        ),
    ]
}

/// What the report says of every step that was seen.
pub open spec fn all_rulings(plan: Seq<Planned>, seen: Seq<Shape>) -> Seq<Seq<Ruling>> {
    Seq::new(
        seen.len(),
        |i: int| step_rulings(i as nat, plan[i].command@, plan[i].shape, seen[i]),
    )
}

/// The terms of a shape as a fact.
fn terms_fact(terms: &Vec<i64>) -> (f: Fact)
    ensures
        f@ == Truth::Ints(terms@),
{
    let own = terms.clone();
    assert(own@ =~= terms@);
    Fact::Ints(own)
}

/// Holds what was seen so far against a plan, up to the first step that differs.
pub fn judge_plan(seed: u64, plan: &Vec<Planned>, seen: &Vec<Shape>) -> (c: Check)
    requires
        seen@.len() <= plan@.len(),
    ensures
        c@ == (Verdict {
            subject: "sixty seeded commits, snapshots and installs replayed against \u{a7}7"@,
            rulings: until_failure(all_rulings(plan@, seen@)),
            notes: seq![seed_note(seed as nat, plan@.len(), "events"@)],
            blocks: Seq::empty(),
            remarks: Seq::empty(),
        }),
{
    let mut c = Check::new("sixty seeded commits, snapshots and installs replayed against \u{a7}7");
    c.note(note_seed(seed, plan.len(), "events").as_str());
    let ghost groups = all_rulings(plan@, seen@);
    let mut i: usize = 0;
    assert(groups.take(0) =~= Seq::empty());
    while i < seen.len() && c.ok()
        invariant
            i <= seen@.len() <= plan@.len(),
            groups == all_rulings(plan@, seen@),
            c@.subject == "sixty seeded commits, snapshots and installs replayed against \u{a7}7"@,
            c@.quiet(),
            c@.notes == seq![seed_note(seed as nat, plan@.len(), "events"@)],
            c@.rulings == until_failure(groups.take(i as int)),
        decreases seen@.len() - i,
    {
        let want = &plan[i].shape;
        let got = &seen[i];
        let ghost before = c@.rulings;
        let command = plan[i].command.as_str();
        c.eq_int(
            name_step(i, command, "first_index").as_str(),
            want.first_index as i128,
            got.first_index as i128,
        );
        c.eq_int(
            name_step(i, command, "last_index").as_str(),
            want.last_index as i128,
            got.last_index as i128,
        );
        c.eq_int(
            name_step(i, command, "commit_index").as_str(),
            want.commit_index as i128,
            got.commit_index as i128,
        );
        c.eq_int(
            name_step(i, command, "snapshot_index").as_str(),
            want.snapshot_index as i128,
            got.snapshot_index as i128,
        );
        c.eq_int(
            name_step(i, command, "snapshot_term").as_str(),
            want.snapshot_term as i128,
            got.snapshot_term as i128,
        );
        c.eq(
            name_step(i, command, "log.terms").as_str(),
            terms_fact(&want.terms),
            terms_fact(&got.terms),
        );
        c.at_least(
            name_step(i, command, "first_index <= last_index + 1").as_str(),
            got.first_index as i128,
            got.last_index as i128 + 1,
        );
        proof {
            assert(c@.rulings =~= before + groups[i as int]);
            lemma_until_failure_step(groups, i as int);
        }
        i += 1;
    }
    proof {
        lemma_until_failure_rest(groups, i as int);
    }
    c
}

/// The log a server starts with: its entries stand at the indexes from 1 on, index 0 answers with term 0,
/// no other index answers, and nothing is committed or compacted.
pub proof fn fresh_log_reads_as_it_was_given(terms: Seq<i64>, index: int)
    ensures
        1 <= index <= terms.len() ==> Compacted::of(terms).term_at(index) == Some(terms[index - 1]),
        Compacted::of(terms).term_at(0) == Some(0i64),
        index < 0 || index > terms.len() ==> Compacted::of(terms).term_at(index) is None,
        Compacted::of(terms).commit_index == 0,
        Compacted::of(terms).snapshot_index == 0,
        Compacted::of(terms).snapshot_term == 0,
        Compacted::of(terms).first_index() == 1,
        Compacted::of(terms).last_index() == terms.len(),
{
}

/// The boundary of a snapshot still answers with its term, the entries behind it stand one after the other,
/// and no other index answers.
pub proof fn log_answers_from_its_boundary_on(c: Compacted, index: int)
    requires
        c.sound(),
    ensures
        c.term_at(index) is Some <==> c.snapshot_index <= index <= c.snapshot_index + c.log.len(),
        c.term_at(c.snapshot_index) == Some(c.snapshot_term as i64),
        c.snapshot_index < index <= c.snapshot_index + c.log.len() ==> c.term_at(index) == Some(
            c.log[index - c.snapshot_index - 1],
        ),
        c.first_index() - 1 == c.snapshot_index,
        c.last_index() - c.snapshot_index == c.log.len(),
{
}

/// A commit moves the commit index to where it is asked to, or to the end of the log where that is nearer,
/// and never back; it touches neither the log nor the snapshot.
pub proof fn commit_goes_as_far_as_the_log(c: Compacted, index: int)
    requires
        c.sound(),
    ensures
        c.committed(index).commit_index <= c.last_index(),
        c.committed(index).commit_index >= c.commit_index,
        index <= c.commit_index ==> c.committed(index).commit_index == c.commit_index,
        c.commit_index <= index <= c.last_index() ==> c.committed(index).commit_index == index,
        index >= c.last_index() ==> c.committed(index).commit_index == c.last_index(),
        c.committed(index).log == c.log,
        c.committed(index).snapshot_index == c.snapshot_index,
        c.committed(index).snapshot_term == c.snapshot_term,
{
}

/// A snapshot of a committed entry that is not compacted yet is taken at that entry, with the term the log
/// holds there; any other snapshot changes nothing.
pub proof fn snapshot_is_taken_of_a_committed_entry(c: Compacted, index: int)
    requires
        c.sound(),
    ensures
        c.snapshot_index < index <= c.commit_index ==> {
            &&& c.snapshotted(index).snapshot_index == index
            &&& c.log[index - c.snapshot_index - 1] == c.snapshotted(index).snapshot_term
            &&& c.snapshotted(index).log.len() == c.log.len() - (index - c.snapshot_index)
            &&& forall|k: int|
                0 <= k < c.snapshotted(index).log.len() ==> #[trigger] c.snapshotted(index).log[k] == c.log[k + (
                index - c.snapshot_index)]
        },
        index <= c.snapshot_index || index > c.commit_index ==> c.snapshotted(index) == c,
        c.snapshotted(index).commit_index == c.commit_index,
{
}

/// A leader's snapshot that is no newer than what is committed is stale. A newer one is retained exactly
/// where the log holds an entry at its index with its term, and discards the log exactly where the log is
/// too short or holds another term there.
pub proof fn install_is_retained_where_the_entry_is_held(c: Compacted, index: int, term: i64)
    requires
        c.sound(),
    ensures
        c.action(index, term as int) == Action::Stale <==> index <= c.commit_index,
        index > c.commit_index ==> {
            &&& c.action(index, term as int) == Action::Retained <==> index <= c.snapshot_index + c.log.len()
                && c.log[index - c.snapshot_index - 1] == term
            &&& c.action(index, term as int) == Action::Discarded <==> index > c.snapshot_index + c.log.len()
                || c.log[index - c.snapshot_index - 1] != term
        },
{
}

/// A leader's snapshot that is newer than what is committed becomes the server's, and everything up to it
/// is committed. Where the server held its last entry, exactly the entries behind it stay, in place; where
/// it did not, none does.
pub proof fn install_leaves_what_follows_the_boundary(c: Compacted, index: int, term: i64)
    requires
        c.sound(),
        index > c.commit_index,
    ensures
        c.installed(index, term as int).snapshot_index == index,
        c.installed(index, term as int).snapshot_term == term,
        c.installed(index, term as int).commit_index == index,
        c.term_at(index) == Some(term) ==> {
            &&& c.installed(index, term as int).last_index() == c.last_index()
            &&& forall|i: int| i > index ==> #[trigger] c.installed(index, term as int).term_at(i) == c.term_at(i)
        },
        c.term_at(index) != Some(term) ==> {
            &&& c.installed(index, term as int).last_index() == index
            &&& forall|i: int| i > index ==> #[trigger] c.installed(index, term as int).term_at(i) is None
        },
        forall|i: int| i < index ==> #[trigger] c.installed(index, term as int).term_at(i) is None,
{
}

/// Installing what a server has just snapshotted, at the term it had there, and installing a snapshot of an
/// entry it holds leave the same log: a snapshot taken and a snapshot received are one thing.
pub proof fn taking_and_receiving_a_snapshot_agree(c: Compacted, index: int)
    requires
        c.sound(),
        c.commit_index < index <= c.last_index(),
    ensures
        c.installed(index, c.term_at(index)->0 as int) == c.committed(index).snapshotted(index),
{
}

/// A run of events is made one event after the other.
pub proof fn events_happen_one_after_the_other(c: Compacted, es: Seq<Event>, e: Event, index: i64, term: i64)
    ensures
        c.run(Seq::empty()) == c,
        c.run(es.push(e)) == c.run(es).after(e),
        c.after((Event::Commit { index })) == c.committed(index as int),
        c.after((Event::Snapshot { index })) == c.snapshotted(index as int),
        c.after((Event::Install { index, term })) == c.installed(index as int, term as int),
{
    assert(es.push(e).drop_last() =~= es);
}

/// The three outcomes of an install are told apart by name.
pub proof fn outcomes_are_told_apart()
    ensures
        Action::Stale.text() == "stale"@,
        Action::Retained.text() == "retained"@,
        Action::Discarded.text() == "discarded"@,
{
}

/// What an event says reads back as the event: its first word, and its numbers.
#[verifier::spinoff_prover]
#[verifier::rlimit(40)]
pub proof fn commands_read_back(index: i64, term: i64)
    ensures
        (Event::Commit { index }).text().take(7) == "commit "@,
        whole_number((Event::Commit { index }).text().skip(7)) == Some(index),
        (Event::Snapshot { index }).text().take(9) == "snapshot "@,
        whole_number((Event::Snapshot { index }).text().skip(9)) == Some(index),
        (Event::Install { index, term }).text().take(10) == "install 9 "@,
        (Event::Install { index, term }).text().skip(10) == int_text(index as int) + " "@ + int_text(
            term as int,
        ),
{
    reveal_strlit("commit ");
    reveal_strlit("snapshot ");
    reveal_strlit("install 9 ");
    decimal_reads_back(index);
    assert((Event::Commit { index }).text().skip(7) =~= int_text(index as int));
    assert((Event::Commit { index }).text().take(7) =~= "commit "@);
    assert((Event::Snapshot { index }).text().skip(9) =~= int_text(index as int));
    assert((Event::Snapshot { index }).text().take(9) =~= "snapshot "@);
    assert((Event::Install { index, term }).text().take(10) =~= "install 9 "@);
    assert((Event::Install { index, term }).text().skip(10) =~= int_text(index as int) + " "@ + int_text(
        term as int,
    ));
}

/// The events that may be drawn: commits up to two past the log, snapshots up to one past it, and leaders'
/// snapshots up to three past it, of terms one to five.
pub proof fn events_are_drawn_around_the_log(c: Compacted, index: i64, term: i64)
    ensures
        (Event::Commit { index }).drawable(c) <==> 0 <= index <= c.snapshot_index + c.log.len() + 2,
        (Event::Snapshot { index }).drawable(c) <==> 0 <= index <= c.snapshot_index + c.log.len() + 1,
        (Event::Install { index, term }).drawable(c) <==> 0 <= index <= c.snapshot_index + c.log.len() + 3
            && 1 <= term <= 5,
{
}

/// The log a program shows is the planned one, boundaries and all.
pub open spec fn same_shape(want: Shape, got: Shape) -> bool {
    &&& want.first_index == got.first_index
    &&& want.last_index == got.last_index
    &&& want.commit_index == got.commit_index
    &&& want.snapshot_index == got.snapshot_index
    &&& want.snapshot_term == got.snapshot_term
    &&& want.terms@ == got.terms@
}

/// A run passes exactly where every log that was shown is the planned one and no log begins past its end.
pub proof fn run_passes_where_every_log_is_the_planned_one(plan: Seq<Planned>, seen: Seq<Shape>)
    requires
        seen.len() <= plan.len(),
    ensures
        all_hold(until_failure(all_rulings(plan, seen))) <==> forall|i: int|
            0 <= i < seen.len() ==> same_shape(plan[i].shape, #[trigger] seen[i]) && seen[i].first_index
                <= seen[i].last_index + 1,
{
    let groups = all_rulings(plan, seen);
    run_passes_where_every_step_does(groups);
    assert forall|i: int| 0 <= i < seen.len() implies (all_hold(#[trigger] groups[i]) <==> same_shape(
        plan[i].shape,
        seen[i],
    ) && seen[i].first_index <= seen[i].last_index + 1) by {
        let g = groups[i];
        assert(g == step_rulings(i as nat, plan[i].command@, plan[i].shape, seen[i]));
        assert(g.len() == 7);
        if all_hold(g) {
            assert(g[0].holds() && g[1].holds() && g[2].holds() && g[3].holds() && g[4].holds() && g[5].holds()
                && g[6].holds());
        }
    }
    if all_hold(until_failure(groups)) {
        assert forall|i: int| 0 <= i < seen.len() implies same_shape(plan[i].shape, #[trigger] seen[i])
            && seen[i].first_index <= seen[i].last_index + 1 by {
            assert(all_hold(groups[i]));
        }
    } else {
        let i = choose|i: int| 0 <= i < groups.len() && !all_hold(#[trigger] groups[i]);
        assert(0 <= i < seen.len());
        assert(!(same_shape(plan[i].shape, seen[i]) && seen[i].first_index <= seen[i].last_index + 1));
    }
}

/// A program that keeps the log as the plan has it passes: what a plan shows never begins past its end.
pub proof fn plan_asks_for_what_a_sound_log_shows(c: Compacted, s: Shape)
    requires
        c.sound(),
        c.shows(s),
    ensures
        s.first_index <= s.last_index + 1,
        s.snapshot_index == s.first_index - 1,
        s.last_index - s.snapshot_index == s.terms@.len(),
        s.snapshot_index <= s.commit_index <= s.last_index,
        forall|i: int|
            s.first_index <= i <= s.last_index ==> c.term_at(i) == Some(
                #[trigger] s.terms@[i - s.first_index],
            ),
        s.commit_index == c.commit_index,
        c.term_at(s.snapshot_index as int) == Some(s.snapshot_term),
{
}

/// The topic the program is asked about.
pub const TOPIC: &'static str = "raft-snapshot";

/// A fresh log has no snapshot.
pub const A_FRESH_LOG_HAS_NO_SNAPSHOT: &'static str = "a log nothing has been compacted out of yet
> init [1,1,2]
> log
@ 1 init
= first_index | 1 | init.first_index
= last_index | 3 | init.last_index
= snapshot_index | 0 | init.snapshot_index
= snapshot_term | 0 | init.snapshot_term
= commit_index | 0 | init.commit_index
@ 2 log
= terms | [1,1,2] | log.terms";

/// Compacting past the commit index is refused.
pub const COMPACTION_STOPS_AT_THE_COMMIT_INDEX: &'static str = "compaction against the commit index
> init [1,1,2,2,3]
> snapshot 1
> commit 2
> snapshot 3
> snapshot 2
> log
@ 2 snapshot 1
= ok | false | snapshot(1).ok before any commit
@ 4 snapshot 3
= ok | false | snapshot(3).ok with commit_index 2
@ 5 snapshot 2
= ok | true | snapshot(2).ok
@ 6 log
= first_index | 3 | log.first_index
= terms | [2,2,3] | log.terms";

/// A snapshot discards the entries it covers and keeps their boundary term.
pub const A_SNAPSHOT_DISCARDS_ITS_PREFIX: &'static str = "what a snapshot leaves behind
> init [1,1,2,2,3]
> commit 5
> snapshot 3
> log
@ 3 snapshot 3
= snapshot_index | 3 | snapshot.snapshot_index
= snapshot_term | 2 | snapshot.snapshot_term
= first_index | 4 | snapshot.first_index
= log_len | 2 | snapshot.log_len
@ 4 log
= terms | [2,3] | log.terms
= last_index | 5 | log.last_index";

/// The snapshot boundary still answers a consistency check.
pub const THE_BOUNDARY_STILL_ANSWERS: &'static str = r#"an append rooted at the last included index
> init [1,1,2,2,3]
> commit 5
> snapshot 3
> append 3 3 2 [2,3,4]
> log
> append 4 3 9 []
@ 4 append 3 3 2 ...
= success | true | append(prev 3, term 2).success
@ 4 append
= last_index | 6 | append.last_index
@ 5 log
= terms | [2,3,4] | log.terms
@ 6 append 4 3 9 []
= success | false | append(prev 3, term 9).success
= reason | "term mismatch" | append(prev 3, term 9).reason"#;

/// An append that reaches below the boundary is refused as compacted.
pub const AN_APPEND_BELOW_THE_BOUNDARY_IS_REFUSED: &'static str = r#"appends the follower cannot check any more
> init [1,1,2,2,3]
> commit 5
> snapshot 3
> append 3 2 1 [2]
> append 3 0 0 [1,1,2]
> append 3 9 3 []
> log
@ 4 append 3 2 1 [2]
= success | false | append(prev 2).success
= reason | "compacted" | append(prev 2).reason
@ 5 append 3 0 0 [1,1,2]
= reason | "compacted" | append(prev 0).reason
@ 6 append 3 9 3 []
= reason | "missing" | append(prev 9).reason
@ 7 log
= terms | [2,3] | log.terms"#;

/// Taking the same snapshot twice changes nothing.
pub const A_SNAPSHOT_IS_IDEMPOTENT: &'static str = "the same snapshot taken three times
> init [1,1,2,2,3]
> commit 5
> snapshot 3
> snapshot 3
> snapshot 1
> log
@ 3 snapshot 3
= first_index | 4 | the first snapshot's first_index
@ 4 snapshot 3
= first_index | 4 | the second snapshot's first_index
@ 5 snapshot 1
= ok | true | snapshot(1).ok
= snapshot_index | 3 | snapshot(1).snapshot_index
@ 6 log
= terms | [2,3] | log.terms";

/// A snapshot from behind the commit index is ignored.
pub const A_STALE_SNAPSHOT_IS_IGNORED: &'static str = r#"an InstallSnapshot from behind this server's commit point
> init [1,1,2,2,3]
> commit 4
> install 9 2 1
> install 9 4 2
> log
@ 3 install 9 2 1
= action | "stale" | install(2).action
= ok | false | install(2).ok
@ 4 install 9 4 2
= action | "stale" | install(4).action
@ 5 log
= terms | [1,1,2,2,3] | log.terms
= commit_index | 4 | log.commit_index"#;

/// A snapshot whose boundary the follower holds keeps the tail.
pub const A_MATCHING_SNAPSHOT_RETAINS_THE_TAIL: &'static str = r#"an InstallSnapshot whose boundary the follower already holds
> init [1,1,2,2,3]
> commit 2
> install 9 4 2
> log
@ 3 install 9 4 2
= action | "retained" | install.action
= ok | true | install.ok
= first_index | 5 | install.first_index
= last_index | 5 | install.last_index
@ 4 log
= terms | [3] | log.terms
= commit_index | 4 | log.commit_index"#;

/// A snapshot from ahead replaces the whole log.
pub const A_SNAPSHOT_FROM_AHEAD_DISCARDS_EVERYTHING: &'static str = r#"an InstallSnapshot this server cannot reconcile with its log
> init [1,1,2]
> install 9 20 7
> log
> init [1,1,2,2,3]
> install 9 4 9
> log
@ 2 install 9 20 7
= action | "discarded" | install(20).action
@ 2 install
= first_index | 21 | install(20).first_index
= last_index | 20 | install(20).last_index
= commit_index | 20 | install(20).commit_index
@ 3 log
= terms | [] | log.terms
@ 5 install 9 4 9
= action | "discarded" | install(4, term 9).action
@ 6 log
= terms | [] | log.terms after the mismatch"#;

/// Compaction never changes what any surviving index holds.
pub const COMPACTION_PRESERVES_EVERY_SURVIVING_ENTRY: &'static str = "every entry that survived each of seven compactions
> init [1,1,2,2,3,3,4]
> commit 7
> snapshot 1
> log
^ terms | [1,2,2,3,3,4] | after snapshot 1, log.terms
= first_index | 2 | after snapshot 1, log.first_index
= snapshot_term | 1 | after snapshot 1, log.snapshot_term
> snapshot 2
> log
^ terms | [2,2,3,3,4] | after snapshot 2, log.terms
= first_index | 3 | after snapshot 2, log.first_index
= snapshot_term | 1 | after snapshot 2, log.snapshot_term
> snapshot 3
> log
^ terms | [2,3,3,4] | after snapshot 3, log.terms
= first_index | 4 | after snapshot 3, log.first_index
= snapshot_term | 2 | after snapshot 3, log.snapshot_term
> snapshot 4
> log
^ terms | [3,3,4] | after snapshot 4, log.terms
= first_index | 5 | after snapshot 4, log.first_index
= snapshot_term | 2 | after snapshot 4, log.snapshot_term
> snapshot 5
> log
^ terms | [3,4] | after snapshot 5, log.terms
= first_index | 6 | after snapshot 5, log.first_index
= snapshot_term | 3 | after snapshot 5, log.snapshot_term
> snapshot 6
> log
^ terms | [4] | after snapshot 6, log.terms
= first_index | 7 | after snapshot 6, log.first_index
= snapshot_term | 3 | after snapshot 6, log.snapshot_term
> snapshot 7
> log
^ terms | [] | after snapshot 7, log.terms
= first_index | 8 | after snapshot 7, log.first_index
= snapshot_term | 4 | after snapshot 7, log.snapshot_term";

/// What somebody stuck on this stage is told, one after the other.
pub const HINTS: [&'static str; 4] = [
    "Topic `raft-snapshot`: the log no longer starts at index 1, so keep first_index, \
     snapshot_index and snapshot_term",
    "Never compact past the commit index: an uncommitted entry may still be truncated",
    "The snapshot boundary still answers a consistency check, so keep its term; an append that \
     reaches below the boundary can only be refused",
    "An InstallSnapshot the follower already covers is ignored; one whose boundary it holds \
     keeps the tail; anything else replaces the whole log",
];

/// The tests of this stage.
pub const TESTS: [TestRow; 11] = [
    (
        "a fresh log has no snapshot",
        "a_fresh_log_has_no_snapshot",
        false,
        false,
        0,
        0,
        A_FRESH_LOG_HAS_NO_SNAPSHOT,
    ),
    (
        "compacting past the commit index is refused",
        "compaction_stops_at_the_commit_index",
        false,
        false,
        0,
        0,
        COMPACTION_STOPS_AT_THE_COMMIT_INDEX,
    ),
    (
        "a snapshot discards the entries it covers and keeps their boundary term",
        "a_snapshot_discards_its_prefix",
        false,
        false,
        0,
        0,
        A_SNAPSHOT_DISCARDS_ITS_PREFIX,
    ),
    (
        "the snapshot boundary still answers a consistency check",
        "the_boundary_still_answers",
        false,
        false,
        0,
        0,
        THE_BOUNDARY_STILL_ANSWERS,
    ),
    (
        "an append that reaches below the boundary is refused as compacted",
        "an_append_below_the_boundary_is_refused",
        false,
        false,
        0,
        0,
        AN_APPEND_BELOW_THE_BOUNDARY_IS_REFUSED,
    ),
    (
        "taking the same snapshot twice changes nothing",
        "a_snapshot_is_idempotent",
        false,
        false,
        0,
        0,
        A_SNAPSHOT_IS_IDEMPOTENT,
    ),
    (
        "a snapshot from behind the commit index is ignored",
        "a_stale_snapshot_is_ignored",
        false,
        false,
        0,
        0,
        A_STALE_SNAPSHOT_IS_IGNORED,
    ),
    (
        "a snapshot whose boundary the follower holds keeps the tail",
        "a_matching_snapshot_retains_the_tail",
        false,
        false,
        0,
        0,
        A_MATCHING_SNAPSHOT_RETAINS_THE_TAIL,
    ),
    (
        "a snapshot from ahead replaces the whole log",
        "a_snapshot_from_ahead_discards_everything",
        false,
        false,
        0,
        0,
        A_SNAPSHOT_FROM_AHEAD_DISCARDS_EVERYTHING,
    ),
    (
        "compaction never changes what any surviving index holds",
        "compaction_preserves_every_surviving_entry",
        true,
        false,
        0,
        0,
        COMPACTION_PRESERVES_EVERY_SURVIVING_ENTRY,
    ),
    (
        "sixty seeded commits, snapshots and installs match the tester's own replay",
        "a_long_seeded_compaction",
        true,
        false,
        0,
        0,
        "",
    ),
];

/// The worked examples of this stage.
pub const EXAMPLES: [PrimRow; 2] = [
    (
        "Compacting a committed prefix",
        "raft-snapshot",
        "init [1,1,2,2,3]
snapshot 3
commit 3
snapshot 3
log
append 3 3 2 []
append 3 2 1 []",
        "a five-entry log compacted before and after its commit index reaches index 3",
        "the first snapshot is refused; the second leaves two entries and a boundary",
        "The refusal is the point. An entry that is only replicated, not committed, may still be \
         truncated by a future leader — and an entry inside a snapshot cannot be truncated, \
         because there is nothing left to truncate. Note that the boundary at index 3 still \
         answers an append, and that index 2 can no longer be checked.",
    ),
    (
        "Three kinds of InstallSnapshot",
        "raft-snapshot",
        "init [1,1,2,2,3]
commit 4
install 9 2 1
install 9 4 2
log
install 9 20 9
log",
        "snapshots from behind, from a boundary the follower holds, and from far ahead",
        "stale, stale again because index 4 is already committed, and discarded, in that order",
        "A follower that throws its log away every time a snapshot arrives is correct but \
         wasteful: when it already holds the entry at the snapshot's last included index, the \
         Log Matching Property says everything after it is good too, and refetching that tail \
         can cost a great deal of bandwidth on a large state.",
    ),
];

/// The worked examples of this stage.
pub fn examples() -> (examples: Vec<ExampleSpec>)
    ensures
        described(examples@) == EXAMPLES@.map_values(|row: PrimRow| prim_described(row)),
{
    prim_examples(EXAMPLES)
}

/// What the rows say of this stage's place in the suite.
proof fn lemma_in_place()
    ensures
        rows_written(TESTS@),
        rows_on_topic(EXAMPLES@, HINTS[0]@),
{
    assert(rows_written(TESTS@)) by {
        reveal_strlit("placeholder");
        reveal_strlit("a fresh log has no snapshot");
        assert(TESTS@[0].0@.len() == 27);
        reveal_strlit("compacting past the commit index is refused");
        assert(TESTS@[1].0@.len() == 43);
        reveal_strlit("a snapshot discards the entries it covers and keeps their boundary term");
        assert(TESTS@[2].0@.len() == 71);
        reveal_strlit("the snapshot boundary still answers a consistency check");
        assert(TESTS@[3].0@.len() == 55);
        reveal_strlit("an append that reaches below the boundary is refused as compacted");
        assert(TESTS@[4].0@.len() == 65);
        reveal_strlit("taking the same snapshot twice changes nothing");
        assert(TESTS@[5].0@.len() == 46);
        reveal_strlit("a snapshot from behind the commit index is ignored");
        assert(TESTS@[6].0@.len() == 50);
        reveal_strlit("a snapshot whose boundary the follower holds keeps the tail");
        assert(TESTS@[7].0@.len() == 59);
        reveal_strlit("a snapshot from ahead replaces the whole log");
        assert(TESTS@[8].0@.len() == 44);
        reveal_strlit("compaction never changes what any surviving index holds");
        assert(TESTS@[9].0@.len() == 55);
        reveal_strlit("sixty seeded commits, snapshots and installs match the tester's own replay");
        assert(TESTS@[10].0@.len() == 74);
        assert forall|i: int| 0 <= i < 11 implies (#[trigger] TESTS@[i]).0@ != "placeholder"@ by {
            assert(i == 0 || i == 1 || i == 2 || i == 3 || i == 4 || i == 5 || i == 6 || i == 7 || i == 8 || i == 9 || i == 10);
        }
    }
    assert(names_topic_at(HINTS[0]@, "raft-snapshot"@, 6)) by {
        reveal_strlit("`");
        reveal_strlit("raft-snapshot");
        reveal_strlit("Topic `raft-snapshot`: the log no longer starts at index 1, so keep first_index, \
     snapshot_index and snapshot_term");
        assert(HINTS[0]@.subrange(6, 21) =~= "`"@ + "raft-snapshot"@ + "`"@);
    }
    reveal_strlit("init ");
    assert(EXAMPLES@[0].2@.len() >= 5 && EXAMPLES@[0].2@.take(5) =~= "init "@) by {
        reveal_strlit(
            "init [1,1,2,2,3]\n\
             snapshot 3\n\
             commit 3\n\
             snapshot 3\n\
             log\n\
             append 3 3 2 []\n\
             append 3 2 1 []",
        );
    }
    assert(EXAMPLES@[1].2@.len() >= 5 && EXAMPLES@[1].2@.take(5) =~= "init "@) by {
        reveal_strlit(
            "init [1,1,2,2,3]\n\
             commit 4\n\
             install 9 2 1\n\
             install 9 4 2\n\
             log\n\
             install 9 20 9\n\
             log",
        );
    }
}

/// What stage 59 holds.
pub open spec fn is_stage(s: Stage) -> bool {
    &&& s.number == 59
    &&& s.slug == "raft_snapshots"
    &&& s.name == "Raft snapshots and log compaction"
    &&& s.ext == false
    &&& s.ladder == Ladder::Algorithms
    &&& s.hints == HINTS
    &&& s.tests@ == tests_of(TESTS@)
    &&& described(s.examples@) == EXAMPLES@.map_values(|row: PrimRow| prim_described(row))
}

/// Stage 59.
pub fn stage() -> (s: Stage)
    ensures
        is_stage(s),
        s.in_place(),
{
    let s = Stage {
        number: 59,
        slug: "raft_snapshots",
        name: "Raft snapshots and log compaction",
        ext: false,
        ladder: Ladder::Algorithms,
        hints: HINTS,
        examples: examples(),
        tests: tests(TESTS),
    };
    proof {
        reveal(Stage::in_place);
        assert(s.examples@.len() == described(s.examples@).len());
        lemma_in_place();
        assert forall|i: int| 0 <= i < s.examples@.len() implies opens_topic(
            #[trigger] s.examples@[i]@,
            s.hints[0]@,
        ) by {
            assert(described(s.examples@)[i] == prim_described(EXAMPLES@[i]));
        }
    }
    s
}

} // verus!
