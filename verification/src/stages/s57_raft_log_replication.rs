//! Stage 57: Raft log replication.
//!
//! The follower's half of `AppendEntries`. A log is a list of entry terms, index 1 upwards; four
//! numbers arrive with every message, and each of them refuses it for a different reason.
use rand::rngs::StdRng;
use vstd::prelude::*;
use crate::check::{
    all_hold, is_bool, is_int, is_text, lemma_until_failure_rest, lemma_until_failure_step, name_step,
    note_seed, run_passes_where_every_step_does, seed_note, step_path, until_failure, Check, Ruling, Verdict,
};
use crate::draw::{draw_i32, draw_i64, draw_ratio};
use crate::examples::{described, prim_described, prim_examples, ExampleSpec, PrimRow};
use crate::stages::{names_topic_at, opens_topic, rows_on_topic, rows_written, tests, tests_of, Ladder, Stage, TestRow};
use crate::json::Json;
use crate::prim::{expect_bool, expect_i64, lookup, raw, raw_text, whole_field, Misshapen};
use crate::text::{int_list_text, int_list_to_text, int_text, push_int};

verus! {

/// What one `append` must answer.
#[derive(Clone, Copy, Debug, PartialEq, Eq, Structural)]
pub struct Applied {
    pub success: bool,
    pub conflict_index: i64,
    pub last_index: i64,
    pub commit_index: i64,
}

/// A follower's log, its term and how much of the log it knows to be committed.
#[verifier::ext_equal]
pub struct Replica {
    pub term: int,
    pub log: Seq<i64>,
    pub commit_index: int,
}

/// One `AppendEntries` message.
pub struct Message {
    pub term: int,
    pub prev_index: int,
    pub prev_term: int,
    pub leader_commit: int,
    pub entries: Seq<i64>,
}

pub open spec fn min(a: int, b: int) -> int {
    if a <= b {
        a
    } else {
        b
    }
}

pub open spec fn max(a: int, b: int) -> int {
    if a >= b {
        a
    } else {
        b
    }
}

/// The log once `entry` has been put at `index`: nothing changes where it already stands there,
/// whatever conflicts with it goes together with all that follows, and an entry for an index that
/// the log does not hold goes to the end.
pub open spec fn placed(log: Seq<i64>, index: int, entry: i64) -> Seq<i64> {
    if 1 <= index <= log.len() {
        if log[index - 1] == entry {
            log
        } else {
            log.take(index - 1).push(entry)
        }
    } else {
        log.push(entry)
    }
}

/// The log once `entries` have been put behind `prev_index`, one after the other.
pub open spec fn merged(log: Seq<i64>, prev_index: int, entries: Seq<i64>) -> Seq<i64>
    decreases entries.len(),
{
    if entries.len() == 0 {
        log
    } else {
        placed(
            merged(log, prev_index, entries.drop_last()),
            prev_index + entries.len(),
            entries.last(),
        )
    }
}

/// The term of the entry at `index`, where the log holds one.
pub open spec fn entry_at(log: Seq<i64>, index: int) -> Option<i64> {
    if 1 <= index <= log.len() {
        Some(log[index - 1])
    } else {
        None
    }
}

/// Where the run of entries of one term that reaches up to `index` begins.
pub open spec fn run_start_in(log: Seq<i64>, index: int) -> int
    decreases index,
{
    if index > 1 && entry_at(log, index) is Some && entry_at(log, index - 1) == entry_at(log, index) {
        run_start_in(log, index - 1)
    } else {
        index
    }
}

impl Replica {
    /// A follower holding entries of the given terms, none of them known to be committed.
    pub open spec fn of(terms: Seq<i64>) -> Replica {
        Replica {
            term: if terms.len() == 0 {
                0
            } else {
                terms.last() as int
            },
            log: terms,
            commit_index: 0,
        }
    }

    pub open spec fn last_index(self) -> int {
        self.log.len() as int
    }

    /// The term of the entry at `index`, where the log holds one.
    pub open spec fn term_at(self, index: int) -> Option<i64> {
        entry_at(self.log, index)
    }

    /// Where the run of entries of one term that reaches up to `index` begins.
    pub open spec fn run_start(self, index: int) -> int {
        run_start_in(self.log, index)
    }

    /// The message is of no older term, the entry before its own is there, and of the term it says.
    pub open spec fn accepts(self, m: Message) -> bool {
        &&& m.term >= self.term
        &&& m.prev_index <= self.log.len()
        &&& m.prev_index >= 1 ==> self.log[m.prev_index - 1] == m.prev_term
    }

    /// The index the leader should go back to: none for a stale message, the first index the log
    /// lacks for a gap, the first index of the disagreeing run otherwise.
    pub open spec fn conflict(self, m: Message) -> int {
        if m.term < self.term || self.accepts(m) {
            0
        } else if m.prev_index > self.log.len() {
            self.last_index() + 1
        } else {
            self.run_start(m.prev_index)
        }
    }

    /// The state a message leaves behind.
    pub open spec fn after(self, m: Message) -> Replica {
        if self.accepts(m) {
            Replica {
                term: m.term,
                log: merged(self.log, m.prev_index, m.entries),
                commit_index: max(
                    self.commit_index,
                    min(m.leader_commit, m.prev_index + m.entries.len()),
                ),
            }
        } else {
            Replica { term: max(self.term, m.term), ..self }
        }
    }
}

/// A follower's log and the rules that govern what may be written to it.
pub struct Model {
    term: i64,
    log: Vec<i64>,
    commit_index: i64,
}

impl View for Model {
    type V = Replica;

    closed spec fn view(&self) -> Replica {
        Replica {
            term: self.term as int,
            log: self.log@,
            commit_index: self.commit_index as int,
        }
    }
}

impl Model {
    pub fn new(terms: &[i64]) -> (m: Model)
        ensures
            m@ == Replica::of(terms@),
    {
        let mut log: Vec<i64> = Vec::new();
        log.extend_from_slice(terms);
        let term: i64 = if terms.len() == 0 {
            0
        } else {
            terms[terms.len() - 1]
        };
        assert(log@ =~= terms@);
        Model { term, log, commit_index: 0 }
    }

    pub fn term(&self) -> (r: i64)
        ensures
            r == self@.term,
    {
        self.term
    }

    /// The term of each entry, in order.
    pub fn log(&self) -> (r: &Vec<i64>)
        ensures
            r@ == self@.log,
    {
        &self.log
    }

    pub fn last_index(&self) -> (r: i64)
        requires
            self@.log.len() <= i64::MAX,
        ensures
            r == self@.last_index(),
    {
        self.log.len() as i64
    }

    pub fn term_at(&self, index: i64) -> (r: Option<i64>)
        requires
            self@.log.len() <= i64::MAX,
        ensures
            r == self@.term_at(index as int),
    {
        let held: usize = self.log.len();
        if index >= 1 && index <= held as i64 {
            Some(self.log[(index - 1) as usize])
        } else {
            None
        }
    }

    pub fn run_start(&self, index: i64) -> (r: i64)
        requires
            self@.log.len() <= i64::MAX,
        ensures
            r == self@.run_start(index as int),
    {
        let t = match self.term_at(index) {
            Some(t) => t,
            None => {
                return index;
            },
        };
        let mut first: i64 = index;
        while first > 1 && self.term_at(first - 1) == Some(t)
            invariant
                self@.log.len() <= i64::MAX,
                self@.term_at(first as int) == Some(t),
                self@.run_start(index as int) == self@.run_start(first as int),
            decreases first,
        {
            first -= 1;
        }
        first
    }

    pub fn answer(&self, success: bool, conflict_index: i64) -> (a: Applied)
        requires
            self@.log.len() <= i64::MAX,
        ensures
            a.success == success,
            a.conflict_index == conflict_index,
            a.last_index == self@.last_index(),
            a.commit_index == self@.commit_index,
    {
        Applied {
            success,
            conflict_index,
            last_index: self.last_index(),
            commit_index: self.commit_index,
        }
    }

    /// One `AppendEntries` message, and what the follower must answer.
    pub fn append(
        &mut self,
        term: i64,
        prev_index: i64,
        prev_term: i64,
        leader_commit: i64,
        entries: &[i64],
    ) -> (a: Applied)
        requires
            old(self)@.log.len() + entries@.len() < i64::MAX,
        ensures
            ({
                let m = Message {
                    term: term as int,
                    prev_index: prev_index as int,
                    prev_term: prev_term as int,
                    leader_commit: leader_commit as int,
                    entries: entries@,
                };
                &&& final(self)@ == old(self)@.after(m)
                &&& a.success == old(self)@.accepts(m)
                &&& a.conflict_index == old(self)@.conflict(m)
                &&& a.last_index == final(self)@.last_index()
                &&& a.commit_index == final(self)@.commit_index
            }),
    {
        if term < self.term {
            return self.answer(false, 0);
        }
        self.term = term;
        if prev_index > self.last_index() {
            return self.answer(false, self.last_index() + 1);
        }
        if prev_index >= 1 && self.term_at(prev_index) != Some(prev_term) {
            let conflict: i64 = self.run_start(prev_index);
            return self.answer(false, conflict);
        }
        let ghost before = self@;
        let mut k: usize = 0;
        while k < entries.len()
            invariant
                k <= entries@.len(),
                before.log.len() + entries@.len() < i64::MAX,
                prev_index <= before.log.len(),
                self.log@.len() <= before.log.len() + k,
                self.log@ == merged(before.log, prev_index as int, entries@.take(k as int)),
                self.term == term,
                self.commit_index == before.commit_index,
            decreases entries@.len() - k,
        {
            let entry: i64 = entries[k];
            let idx: i64 = prev_index + 1 + k as i64;
            assert(entries@.take(k + 1).drop_last() =~= entries@.take(k as int));
            match self.term_at(idx) {
                Some(existing) => {
                    if existing != entry {
                        self.log.truncate((idx - 1) as usize);
                        self.log.push(entry);
                    }
                },
                None => {
                    self.log.push(entry);
                },
            }
            k += 1;
        }
        assert(entries@.take(k as int) =~= entries@);
        let last_new: i64 = prev_index + entries.len() as i64;
        if leader_commit > self.commit_index {
            let reached: i64 = if leader_commit < last_new {
                leader_commit
            } else {
                last_new
            };
            if reached > self.commit_index {
                self.commit_index = reached;
            }
        }
        self.answer(true, 0)
    }
}

/// The `entries` argument as the command line wants it: compact JSON, no spaces.
pub fn entries_arg(entries: &[i64]) -> (out: String)
    ensures
        out@ == int_list_text(entries@),
{
    int_list_to_text(entries)
}

proof fn lemma_merged_closed(log: Seq<i64>, prev_index: int, entries: Seq<i64>)
    requires
        0 <= prev_index <= log.len(),
    ensures
        merged(log, prev_index, entries) == if prev_index + entries.len() <= log.len()
            && log.subrange(prev_index, prev_index + entries.len()) == entries {
            log
        } else {
            log.take(prev_index) + entries
        },
    decreases entries.len(),
{
    let n = entries.len();
    if n == 0 {
        assert(log.subrange(prev_index, prev_index) =~= entries);
    } else {
        let front = entries.drop_last();
        lemma_merged_closed(log, prev_index, front);
        let kept = merged(log, prev_index, front);
        let index = prev_index + n;
        if kept == log && index <= log.len() && log[index - 1] == entries.last() {
            if log.subrange(prev_index, prev_index + n - 1) == front {
                assert(log.subrange(prev_index, index) =~= entries);
            } else {
                assert(log == log.take(prev_index) + front);
                assert(false);
            }
        } else {
            if prev_index + n - 1 <= log.len() && log.subrange(prev_index, prev_index + n - 1) == front {
                assert(log.take(index - 1) =~= log.take(prev_index) + front);
                if index <= log.len() {
                    assert(log.subrange(prev_index, index)[n - 1] == log[index - 1]);
                    assert(log[index - 1] != entries.last());
                } else {
                    assert(log.take(index - 1) =~= log);
                }
                assert(merged(log, prev_index, entries) =~= log.take(prev_index) + entries);
            } else {
                assert(kept.len() == index - 1);
                assert(merged(log, prev_index, entries) =~= log.take(prev_index) + entries);
                if index <= log.len() && log.subrange(prev_index, index) == entries {
                    assert(log.subrange(prev_index, index - 1) =~= log.subrange(prev_index, index).drop_last());
                }
            }
        }
    }
}

/// What an accepted append leaves in the log: nothing changes where the follower already holds
/// every entry of the message, tail and all; otherwise the entries stand behind `prev_index` and
/// end the log.
pub proof fn append_truncates_only_on_conflict(r: Replica, m: Message)
    requires
        r.accepts(m),
        m.prev_index >= 0,
    ensures
        m.prev_index + m.entries.len() <= r.log.len() && r.log.subrange(
            m.prev_index,
            m.prev_index + m.entries.len(),
        ) == m.entries ==> r.after(m).log == r.log,
        !(m.prev_index + m.entries.len() <= r.log.len() && r.log.subrange(
            m.prev_index,
            m.prev_index + m.entries.len(),
        ) == m.entries) ==> r.after(m).log == r.log.take(m.prev_index) + m.entries,
{
    lemma_merged_closed(r.log, m.prev_index, m.entries);
}

/// A refused append leaves the log and the commit index exactly as they were.
pub proof fn refused_append_changes_no_entry(r: Replica, m: Message)
    requires
        !r.accepts(m),
    ensures
        r.after(m).log == r.log,
        r.after(m).commit_index == r.commit_index,
{
}

/// An append of an older term changes nothing at all.
pub proof fn older_term_changes_nothing(r: Replica, m: Message)
    requires
        m.term < r.term,
    ensures
        r.after(m) == r,
        !r.accepts(m),
        r.conflict(m) == 0,
{
}

/// Neither the term nor the commit index ever goes backwards.
pub proof fn commit_index_never_decreases(r: Replica, m: Message)
    ensures
        r.after(m).commit_index >= r.commit_index,
        r.after(m).term >= r.term,
{
}

/// The commit index follows one rule, message by message: an accepted append moves it to the lower of
/// the leader's own and the last entry the append vouches for, where that is higher, and a refused one
/// leaves it. Over any run of messages neither it nor the term ever goes backwards.
pub proof fn commit_index_follows_the_rule(r: Replica, m: Message, messages: Seq<Message>)
    ensures
        r.accepts(m) ==> r.after(m).commit_index == max(
            r.commit_index,
            min(m.leader_commit, m.prev_index + m.entries.len()),
        ),
        !r.accepts(m) ==> r.after(m).commit_index == r.commit_index,
        r.run(messages).commit_index >= r.commit_index,
        r.run(messages).term >= r.term,
    decreases messages.len(),
{
    if messages.len() > 0 {
        commit_index_follows_the_rule(r, m, messages.drop_last());
        commit_index_never_decreases(r.run(messages.drop_last()), messages.last());
    }
}

/// A commit index that an append raises is no higher than the leader's own, nor than the last
/// entry the append vouches for.
pub proof fn commit_index_is_capped(r: Replica, m: Message)
    requires
        r.after(m).commit_index > r.commit_index,
    ensures
        r.after(m).commit_index <= m.leader_commit,
        r.after(m).commit_index <= m.prev_index + m.entries.len(),
{
}

/// A message delivered twice does nothing the second time, and is answered alike.
pub proof fn repeated_append_changes_nothing(r: Replica, m: Message)
    requires
        r.accepts(m),
        m.prev_index >= 0,
    ensures
        r.after(m).accepts(m),
        r.after(m).after(m) == r.after(m),
{
    lemma_merged_closed(r.log, m.prev_index, m.entries);
    let log = r.after(m).log;
    lemma_merged_closed(log, m.prev_index, m.entries);
    assert(m.prev_index + m.entries.len() <= log.len());
    assert(log.subrange(m.prev_index, m.prev_index + m.entries.len()) =~= m.entries);
    assert(log.take(m.prev_index) =~= r.log.take(m.prev_index));
    assert(m.prev_index >= 1 ==> log[m.prev_index - 1] == log.take(m.prev_index)[m.prev_index - 1]);
    assert(m.prev_index >= 1 ==> r.log[m.prev_index - 1] == r.log.take(m.prev_index)[m.prev_index - 1]);
}

/// Where a run begins: every entry from there up to `index` is of the same term, and the one before
/// it, if there is one, is not.
pub proof fn run_start_is_the_first_of_its_run(r: Replica, index: int)
    requires
        1 <= index <= r.log.len(),
    ensures
        1 <= r.run_start(index) <= index,
        forall|j: int| r.run_start(index) <= j <= index ==> #[trigger] r.term_at(j) == r.term_at(index),
        r.run_start(index) > 1 ==> r.term_at(r.run_start(index) - 1) != r.term_at(index),
    decreases index,
{
    if index > 1 && r.term_at(index - 1) == r.term_at(index) {
        run_start_is_the_first_of_its_run(r, index - 1);
    }
}

/// Two logs that hold the same term at one index hold the same entries up to it.
pub open spec fn logs_match(a: Seq<i64>, b: Seq<i64>) -> bool {
    forall|i: int|
        0 <= i < a.len() && i < b.len() && #[trigger] a[i] == #[trigger] b[i] ==> a.take(i + 1) == b.take(
            i + 1,
        )
}

/// A follower whose log matches its leader's, and that accepts an append cut out of the leader's
/// log, holds the leader's entries up to the end of the append, and its log still matches.
pub proof fn append_keeps_the_logs_matching(r: Replica, leader: Seq<i64>, m: Message)
    requires
        logs_match(r.log, leader),
        0 <= m.prev_index,
        m.prev_index + m.entries.len() <= leader.len(),
        m.prev_index >= 1 ==> m.prev_term == leader[m.prev_index - 1],
        m.entries == leader.subrange(m.prev_index, m.prev_index + m.entries.len()),
        r.accepts(m),
    ensures
        r.after(m).log.len() >= m.prev_index + m.entries.len(),
        r.after(m).log.take(m.prev_index + m.entries.len() as int) == leader.take(
            m.prev_index + m.entries.len() as int,
        ),
        logs_match(r.after(m).log, leader),
{
    lemma_merged_closed(r.log, m.prev_index, m.entries);
    let p = m.prev_index;
    let n = m.entries.len() as int;
    assert(r.log.take(p) =~= leader.take(p)) by {
        if p >= 1 {
            assert(r.log[p - 1] == leader[p - 1]);
        }
    }
    assert(leader.take(p + n) =~= leader.take(p) + m.entries);
    let log = r.after(m).log;
    if log == r.log && p + n <= r.log.len() && r.log.subrange(p, p + n) == m.entries {
        assert(log.take(p + n) =~= r.log.take(p) + m.entries);
    } else {
        assert(log == leader.take(p + n));
        assert(log.take(p + n) =~= log);
        assert forall|i: int|
            0 <= i < log.len() && i < leader.len() && #[trigger] log[i] == #[trigger] leader[i] implies log.take(
            i + 1,
        ) == leader.take(i + 1) by {
            assert(log.take(i + 1) =~= leader.take(i + 1));
        }
    }
}

/// The log that a plan starts with.
pub const SEED_TERMS: [i64; 5] = [1, 1, 2, 2, 3];

/// One append of a plan.
#[derive(Debug)]
pub struct Append {
    pub term: i64,
    pub prev_index: i64,
    pub prev_term: i64,
    pub leader_commit: i64,
    pub entries: Vec<i64>,
}

impl View for Append {
    type V = Message;

    open spec fn view(&self) -> Message {
        Message {
            term: self.term as int,
            prev_index: self.prev_index as int,
            prev_term: self.prev_term as int,
            leader_commit: self.leader_commit as int,
            entries: self.entries@,
        }
    }
}

/// The command that sends a message.
pub open spec fn append_text(m: Message) -> Seq<char> {
    "append "@ + int_text(m.term) + " "@ + int_text(m.prev_index) + " "@ + int_text(m.prev_term)
        + " "@ + int_text(m.leader_commit) + " "@ + int_list_text(m.entries)
}

impl Append {
    /// The command that sends the message.
    pub fn command(&self) -> (s: String)
        ensures
            s@ == append_text(self@),
    {
        let mut s = String::from_str("append ");
        push_int(&mut s, self.term);
        s.append(" ");
        push_int(&mut s, self.prev_index);
        s.append(" ");
        push_int(&mut s, self.prev_term);
        s.append(" ");
        push_int(&mut s, self.leader_commit);
        s.append(" ");
        s.append(entries_arg(self.entries.as_slice()).as_str());
        s
    }
}

/// Whether a plan may draw the message for a follower in this state: numbers close to the
/// follower's own, on either side of them, and two entries at most.
pub open spec fn drawable(m: Message, r: Replica) -> bool {
    &&& 0 <= m.term
    &&& r.term - 1 <= m.term <= max(0, r.term + 2)
    &&& 0 <= m.prev_index <= r.last_index() + 2
    &&& (0 <= m.prev_term < 5 || r.term_at(m.prev_index) == Some(m.prev_term as i64))
    &&& 0 <= m.leader_commit <= r.last_index() + 2
    &&& m.entries.len() <= 2
    &&& forall|i: int| 0 <= i < m.entries.len() ==> 1 <= #[trigger] m.entries[i] < 5
}

/// One step of a plan: a message, what it must be answered, and the log it must leave behind.
#[derive(Debug)]
pub struct Planned {
    pub append: Append,
    pub command: String,
    pub want: Applied,
    pub log: Vec<i64>,
}

impl Replica {
    /// The follower once a run of messages has come in.
    pub open spec fn run(self, ms: Seq<Message>) -> Replica
        decreases ms.len(),
    {
        if ms.len() == 0 {
            self
        } else {
            self.run(ms.drop_last()).after(ms.last())
        }
    }
}

/// The messages of a plan.
pub open spec fn messages(plan: Seq<Planned>) -> Seq<Message> {
    plan.map_values(|s: Planned| s.append@)
}

/// The step says what the rules make of its message.
pub open spec fn step_follows(s: Planned, before: Replica) -> bool {
    let after = before.after(s.append@);
    &&& drawable(s.append@, before)
    &&& s.command@ == append_text(s.append@)
    &&& s.want.success == before.accepts(s.append@)
    &&& s.want.conflict_index == before.conflict(s.append@)
    &&& s.want.last_index == after.last_index()
    &&& s.want.commit_index == after.commit_index
    &&& s.log@ == after.log
}

/// Every step says what the rules make of all the steps up to it.
pub open spec fn follows_the_rules(plan: Seq<Planned>) -> bool {
    forall|i: int|
        0 <= i < plan.len() ==> step_follows(
            #[trigger] plan[i],
            Replica::of(SEED_TERMS@).run(messages(plan.take(i))),
        )
}

impl Model {
    /// Has a message come in, and says what it must be answered and what it must leave behind.
    pub fn step(&mut self, append: Append) -> (s: Planned)
        requires
            old(self)@.log.len() + append.entries@.len() < i64::MAX,
        ensures
            final(self)@ == old(self)@.after(append@),
            s.append == append,
            drawable(append@, old(self)@) ==> step_follows(s, old(self)@),
    {
        let command = append.command();
        let want = self.append(
            append.term,
            append.prev_index,
            append.prev_term,
            append.leader_commit,
            append.entries.as_slice(),
        );
        let log = self.log.clone();
        assert(log@ =~= self.log@);
        Planned { append, command, want, log }
    }

    /// Draws a message for a follower in this state.
    fn draw(&self, rng: &mut StdRng) -> (m: Append)
        requires
            self@.log.len() < 1000,
            0 <= self@.term < 1000,
        ensures
            drawable(m@, self@),
            m.entries@.len() <= 2,
    {
        let drawn: i64 = self.term + draw_i64(rng, -1, 3);
        let term: i64 = if drawn < 0 {
            0
        } else {
            drawn
        };
        let prev_index: i64 = draw_i64(rng, 0, self.last_index() + 3);
        let prev_term: i64 = if draw_ratio(rng, 7, 10) {
            match self.term_at(prev_index) {
                Some(held) => held,
                None => 0,
            }
        } else {
            draw_i64(rng, 0, 5)
        };
        let leader_commit: i64 = draw_i64(rng, 0, self.last_index() + 3);
        let count: i32 = draw_i32(rng, 0, 3);
        let mut entries: Vec<i64> = Vec::new();
        let mut i: i32 = 0;
        while i < count
            invariant
                0 <= i <= count < 3,
                entries@.len() == i,
                forall|k: int| 0 <= k < entries@.len() ==> 1 <= #[trigger] entries@[k] < 5,
            decreases count - i,
        {
            entries.push(draw_i64(rng, 1, 5));
            i += 1;
        }
        Append { term, prev_index, prev_term, leader_commit, entries }
    }
}

proof fn lemma_merged_len(log: Seq<i64>, prev_index: int, entries: Seq<i64>)
    ensures
        merged(log, prev_index, entries).len() <= log.len() + entries.len(),
    decreases entries.len(),
{
    if entries.len() > 0 {
        lemma_merged_len(log, prev_index, entries.drop_last());
    }
}

/// Sixty seeded appends, each with what it must be answered and the log it must leave behind.
pub fn plan(rng: &mut StdRng) -> (plan: Vec<Planned>)
    ensures
        plan@.len() == 60,
        follows_the_rules(plan@),
{
    let seed_terms = SEED_TERMS;
    let mut model = Model::new(&seed_terms);
    let mut plan: Vec<Planned> = Vec::new();
    assert(messages(plan@) =~= Seq::<Message>::empty());
    let mut i: usize = 0;
    while i < 60
        invariant
            i <= 60,
            plan@.len() == i,
            model@ == Replica::of(SEED_TERMS@).run(messages(plan@)),
            follows_the_rules(plan@),
            model@.log.len() <= 5 + 2 * i,
            0 <= model@.term <= 3 + 2 * i,
        decreases 60 - i,
    {
        let append = model.draw(rng);
        let ghost before = plan@;
        proof {
            lemma_merged_len(model@.log, append@.prev_index, append@.entries);
        }
        let step = model.step(append);
        plan.push(step);
        proof {
            assert(messages(plan@).drop_last() =~= messages(before));
            assert(plan@.take(before.len() as int) =~= before);
            assert forall|k: int| 0 <= k < plan@.len() implies step_follows(
                #[trigger] plan@[k],
                Replica::of(SEED_TERMS@).run(messages(plan@.take(k))),
            ) by {
                if k < before.len() {
                    assert(before[k] == plan@[k]);
                    assert(plan@.take(k) =~= before.take(k));
                }
            }
        }
        i += 1;
    }
    plan
}

/// What the program answered to one append, and the log it then had.
#[derive(Debug)]
pub struct Seen {
    pub answer: Applied,
    pub terms: String,
}

/// Reads what the program answered to one append, and the log it then had.
pub fn read_step(command: &str, answer: &Json, log: &Json) -> (r: Result<Seen, Misshapen>)
    ensures
        r matches Ok(seen) ==> {
            &&& lookup(*answer, "success"@) == Some(Json::Bool(seen.answer.success))
            &&& whole_field(*answer, "conflict_index"@) == Some(seen.answer.conflict_index)
            &&& whole_field(*answer, "last_index"@) == Some(seen.answer.last_index)
            &&& whole_field(*answer, "commit_index"@) == Some(seen.answer.commit_index)
            &&& seen.terms@ == raw_text(*log, "terms"@)
        },
        r is Ok <==> {
            &&& lookup(*answer, "success"@) matches Some(Json::Bool(_))
            &&& whole_field(*answer, "conflict_index"@) is Some
            &&& whole_field(*answer, "last_index"@) is Some
            &&& whole_field(*answer, "commit_index"@) is Some
        },
        r matches Err(e) ==> e.command@ == command@ && e.field@ == if !(lookup(*answer, "success"@) matches Some(Json::Bool(_))) {
            "success"@
        } else if whole_field(*answer, "conflict_index"@) is None {
            "conflict_index"@
        } else if whole_field(*answer, "last_index"@) is None {
            "last_index"@
        } else {
            "commit_index"@
        },
{
    let success = match expect_bool(answer, command, "success") {
        Ok(b) => b,
        Err(e) => {
            return Err(e);
        },
    };
    let conflict_index: i64 = match expect_i64(answer, command, "conflict_index") {
        Ok(n) => n,
        Err(e) => {
            return Err(e);
        },
    };
    let last_index: i64 = match expect_i64(answer, command, "last_index") {
        Ok(n) => n,
        Err(e) => {
            return Err(e);
        },
    };
    let commit_index: i64 = match expect_i64(answer, command, "commit_index") {
        Ok(n) => n,
        Err(e) => {
            return Err(e);
        },
    };
    Ok(
        Seen {
            answer: Applied { success, conflict_index, last_index, commit_index },
            terms: raw(log, "terms"),
        },
    )
}

/// What the report says of one step of a plan.
pub open spec fn step_rulings(i: nat, want: Planned, got: Seen) -> Seq<Ruling> {
    let command = want.command@;
    seq![
        is_bool(step_path(i, command, "success"@), want.want.success, got.answer.success),
        is_int(
            step_path(i, command, "conflict_index"@),
            want.want.conflict_index as int,
            got.answer.conflict_index as int,
        ),
        is_int(
            step_path(i, command, "last_index"@),
            want.want.last_index as int,
            got.answer.last_index as int,
        ),
        is_int(
            step_path(i, command, "commit_index"@),
            want.want.commit_index as int,
            got.answer.commit_index as int,
        ),
        is_text(step_path(i, command, "log.terms"@), int_list_text(want.log@), got.terms@),
    ]
}

/// What the report says of every step that was seen.
pub open spec fn all_rulings(plan: Seq<Planned>, seen: Seq<Seen>) -> Seq<Seq<Ruling>> {
    Seq::new(seen.len(), |i: int| step_rulings(i as nat, plan[i], seen[i]))
}

/// Holds what was seen so far against a plan, up to the first step that differs.
pub fn judge_plan(seed: u64, plan: &Vec<Planned>, seen: &Vec<Seen>) -> (c: Check)
    requires
        seen@.len() <= plan@.len(),
    ensures
        c@ == (Verdict {
            subject: "sixty seeded appends replayed against the tester's own log"@,
            rulings: until_failure(all_rulings(plan@, seen@)),
            notes: seq![seed_note(seed as nat, plan@.len(), "appends"@)],
            blocks: Seq::empty(),
            remarks: Seq::empty(),
        }),
{
    let mut c = Check::new("sixty seeded appends replayed against the tester's own log");
    c.note(note_seed(seed, plan.len(), "appends").as_str());
    let ghost groups = all_rulings(plan@, seen@);
    let mut i: usize = 0;
    assert(groups.take(0) =~= Seq::empty());
    while i < seen.len() && c.ok()
        invariant
            i <= seen@.len() <= plan@.len(),
            groups == all_rulings(plan@, seen@),
            c@.subject == "sixty seeded appends replayed against the tester's own log"@,
            c@.quiet(),
            c@.notes == seq![seed_note(seed as nat, plan@.len(), "appends"@)],
            c@.rulings == until_failure(groups.take(i as int)),
        decreases seen@.len() - i,
    {
        let want = &plan[i];
        let got = &seen[i];
        let ghost before = c@.rulings;
        let command = want.command.as_str();
        c.eq_bool(name_step(i, command, "success").as_str(), want.want.success, got.answer.success);
        c.eq_int(
            name_step(i, command, "conflict_index").as_str(),
            want.want.conflict_index as i128,
            got.answer.conflict_index as i128,
        );
        c.eq_int(
            name_step(i, command, "last_index").as_str(),
            want.want.last_index as i128,
            got.answer.last_index as i128,
        );
        c.eq_int(
            name_step(i, command, "commit_index").as_str(),
            want.want.commit_index as i128,
            got.answer.commit_index as i128,
        );
        c.eq_text(
            name_step(i, command, "log.terms").as_str(),
            entries_arg(want.log.as_slice()).as_str(),
            got.terms.as_str(),
        );
        proof {
            assert(c@.rulings =~= before + groups[i as int]);
            lemma_until_failure_step(groups, i as int);
        }
        i += 1;
    }
    proof {
        lemma_until_failure_rest(groups, i as int);
    }
    c
}

/// A follower starts with the given log, at the term of its last entry, with nothing committed.
pub proof fn follower_starts_at_its_last_term(terms: Seq<i64>, index: int)
    ensures
        Replica::of(terms).log == terms,
        Replica::of(terms).commit_index == 0,
        terms.len() == 0 ==> Replica::of(terms).term == 0,
        terms.len() > 0 ==> Replica::of(terms).term == terms[terms.len() - 1],
        Replica::of(terms).last_index() == terms.len(),
        1 <= index <= terms.len() ==> Replica::of(terms).term_at(index) == Some(terms[index - 1]),
        index < 1 || index > terms.len() ==> Replica::of(terms).term_at(index) is None,
{
}

/// An append is accepted exactly where it is of no earlier term and this follower holds the entry it is
/// rooted at: index zero always, any other where the log reaches it and has the same term there.
pub proof fn append_is_accepted_where_its_root_is_held(r: Replica, m: Message)
    ensures
        r.accepts(m) <==> m.term >= r.term && (m.prev_index <= 0 || (m.prev_index <= r.log.len()
            && r.log[m.prev_index - 1] == m.prev_term)),
        r.term_at(m.prev_index) == (if 1 <= m.prev_index <= r.log.len() {
            Some(r.log[m.prev_index - 1])
        } else {
            None
        }),
{
}

/// A refusal names where the leader should go back to: one past the log where the log is too short, the
/// first entry of the run of one term that the mismatch stands in where it is not, and nothing where the
/// message is of an earlier term. An append that is accepted names nothing.
pub proof fn refusal_names_where_to_go_back_to(r: Replica, m: Message, j: int)
    ensures
        r.accepts(m) || m.term < r.term ==> r.conflict(m) == 0,
        m.term >= r.term && m.prev_index > r.log.len() ==> r.conflict(m) == r.log.len() + 1,
        m.term >= r.term && 1 <= m.prev_index <= r.log.len() && r.log[m.prev_index - 1] != m.prev_term ==> {
            &&& 1 <= r.conflict(m) <= m.prev_index
            &&& r.conflict(m) <= j <= m.prev_index ==> r.log[j - 1] == r.log[m.prev_index - 1]
            &&& r.conflict(m) > 1 ==> r.log[r.conflict(m) - 2] != r.log[m.prev_index - 1]
        },
{
    if m.term >= r.term && 1 <= m.prev_index <= r.log.len() && r.log[m.prev_index - 1] != m.prev_term {
        run_start_is_the_first_of_its_run(r, m.prev_index);
        if r.conflict(m) <= j <= m.prev_index {
            assert(r.term_at(j) == r.term_at(m.prev_index));
        }
    }
}

/// An append that is accepted brings the leader's term and every one of its entries, each at its index, and
/// keeps every entry up to its root; one that is refused brings a later term and nothing else.
pub proof fn append_brings_its_entries(r: Replica, m: Message, k: int)
    requires
        m.prev_index >= 0,
    ensures
        r.accepts(m) ==> {
            &&& r.after(m).term == m.term
            &&& r.after(m).log.len() >= m.prev_index + m.entries.len()
            &&& 0 <= k < m.entries.len() ==> r.after(m).log[m.prev_index + k] == m.entries[k]
            &&& 0 <= k < m.prev_index ==> r.after(m).log[k] == r.log[k]
        },
        !r.accepts(m) ==> {
            &&& r.after(m).log == r.log
            &&& r.after(m).commit_index == r.commit_index
            &&& m.term > r.term ==> r.after(m).term == m.term
            &&& m.term <= r.term ==> r.after(m).term == r.term
        },
{
    if r.accepts(m) {
        append_truncates_only_on_conflict(r, m);
        let end = m.prev_index + m.entries.len();
        if end <= r.log.len() && r.log.subrange(m.prev_index, end) == m.entries {
            if 0 <= k < m.entries.len() {
                assert(r.log.subrange(m.prev_index, end)[k] == r.log[m.prev_index + k]);
            }
        }
    }
}

/// An append that is accepted takes the leader's commit index, up to the last entry it brought, and never a
/// lower one than before.
pub proof fn append_commits_what_it_brought(r: Replica, m: Message)
    requires
        r.accepts(m),
    ensures
        r.after(m).commit_index >= r.commit_index,
        r.after(m).commit_index == r.commit_index || r.after(m).commit_index == m.leader_commit || r.after(
            m,
        ).commit_index == m.prev_index + m.entries.len(),
        m.leader_commit <= r.commit_index || m.prev_index + m.entries.len() <= r.commit_index ==> r.after(
            m,
        ).commit_index == r.commit_index,
        r.commit_index <= m.leader_commit <= m.prev_index + m.entries.len() ==> r.after(m).commit_index
            == m.leader_commit,
        r.commit_index <= m.prev_index + m.entries.len() <= m.leader_commit ==> r.after(m).commit_index
            == m.prev_index + m.entries.len(),
{
}

/// Messages arrive one after the other.
pub proof fn messages_arrive_one_after_the_other(r: Replica, ms: Seq<Message>, m: Message)
    ensures
        r.run(Seq::empty()) == r,
        r.run(ms.push(m)) == r.run(ms).after(m),
{
    assert(ms.push(m).drop_last() =~= ms);
}

/// The command of an append gives the term, the root, the root's term, the leader's commit index and the
/// entries, in this order.
pub proof fn commands_give_the_numbers_in_order(m: Message)
    ensures
        append_text(m) == "append "@ + int_text(m.term) + " "@ + int_text(m.prev_index) + " "@ + int_text(
            m.prev_term,
        ) + " "@ + int_text(m.leader_commit) + " "@ + int_list_text(m.entries),
{
}

/// What may be drawn: terms near the follower's, roots and commit indexes up to two past its log, and at most
/// two entries of terms one to four.
pub proof fn appends_are_drawn_around_the_log(m: Message, r: Replica)
    requires
        r.term >= 0,
    ensures
        drawable(m, r) <==> {
            &&& m.term >= 0
            &&& -1 <= m.term - r.term <= 2
            &&& 0 <= m.prev_index <= r.log.len() + 2
            &&& 0 <= m.prev_term <= 4 || r.term_at(m.prev_index) == Some(m.prev_term as i64)
            &&& 0 <= m.leader_commit <= r.log.len() + 2
            &&& m.entries.len() <= 2
            &&& forall|i: int| 0 <= i < m.entries.len() ==> 1 <= #[trigger] m.entries[i] <= 4
        },
        SEED_TERMS@ == seq![1i64, 1, 2, 2, 3],
{
    assert(SEED_TERMS@ =~= seq![1i64, 1, 2, 2, 3]);
}

/// What was seen after an append is what was planned: the answer, and the whole log.
pub open spec fn as_planned(want: Planned, got: Seen) -> bool {
    &&& want.want.success == got.answer.success
    &&& want.want.conflict_index == got.answer.conflict_index
    &&& want.want.last_index == got.answer.last_index
    &&& want.want.commit_index == got.answer.commit_index
    &&& got.terms@ == int_list_text(want.log@)
}

/// A run passes exactly where every answer and every log is the planned one.
pub proof fn run_passes_where_every_answer_is_the_planned_one(plan: Seq<Planned>, seen: Seq<Seen>)
    requires
        seen.len() <= plan.len(),
    ensures
        all_hold(until_failure(all_rulings(plan, seen))) <==> forall|i: int|
            0 <= i < seen.len() ==> as_planned(plan[i], #[trigger] seen[i]),
{
    let groups = all_rulings(plan, seen);
    run_passes_where_every_step_does(groups);
    assert forall|i: int| 0 <= i < seen.len() implies (all_hold(#[trigger] groups[i]) <==> as_planned(
        plan[i],
        seen[i],
    )) by {
        let g = groups[i];
        assert(g == step_rulings(i as nat, plan[i], seen[i]));
        assert(g.len() == 5);
        if all_hold(g) {
            assert(g[0].holds() && g[1].holds() && g[2].holds() && g[3].holds() && g[4].holds());
        }
    }
    if all_hold(until_failure(groups)) {
        assert forall|i: int| 0 <= i < seen.len() implies as_planned(plan[i], #[trigger] seen[i]) by {
            assert(all_hold(groups[i]));
        }
    } else {
        let i = choose|i: int| 0 <= i < groups.len() && !all_hold(#[trigger] groups[i]);
        assert(!as_planned(plan[i], seen[i]));
    }
}

/// The topic the program is asked about.
pub const TOPIC: &'static str = "raft-log";

/// A fresh log answers its last index and term.
pub const A_FRESH_LOG_REPORTS_ITSELF: &'static str = "a log the harness handed to the program
> init []
> init [1,1,2]
> log
@ 1 init []
= last_index | 0 | init([]).last_index
= last_term | 0 | init([]).last_term
@ 2 init
= last_index | 3 | init([1,1,2]).last_index
= last_term | 2 | init([1,1,2]).last_term
= commit_index | 0 | init([1,1,2]).commit_index
@ 3 log
= terms | [1,1,2] | log.terms";

/// An append from an older term is refused and changes nothing.
pub const AN_OLDER_TERM_IS_REFUSED: &'static str = "an append from a leader whose term has passed
> init [1,1,4]
> append 2 0 0 3 [2,2,2]
> log
@ 2 append 2 ...
= success | false | append.success
= term | 4 | append.term
@ 3 log
= terms | [1,1,4] | log.terms
= commit_index | 0 | log.commit_index
= term | 4 | log.term";

/// An append past the end of the log names the first missing index.
pub const A_GAP_NAMES_THE_MISSING_INDEX: &'static str = "an append whose previous index is past the end of the log
> init [1,1]
> append 3 5 3 0 [3]
> append 3 3 1 0 [3]
> log
@ 2 append 3 5 3 0 [3]
= success | false | append(prev 5).success
= conflict_index | 3 | append(prev 5).conflict_index
@ 3 append 3 3 1 0 [3]
= conflict_index | 3 | append(prev 3).conflict_index
@ 4 log
= terms | [1,1] | log.terms";

/// An append whose previous term disagrees is refused without truncating.
pub const A_FAILED_CHECK_DOES_NOT_TRUNCATE: &'static str = "an append whose previous term disagrees
> init [1,1,2,2,3]
> append 3 3 9 0 [3,3]
> log
@ 2 append 3 3 9 0 [3,3]
= success | false | append.success
@ 3 log
= terms | [1,1,2,2,3] | log.terms
= last_index | 5 | log.last_index";

/// An append at index zero always passes the consistency check.
pub const INDEX_ZERO_ALWAYS_MATCHES: &'static str = "an append rooted at index zero
> init [7,7]
> append 7 0 0 0 [7,7,8]
> log
@ 2 append 7 0 0 0 [7,7,8]
= success | true | append.success
@ 3 log
= terms | [7,7,8] | log.terms";

/// A retransmitted prefix leaves the tail alone.
pub const A_RETRANSMIT_KEEPS_THE_TAIL: &'static str = "a leader resending a prefix the follower already has
> init [1,1,2,2,3]
> append 3 5 3 5 []
> append 3 1 1 0 [1,2]
> log
> append 3 0 0 0 [1,1,2]
> log
@ 3 append 3 1 1 0 [1,2]
= success | true | append.success
@ 4 log
= terms | [1,1,2,2,3] | log.terms
@ 6 log
= terms | [1,1,2,2,3] | log.terms after the second retransmit
= commit_index | 5 | log.commit_index";

/// A conflicting entry truncates exactly the suffix that disagrees.
pub const A_CONFLICT_TRUNCATES_THE_SUFFIX: &'static str = "an append that disagrees three entries in
> init [1,1,2,2,3]
> append 4 0 0 0 [1,1,4]
> log
@ 2 append 4 0 0 0 [1,1,4]
= success | true | append.success
@ 3 log
= terms | [1,1,4] | log.terms
= last_index | 3 | log.last_index
= last_term | 4 | log.last_term";

/// The commit index is capped by the last new entry.
pub const COMMIT_IS_CAPPED_BY_THE_LAST_NEW_ENTRY: &'static str = "a leader commit index that runs ahead of the entries sent
> init [1,1]
> append 2 2 1 9 [2]
> append 2 3 2 9 []
> log
@ 2 append 2 2 1 9 [2]
= commit_index | 3 | append([2]).commit_index
@ 3 append 2 3 2 9 []
= commit_index | 3 | append([]).commit_index
@ 4 log
= commit_index | 3 | log.commit_index";

/// The conflict index skips a whole term at once.
pub const THE_CONFLICT_INDEX_SKIPS_A_TERM: &'static str = "the conflict index of a mismatch inside a run of one term
> init [1,2,2,2,2,3]
> append 4 4 9 0 []
> append 4 5 9 0 []
> append 4 1 9 0 []
@ 2 append 4 4 9 0 []
= conflict_index | 2 | append(prev 4).conflict_index
@ 3 append 4 5 9 0 []
= conflict_index | 2 | append(prev 5).conflict_index
@ 4 append 4 1 9 0 []
= conflict_index | 1 | append(prev 1).conflict_index";

/// The commit index never goes backwards.
pub const COMMIT_NEVER_GOES_BACKWARDS: &'static str = "a stale commit index arriving after a newer one
> init [1,1,1,1]
> append 1 4 1 4 []
> append 1 4 1 1 []
> append 1 2 1 0 []
> log
@ 2 append
= commit_index | 4 | the first append's commit_index
@ 3 append
= commit_index | 4 | the late append's commit_index
@ 4 append
= commit_index | 4 | a zero commit index changes nothing
@ 5 log
= commit_index | 4 | log.commit_index";

/// What somebody stuck on this stage is told, one after the other.
pub const HINTS: [&'static str; 4] = [
    "Topic `raft-log`: a log is an array of entry terms, index 1 upwards",
    "Refuse the message when prev_index is past the end, or its term disagrees — and leave the \
     log exactly as it was",
    "Truncate only at the first entry that really conflicts; entries that already match must \
     stay, tail and all",
    "commit_index is min(leader_commit, the index of the last new entry), and it never goes \
     backwards",
];

/// The tests of this stage.
pub const TESTS: [TestRow; 11] = [
    (
        "a fresh log answers its last index and term",
        "a_fresh_log_reports_itself",
        false,
        false,
        0,
        0,
        A_FRESH_LOG_REPORTS_ITSELF,
    ),
    (
        "an append from an older term is refused and changes nothing",
        "an_older_term_is_refused",
        false,
        false,
        0,
        0,
        AN_OLDER_TERM_IS_REFUSED,
    ),
    (
        "an append past the end of the log names the first missing index",
        "a_gap_names_the_missing_index",
        false,
        false,
        0,
        0,
        A_GAP_NAMES_THE_MISSING_INDEX,
    ),
    (
        "an append whose previous term disagrees is refused without truncating",
        "a_failed_check_does_not_truncate",
        false,
        false,
        0,
        0,
        A_FAILED_CHECK_DOES_NOT_TRUNCATE,
    ),
    (
        "an append at index zero always passes the consistency check",
        "index_zero_always_matches",
        false,
        false,
        0,
        0,
        INDEX_ZERO_ALWAYS_MATCHES,
    ),
    (
        "a retransmitted prefix leaves the tail alone",
        "a_retransmit_keeps_the_tail",
        false,
        false,
        0,
        0,
        A_RETRANSMIT_KEEPS_THE_TAIL,
    ),
    (
        "a conflicting entry truncates exactly the suffix that disagrees",
        "a_conflict_truncates_the_suffix",
        false,
        false,
        0,
        0,
        A_CONFLICT_TRUNCATES_THE_SUFFIX,
    ),
    (
        "the commit index is capped by the last new entry",
        "commit_is_capped_by_the_last_new_entry",
        false,
        false,
        0,
        0,
        COMMIT_IS_CAPPED_BY_THE_LAST_NEW_ENTRY,
    ),
    (
        "the conflict index skips a whole term at once",
        "the_conflict_index_skips_a_term",
        true,
        false,
        0,
        0,
        THE_CONFLICT_INDEX_SKIPS_A_TERM,
    ),
    (
        "the commit index never goes backwards",
        "commit_never_goes_backwards",
        true,
        false,
        0,
        0,
        COMMIT_NEVER_GOES_BACKWARDS,
    ),
    (
        "sixty seeded appends match the tester's own replay",
        "a_long_seeded_replication",
        true,
        false,
        0,
        0,
        "",
    ),
];

/// The worked examples of this stage.
pub const EXAMPLES: [PrimRow; 2] = [
    (
        "A prefix the leader has already sent",
        "raft-log",
        "init [1,1,2,2]
append 2 1 1 0 [1,2]
log
append 2 2 1 0 [3]
log",
        "a four-entry log, a retransmitted prefix, then a genuinely conflicting entry",
        "the first append leaves all four entries; the second leaves three",
        "Both appends pass the consistency check at index 1 and 2, and both overlap entries the \
         follower already has. Only the second one disagrees about a term, and only it is \
         allowed to truncate. Deleting from prev_index + 1 unconditionally would throw away \
         indexes 3 and 4 on the first message, and they may already be committed.",
    ),
    (
        "A follower that is missing entries",
        "raft-log",
        "init [1,1]
append 3 5 2 0 [3]
append 3 2 9 0 [3]",
        "two appends the follower cannot accept: one past its end, one disagreeing",
        "success false both times, with conflict_index 3 and then 1",
        "The conflict index is what saves the leader from backing up one entry per round trip. \
         Past the end it is the first index the follower lacks; on a term mismatch it is the \
         first index of the run holding the wrong term, so the leader skips the whole term in \
         one go.",
    ),
];

/// The worked examples of this stage.
pub fn examples() -> (examples: Vec<ExampleSpec>)
    ensures
        described(examples@) == EXAMPLES@.map_values(|row: PrimRow| prim_described(row)),
{
    prim_examples(EXAMPLES)
}

/// What the rows say of this stage's place in the suite.
proof fn lemma_in_place()
    ensures
        rows_written(TESTS@),
        rows_on_topic(EXAMPLES@, HINTS[0]@),
{
    assert(rows_written(TESTS@)) by {
        reveal_strlit("placeholder");
        reveal_strlit("a fresh log answers its last index and term");
        assert(TESTS@[0].0@.len() == 43);
        reveal_strlit("an append from an older term is refused and changes nothing");
        assert(TESTS@[1].0@.len() == 59);
        reveal_strlit("an append past the end of the log names the first missing index");
        assert(TESTS@[2].0@.len() == 63);
        reveal_strlit("an append whose previous term disagrees is refused without truncating");
        assert(TESTS@[3].0@.len() == 69);
        reveal_strlit("an append at index zero always passes the consistency check");
        assert(TESTS@[4].0@.len() == 59);
        reveal_strlit("a retransmitted prefix leaves the tail alone");
        assert(TESTS@[5].0@.len() == 44);
        reveal_strlit("a conflicting entry truncates exactly the suffix that disagrees");
        assert(TESTS@[6].0@.len() == 63);
        reveal_strlit("the commit index is capped by the last new entry");
        assert(TESTS@[7].0@.len() == 48);
        reveal_strlit("the conflict index skips a whole term at once");
        assert(TESTS@[8].0@.len() == 45);
        reveal_strlit("the commit index never goes backwards");
        assert(TESTS@[9].0@.len() == 37);
        reveal_strlit("sixty seeded appends match the tester's own replay");
        assert(TESTS@[10].0@.len() == 50);
        assert forall|i: int| 0 <= i < 11 implies (#[trigger] TESTS@[i]).0@ != "placeholder"@ by {
            assert(i == 0 || i == 1 || i == 2 || i == 3 || i == 4 || i == 5 || i == 6 || i == 7 || i == 8 || i == 9 || i == 10);
        }
    }
    assert(names_topic_at(HINTS[0]@, "raft-log"@, 6)) by {
        reveal_strlit("`");
        reveal_strlit("raft-log");
        reveal_strlit("Topic `raft-log`: a log is an array of entry terms, index 1 upwards");
        assert(HINTS[0]@.subrange(6, 16) =~= "`"@ + "raft-log"@ + "`"@);
    }
    reveal_strlit("init ");
    assert(EXAMPLES@[0].2@.len() >= 5 && EXAMPLES@[0].2@.take(5) =~= "init "@) by {
        reveal_strlit(
            "init [1,1,2,2]\n\
             append 2 1 1 0 [1,2]\n\
             log\n\
             append 2 2 1 0 [3]\n\
             log",
        );
    }
    assert(EXAMPLES@[1].2@.len() >= 5 && EXAMPLES@[1].2@.take(5) =~= "init "@) by {
        reveal_strlit(
            "init [1,1]\n\
             append 3 5 2 0 [3]\n\
             append 3 2 9 0 [3]",
        );
    }
}

/// What stage 57 holds.
pub open spec fn is_stage(s: Stage) -> bool {
    &&& s.number == 57
    &&& s.slug == "raft_log_replication"
    &&& s.name == "Raft log replication"
    &&& s.ext == false
    &&& s.ladder == Ladder::Algorithms
    &&& s.hints == HINTS
    &&& s.tests@ == tests_of(TESTS@)
    &&& described(s.examples@) == EXAMPLES@.map_values(|row: PrimRow| prim_described(row))
}

/// Stage 57.
pub fn stage() -> (s: Stage)
    ensures
        is_stage(s),
        s.in_place(),
{
    let s = Stage {
        number: 57,
        slug: "raft_log_replication",
        name: "Raft log replication",
        ext: false,
        ladder: Ladder::Algorithms,
        hints: HINTS,
        examples: examples(),
        tests: tests(TESTS),
    };
    proof {
        reveal(Stage::in_place);
        assert(s.examples@.len() == described(s.examples@).len());
        lemma_in_place();
        assert forall|i: int| 0 <= i < s.examples@.len() implies opens_topic(
            #[trigger] s.examples@[i]@,
            s.hints[0]@,
        ) by {
            assert(described(s.examples@)[i] == prim_described(EXAMPLES@[i]));
        }
    }
    s
}

} // verus!
