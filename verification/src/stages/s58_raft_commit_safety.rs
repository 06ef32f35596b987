//! Stage 58: Raft commitment and the Figure 8 trap.
//!
//! The leader's half of replication: one match index and one next index per follower, and the rule
//! that turns a count of replicas into a commitment. A majority holding an entry is not enough when
//! the entry came from an earlier term.
use rand::rngs::StdRng;
use vstd::prelude::*;
use crate::check::{
    all_hold, is_at_least, is_int, lemma_until_failure_rest, lemma_until_failure_step, name_step, note_seed,
    run_passes_where_every_step_does, seed_note, step_path, until_failure, Check, Ruling, Verdict,
};
use crate::draw::{draw_i32, draw_i64, draw_usize};
use crate::json::Json;
use crate::examples::{described, prim_described, prim_examples, ExampleSpec, PrimRow};
use crate::stages::{names_topic_at, opens_topic, rows_on_topic, rows_written, tests, tests_of, Ladder, Stage, TestRow};
use crate::names::{names_at_least, NameTable};
use crate::prim::{expect_i64, whole_field, Misshapen};
use crate::text::{
    decimal_reads_back, int_list_text, int_list_to_text, int_text, nat_text, push_int, push_nat, whole_number,
};

verus! {

/// The name of the cluster's member number `i`.
pub open spec fn member_name(i: nat) -> Seq<char> {
    seq!['s'] + nat_text(i)
}

/// The names of every member but the first, which is the leader.
pub open spec fn followers(members: nat) -> Set<Seq<char>>
    decreases members,
{
    if members < 2 {
        Set::empty()
    } else {
        followers((members - 1) as nat).insert(member_name(members))
    }
}

/// A leader's view of its followers.
#[verifier::ext_equal]
pub struct Leadership {
    pub members: nat,
    pub term: int,
    pub log: Seq<i64>,
    pub commit_index: int,
    pub match_index: Map<Seq<char>, i64>,
    pub next_index: Map<Seq<char>, i64>,
}

/// The number a table holds under a name, or another where it holds none.
pub open spec fn held_or(table: Map<Seq<char>, i64>, name: Seq<char>, other: i64) -> i64 {
    if table.contains_key(name) {
        table[name]
    } else {
        other
    }
}

pub open spec fn larger(a: i64, b: i64) -> i64 {
    if a >= b {
        a
    } else {
        b
    }
}

impl Leadership {
    /// A leader that has just taken office: nothing is known to be replicated, and every follower
    /// is optimistically taken to be caught up.
    pub open spec fn fresh(members: nat, term: int, log: Seq<i64>) -> Leadership {
        Leadership {
            members,
            term,
            log,
            commit_index: 0,
            match_index: followers(members).mk_map(|n: Seq<char>| 0i64),
            next_index: followers(members).mk_map(|n: Seq<char>| (log.len() + 1) as i64),
        }
    }

    pub open spec fn majority(self) -> nat {
        self.members / 2 + 1
    }

    pub open spec fn last_index(self) -> int {
        self.log.len() as int
    }

    pub open spec fn term_at(self, index: int) -> Option<i64> {
        if 1 <= index <= self.log.len() {
            Some(self.log[index - 1])
        } else {
            None
        }
    }

    /// How many members hold the entry at `index`; the leader is one of them.
    pub open spec fn replicas(self, index: int) -> nat {
        1 + names_at_least(self.match_index, index).len()
    }

    /// The entry at `index` is of the leader's own term, and a majority holds it.
    pub open spec fn carried(self, index: int) -> bool {
        self.replicas(index) >= self.majority() && self.term_at(index) == Some(self.term as i64)
    }

    /// The highest index from `n` down to the commit index that is carried, or the commit index.
    pub open spec fn highest_carried(self, n: int) -> int
        decreases n - self.commit_index,
    {
        if n <= self.commit_index {
            self.commit_index
        } else if self.carried(n) {
            n
        } else {
            self.highest_carried(n - 1)
        }
    }

    /// The leader once it has moved its commit index as far as it may.
    pub open spec fn advanced(self) -> Leadership {
        Leadership { commit_index: self.highest_carried(self.last_index()), ..self }
    }

    /// The leader once it has taken a new entry into its log.
    pub open spec fn appended(self) -> Leadership {
        Leadership { log: self.log.push(self.term as i64), ..self }
    }

    /// What the leader knows to be replicated at `peer`, once it has acknowledged `index`.
    pub open spec fn matched(self, peer: Seq<char>, index: i64) -> i64 {
        larger(held_or(self.match_index, peer, 0), index)
    }

    /// What the leader sends `peer` next, once it has acknowledged `index`.
    pub open spec fn next(self, peer: Seq<char>, index: i64) -> i64 {
        larger(held_or(self.next_index, peer, 1), (self.matched(peer, index) + 1) as i64)
    }

    /// The leader once `peer` has acknowledged `index`.
    pub open spec fn acknowledged(self, peer: Seq<char>, index: i64) -> Leadership {
        Leadership {
            match_index: self.match_index.insert(peer, self.matched(peer, index)),
            next_index: self.next_index.insert(peer, self.next(peer, index)),
            ..self
        }.advanced()
    }

    /// The machine's limits: the log and the followers can be counted.
    pub open spec fn fits(self) -> bool {
        &&& self.log.len() < i64::MAX
        &&& self.match_index.dom().finite()
        &&& self.match_index.dom().len() < usize::MAX
        &&& forall|n: Seq<char>| #[trigger]
            self.match_index.contains_key(n) ==> self.match_index[n] < i64::MAX
    }

    /// What holds of a leader at every moment: its commit index stands at an entry of its own term
    /// that a majority holds, or it has committed nothing, and it never sends what is matched.
    pub open spec fn sound(self) -> bool {
        &&& self.match_index.dom().finite()
        &&& i64::MIN <= self.term <= i64::MAX
        &&& self.commit_index == 0 || (1 <= self.commit_index <= self.log.len() && self.carried(
            self.commit_index,
        ))
        &&& forall|n: Seq<char>| #[trigger]
            self.match_index.contains_key(n) ==> {
                &&& 0 <= self.match_index[n]
                &&& self.next_index.contains_key(n)
                &&& self.match_index[n] < self.next_index[n]
            }
    }
}

proof fn lemma_followers_finite(members: nat)
    ensures
        followers(members).finite(),
        followers(members).len() <= members,
    decreases members,
{
    if members >= 2 {
        lemma_followers_finite((members - 1) as nat);
    }
}

/// A leader's view of its followers, and the rule that advances the commit index.
pub struct Model {
    members: usize,
    term: i64,
    log: Vec<i64>,
    commit_index: i64,
    match_index: NameTable,
    next_index: NameTable,
}

impl View for Model {
    type V = Leadership;

    closed spec fn view(&self) -> Leadership {
        Leadership {
            members: self.members as nat,
            term: self.term as int,
            log: self.log@,
            commit_index: self.commit_index as int,
            match_index: self.match_index@,
            next_index: self.next_index@,
        }
    }
}

impl Model {
    pub fn new(members: usize, term: i64, log: &[i64]) -> (m: Model)
        requires
            log@.len() < i64::MAX,
        ensures
            m@ == Leadership::fresh(members as nat, term as int, log@),
    {
        let mut match_index = NameTable::new();
        let mut next_index = NameTable::new();
        let next: i64 = log.len() as i64 + 1;
        let mut i: usize = 1;
        proof {
            assert(followers(1).mk_map(|n: Seq<char>| 0i64) =~= Map::empty());
            assert(followers(1).mk_map(|n: Seq<char>| next) =~= Map::empty());
            assert(followers(0) =~= followers(1));
        }
        while i < members
            invariant
                1 <= i,
                i <= members || i == 1,
                next == log@.len() + 1,
                match_index@ == followers(i as nat).mk_map(|n: Seq<char>| 0i64),
                next_index@ == followers(i as nat).mk_map(|n: Seq<char>| next),
            decreases members - i,
        {
            i += 1;
            let mut name = String::new();
            name.push('s');
            push_nat(&mut name, i as u64);
            assert(name@ =~= member_name(i as nat));
            match_index.set(name.as_str(), 0);
            next_index.set(name.as_str(), next);
            assert(match_index@ =~= followers(i as nat).mk_map(|n: Seq<char>| 0i64));
            assert(next_index@ =~= followers(i as nat).mk_map(|n: Seq<char>| next));
        }
        let mut own: Vec<i64> = Vec::new();
        own.extend_from_slice(log);
        assert(own@ =~= log@);
        proof {
            assert(match_index@ =~= followers(members as nat).mk_map(|n: Seq<char>| 0i64));
            assert(next_index@ =~= followers(members as nat).mk_map(
                |n: Seq<char>| (log@.len() + 1) as i64,
            ));
        }
        Model { members, term, log: own, commit_index: 0, match_index, next_index }
    }

    pub fn commit_index(&self) -> (r: i64)
        ensures
            r == self@.commit_index,
    {
        self.commit_index
    }

    pub fn majority(&self) -> (r: usize)
        ensures
            r == self@.majority(),
    {
        self.members / 2 + 1
    }

    pub fn last_index(&self) -> (r: i64)
        requires
            self@.log.len() <= i64::MAX,
        ensures
            r == self@.last_index(),
    {
        self.log.len() as i64
    }

    pub fn term_at(&self, index: i64) -> (r: Option<i64>)
        requires
            self@.log.len() <= i64::MAX,
        ensures
            r == self@.term_at(index as int),
    {
        let held: usize = self.log.len();
        if index >= 1 && index <= held as i64 {
            Some(self.log[(index - 1) as usize])
        } else {
            None
        }
    }

    /// How many members hold the entry at `index`; the leader is one of them.
    pub fn replicas(&self, index: i64) -> (r: usize)
        requires
            self@.match_index.dom().finite(),
            self@.match_index.dom().len() < usize::MAX,
        ensures
            r == self@.replicas(index as int),
    {
        proof {
            vstd::set_lib::lemma_len_subset(
                names_at_least(self@.match_index, index as int),
                self@.match_index.dom(),
            );
        }
        1 + self.match_index.count_at_least(index)
    }

    pub fn advance(&mut self)
        requires
            old(self)@.fits(),
        ensures
            final(self)@ == old(self)@.advanced(),
    {
        let mut n: i64 = self.last_index();
        while n > self.commit_index
            invariant
                *self == *old(self),
                self@.fits(),
                self@.commit_index == self.commit_index,
                n <= self@.last_index(),
                self@.highest_carried(self@.last_index()) == self@.highest_carried(n as int),
            decreases n - self.commit_index,
        {
            if self.replicas(n) >= self.majority() && self.term_at(n) == Some(self.term) {
                self.commit_index = n;
                return;
            }
            n -= 1;
        }
    }

    pub fn append(&mut self)
        ensures
            final(self)@ == old(self)@.appended(),
    {
        self.log.push(self.term);
    }

    /// Returns `(match_index, next_index)` for the peer.
    pub fn ack(&mut self, peer: &str, index: i64) -> (r: (i64, i64))
        requires
            old(self)@.fits(),
            old(self)@.match_index.dom().len() + 1 < usize::MAX,
            index < i64::MAX,
        ensures
            final(self)@.fits(),
            final(self)@ == old(self)@.acknowledged(peer@, index),
            r.0 == old(self)@.matched(peer@, index),
            r.1 == old(self)@.next(peer@, index),
    {
        let known: i64 = match self.match_index.get(peer) {
            Some(known) => known,
            None => 0,
        };
        let matched: i64 = if known >= index {
            known
        } else {
            index
        };
        self.match_index.set(peer, matched);
        let planned: i64 = match self.next_index.get(peer) {
            Some(planned) => planned,
            None => 1,
        };
        let next: i64 = if planned >= matched + 1 {
            planned
        } else {
            matched + 1
        };
        self.next_index.set(peer, next);
        self.advance();
        (matched, next)
    }
}

/// A list of terms as the command line wants it: compact JSON, no spaces.
pub fn terms_arg(terms: &[i64]) -> (out: String)
    ensures
        out@ == int_list_text(terms@),
{
    int_list_to_text(terms)
}

proof fn lemma_highest_carried(l: Leadership, n: int)
    ensures
        l.highest_carried(n) >= l.commit_index,
        l.highest_carried(n) > l.commit_index ==> l.highest_carried(n) <= n && l.carried(
            l.highest_carried(n),
        ),
        forall|k: int|
            l.highest_carried(n) < k <= n && l.commit_index < k ==> !#[trigger] l.carried(k),
    decreases n - l.commit_index,
{
    if n > l.commit_index && !l.carried(n) {
        lemma_highest_carried(l, n - 1);
    }
}

/// The commit index never goes backwards.
pub proof fn commit_index_is_a_ratchet(l: Leadership, peer: Seq<char>, index: i64)
    ensures
        l.advanced().commit_index >= l.commit_index,
        l.appended().commit_index == l.commit_index,
        l.acknowledged(peer, index).commit_index >= l.commit_index,
{
    lemma_highest_carried(l, l.last_index());
    let heard = Leadership {
        match_index: l.match_index.insert(peer, l.matched(peer, index)),
        next_index: l.next_index.insert(peer, l.next(peer, index)),
        ..l
    };
    lemma_highest_carried(heard, heard.last_index());
}

/// Advancing commits the highest entry of the leader's own term that a majority holds: where the
/// commit index moves it moves to such an entry, and no higher entry is one.
pub proof fn advance_commits_the_highest_carried(l: Leadership)
    ensures
        l.advanced().commit_index > l.commit_index ==> l.carried(l.advanced().commit_index),
        forall|k: int|
            l.advanced().commit_index < k <= l.log.len() && l.commit_index < k ==> !#[trigger] l.carried(
                k,
            ),
{
    lemma_highest_carried(l, l.last_index());
}

/// The Figure 8 trap: entries of earlier terms are never committed by counting replicas, however
/// many members hold them.
pub proof fn earlier_terms_are_not_committed_by_count(l: Leadership, peer: Seq<char>, index: i64)
    requires
        i64::MIN <= l.term <= i64::MAX,
        forall|i: int| l.commit_index <= i < l.log.len() ==> #[trigger] l.log[i] != l.term,
        l.commit_index >= 0,
    ensures
        l.acknowledged(peer, index).commit_index == l.commit_index,
{
    let heard = Leadership {
        match_index: l.match_index.insert(peer, l.matched(peer, index)),
        next_index: l.next_index.insert(peer, l.next(peer, index)),
        ..l
    };
    lemma_highest_carried(heard, heard.last_index());
    let c = heard.advanced().commit_index;
    if c > l.commit_index {
        assert(l.log[c - 1] != l.term);
    }
}

/// What is known to be replicated is never forgotten, whatever order acknowledgements arrive in.
pub proof fn late_acknowledgement_takes_nothing_back(l: Leadership, peer: Seq<char>, index: i64)
    requires
        l.match_index.contains_key(peer),
    ensures
        l.acknowledged(peer, index).match_index[peer] >= l.match_index[peer],
        l.next_index.contains_key(peer) ==> l.acknowledged(peer, index).next_index[peer]
            >= l.next_index[peer],
        index <= l.match_index[peer] ==> l.acknowledged(peer, index).match_index == l.match_index,
{
    if index <= l.match_index[peer] {
        assert(l.match_index.insert(peer, l.match_index[peer]) =~= l.match_index);
    }
}

proof fn lemma_replicas_grow(l: Leadership, k: Leadership, index: int)
    requires
        k.match_index.dom().finite(),
        forall|n: Seq<char>| #[trigger]
            l.match_index.contains_key(n) ==> k.match_index.contains_key(n) && k.match_index[n]
                >= l.match_index[n],
    ensures
        k.replicas(index) >= l.replicas(index),
{
    let before = names_at_least(l.match_index, index);
    let after = names_at_least(k.match_index, index);
    assert forall|n: Seq<char>| before.contains(n) implies after.contains(n) by {
        assert(l.match_index.contains_key(n));
    }
    assert(after.subset_of(k.match_index.dom()));
    vstd::set_lib::lemma_len_subset(after, k.match_index.dom());
    vstd::set_lib::lemma_len_subset(before, after);
}

/// A fresh leader is sound, and neither an append nor an acknowledgement ends that: whenever the
/// commit index is above zero it stands at an entry of the leader's own term that a majority holds.
pub proof fn soundness_is_kept(
    members: nat,
    term: i64,
    log: Seq<i64>,
    l: Leadership,
    peer: Seq<char>,
    index: i64,
)
    requires
        log.len() < i64::MAX,
        0 <= index < i64::MAX,
        forall|n: Seq<char>| #[trigger]
            l.match_index.contains_key(n) ==> l.match_index[n] < i64::MAX,
    ensures
        Leadership::fresh(members, term as int, log).sound(),
        l.sound() ==> l.appended().sound(),
        l.sound() ==> l.acknowledged(peer, index).sound(),
{
    lemma_followers_finite(members);
    assert(Leadership::fresh(members, term as int, log).match_index.dom() =~= followers(members));
    if l.sound() {
        let grown = l.appended();
        if l.commit_index > 0 {
            assert(grown.log[l.commit_index - 1] == l.log[l.commit_index - 1]);
        }
        let heard = Leadership {
            match_index: l.match_index.insert(peer, l.matched(peer, index)),
            next_index: l.next_index.insert(peer, l.next(peer, index)),
            ..l
        };
        if l.commit_index > 0 {
            lemma_replicas_grow(l, heard, l.commit_index);
        }
        lemma_highest_carried(heard, heard.last_index());
        let done = l.acknowledged(peer, index);
        assert(done.match_index == heard.match_index);
        assert(done.carried(done.commit_index) == heard.carried(done.commit_index));
    }
}

/// The log that a plan's leader starts with.
pub const SEED_LOG: [i64; 4] = [1, 1, 2, 3];

/// The followers that a plan hears from.
pub const PEERS: [&'static str; 4] = ["s2", "s3", "s4", "s5"];

/// The leader a plan starts with: one of five, in its third term.
pub open spec fn plan_start() -> Leadership {
    Leadership::fresh(5, 3, SEED_LOG@)
}

/// One event of a plan.
#[derive(Clone, Copy, Debug)]
pub enum Event {
    Append,
    Ack { peer: &'static str, index: i64 },
}

impl Event {
    /// The command that has the event happen.
    pub open spec fn text(self) -> Seq<char> {
        match self {
            Event::Append => "append"@,
            Event::Ack { peer, index } => "ack "@ + peer@ + " "@ + int_text(index as int),
        }
    }

    /// The command that has the event happen.
    pub fn command(&self) -> (s: String)
        ensures
            s@ == self.text(),
    {
        match self {
            Event::Append => String::from_str("append"),
            Event::Ack { peer, index } => {
                let mut s = String::from_str("ack ");
                s.append(peer);
                s.append(" ");
                push_int(&mut s, *index);
                s
            },
        }
    }

    /// Whether a plan may draw the event for a leader in this state.
    pub open spec fn drawable(self, l: Leadership) -> bool {
        match self {
            Event::Append => true,
            Event::Ack { peer, index } => PEERS@.contains(peer) && 0 <= index <= l.last_index() + 1,
        }
    }
}

impl Leadership {
    /// The leader once an event has happened.
    pub open spec fn after(self, e: Event) -> Leadership {
        match e {
            Event::Append => self.appended(),
            Event::Ack { peer, index } => self.acknowledged(peer@, index),
        }
    }

    /// The leader once a run of events has happened.
    pub open spec fn run(self, es: Seq<Event>) -> Leadership
        decreases es.len(),
    {
        if es.len() == 0 {
            self
        } else {
            self.run(es.drop_last()).after(es.last())
        }
    }
}

/// One step of a plan: an event, what it must be answered, and the commit index it must leave
/// behind. An append answers with no indexes of its own, so its two are -1.
#[derive(Debug)]
pub struct Planned {
    pub event: Event,
    pub command: String,
    pub matched: i64,
    pub next: i64,
    pub commit: i64,
}

/// The events of a plan.
pub open spec fn events(plan: Seq<Planned>) -> Seq<Event> {
    plan.map_values(|s: Planned| s.event)
}

/// The step says what the rules make of its event.
pub open spec fn step_follows(s: Planned, before: Leadership) -> bool {
    &&& s.event.drawable(before)
    &&& s.command@ == s.event.text()
    &&& s.commit == before.after(s.event).commit_index
    &&& match s.event {
        Event::Append => s.matched == -1 && s.next == -1,
        Event::Ack { peer, index } => s.matched == before.matched(peer@, index) && s.next
            == before.next(peer@, index),
    }
}

/// Every step says what the rules make of all the steps up to it.
pub open spec fn follows_the_rules(plan: Seq<Planned>) -> bool {
    forall|i: int|
        0 <= i < plan.len() ==> step_follows(
            #[trigger] plan[i],
            plan_start().run(events(plan.take(i))),
        )
}

impl Model {
    /// Has an event happen, and says what it must be answered.
    pub fn step(&mut self, event: Event) -> (s: Planned)
        requires
            old(self)@.fits(),
            old(self)@.match_index.dom().len() + 1 < usize::MAX,
            old(self)@.log.len() + 1 < i64::MAX,
            event matches Event::Ack { index, .. } ==> index < i64::MAX,
        ensures
            final(self)@ == old(self)@.after(event),
            final(self)@.fits(),
            s.event == event,
            event.drawable(old(self)@) ==> step_follows(s, old(self)@),
    {
        let command = event.command();
        match event {
            Event::Append => {
                self.append();
                Planned { event, command, matched: -1, next: -1, commit: self.commit_index() }
            },
            Event::Ack { peer, index } => {
                let (matched, next) = self.ack(peer, index);
                Planned { event, command, matched, next, commit: self.commit_index() }
            },
        }
    }

    /// Draws an event for a leader in this state.
    fn draw(&self, rng: &mut StdRng) -> (event: Event)
        requires
            self@.log.len() < 1000,
        ensures
            event.drawable(self@),
            event matches Event::Ack { index, .. } ==> index < 1001,
    {
        if draw_i32(rng, 0, 6) == 0 {
            return Event::Append;
        }
        let peers = PEERS;
        let peer = peers[draw_usize(rng, 0, 4)];
        assert(PEERS@.contains(peer));
        let index: i64 = draw_i64(rng, 0, self.last_index() + 2);
        Event::Ack { peer, index }
    }
}

/// Eighty seeded events, each with what it must be answered and the commit index it must leave
/// behind.
pub fn plan(rng: &mut StdRng) -> (plan: Vec<Planned>)
    ensures
        plan@.len() == 80,
        follows_the_rules(plan@),
{
    let seed_log = SEED_LOG;
    let mut model = Model::new(5, 3, &seed_log);
    let mut plan: Vec<Planned> = Vec::new();
    proof {
        assert(events(plan@) =~= Seq::<Event>::empty());
        lemma_followers_finite(5);
        assert(model@.match_index.dom() =~= followers(5));
    }
    let mut i: usize = 0;
    while i < 80
        invariant
            i <= 80,
            plan@.len() == i,
            model@ == plan_start().run(events(plan@)),
            follows_the_rules(plan@),
            model@.log.len() <= 4 + i,
            model@.fits(),
            model@.match_index.dom().len() <= 5 + i,
        decreases 80 - i,
    {
        let event = model.draw(rng);
        let ghost before = plan@;
        let step = model.step(event);
        plan.push(step);
        proof {
            assert(events(plan@).drop_last() =~= events(before));
            assert(plan@.take(before.len() as int) =~= before);
            assert forall|k: int| 0 <= k < plan@.len() implies step_follows(
                #[trigger] plan@[k],
                plan_start().run(events(plan@.take(k))),
            ) by {
                if k < before.len() {
                    assert(before[k] == plan@[k]);
                    assert(plan@.take(k) =~= before.take(k));
                }
            }
        }
        i += 1;
    }
    plan
}

/// What the program answered to one event, and the commit index it then had.
#[derive(Clone, Copy, Debug)]
pub struct Seen {
    pub matched: i64,
    pub next: i64,
    pub commit: i64,
}

/// Reads the commit index a `state` answer gives after an append.
pub fn read_append(state: &Json) -> (r: Result<Seen, Misshapen>)
    ensures
        match whole_field(*state, "commit_index"@) {
            Some(commit) => r is Ok && r->Ok_0.matched == -1 && r->Ok_0.next == -1
                && r->Ok_0.commit == commit,
            None => r is Err,
        },
        r matches Err(e) ==> e.command@ == "state"@ && e.field@ == "commit_index"@,
{
    match expect_i64(state, "state", "commit_index") {
        Ok(commit) => Ok(Seen { matched: -1, next: -1, commit }),
        Err(e) => Err(e),
    }
}

/// Reads what an acknowledgement was answered.
pub fn read_ack(command: &str, answer: &Json) -> (r: Result<Seen, Misshapen>)
    ensures
        r is Ok <==> {
            &&& whole_field(*answer, "match_index"@) is Some
            &&& whole_field(*answer, "next_index"@) is Some
            &&& whole_field(*answer, "commit_index"@) is Some
        },
        r matches Ok(seen) ==> {
            &&& whole_field(*answer, "match_index"@) == Some(seen.matched)
            &&& whole_field(*answer, "next_index"@) == Some(seen.next)
            &&& whole_field(*answer, "commit_index"@) == Some(seen.commit)
        },
        r matches Err(e) ==> e.command@ == command@ && e.field@ == if whole_field(*answer, "match_index"@) is None {
            "match_index"@
        } else if whole_field(*answer, "next_index"@) is None {
            "next_index"@
        } else {
            "commit_index"@
        },
{
    let matched: i64 = match expect_i64(answer, command, "match_index") {
        Ok(n) => n,
        Err(e) => {
            return Err(e);
        },
    };
    let next: i64 = match expect_i64(answer, command, "next_index") {
        Ok(n) => n,
        Err(e) => {
            return Err(e);
        },
    };
    match expect_i64(answer, command, "commit_index") {
        Ok(commit) => Ok(Seen { matched, next, commit }),
        Err(e) => Err(e),
    }
}

/// The highest commit index seen in the first `n` steps; zero where none is higher.
pub open spec fn highest_seen(seen: Seq<Seen>, n: int) -> int
    decreases n,
{
    if n <= 0 {
        0
    } else if seen[n - 1].commit >= highest_seen(seen, n - 1) {
        seen[n - 1].commit as int
    } else {
        highest_seen(seen, n - 1)
    }
}

/// What the report says of one step of a plan: the three indexes, and that the commit index is no
/// lower than it ever was.
pub open spec fn step_rulings(i: nat, want: Planned, got: Seen, highest: int) -> Seq<Ruling> {
    let command = want.command@;
    seq![
        is_int(step_path(i, command, "match_index"@), want.matched as int, got.matched as int),
        is_int(step_path(i, command, "next_index"@), want.next as int, got.next as int),
        is_int(step_path(i, command, "commit_index"@), want.commit as int, got.commit as int),
        is_at_least(
            step_path(i, command, "commit_index is monotonic"@),
            highest,
            got.commit as int,
        ),
    ]
}

/// What the report says of every step that was seen.
pub open spec fn all_rulings(plan: Seq<Planned>, seen: Seq<Seen>) -> Seq<Seq<Ruling>> {
    Seq::new(
        seen.len(),
        |i: int| step_rulings(i as nat, plan[i], seen[i], highest_seen(seen, i)),
    )
}

/// Holds what was seen so far against a plan, up to the first step that differs.
pub fn judge_plan(seed: u64, plan: &Vec<Planned>, seen: &Vec<Seen>) -> (c: Check)
    requires
        seen@.len() <= plan@.len(),
    ensures
        c@ == (Verdict {
            subject: "eighty seeded acknowledgements replayed against \u{a7}5.4.2"@,
            rulings: until_failure(all_rulings(plan@, seen@)),
            notes: seq![seed_note(seed as nat, plan@.len(), "events"@)],
            blocks: Seq::empty(),
            remarks: Seq::empty(),
        }),
{
    let mut c = Check::new("eighty seeded acknowledgements replayed against \u{a7}5.4.2");
    c.note(note_seed(seed, plan.len(), "events").as_str());
    let ghost groups = all_rulings(plan@, seen@);
    let mut highest: i64 = 0;
    let mut i: usize = 0;
    assert(groups.take(0) =~= Seq::empty());
    while i < seen.len() && c.ok()
        invariant
            i <= seen@.len() <= plan@.len(),
            groups == all_rulings(plan@, seen@),
            highest == highest_seen(seen@, i as int),
            c@.subject == "eighty seeded acknowledgements replayed against \u{a7}5.4.2"@,
            c@.quiet(),
            c@.notes == seq![seed_note(seed as nat, plan@.len(), "events"@)],
            c@.rulings == until_failure(groups.take(i as int)),
        decreases seen@.len() - i,
    {
        let want = &plan[i];
        let got: Seen = seen[i];
        let ghost before = c@.rulings;
        let command = want.command.as_str();
        c.eq_int(name_step(i, command, "match_index").as_str(), want.matched as i128, got.matched as i128);
        c.eq_int(name_step(i, command, "next_index").as_str(), want.next as i128, got.next as i128);
        c.eq_int(name_step(i, command, "commit_index").as_str(), want.commit as i128, got.commit as i128);
        c.at_least(
            name_step(i, command, "commit_index is monotonic").as_str(),
            highest as i128,
            got.commit as i128,
        );
        if got.commit >= highest {
            highest = got.commit;
        }
        proof {
            assert(c@.rulings =~= before + groups[i as int]);
            lemma_until_failure_step(groups, i as int);
        }
        i += 1;
    }
    proof {
        lemma_until_failure_rest(groups, i as int);
    }
    c
}

/// The followers of a cluster are its members from the second on, each under its number.
pub proof fn followers_are_the_members_but_the_first(members: nat, name: Seq<char>)
    ensures
        followers(members).contains(name) <==> exists|i: nat| 2 <= i <= members && name == "s"@ + #[trigger] nat_text(i),
        followers(members).finite(),
    decreases members,
{
    reveal_strlit("s");
    assert("s"@ =~= seq!['s']);
    if members >= 2 {
        followers_are_the_members_but_the_first((members - 1) as nat, name);
        if name == member_name(members) {
            assert(name == "s"@ + nat_text(members));
        }
    }
}

/// A leader that has just taken office takes every follower to be caught up and knows of nothing that one
/// of them holds: every next index is one past its log, every match index is zero, and nothing is committed.
pub proof fn new_leader_takes_everybody_to_be_caught_up(members: nat, term: int, log: Seq<i64>, i: nat)
    requires
        log.len() < i64::MAX,
        2 <= i <= members,
    ensures
        Leadership::fresh(members, term, log).next_index.contains_key("s"@ + nat_text(i)),
        Leadership::fresh(members, term, log).next_index["s"@ + nat_text(i)] == log.len() + 1,
        Leadership::fresh(members, term, log).match_index.contains_key("s"@ + nat_text(i)),
        Leadership::fresh(members, term, log).match_index["s"@ + nat_text(i)] == 0,
        Leadership::fresh(members, term, log).commit_index == 0,
        Leadership::fresh(members, term, log).term == term,
        Leadership::fresh(members, term, log).log == log,
        Leadership::fresh(members, term, log).members == members,
{
    followers_are_the_members_but_the_first(members, "s"@ + nat_text(i));
}

/// A new leader keeps an index for its followers and for nobody else.
pub proof fn new_leader_tracks_its_followers_only(members: nat, term: int, log: Seq<i64>, name: Seq<char>)
    ensures
        Leadership::fresh(members, term, log).match_index.contains_key(name) <==> exists|i: nat|
            2 <= i <= members && name == "s"@ + #[trigger] nat_text(i),
        Leadership::fresh(members, term, log).next_index.dom() == Leadership::fresh(
            members,
            term,
            log,
        ).match_index.dom(),
{
    followers_are_the_members_but_the_first(members, name);
    let l = Leadership::fresh(members, term, log);
    assert(l.next_index.dom() =~= l.match_index.dom());
}

/// Every acknowledgement in a run is of an entry up to `most`.
pub open spec fn acks_up_to(es: Seq<Event>, most: int) -> bool {
    forall|k: int| 0 <= k < es.len() ==> (#[trigger] es[k] matches Event::Ack { index, .. } ==> index <= most)
}

/// However a leader's run goes, as long as nobody acknowledges more than the log it started with, a
/// follower's next index stays one past that log: an acknowledgement never lowers it.
pub proof fn next_index_stays_past_the_first_log(members: nat, term: int, log: Seq<i64>, es: Seq<Event>, i: nat)
    requires
        log.len() < i64::MAX,
        2 <= i <= members,
        acks_up_to(es, log.len() as int),
    ensures
        Leadership::fresh(members, term, log).run(es).next_index.contains_key("s"@ + nat_text(i)),
        Leadership::fresh(members, term, log).run(es).next_index["s"@ + nat_text(i)] == log.len() + 1,
        Leadership::fresh(members, term, log).run(es).match_index.contains_key("s"@ + nat_text(i)),
        0 <= Leadership::fresh(members, term, log).run(es).match_index["s"@ + nat_text(i)] <= log.len(),
    decreases es.len(),
{
    if es.len() == 0 {
        new_leader_takes_everybody_to_be_caught_up(members, term, log, i);
    } else {
        let front = es.drop_last();
        assert(acks_up_to(front, log.len() as int)) by {
            assert forall|k: int| 0 <= k < front.len() implies (#[trigger] front[k] matches Event::Ack {
                index,
                ..
            } ==> index <= log.len()) by {
                assert(front[k] == es[k]);
            }
        }
        next_index_stays_past_the_first_log(members, term, log, front, i);
        assert(es[es.len() - 1] == es.last());
    }
}

/// An acknowledgement of `index` raises what the leader knows the peer to hold to it, never lowers it, and
/// keeps the next index past that; a peer the leader has not heard of starts at nothing. No other peer's
/// indexes, no entry and no term change.
pub proof fn acknowledgement_raises_one_peer(l: Leadership, peer: Seq<char>, index: i64, other: Seq<char>)
    requires
        index < i64::MAX,
        l.match_index.contains_key(peer) ==> l.match_index[peer] < i64::MAX,
    ensures
        l.acknowledged(peer, index).match_index.contains_key(peer),
        l.acknowledged(peer, index).match_index[peer] >= index,
        l.match_index.contains_key(peer) ==> {
            &&& l.acknowledged(peer, index).match_index[peer] >= l.match_index[peer]
            &&& l.acknowledged(peer, index).match_index[peer] == index || l.acknowledged(
                peer,
                index,
            ).match_index[peer] == l.match_index[peer]
        },
        !l.match_index.contains_key(peer) ==> l.acknowledged(peer, index).match_index[peer] == (if index > 0 {
            index
        } else {
            0
        }),
        l.acknowledged(peer, index).next_index.contains_key(peer),
        l.acknowledged(peer, index).next_index[peer] > l.acknowledged(peer, index).match_index[peer],
        l.next_index.contains_key(peer) ==> {
            &&& l.acknowledged(peer, index).next_index[peer] >= l.next_index[peer]
            &&& l.acknowledged(peer, index).next_index[peer] == l.next_index[peer] || l.acknowledged(
                peer,
                index,
            ).next_index[peer] == l.acknowledged(peer, index).match_index[peer] + 1
        },
        !l.next_index.contains_key(peer) && l.acknowledged(peer, index).match_index[peer] >= 0
            ==> l.acknowledged(peer, index).next_index[peer] == l.acknowledged(peer, index).match_index[peer] + 1,
        l.matched(peer, index) == l.acknowledged(peer, index).match_index[peer],
        l.next(peer, index) == l.acknowledged(peer, index).next_index[peer],
        other != peer ==> {
            &&& l.acknowledged(peer, index).match_index.contains_key(other) == l.match_index.contains_key(other)
            &&& l.match_index.contains_key(other) ==> l.acknowledged(peer, index).match_index[other]
                == l.match_index[other]
            &&& l.acknowledged(peer, index).next_index.contains_key(other) == l.next_index.contains_key(other)
            &&& l.next_index.contains_key(other) ==> l.acknowledged(peer, index).next_index[other]
                == l.next_index[other]
        },
        l.acknowledged(peer, index).log == l.log,
        l.acknowledged(peer, index).term == l.term,
        l.acknowledged(peer, index).members == l.members,
{
}

/// The members that hold the entry at `index`, the leader among them: every follower that is known to hold
/// it, and one more.
pub proof fn leader_counts_itself(l: Leadership, index: int, holders: Set<Seq<char>>)
    requires
        l.match_index.dom().finite(),
        forall|n: Seq<char>| #[trigger]
            holders.contains(n) <==> l.match_index.contains_key(n) && l.match_index[n] >= index,
    ensures
        l.replicas(index) == holders.len() + 1,
{
    assert(names_at_least(l.match_index, index) =~= holders);
}

/// An index may be committed exactly where more than half of the members hold it and the entry there is of
/// the leader's own term.
pub proof fn carried_is_a_majority_of_the_own_term(l: Leadership, index: int)
    requires
        i64::MIN <= l.term <= i64::MAX,
    ensures
        l.carried(index) <==> 2 * l.replicas(index) > l.members && 1 <= index <= l.log.len() && l.log[index - 1]
            == l.term,
        2 * l.majority() > l.members,
        2 * (l.majority() - 1) <= l.members,
        l.last_index() == l.log.len(),
        1 <= index <= l.log.len() ==> l.term_at(index) == Some(l.log[index - 1]),
        index < 1 || index > l.log.len() ==> l.term_at(index) is None,
{
}

/// The commit index goes to the last entry of the leader's own term that more than half of the members
/// hold, where that is past it, and stays otherwise. Nothing else changes.
pub proof fn commit_index_goes_to_the_last_such_entry(l: Leadership, k: int)
    requires
        i64::MIN <= l.term <= i64::MAX,
        0 <= l.commit_index,
        l.commit_index < k <= l.log.len(),
    ensures
        l.advanced().commit_index >= l.commit_index,
        l.advanced().commit_index == k <==> 2 * l.replicas(k) > l.members && l.log[k - 1] == l.term && forall|j: int|
            k < j <= l.log.len() ==> !(2 * #[trigger] l.replicas(j) > l.members && l.log[j - 1] == l.term),
        l.advanced().commit_index > l.log.len() ==> l.advanced().commit_index == l.commit_index,
        l.advanced().log == l.log,
        l.advanced().match_index == l.match_index,
        l.advanced().next_index == l.next_index,
        l.advanced().term == l.term,
        l.advanced().members == l.members,
{
    advance_commits_the_highest_carried(l);
    commit_index_is_a_ratchet(l, Seq::empty(), 0);
    let top = l.advanced().commit_index;
    lemma_highest_within(l, l.last_index());
    carried_is_a_majority_of_the_own_term(l, k);
    carried_is_a_majority_of_the_own_term(l, top);
    if top == k {
        assert forall|j: int| k < j <= l.log.len() implies !(2 * #[trigger] l.replicas(j) > l.members && l.log[j
            - 1] == l.term) by {
            carried_is_a_majority_of_the_own_term(l, j);
            assert(!l.carried(j));
        }
    }
    if l.carried(k) && (forall|j: int|
        k < j <= l.log.len() ==> !(2 * #[trigger] l.replicas(j) > l.members && l.log[j - 1] == l.term)) {
        assert(top >= k) by {
            if top < k {
                assert(!l.carried(k));
            }
        }
        if top > k {
            assert(2 * l.replicas(top) > l.members && l.log[top - 1] == l.term);
        }
    }
}

proof fn lemma_highest_within(l: Leadership, n: int)
    ensures
        l.highest_carried(n) == l.commit_index || l.commit_index < l.highest_carried(n) <= n,
    decreases n - l.commit_index,
{
    if n > l.commit_index && !l.carried(n) {
        lemma_highest_within(l, n - 1);
    }
}

/// An entry is appended at the end of the log, in the leader's own term; nothing else changes.
pub proof fn append_adds_an_entry_of_the_own_term(l: Leadership)
    requires
        i64::MIN <= l.term <= i64::MAX,
    ensures
        l.appended().log.len() == l.log.len() + 1,
        l.appended().log[l.log.len() as int] == l.term,
        forall|k: int| 0 <= k < l.log.len() ==> #[trigger] l.appended().log[k] == l.log[k],
        l.appended().commit_index == l.commit_index,
        l.appended().match_index == l.match_index,
        l.appended().next_index == l.next_index,
        l.appended().term == l.term,
        l.appended().members == l.members,
{
}

/// A run of events is made one event after the other, and each is an append or an acknowledgement.
pub proof fn events_happen_one_after_the_other(l: Leadership, es: Seq<Event>, e: Event, peer: &'static str, index: i64)
    ensures
        l.run(Seq::empty()) == l,
        l.run(es.push(e)) == l.run(es).after(e),
        l.after(Event::Append) == l.appended(),
        l.after((Event::Ack { peer, index })) == l.acknowledged(peer@, index),
{
    assert(es.push(e).drop_last() =~= es);
}

/// What an event says reads back as the event.
#[verifier::spinoff_prover]
#[verifier::rlimit(40)]
pub proof fn commands_read_back(peer: &'static str, index: i64)
    ensures
        Event::Append.text() == "append"@,
        (Event::Ack { peer, index }).text().take(4int + peer@.len()) == "ack "@ + peer@,
        (Event::Ack { peer, index }).text()[4int + peer@.len()] == ' ',
        whole_number((Event::Ack { peer, index }).text().skip(5int + peer@.len())) == Some(index),
{
    reveal_strlit("ack ");
    reveal_strlit(" ");
    let t = (Event::Ack { peer, index }).text();
    decimal_reads_back(index);
    assert(t.skip(5int + peer@.len()) =~= int_text(index as int));
    assert(t.take(4int + peer@.len()) =~= "ack "@ + peer@);
}

/// Acknowledgements are drawn of the four followers and of an entry up to one past the log.
pub proof fn events_are_drawn_around_the_log(l: Leadership, peer: &'static str, index: i64)
    ensures
        Event::Append.drawable(l),
        (Event::Ack { peer, index }).drawable(l) <==> PEERS@.contains(peer) && 0 <= index <= l.log.len() + 1,
        plan_start() == Leadership::fresh(5, 3, seq![1i64, 1, 2, 3]),
{
    assert(SEED_LOG@ =~= seq![1i64, 1, 2, 3]);
}

proof fn lemma_highest_seen(seen: Seq<Seen>, n: int)
    requires
        0 <= n <= seen.len(),
    ensures
        highest_seen(seen, n) >= 0,
        forall|k: int| 0 <= k < n ==> highest_seen(seen, n) >= (#[trigger] seen[k]).commit,
        highest_seen(seen, n) == 0 || exists|k: int| 0 <= k < n && highest_seen(seen, n) == (#[trigger] seen[k]).commit,
    decreases n,
{
    if n > 0 {
        lemma_highest_seen(seen, n - 1);
        assert(seen[n - 1].commit == seen[n - 1].commit);
    }
}

/// What was seen of a step is what was planned.
pub open spec fn as_planned(want: Planned, got: Seen) -> bool {
    want.matched == got.matched && want.next == got.next && want.commit == got.commit
}

/// A run passes exactly where every answer is the planned one and no commit index is below zero or below one
/// that was seen before.
pub proof fn run_passes_where_every_answer_is_the_planned_one(plan: Seq<Planned>, seen: Seq<Seen>)
    requires
        seen.len() <= plan.len(),
    ensures
        all_hold(until_failure(all_rulings(plan, seen))) <==> (forall|i: int|
            0 <= i < seen.len() ==> as_planned(plan[i], #[trigger] seen[i]) && seen[i].commit >= 0) && (forall|
            i: int,
            j: int,
        |
            0 <= i < j < seen.len() ==> (#[trigger] seen[i]).commit <= (#[trigger] seen[j]).commit),
{
    let groups = all_rulings(plan, seen);
    run_passes_where_every_step_does(groups);
    assert forall|i: int| 0 <= i < seen.len() implies (all_hold(#[trigger] groups[i]) <==> as_planned(
        plan[i],
        seen[i],
    ) && seen[i].commit >= highest_seen(seen, i)) by {
        let g = groups[i];
        assert(g == step_rulings(i as nat, plan[i], seen[i], highest_seen(seen, i)));
        assert(g.len() == 4);
        if all_hold(g) {
            assert(g[0].holds() && g[1].holds() && g[2].holds() && g[3].holds());
        }
    }
    if all_hold(until_failure(groups)) {
        assert forall|i: int| 0 <= i < seen.len() implies as_planned(plan[i], #[trigger] seen[i])
            && seen[i].commit >= 0 by {
            assert(all_hold(groups[i]));
            lemma_highest_seen(seen, i);
        }
        assert forall|i: int, j: int| 0 <= i < j < seen.len() implies (#[trigger] seen[i]).commit <= (
        #[trigger] seen[j]).commit by {
            assert(all_hold(groups[j]));
            lemma_highest_seen(seen, j);
        }
    } else {
        let i = choose|i: int| 0 <= i < groups.len() && !all_hold(#[trigger] groups[i]);
        lemma_highest_seen(seen, i);
        assert(!(as_planned(plan[i], seen[i]) && seen[i].commit >= highest_seen(seen, i)));
        if highest_seen(seen, i) != 0 {
            let k = choose|k: int| 0 <= k < i && highest_seen(seen, i) == (#[trigger] seen[k]).commit;
            assert(seen[k].commit <= seen[i].commit || !(as_planned(plan[i], seen[i])) || seen[k].commit
                > seen[i].commit);
        }
    }
}

/// The topic the program is asked about.
pub const TOPIC: &'static str = "raft-commit";

/// A fresh leader has replicated nothing.
pub const A_FRESH_LEADER_HAS_REPLICATED_NOTHING: &'static str = r#"a leader that has just taken office
> init 5 4 [1,2]
> state
@ 1 init 5 4 [1,2]
= term | 4 | init.term
@ 1 init
= last_index | 2 | init.last_index
= commit_index | 0 | init.commit_index
= majority | 3 | init.majority
@ 2 state
= match | {"s2":0,"s3":0,"s4":0,"s5":0} | state.match
= next | {"s2":3,"s3":3,"s4":3,"s5":3} | state.next"#;

/// A majority of acknowledgements commits an entry of the current term.
pub const A_MAJORITY_COMMITS_A_CURRENT_TERM_ENTRY: &'static str = "an entry of the leader's own term held by a majority
> init 3 2 [1,2]
> ack s2 2
> commit-safe 2
@ 2 ack s2 2
= match_index | 2 | ack.match_index
= next_index | 3 | ack.next_index
= commit_index | 2 | ack.commit_index
@ 3 commit-safe 2
= safe | true | commit-safe(2).safe";

/// The leader counts itself towards the majority.
pub const THE_LEADER_COUNTS_ITSELF: &'static str = "how many acknowledgements a five-member cluster needs
> init 5 1 [1]
> ack s2 1
> ack s3 1
@ 2 ack s2 1
= commit_index | 0 | after one ack, commit_index
@ 3 ack s3 1
= commit_index | 1 | after two acks, commit_index
> init 3 1 [1]
> ack s2 1
= commit_index | 1 | in a three-member cluster, one ack commits";

/// A rejection backs the next index up to the conflict index.
pub const A_REJECTION_BACKS_UP: &'static str = r#"a follower that refused the leader's guess
> init 3 1 [1,1,1]
> state
= next | {"s2":4,"s3":4} | state.next before the rejection
> reject s2 2
> state
@ 3 reject s2 2
= next_index | 2 | reject.next_index
@ 4 state
= next | {"s2":2,"s3":4} | state.next after the rejection"#;

/// A rejection never backs the next index below one.
pub const A_REJECTION_STOPS_AT_ONE: &'static str = "a rejection that would take the next index off the front of the log
> init 3 1 [1,1]
> reject s2 0
> reject s2 -4
@ 2 reject s2 0
= next_index | 1 | reject(0).next_index
@ 3 reject s2 -4
= next_index | 1 | reject(-4).next_index";

/// A majority alone does not commit an entry from an earlier term.
pub const FIGURE_EIGHT_REFUSES_TO_COMMIT: &'static str = r#"a majority holding an entry from a term before the leader's
> init 5 4 [1,2]
> ack s2 2
> ack s3 2
> commit-safe 2
> state
@ 2 ack s2 2
= commit_index | 0 | after one ack, commit_index
@ 3 ack s3 2
= commit_index | 0 | after two acks, commit_index
@ 4 commit-safe 2
= replicas | 3 | commit-safe(2).replicas
= safe | false | commit-safe(2).safe
= reason | "earlier term" | commit-safe(2).reason
@ 5 state
= commit_index | 0 | state.commit_index"#;

/// Committing a current-term entry commits the earlier one behind it.
pub const FIGURE_EIGHT_COMMITS_INDIRECTLY: &'static str = r#"the entry that rescues the one behind it
> init 5 4 [1,2]
> ack s2 2
> ack s3 2
> append
> ack s2 3
> ack s3 3
> commit-safe 2
> entry 3
@ 4 append
= last_index | 3 | append.last_index
= term | 4 | append.term
@ 8 entry 3
= term | 4 | entry(3).term
@ 5 ack s2 3
= commit_index | 0 | after one ack, commit_index
@ 6 ack s3 3
= commit_index | 3 | after two acks, commit_index
@ 7 commit-safe 2
= safe | true | commit-safe(2).safe
= reason | "already committed" | commit-safe(2).reason"#;

/// Commit-safe names the reason it refuses.
pub const COMMIT_SAFE_NAMES_ITS_REASON: &'static str = r#"every answer commit-safe can give
> init 5 4 [1,2,4]
> commit-safe 9
> commit-safe 0
> commit-safe 3
> ack s2 3
> ack s3 3
> commit-safe 2
> commit-safe 3
@ 2 commit-safe 9
= reason | "past the end of the log" | commit-safe(9).reason
@ 3 commit-safe 0
= reason | "past the end of the log" | commit-safe(0).reason
@ 4 commit-safe 3
= reason | "no majority" | commit-safe(3).reason before any ack
@ 7 commit-safe 2
= reason | "already committed" | commit-safe(2).reason
@ 8 commit-safe 3
= reason | "already committed" | commit-safe(3).reason"#;

/// A late acknowledgement never lowers a match index.
pub const A_LATE_ACK_NEVER_LOWERS_A_MATCH_INDEX: &'static str = "acknowledgements that arrived out of order
> init 3 1 [1,1,1]
> ack s2 3
> ack s2 1
> ack s2 0
> state
@ 2 ack s2 3
= match_index | 3 | the first ack's match_index
= commit_index | 3 | the first ack's commit_index
@ 3 ack s2 1
= match_index | 3 | the late ack's match_index
= next_index | 4 | the late ack's next_index
@ 4 ack s2 0
= match_index | 3 | a zero ack's match_index
@ 5 state
= commit_index | 3 | state.commit_index";

/// A committed index keeps its term whatever arrives afterwards.
pub const A_COMMITTED_ENTRY_IS_FIXED: &'static str = "State Machine Safety: a committed index never changes its mind
> init 3 4 [1,2,4]
> ack s2 3
> state
> entry 2
> ack s2 0
> ack s3 1
> reject s2 1
> ack s3 0
> append
> state
> entry 2
> entry 3
@ 3 state
= commit_index | 3 | commit_index once committed
@ 4 entry 2
= term | 2 | entry(2).term before
@ 11 entry 2
= term | 2 | entry(2).term after
@ 12 entry 3
= term | 4 | entry(3).term after
@ 10 state
+ commit_index | 3 | state.commit_index after";

/// What somebody stuck on this stage is told, one after the other.
pub const HINTS: [&'static str; 4] = [
    "Topic `raft-commit`: matchIndex and nextIndex per follower, and one commit index",
    "The leader counts itself, so a five-member cluster commits on two acknowledgements",
    "Advance the commit index only to an entry of the leader's *own* term — §5.4.2, the Figure 8 \
     trap — and let it carry the earlier entries with it",
    "An acknowledgement that arrived late must never lower a match index",
];

/// The tests of this stage.
pub const TESTS: [TestRow; 11] = [
    (
        "a fresh leader has replicated nothing",
        "a_fresh_leader_has_replicated_nothing",
        false,
        false,
        0,
        0,
        A_FRESH_LEADER_HAS_REPLICATED_NOTHING,
    ),
    (
        "a majority of acknowledgements commits an entry of the current term",
        "a_majority_commits_a_current_term_entry",
        false,
        false,
        0,
        0,
        A_MAJORITY_COMMITS_A_CURRENT_TERM_ENTRY,
    ),
    (
        "the leader counts itself towards the majority",
        "the_leader_counts_itself",
        false,
        false,
        0,
        0,
        THE_LEADER_COUNTS_ITSELF,
    ),
    (
        "a rejection backs the next index up to the conflict index",
        "a_rejection_backs_up",
        false,
        false,
        0,
        0,
        A_REJECTION_BACKS_UP,
    ),
    (
        "a rejection never backs the next index below one",
        "a_rejection_stops_at_one",
        false,
        false,
        0,
        0,
        A_REJECTION_STOPS_AT_ONE,
    ),
    (
        "a majority alone does not commit an entry from an earlier term",
        "figure_eight_refuses_to_commit",
        false,
        false,
        0,
        0,
        FIGURE_EIGHT_REFUSES_TO_COMMIT,
    ),
    (
        "committing a current-term entry commits the earlier one behind it",
        "figure_eight_commits_indirectly",
        false,
        false,
        0,
        0,
        FIGURE_EIGHT_COMMITS_INDIRECTLY,
    ),
    (
        "commit-safe names the reason it refuses",
        "commit_safe_names_its_reason",
        false,
        false,
        0,
        0,
        COMMIT_SAFE_NAMES_ITS_REASON,
    ),
    (
        "a late acknowledgement never lowers a match index",
        "a_late_ack_never_lowers_a_match_index",
        true,
        false,
        0,
        0,
        A_LATE_ACK_NEVER_LOWERS_A_MATCH_INDEX,
    ),
    (
        "a committed index keeps its term whatever arrives afterwards",
        "a_committed_entry_is_fixed",
        true,
        false,
        0,
        0,
        A_COMMITTED_ENTRY_IS_FIXED,
    ),
    (
        "eighty seeded acknowledgements match the tester's own replay",
        "a_long_seeded_commitment",
        true,
        false,
        0,
        0,
        "",
    ),
];

/// The worked examples of this stage.
pub const EXAMPLES: [PrimRow; 2] = [
    (
        "Figure 8, in five commands",
        "raft-commit",
        "init 5 4 [1,2]
ack s2 2
ack s3 2
commit-safe 2
append
ack s2 3
ack s3 3
state",
        "a leader at term 4 whose log ends with an entry from term 2, then a majority",
        "commit_index stays 0 while three of five hold index 2; it jumps to 3 at the end",
        "Three of five members hold index 2, and it is still not committed. If the leader \
         committed it here and then crashed, a candidate that never saw index 2 could still be \
         elected — its log is as up to date as anyone's at term 2 — and would overwrite a \
         committed entry. Appending an entry of the leader's own term and committing *that* \
         carries index 2 along with it, safely.",
    ),
    (
        "A follower that has to be backed up",
        "raft-commit",
        "init 3 5 [1,1,2,2,5]
state
reject s2 3
reject s2 0
ack s2 5
ack s2 2
state",
        "rejections that back nextIndex up, then acknowledgements that move it on",
        "nextIndex falls to 3, then 1, and matchIndex rises to 5 and stays there",
        "The last acknowledgement carries an older index because it overtook the newer one on \
         the way back. Taking it at face value would un-replicate two entries the follower \
         demonstrably holds, and could pull the commit index backwards with it.",
    ),
];

/// The worked examples of this stage.
pub fn examples() -> (examples: Vec<ExampleSpec>)
    ensures
        described(examples@) == EXAMPLES@.map_values(|row: PrimRow| prim_described(row)),
{
    prim_examples(EXAMPLES)
}

/// What the rows say of this stage's place in the suite.
proof fn lemma_in_place()
    ensures
        rows_written(TESTS@),
        rows_on_topic(EXAMPLES@, HINTS[0]@),
{
    assert(rows_written(TESTS@)) by {
        reveal_strlit("placeholder");
        reveal_strlit("a fresh leader has replicated nothing");
        assert(TESTS@[0].0@.len() == 37);
        reveal_strlit("a majority of acknowledgements commits an entry of the current term");
        assert(TESTS@[1].0@.len() == 67);
        reveal_strlit("the leader counts itself towards the majority");
        assert(TESTS@[2].0@.len() == 45);
        reveal_strlit("a rejection backs the next index up to the conflict index");
        assert(TESTS@[3].0@.len() == 57);
        reveal_strlit("a rejection never backs the next index below one");
        assert(TESTS@[4].0@.len() == 48);
        reveal_strlit("a majority alone does not commit an entry from an earlier term");
        assert(TESTS@[5].0@.len() == 62);
        reveal_strlit("committing a current-term entry commits the earlier one behind it");
        assert(TESTS@[6].0@.len() == 65);
        reveal_strlit("commit-safe names the reason it refuses");
        assert(TESTS@[7].0@.len() == 39);
        reveal_strlit("a late acknowledgement never lowers a match index");
        assert(TESTS@[8].0@.len() == 49);
        reveal_strlit("a committed index keeps its term whatever arrives afterwards");
        assert(TESTS@[9].0@.len() == 60);
        reveal_strlit("eighty seeded acknowledgements match the tester's own replay");
        assert(TESTS@[10].0@.len() == 60);
        assert forall|i: int| 0 <= i < 11 implies (#[trigger] TESTS@[i]).0@ != "placeholder"@ by {
            assert(i == 0 || i == 1 || i == 2 || i == 3 || i == 4 || i == 5 || i == 6 || i == 7 || i == 8 || i == 9 || i == 10);
        }
    }
    assert(names_topic_at(HINTS[0]@, "raft-commit"@, 6)) by {
        reveal_strlit("`");
        reveal_strlit("raft-commit");
        reveal_strlit("Topic `raft-commit`: matchIndex and nextIndex per follower, and one commit index");
        assert(HINTS[0]@.subrange(6, 19) =~= "`"@ + "raft-commit"@ + "`"@);
    }
    reveal_strlit("init ");
    assert(EXAMPLES@[0].2@.len() >= 5 && EXAMPLES@[0].2@.take(5) =~= "init "@) by {
        reveal_strlit(
            "init 5 4 [1,2]\n\
             ack s2 2\n\
             ack s3 2\n\
             commit-safe 2\n\
             append\n\
             ack s2 3\n\
             ack s3 3\n\
             state",
        );
    }
    assert(EXAMPLES@[1].2@.len() >= 5 && EXAMPLES@[1].2@.take(5) =~= "init "@) by {
        reveal_strlit(
            "init 3 5 [1,1,2,2,5]\n\
             state\n\
             reject s2 3\n\
             reject s2 0\n\
             ack s2 5\n\
             ack s2 2\n\
             state",
        );
    }
}

/// What stage 58 holds.
pub open spec fn is_stage(s: Stage) -> bool {
    &&& s.number == 58
    &&& s.slug == "raft_commit_safety"
    &&& s.name == "Raft commitment and the Figure 8 trap"
    &&& s.ext == false
    &&& s.ladder == Ladder::Algorithms
    &&& s.hints == HINTS
    &&& s.tests@ == tests_of(TESTS@)
    &&& described(s.examples@) == EXAMPLES@.map_values(|row: PrimRow| prim_described(row))
}

/// Stage 58.
pub fn stage() -> (s: Stage)
    ensures
        is_stage(s),
        s.in_place(),
{
    let s = Stage {
        number: 58,
        slug: "raft_commit_safety",
        name: "Raft commitment and the Figure 8 trap",
        ext: false,
        ladder: Ladder::Algorithms,
        hints: HINTS,
        examples: examples(),
        tests: tests(TESTS),
    };
    proof {
        reveal(Stage::in_place);
        assert(s.examples@.len() == described(s.examples@).len());
        lemma_in_place();
        assert forall|i: int| 0 <= i < s.examples@.len() implies opens_topic(
            #[trigger] s.examples@[i]@,
            s.hints[0]@,
        ) by {
            assert(described(s.examples@)[i] == prim_described(EXAMPLES@[i]));
        }
    }
    s
}

} // verus!
