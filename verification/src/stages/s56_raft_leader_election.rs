//! Stage 56: Raft leader election.
//!
//! One node, one term counter, one vote slot, and a rule about whose log is allowed to win. The
//! election is a state machine, driven by handing it the events a real node would have received.
use rand::rngs::StdRng;
use vstd::prelude::*;
use crate::examples::{described, prim_described, prim_examples, ExampleSpec, PrimRow};
use crate::stages::{names_topic_at, opens_topic, rows_on_topic, rows_written, tests, tests_of, Ladder, Stage, TestRow};
use crate::check::{
    all_hold, is_int, is_text, lemma_until_failure_rest, lemma_until_failure_step, name_step, note_seed,
    run_passes_where_every_step_does, seed_note, step_path, until_failure, Check, Ruling, Verdict,
};
use crate::draw::{draw_i32, draw_i64, draw_ratio, draw_usize};
use crate::json::Json;
use crate::names::NameSet;
use crate::prim::{expect_i64, expect_str, lookup, whole_field, Misshapen};
use crate::text::{int_text, push_int, same_text};

verus! {

/// What a node currently is.
#[derive(Clone, Copy, Debug, PartialEq, Eq, Structural)]
pub enum Role {
    Follower,
    Candidate,
    Leader,
}

impl Role {
    /// The role as a `state` answer spells it.
    pub open spec fn text(self) -> Seq<char> {
        match self {
            Role::Follower => "follower"@,
            Role::Candidate => "candidate"@,
            Role::Leader => "leader"@,
        }
    }

    /// The role as a `state` answer spells it.
    pub fn name(self) -> (s: &'static str)
        ensures
            s@ == self.text(),
    {
        match self {
            Role::Follower => "follower",
            Role::Candidate => "candidate",
            Role::Leader => "leader",
        }
    }
}

/// A node's election state.
#[verifier::ext_equal]
pub struct Election {
    /// How many members the cluster has.
    pub members: nat,
    pub term: int,
    pub role: Role,
    /// Whom this node voted for in its term.
    pub voted_for: Option<Seq<char>>,
    /// Who granted this node a vote in its term.
    pub granters: Set<Seq<char>>,
    /// The term of each log entry.
    pub log: Seq<i64>,
}

/// What happens to a node, as its election state sees it.
pub enum Happening {
    LogAppend { entry: i64 },
    Timeout,
    RequestVote { term: int, candidate: Seq<char>, last_index: int, last_term: int },
    VoteResponse { term: int, voter: Seq<char>, granted: bool },
    AppendEntries { term: int, leader: Seq<char> },
}

impl Happening {
    /// The term a message carries, where the happening is a message.
    pub open spec fn message_term(self) -> Option<int> {
        match self {
            Happening::LogAppend { .. } => None,
            Happening::Timeout => None,
            Happening::RequestVote { term, .. } => Some(term),
            Happening::VoteResponse { term, .. } => Some(term),
            Happening::AppendEntries { term, .. } => Some(term),
        }
    }
}

impl Election {
    /// A node that has just started, in a cluster of `members`.
    pub open spec fn fresh(members: nat) -> Election {
        Election {
            members,
            term: 0,
            role: Role::Follower,
            voted_for: None,
            granters: Set::empty(),
            log: Seq::empty(),
        }
    }

    /// The smallest number of members that is more than half of them.
    pub open spec fn majority(self) -> nat {
        self.members / 2 + 1
    }

    pub open spec fn last_index(self) -> int {
        self.log.len() as int
    }

    pub open spec fn last_term(self) -> int {
        if self.log.len() == 0 {
            0
        } else {
            self.log.last() as int
        }
    }

    /// A follower of the newer term, with no vote cast and none received.
    pub open spec fn stepped_down(self, term: int) -> Election {
        Election {
            term,
            role: Role::Follower,
            voted_for: None,
            granters: Set::empty(),
            ..self
        }
    }

    /// A candidate's log is at least as up to date as this node's.
    pub open spec fn up_to_date(self, last_index: int, last_term: int) -> bool {
        last_term > self.last_term() || (last_term == self.last_term() && last_index
            >= self.last_index())
    }

    /// Whether the node grants the vote: the request is of no older term, no other candidate has
    /// this term's vote, and the candidate's log is at least as up to date.
    pub open spec fn grants(
        self,
        term: int,
        candidate: Seq<char>,
        last_index: int,
        last_term: int,
    ) -> bool {
        &&& term >= self.term
        &&& term > self.term || self.voted_for is None || self.voted_for == Some(candidate)
        &&& self.up_to_date(last_index, last_term)
    }

    /// The state a happening leaves behind.
    pub open spec fn after(self, h: Happening) -> Election
        recommends
            self.granters.finite(),
    {
        match h {
            Happening::LogAppend { entry } => Election { log: self.log.push(entry), ..self },
            Happening::Timeout => if self.role == Role::Leader {
                self
            } else {
                Election {
                    term: self.term + 1,
                    role: Role::Candidate,
                    voted_for: Some("self"@),
                    granters: set!["self"@],
                    ..self
                }
            },
            Happening::RequestVote { term, candidate, last_index, last_term } => {
                let current = if term > self.term {
                    self.stepped_down(term)
                } else {
                    self
                };
                if self.grants(term, candidate, last_index, last_term) {
                    Election { voted_for: Some(candidate), ..current }
                } else {
                    current
                }
            },
            Happening::VoteResponse { term, voter, granted } => if term > self.term {
                self.stepped_down(term)
            } else if term == self.term && self.role == Role::Candidate && granted {
                let granters = self.granters.insert(voter);
                Election {
                    granters,
                    role: if granters.len() >= self.majority() {
                        Role::Leader
                    } else {
                        Role::Candidate
                    },
                    ..self
                }
            } else {
                self
            },
            Happening::AppendEntries { term, leader } => if term > self.term {
                self.stepped_down(term)
            } else if term == self.term {
                Election { role: Role::Follower, ..self }
            } else {
                self
            },
        }
    }

    /// The state a run of happenings leaves behind.
    pub open spec fn run(self, hs: Seq<Happening>) -> Election
        decreases hs.len(),
    {
        if hs.len() == 0 {
            self
        } else {
            self.run(hs.drop_last()).after(hs.last())
        }
    }

    /// What holds of a node at every moment: its granters can be counted, a node that stands or
    /// leads voted for itself, and a leader holds the votes of a majority.
    pub open spec fn sound(self) -> bool {
        &&& self.granters.finite()
        &&& self.role != Role::Follower ==> self.voted_for == Some("self"@)
            && self.granters.contains("self"@)
        &&& self.role == Role::Leader ==> self.granters.len() >= self.majority()
    }
}

/// The election rules, as the paper states them.
pub struct Model {
    members: usize,
    term: i64,
    role: Role,
    voted_for: Option<String>,
    granters: NameSet,
    log: Vec<i64>,
}

impl View for Model {
    type V = Election;

    closed spec fn view(&self) -> Election {
        Election {
            members: self.members as nat,
            term: self.term as int,
            role: self.role,
            voted_for: match self.voted_for {
                Some(who) => Some(who@),
                None => None,
            },
            granters: self.granters@,
            log: self.log@,
        }
    }
}

impl Model {
    /// A node that has just started, in a cluster of `members`.
    pub fn new(members: usize) -> (m: Model)
        ensures
            m@ == Election::fresh(members as nat),
    {
        Model {
            members,
            term: 0,
            role: Role::Follower,
            voted_for: None,
            granters: NameSet::new(),
            log: Vec::new(),
        }
    }

    pub fn term(&self) -> (r: i64)
        ensures
            r == self@.term,
    {
        self.term
    }

    pub fn role(&self) -> (r: Role)
        ensures
            r == self@.role,
    {
        self.role
    }

    /// How many distinct voters have granted this node a vote.
    pub fn votes(&self) -> (r: usize)
        ensures
            r == self@.granters.len(),
    {
        self.granters.len()
    }

    pub fn majority(&self) -> (r: usize)
        ensures
            r == self@.majority(),
    {
        self.members / 2 + 1
    }

    pub fn last_index(&self) -> (r: i64)
        requires
            self@.log.len() <= i64::MAX,
        ensures
            r == self@.last_index(),
    {
        self.log.len() as i64
    }

    pub fn last_term(&self) -> (r: i64)
        ensures
            r == self@.last_term(),
    {
        if self.log.len() == 0 {
            0
        } else {
            self.log[self.log.len() - 1]
        }
    }

    /// The node takes an entry of `term` into its log.
    pub fn log_append(&mut self, term: i64)
        ensures
            final(self)@ == old(self)@.after(Happening::LogAppend { entry: term }),
    {
        self.log.push(term);
    }

    pub fn step_down(&mut self, term: i64)
        ensures
            final(self)@ == old(self)@.stepped_down(term as int),
    {
        self.term = term;
        self.role = Role::Follower;
        self.voted_for = None;
        self.granters.clear();
    }

    /// The election timer fires. A leader has no election timer to mind.
    pub fn timeout(&mut self)
        requires
            old(self)@.role != Role::Leader ==> old(self)@.term < i64::MAX,
        ensures
            final(self)@ == old(self)@.after(Happening::Timeout),
    {
        if self.role == Role::Leader {
            return;
        }
        self.term += 1;
        self.role = Role::Candidate;
        self.voted_for = Some(String::from_str("self"));
        self.granters.clear();
        self.granters.insert("self");
    }

    /// Returns what the node must answer: `(term, granted)`.
    pub fn request_vote(&mut self, term: i64, candidate: &str, li: i64, lt: i64) -> (r: (i64, bool))
        requires
            old(self)@.log.len() <= i64::MAX,
        ensures
            final(self)@ == old(self)@.after(
                Happening::RequestVote {
                    term: term as int,
                    candidate: candidate@,
                    last_index: li as int,
                    last_term: lt as int,
                },
            ),
            r.0 == (if term > old(self)@.term {
                term as int
            } else {
                old(self)@.term
            }),
            r.1 == old(self)@.grants(term as int, candidate@, li as int, lt as int),
    {
        if term < self.term {
            return (self.term, false);
        }
        if term > self.term {
            self.step_down(term);
        }
        let free = match &self.voted_for {
            None => true,
            Some(who) => same_text(who.as_str(), candidate),
        };
        let current = lt > self.last_term() || (lt == self.last_term() && li >= self.last_index());
        let granted = free && current;
        if granted {
            self.voted_for = Some(String::from_str(candidate));
        }
        (self.term, granted)
    }

    /// A vote comes back.
    pub fn vote_response(&mut self, term: i64, voter: &str, granted: bool)
        ensures
            final(self)@ == old(self)@.after(
                Happening::VoteResponse { term: term as int, voter: voter@, granted },
            ),
    {
        if term > self.term {
            self.step_down(term);
            return;
        }
        if term == self.term && self.role == Role::Candidate && granted {
            self.granters.insert(voter);
            if self.granters.len() >= self.majority() {
                self.role = Role::Leader;
            }
        }
    }

    /// Returns what the node must answer: `(term, success)`.
    pub fn append_entries(&mut self, term: i64, leader: &str) -> (r: (i64, bool))
        ensures
            final(self)@ == old(self)@.after(
                Happening::AppendEntries { term: term as int, leader: leader@ },
            ),
            r.0 == final(self)@.term,
            r.1 == (term >= old(self)@.term),
    {
        if term < self.term {
            return (self.term, false);
        }
        if term > self.term {
            self.step_down(term);
        } else {
            self.role = Role::Follower;
        }
        (self.term, true)
    }
}

/// Whatever happens to a node, its term never goes backwards.
pub proof fn term_never_decreases(e: Election, h: Happening)
    ensures
        e.after(h).term >= e.term,
{
}

/// A message of an older term changes nothing.
pub proof fn stale_message_is_ignored(e: Election, h: Happening)
    requires
        h.message_term() matches Some(t) && t < e.term,
    ensures
        e.after(h) == e,
{
}

/// A message of a newer term makes the node a follower of that term, and whatever vote it holds
/// afterwards it gave to this very message's candidate.
pub proof fn newer_term_makes_a_follower(e: Election, h: Happening, t: int)
    requires
        h.message_term() == Some(t),
        t > e.term,
    ensures
        e.after(h).term == t,
        e.after(h).role == Role::Follower,
        e.after(h).granters == Set::<Seq<char>>::empty(),
        e.after(h).voted_for matches Some(who) ==> (h matches Happening::RequestVote { candidate, .. } && candidate == who),
{
}

/// A vote only ever goes to a candidate whose last entry is of a newer term, or of the same term
/// with at least as many entries before it.
pub proof fn vote_goes_to_no_shorter_log(
    e: Election,
    term: int,
    candidate: Seq<char>,
    last_index: int,
    last_term: int,
)
    requires
        e.grants(term, candidate, last_index, last_term),
    ensures
        last_term >= e.last_term(),
        last_term == e.last_term() ==> last_index >= e.log.len(),
{
}

/// A leader whose election timer fires stays the leader it was.
pub proof fn leader_ignores_its_timer(e: Election)
    requires
        e.role == Role::Leader,
    ensures
        e.after(Happening::Timeout) == e,
{
}

/// A fresh node is sound, and nothing that happens to a sound node ends that.
pub proof fn soundness_is_kept(members: nat, e: Election, h: Happening)
    ensures
        Election::fresh(members).sound(),
        e.sound() ==> e.after(h).sound(),
{
}

/// A leader was elected by a majority of distinct voters, itself among them, whatever run of
/// happenings brought it there.
pub proof fn leader_holds_a_majority(members: nat, hs: Seq<Happening>)
    ensures
        Election::fresh(members).run(hs).sound(),
        Election::fresh(members).run(hs).role == Role::Leader ==> Election::fresh(members).run(
            hs,
        ).granters.len() >= members / 2 + 1,
    decreases hs.len(),
{
    lemma_members_stay(Election::fresh(members), hs);
    if hs.len() > 0 {
        leader_holds_a_majority(members, hs.drop_last());
        soundness_is_kept(members, Election::fresh(members).run(hs.drop_last()), hs.last());
    }
}

proof fn lemma_members_stay(e: Election, hs: Seq<Happening>)
    ensures
        e.run(hs).members == e.members,
    decreases hs.len(),
{
    if hs.len() > 0 {
        lemma_members_stay(e, hs.drop_last());
    }
}

/// While the term stands, the vote cast in it stands.
proof fn lemma_vote_stands(e: Election, hs: Seq<Happening>)
    ensures
        e.run(hs).term >= e.term,
        e.run(hs).term == e.term && e.voted_for is Some ==> e.run(hs).voted_for == e.voted_for,
    decreases hs.len(),
{
    if hs.len() > 0 {
        lemma_vote_stands(e, hs.drop_last());
    }
}

/// One vote per term: two requests granted in the same term, however much happens between them,
/// come from the same candidate.
pub proof fn one_vote_per_term(
    e: Election,
    term: int,
    first: Seq<char>,
    first_index: int,
    first_term: int,
    between: Seq<Happening>,
    second: Seq<char>,
    second_index: int,
    second_term: int,
)
    requires
        e.grants(term, first, first_index, first_term),
        ({
            let granted = e.after(
                Happening::RequestVote {
                    term,
                    candidate: first,
                    last_index: first_index,
                    last_term: first_term,
                },
            );
            granted.run(between).grants(term, second, second_index, second_term)
        }),
    ensures
        first == second,
{
    let granted = e.after(
        Happening::RequestVote {
            term,
            candidate: first,
            last_index: first_index,
            last_term: first_term,
        },
    );
    lemma_vote_stands(granted, between);
}

/// A node that times out casts its own vote: in the term it starts, however much happens after, nobody
/// else is granted it.
pub proof fn candidate_keeps_its_vote(
    e: Election,
    after: Seq<Happening>,
    candidate: Seq<char>,
    last_index: int,
    last_term: int,
)
    requires
        e.role != Role::Leader,
        e.after(Happening::Timeout).run(after).grants(e.term + 1, candidate, last_index, last_term),
    ensures
        candidate == "self"@,
{
    lemma_vote_stands(e.after(Happening::Timeout), after);
}

/// A vote request delivered twice is answered the second time as the first, and changes nothing
/// more.
pub proof fn repeated_request_is_answered_alike(
    e: Election,
    term: int,
    candidate: Seq<char>,
    last_index: int,
    last_term: int,
)
    ensures
        ({
            let h = Happening::RequestVote { term, candidate, last_index, last_term };
            &&& e.after(h).after(h) == e.after(h)
            &&& e.after(h).grants(term, candidate, last_index, last_term) == e.grants(
                term,
                candidate,
                last_index,
                last_term,
            )
        }),
{
}

/// A vote delivered twice counts once.
pub proof fn repeated_vote_counts_once(e: Election, term: int, voter: Seq<char>, granted: bool)
    ensures
        ({
            let h = Happening::VoteResponse { term, voter, granted };
            e.after(h).after(h) == e.after(h)
        }),
{
    assert(e.granters.insert(voter).insert(voter) =~= e.granters.insert(voter));
}

/// The other members of the cluster of five that the plan is made for.
pub const PEERS: [&'static str; 4] = ["s2", "s3", "s4", "s5"];

/// One event of a plan.
#[derive(Debug)]
pub enum Event {
    LogAppend { term: i64 },
    Timeout,
    RequestVote { term: i64, candidate: &'static str, last_index: i64, last_term: i64 },
    VoteResponse { term: i64, voter: &'static str, granted: bool },
    AppendEntries { term: i64, leader: &'static str },
}

impl Event {
    /// What the event is to the election.
    pub open spec fn happening(self) -> Happening {
        match self {
            Event::LogAppend { term } => Happening::LogAppend { entry: term },
            Event::Timeout => Happening::Timeout,
            Event::RequestVote { term, candidate, last_index, last_term } => Happening::RequestVote {
                term: term as int,
                candidate: candidate@,
                last_index: last_index as int,
                last_term: last_term as int,
            },
            Event::VoteResponse { term, voter, granted } => Happening::VoteResponse {
                term: term as int,
                voter: voter@,
                granted,
            },
            Event::AppendEntries { term, leader } => Happening::AppendEntries {
                term: term as int,
                leader: leader@,
            },
        }
    }

    /// The command that has the event happen.
    pub open spec fn text(self) -> Seq<char> {
        match self {
            Event::LogAppend { term } => "log-append "@ + int_text(term as int),
            Event::Timeout => "timeout"@,
            Event::RequestVote { term, candidate, last_index, last_term } => "request-vote "@
                + int_text(term as int) + " "@ + candidate@ + " "@ + int_text(last_index as int)
                + " "@ + int_text(last_term as int),
            Event::VoteResponse { term, voter, granted } => "vote-response "@ + int_text(
                term as int,
            ) + " "@ + voter@ + " "@ + (if granted {
                "true"@
            } else {
                "false"@
            }),
            Event::AppendEntries { term, leader } => "append-entries "@ + int_text(term as int)
                + " "@ + leader@,
        }
    }

    /// The command that has the event happen.
    pub fn command(&self) -> (s: String)
        ensures
            s@ == self.text(),
    {
        match self {
            Event::LogAppend { term } => {
                let mut s = String::from_str("log-append ");
                push_int(&mut s, *term);
                s
            },
            Event::Timeout => String::from_str("timeout"),
            Event::RequestVote { term, candidate, last_index, last_term } => {
                let mut s = String::from_str("request-vote ");
                push_int(&mut s, *term);
                s.append(" ");
                s.append(candidate);
                s.append(" ");
                push_int(&mut s, *last_index);
                s.append(" ");
                push_int(&mut s, *last_term);
                s
            },
            Event::VoteResponse { term, voter, granted } => {
                let mut s = String::from_str("vote-response ");
                push_int(&mut s, *term);
                s.append(" ");
                s.append(voter);
                s.append(" ");
                s.append(
                    if *granted {
                        "true"
                    } else {
                        "false"
                    },
                );
                s
            },
            Event::AppendEntries { term, leader } => {
                let mut s = String::from_str("append-entries ");
                push_int(&mut s, *term);
                s.append(" ");
                s.append(leader);
                s
            },
        }
    }

    /// Whether a plan may draw the event for a node in this state: numbers close to the node's own,
    /// on either side of them.
    pub open spec fn drawable(self, e: Election) -> bool {
        match self {
            Event::LogAppend { term } => term >= 1 && e.last_term() <= term && (term <= e.last_term() + 1),
            Event::Timeout => true,
            Event::RequestVote { term, candidate, last_index, last_term } => {
                &&& e.term - 1 <= term <= e.term + 2
                &&& PEERS@.contains(candidate)
                &&& 0 <= last_index <= e.last_index() + 2
                &&& 0 <= last_term <= e.last_term() + 2
            },
            Event::VoteResponse { term, voter, .. } => e.term - 1 <= term <= e.term + 1
                && PEERS@.contains(voter),
            Event::AppendEntries { term, leader } => e.term - 1 <= term <= e.term + 1
                && PEERS@.contains(leader),
        }
    }
}

/// One step of a plan: a command, and the state it must leave behind.
#[derive(Debug)]
pub struct Planned {
    pub event: Event,
    pub command: String,
    pub role: Role,
    pub term: i64,
    pub votes: usize,
}

/// What happens in a plan.
pub open spec fn happenings(plan: Seq<Planned>) -> Seq<Happening> {
    plan.map_values(|s: Planned| s.event.happening())
}

/// The step says what the rules make of its event.
pub open spec fn step_follows(s: Planned, before: Election) -> bool {
    let after = before.after(s.event.happening());
    &&& s.event.drawable(before)
    &&& s.command@ == s.event.text()
    &&& s.role == after.role
    &&& s.term == after.term
    &&& s.votes == after.granters.len()
}

/// Every step says what the rules make of all the steps up to it, from a fresh node of five.
pub open spec fn follows_the_rules(plan: Seq<Planned>) -> bool {
    forall|i: int|
        0 <= i < plan.len() ==> step_follows(
            #[trigger] plan[i],
            Election::fresh(5).run(happenings(plan.take(i))),
        )
}

/// A plan goes on by one step that follows the rules.
proof fn lemma_plan_goes_on(plan: Seq<Planned>, step: Planned)
    requires
        follows_the_rules(plan),
        step_follows(step, Election::fresh(5).run(happenings(plan))),
    ensures
        follows_the_rules(plan.push(step)),
        Election::fresh(5).run(happenings(plan.push(step))) == Election::fresh(5).run(
            happenings(plan),
        ).after(step.event.happening()),
{
    let longer = plan.push(step);
    assert(happenings(longer).drop_last() =~= happenings(plan));
    assert(longer.take(plan.len() as int) =~= plan);
    assert forall|k: int| 0 <= k < longer.len() implies step_follows(
        #[trigger] longer[k],
        Election::fresh(5).run(happenings(longer.take(k))),
    ) by {
        if k < plan.len() {
            assert(plan[k] == longer[k]);
            assert(longer.take(k) =~= plan.take(k));
        }
    }
}

/// What the numbers of a node come to after `i` events.
spec fn stays_small(e: Election, i: int) -> bool {
    &&& e.log.len() <= i
    &&& 0 <= e.term <= 2 * i
    &&& 0 <= e.last_term() <= i + 1
    &&& i == 0 ==> e.last_term() == 0
}

/// An event that a plan may draw moves a node's numbers on by little.
proof fn lemma_stays_small(e: Election, event: Event, i: int)
    requires
        0 <= i,
        stays_small(e, i),
        event.drawable(e),
    ensures
        stays_small(e.after(event.happening()), i + 1),
{
}

impl Model {
    /// Has an event happen, and says what state it must leave behind.
    pub fn step(&mut self, event: Event) -> (s: Planned)
        requires
            old(self)@.log.len() <= i64::MAX,
            old(self)@.term < i64::MAX,
        ensures
            final(self)@ == old(self)@.after(event.happening()),
            s.event == event,
            s.command@ == event.text(),
            s.role == final(self)@.role,
            s.term == final(self)@.term,
            s.votes == final(self)@.granters.len(),
    {
        let command = event.command();
        match &event {
            Event::LogAppend { term } => self.log_append(*term),
            Event::Timeout => self.timeout(),
            Event::RequestVote { term, candidate, last_index, last_term } => {
                let _ = self.request_vote(*term, candidate, *last_index, *last_term);
            },
            Event::VoteResponse { term, voter, granted } => self.vote_response(*term, voter, *granted),
            Event::AppendEntries { term, leader } => {
                let _ = self.append_entries(*term, leader);
            },
        }
        Planned { event, command, role: self.role(), term: self.term(), votes: self.votes() }
    }

    /// Draws an event for a node in this state.
    fn draw(&self, rng: &mut StdRng) -> (event: Event)
        requires
            self@.log.len() < 1000,
            -1000 < self@.term < 1000,
            0 <= self@.last_term() < 1000,
        ensures
            event.drawable(self@),
    {
        let peers = PEERS;
        let who = peers[draw_usize(rng, 0, 4)];
        assert(PEERS@.contains(who));
        match draw_i32(rng, 0, 5) {
            0 => {
                let term: i64 = self.last_term() + draw_i64(rng, 0, 2);
                Event::LogAppend {
                    term: if term < 1 {
                        1
                    } else {
                        term
                    },
                }
            },
            1 => Event::Timeout,
            2 => {
                let term: i64 = self.term + draw_i64(rng, -1, 3);
                let last_index: i64 = draw_i64(rng, 0, self.last_index() + 3);
                let last_term: i64 = draw_i64(rng, 0, self.last_term() + 3);
                Event::RequestVote { term, candidate: who, last_index, last_term }
            },
            3 => {
                let term: i64 = self.term + draw_i64(rng, -1, 2);
                let granted = draw_ratio(rng, 7, 10);
                Event::VoteResponse { term, voter: who, granted }
            },
            _ => {
                let term: i64 = self.term + draw_i64(rng, -1, 2);
                Event::AppendEntries { term, leader: who }
            },
        }
    }
}

/// Eighty seeded events, each with the state the rules say it leaves behind.
pub fn plan(rng: &mut StdRng) -> (plan: Vec<Planned>)
    ensures
        plan@.len() == 80,
        follows_the_rules(plan@),
{
    let mut model = Model::new(5);
    let mut plan: Vec<Planned> = Vec::new();
    assert(happenings(plan@) =~= Seq::<Happening>::empty());
    let mut i: usize = 0;
    while i < 80
        invariant
            i <= 80,
            plan@.len() == i,
            model@ == Election::fresh(5).run(happenings(plan@)),
            follows_the_rules(plan@),
            stays_small(model@, i as int),
        decreases 80 - i,
    {
        let event = model.draw(rng);
        let ghost before = plan@;
        proof {
            lemma_stays_small(model@, event, i as int);
        }
        let step = model.step(event);
        proof {
            lemma_plan_goes_on(before, step);
        }
        plan.push(step);
        i += 1;
    }
    plan
}

/// What a `state` answer says after one step.
#[derive(Debug)]
pub struct Seen {
    pub role: String,
    pub term: i64,
    pub votes: i64,
}

/// Reads what a `state` answer says.
pub fn read_state(answer: &Json) -> (r: Result<Seen, Misshapen>)
    ensures
        r is Ok <==> {
            &&& lookup(*answer, "state"@) matches Some(Json::Text(_))
            &&& whole_field(*answer, "term"@) is Some
            &&& whole_field(*answer, "votes"@) is Some
        },
        r matches Ok(seen) ==> {
            &&& lookup(*answer, "state"@) matches Some(Json::Text(role)) && role@ == seen.role@
            &&& whole_field(*answer, "term"@) == Some(seen.term)
            &&& whole_field(*answer, "votes"@) == Some(seen.votes)
        },
        r matches Err(e) ==> e.command@ == "state"@ && e.field@ == if !(lookup(*answer, "state"@) matches Some(Json::Text(_))) {
            "state"@
        } else if whole_field(*answer, "term"@) is None {
            "term"@
        } else {
            "votes"@
        },
{
    let role = match expect_str(answer, "state", "state") {
        Ok(role) => role,
        Err(e) => {
            return Err(e);
        },
    };
    let term: i64 = match expect_i64(answer, "state", "term") {
        Ok(n) => n,
        Err(e) => {
            return Err(e);
        },
    };
    let votes: i64 = match expect_i64(answer, "state", "votes") {
        Ok(n) => n,
        Err(e) => {
            return Err(e);
        },
    };
    Ok(Seen { role, term, votes })
}

/// What the report says of one step of a plan.
pub open spec fn step_rulings(i: nat, want: Planned, got: Seen) -> Seq<Ruling> {
    seq![
        is_text(step_path(i, want.command@, "state"@), want.role.text(), got.role@),
        is_int(step_path(i, want.command@, "term"@), want.term as int, got.term as int),
        is_int(step_path(i, want.command@, "votes"@), want.votes as int, got.votes as int),
    ]
}

/// What the report says of every step that was seen.
pub open spec fn all_rulings(plan: Seq<Planned>, seen: Seq<Seen>) -> Seq<Seq<Ruling>> {
    Seq::new(seen.len(), |i: int| step_rulings(i as nat, plan[i], seen[i]))
}

/// Holds what was seen so far against a plan, up to the first step that differs.
pub fn judge_plan(seed: u64, plan: &Vec<Planned>, seen: &Vec<Seen>) -> (c: Check)
    requires
        seen@.len() <= plan@.len(),
    ensures
        c@ == (Verdict {
            subject: "eighty seeded events replayed against the tester's own rules"@,
            rulings: until_failure(all_rulings(plan@, seen@)),
            notes: seq![seed_note(seed as nat, plan@.len(), "events"@)],
            blocks: Seq::empty(),
            remarks: Seq::empty(),
        }),
{
    let mut c = Check::new("eighty seeded events replayed against the tester's own rules");
    c.note(note_seed(seed, plan.len(), "events").as_str());
    let ghost groups = all_rulings(plan@, seen@);
    let mut i: usize = 0;
    assert(groups.take(0) =~= Seq::empty());
    while i < seen.len() && c.ok()
        invariant
            i <= seen@.len() <= plan@.len(),
            groups == all_rulings(plan@, seen@),
            c@.subject == "eighty seeded events replayed against the tester's own rules"@,
            c@.quiet(),
            c@.notes == seq![seed_note(seed as nat, plan@.len(), "events"@)],
            c@.rulings == until_failure(groups.take(i as int)),
        decreases seen@.len() - i,
    {
        let want = &plan[i];
        let got = &seen[i];
        let ghost before = c@.rulings;
        let command = want.command.as_str();
        c.eq_text(name_step(i, command, "state").as_str(), want.role.name(), got.role.as_str());
        c.eq_int(name_step(i, command, "term").as_str(), want.term as i128, got.term as i128);
        c.eq_int(name_step(i, command, "votes").as_str(), want.votes as i128, got.votes as i128);
        proof {
            assert(c@.rulings =~= before + groups[i as int]);
            lemma_until_failure_step(groups, i as int);
        }
        i += 1;
    }
    proof {
        lemma_until_failure_rest(groups, i as int);
    }
    c
}

/// A node starts as a follower at term zero that has voted for nobody, in a cluster of so many members.
pub proof fn node_starts_as_a_follower(members: nat)
    ensures
        Election::fresh(members).members == members,
        Election::fresh(members).term == 0,
        Election::fresh(members).role == Role::Follower,
        Election::fresh(members).voted_for is None,
        Election::fresh(members).granters.len() == 0,
        Election::fresh(members).log.len() == 0,
{
}

/// A vote is granted exactly where the request is of no earlier term, this node has not voted for somebody
/// else in that term, and the candidate's log is no older: its last entry is of a later term, or of the same
/// one and stands no earlier.
pub proof fn vote_is_granted_to_the_first_with_a_current_log(
    e: Election,
    term: int,
    candidate: Seq<char>,
    last_index: int,
    last_term: int,
)
    ensures
        e.grants(term, candidate, last_index, last_term) <==> {
            &&& term >= e.term
            &&& term == e.term ==> (e.voted_for matches Some(who) ==> who == candidate)
            &&& last_term >= e.last_term()
            &&& last_term == e.last_term() ==> last_index >= e.log.len()
        },
        e.log.len() == 0 ==> e.last_term() == 0,
        e.log.len() > 0 ==> e.last_term() == e.log[e.log.len() - 1],
        e.last_index() == e.log.len(),
{
}

/// A vote that is granted is remembered; one that is not leaves a vote of the same term where it was. A
/// request of a later term, granted or not, makes this node a follower of that term, and one that is not
/// newer changes neither its role nor its term.
pub proof fn request_leaves_the_vote_it_granted(
    e: Election,
    term: int,
    candidate: Seq<char>,
    last_index: int,
    last_term: int,
)
    ensures
        ({
            let after = e.after((Happening::RequestVote { term, candidate, last_index, last_term }));
            &&& e.grants(term, candidate, last_index, last_term) ==> after.voted_for == Some(candidate)
            &&& !e.grants(term, candidate, last_index, last_term) && term <= e.term ==> after.voted_for == e.voted_for
            &&& !e.grants(term, candidate, last_index, last_term) && term > e.term ==> after.voted_for is None
            &&& term > e.term ==> after.term == term && after.role == Role::Follower && after.granters.len() == 0
            &&& term <= e.term ==> after.term == e.term && after.role == e.role && after.granters == e.granters
            &&& after.log == e.log
            &&& after.members == e.members
        }),
{
}

/// A timer that expires makes any node but a leader a candidate of the next term that has its own vote and
/// no other.
pub proof fn timeout_starts_an_election(e: Election, name: Seq<char>)
    ensures
        e.role != Role::Leader ==> {
            &&& e.after(Happening::Timeout).term == e.term + 1
            &&& e.after(Happening::Timeout).role == Role::Candidate
            &&& e.after(Happening::Timeout).voted_for == Some("self"@)
            &&& e.after(Happening::Timeout).granters.contains(name) <==> name == "self"@
            &&& e.after(Happening::Timeout).granters.len() == 1
        },
        e.role == Role::Leader ==> e.after(Happening::Timeout) == e,
        e.after(Happening::Timeout).log == e.log,
        e.after(Happening::Timeout).members == e.members,
{
}

/// A candidate counts a vote of its own term in, and leads from the moment on that more than half of the
/// members voted for it; a refusal, a vote of another term and a vote for somebody who is no candidate are
/// not counted.
pub proof fn vote_is_counted_for_its_term(e: Election, term: int, voter: Seq<char>, granted: bool, name: Seq<char>)
    ensures
        ({
            let after = e.after((Happening::VoteResponse { term, voter, granted }));
            &&& term == e.term && e.role == Role::Candidate && granted ==> {
                &&& after.granters.contains(name) <==> name == voter || e.granters.contains(name)
                &&& after.role == Role::Leader <==> 2 * after.granters.len() > e.members
                &&& after.role == Role::Candidate <==> 2 * after.granters.len() <= e.members
                &&& after.term == e.term
                &&& after.voted_for == e.voted_for
            }
            &&& term < e.term || (term == e.term && (e.role != Role::Candidate || !granted)) ==> after == e
            &&& term > e.term ==> {
                &&& after.term == term
                &&& after.role == Role::Follower
                &&& after.voted_for is None
                &&& after.granters.len() == 0
            }
            &&& after.log == e.log
            &&& after.members == e.members
        }),
        2 * e.majority() > e.members,
        2 * (e.majority() - 1) <= e.members,
{
}

/// A leader's message of this term or a later one makes this node a follower; one of this term leaves its
/// vote alone, one of a later term forgets it, and one of an earlier term changes nothing.
pub proof fn heartbeat_makes_a_follower(e: Election, term: int, leader: Seq<char>)
    ensures
        ({
            let after = e.after((Happening::AppendEntries { term, leader }));
            &&& term >= e.term ==> after.role == Role::Follower && after.term == term
            &&& term == e.term ==> after.voted_for == e.voted_for && after.granters == e.granters
            &&& term > e.term ==> after.voted_for is None && after.granters.len() == 0
            &&& term < e.term ==> after == e
            &&& after.log == e.log
            &&& after.members == e.members
        }),
{
}

/// Stepping down leaves a follower of the given term that has voted for nobody and keeps its log.
pub proof fn stepping_down_forgets_the_vote(e: Election, term: int)
    ensures
        e.stepped_down(term).term == term,
        e.stepped_down(term).role == Role::Follower,
        e.stepped_down(term).voted_for is None,
        e.stepped_down(term).granters.len() == 0,
        e.stepped_down(term).log == e.log,
        e.stepped_down(term).members == e.members,
{
}

/// An entry is appended at the end of the log and touches nothing else.
pub proof fn log_append_adds_its_entry(e: Election, entry: i64)
    ensures
        e.after((Happening::LogAppend { entry })).log.len() == e.log.len() + 1,
        e.after((Happening::LogAppend { entry })).last_term() == entry,
        forall|k: int| 0 <= k < e.log.len() ==> #[trigger] e.after((Happening::LogAppend { entry })).log[k] == e.log[k],
        e.after((Happening::LogAppend { entry })).term == e.term,
        e.after((Happening::LogAppend { entry })).role == e.role,
        e.after((Happening::LogAppend { entry })).voted_for == e.voted_for,
        e.after((Happening::LogAppend { entry })).granters == e.granters,
        e.after((Happening::LogAppend { entry })).members == e.members,
{
}

/// The voter said so at `j`: a vote of that term, granted.
pub open spec fn vote_cast_at(hs: Seq<Happening>, j: int, voter: Seq<char>, term: int) -> bool {
    0 <= j < hs.len() && hs[j] == (Happening::VoteResponse { term, voter, granted: true })
}

/// The voter granted its vote in that term.
pub open spec fn vote_cast(hs: Seq<Happening>, voter: Seq<char>, term: int) -> bool {
    exists|j: int| #[trigger] vote_cast_at(hs, j, voter, term)
}

/// Whatever has happened, everybody whose vote is counted but the node itself granted it in the present
/// term, so a leader was voted for by more than half of the members in its own term.
pub proof fn counted_votes_are_of_the_present_term(members: nat, hs: Seq<Happening>, voter: Seq<char>)
    requires
        Election::fresh(members).run(hs).granters.contains(voter),
    ensures
        voter == "self"@ || vote_cast(hs, voter, Election::fresh(members).run(hs).term),
    decreases hs.len(),
{
    if hs.len() > 0 {
        let front = hs.drop_last();
        let h = hs.last();
        let before = Election::fresh(members).run(front);
        let after = Election::fresh(members).run(hs);
        assert(after == before.after(h));
        if before.granters.contains(voter) && after.term == before.term {
            counted_votes_are_of_the_present_term(members, front, voter);
            if voter != "self"@ {
                let j = choose|j: int| #[trigger] vote_cast_at(front, j, voter, before.term);
                assert(vote_cast_at(hs, j, voter, after.term));
            }
        } else if voter != "self"@ {
            assert(h == (Happening::VoteResponse { term: after.term, voter, granted: true }));
            assert(vote_cast_at(hs, hs.len() - 1, voter, after.term));
        }
    }
}

/// Happenings happen one after the other.
pub proof fn happenings_happen_one_after_the_other(e: Election, hs: Seq<Happening>, h: Happening)
    ensures
        e.run(Seq::empty()) == e,
        e.run(hs.push(h)) == e.run(hs).after(h),
{
    assert(hs.push(h).drop_last() =~= hs);
}

/// A drawn event is the happening of the same name with the same numbers.
pub proof fn events_are_happenings(
    term: i64,
    name: &'static str,
    last_index: i64,
    last_term: i64,
    granted: bool,
)
    ensures
        (Event::LogAppend { term }).happening() == (Happening::LogAppend { entry: term }),
        Event::Timeout.happening() == Happening::Timeout,
        (Event::RequestVote { term, candidate: name, last_index, last_term }).happening() == (
        Happening::RequestVote {
            term: term as int,
            candidate: name@,
            last_index: last_index as int,
            last_term: last_term as int,
        }),
        (Event::VoteResponse { term, voter: name, granted }).happening() == (Happening::VoteResponse {
            term: term as int,
            voter: name@,
            granted,
        }),
        (Event::AppendEntries { term, leader: name }).happening() == (Happening::AppendEntries {
            term: term as int,
            leader: name@,
        }),
{
}

/// The command of an event names it and gives its numbers in the order they are asked for.
pub proof fn commands_name_their_event(
    term: i64,
    name: &'static str,
    last_index: i64,
    last_term: i64,
)
    ensures
        (Event::LogAppend { term }).text() == "log-append "@ + int_text(term as int),
        Event::Timeout.text() == "timeout"@,
        (Event::RequestVote { term, candidate: name, last_index, last_term }).text() == "request-vote "@ + int_text(
            term as int,
        ) + " "@ + name@ + " "@ + int_text(last_index as int) + " "@ + int_text(last_term as int),
        (Event::VoteResponse { term, voter: name, granted: true }).text() == "vote-response "@ + int_text(
            term as int,
        ) + " "@ + name@ + " "@ + "true"@,
        (Event::VoteResponse { term, voter: name, granted: false }).text() == "vote-response "@ + int_text(
            term as int,
        ) + " "@ + name@ + " "@ + "false"@,
        (Event::AppendEntries { term, leader: name }).text() == "append-entries "@ + int_text(term as int)
            + " "@ + name@,
        Role::Follower.text() == "follower"@,
        Role::Candidate.text() == "candidate"@,
        Role::Leader.text() == "leader"@,
{
}

/// What may be drawn: terms near the present one, logs near this one's length and last term, and entries of
/// the last term or the next.
pub proof fn events_are_drawn_around_the_node(
    e: Election,
    term: i64,
    name: &'static str,
    last_index: i64,
    last_term: i64,
    granted: bool,
)
    ensures
        Event::Timeout.drawable(e),
        (Event::LogAppend { term }).drawable(e) <==> term >= 1 && (term == e.last_term() || term == e.last_term()
            + 1),
        (Event::RequestVote { term, candidate: name, last_index, last_term }).drawable(e) <==> {
            &&& -1 <= term - e.term <= 2
            &&& PEERS@.contains(name)
            &&& 0 <= last_index <= e.log.len() + 2
            &&& 0 <= last_term <= e.last_term() + 2
        },
        (Event::VoteResponse { term, voter: name, granted }).drawable(e) <==> -1 <= term - e.term <= 1
            && PEERS@.contains(name),
        (Event::AppendEntries { term, leader: name }).drawable(e) <==> -1 <= term - e.term <= 1
            && PEERS@.contains(name),
{
}

/// What was seen after a step is what was planned.
pub open spec fn as_planned(want: Planned, got: Seen) -> bool {
    &&& want.term == got.term
    &&& want.votes == got.votes
    &&& got.role@ == (match want.role {
        Role::Follower => "follower"@,
        Role::Candidate => "candidate"@,
        Role::Leader => "leader"@,
    })
}

/// A run passes exactly where every state that was shown is the planned one.
pub proof fn run_passes_where_every_state_is_the_planned_one(plan: Seq<Planned>, seen: Seq<Seen>)
    requires
        seen.len() <= plan.len(),
    ensures
        all_hold(until_failure(all_rulings(plan, seen))) <==> forall|i: int|
            0 <= i < seen.len() ==> as_planned(plan[i], #[trigger] seen[i]),
{
    let groups = all_rulings(plan, seen);
    run_passes_where_every_step_does(groups);
    assert forall|i: int| 0 <= i < seen.len() implies (all_hold(#[trigger] groups[i]) <==> as_planned(
        plan[i],
        seen[i],
    )) by {
        let g = groups[i];
        assert(g == step_rulings(i as nat, plan[i], seen[i]));
        assert(g.len() == 3);
        if all_hold(g) {
            assert(g[0].holds() && g[1].holds() && g[2].holds());
        }
    }
    if all_hold(until_failure(groups)) {
        assert forall|i: int| 0 <= i < seen.len() implies as_planned(plan[i], #[trigger] seen[i]) by {
            assert(all_hold(groups[i]));
        }
    } else {
        let i = choose|i: int| 0 <= i < groups.len() && !all_hold(#[trigger] groups[i]);
        assert(!as_planned(plan[i], seen[i]));
    }
}

/// The topic the program is asked about.
pub const TOPIC: &'static str = "raft-election";

/// A fresh node is a follower at term zero.
pub const A_FRESH_NODE_IS_A_FOLLOWER: &'static str = r#"a node that has heard nothing yet
> init 3
~ majority | 0 | -
> state
= state | "follower" | state.state
= term | 0 | state.term
= votes | 0 | state.votes
= voted_for | null | state.voted_for
@ 1 init 3
= majority | 2 | init.majority"#;

/// An election timeout makes it a candidate that voted for itself.
pub const A_TIMEOUT_STARTS_AN_ELECTION: &'static str = r#"the election an expired timer starts
> init 5
> timeout
= state | "candidate" | timeout.state
= term | 1 | timeout.term
= votes | 1 | timeout.votes
= voted_for | "self" | timeout.voted_for
> timeout
= term | 2 | the second timeout's term"#;

/// A vote request from an older term is refused.
pub const AN_OLDER_TERM_IS_REFUSED: &'static str = r#"a vote request stamped with a term that has already passed
> init 3
> timeout
> timeout
> request-vote 1 s2 0 0
= granted | false | request-vote.granted
= term | 2 | request-vote.term
> state
= term | 2 | state.term
= state | "candidate" | state.state"#;

/// A vote request from a newer term makes it step down.
pub const A_NEWER_TERM_MAKES_IT_STEP_DOWN: &'static str = r#"a candidate that meets a higher term
> init 3
> timeout
> request-vote 7 s3 0 0
= granted | true | request-vote.granted
> state
@ 3 request-vote
= term | 7 | request-vote.term
@ 4 state
= state | "follower" | state.state
= term | 7 | state.term
= voted_for | "s3" | state.voted_for
= votes | 0 | state.votes"#;

/// A node votes only once per term.
pub const ONE_VOTE_PER_TERM: &'static str = "two candidates asking in the same term
> init 5
> request-vote 4 s2 0 0
> request-vote 4 s3 0 0
> request-vote 5 s3 0 0
@ 2 request-vote 4 s2 0 0
= granted | true | the first request-vote(4, s2).granted
@ 3 request-vote 4 s3 0 0
= granted | false | the second request-vote(4, s3).granted
@ 4 request-vote 5 s3 0 0
= granted | true | request-vote(5, s3).granted";

/// The same candidate asking twice gets the same answer.
pub const A_REPEATED_REQUEST_IS_IDEMPOTENT: &'static str = r#"a candidate whose request was retransmitted
> init 3
> request-vote 2 s2 0 0
& granted | true | -
> request-vote 2 s2 0 0
& granted | true | -
> request-vote 2 s2 0 0
& granted | true | -
# - | [true,true,true] | the three answers
> state
= voted_for | "s2" | state.voted_for"#;

/// A candidate whose log is behind is refused.
pub const A_SHORTER_LOG_IS_REFUSED: &'static str = "the up-to-date check of §5.4.1
> init 3
> log-append 1
> log-append 1
> log-append 2
> request-vote 3 s2 2 1
> request-vote 3 s2 3 2
> request-vote 4 s3 9 2
@ 5 request-vote 3 s2 2 1
= granted | false | request-vote(last_index 2, last_term 1).granted
@ 6 request-vote 3 s2 3 2
= granted | true | request-vote(last_index 3, last_term 2).granted
@ 7 request-vote 4 s3 9 2
= granted | true | request-vote(last_index 9, last_term 2).granted";

/// A higher last term beats a longer log.
pub const A_HIGHER_LAST_TERM_WINS: &'static str = "a short log at a later term against a long log at an early one
> init 3
> log-append 1
> log-append 1
> log-append 1
> log-append 1
> log-append 1
> request-vote 5 s2 1 4
= granted | true | request-vote(last_index 1, last_term 4).granted
> state
= last_index | 5 | state.last_index";

/// A majority of votes makes a candidate the leader.
pub const A_MAJORITY_ELECTS: &'static str = r#"a five-member election won with three votes
> init 5
> timeout
> vote-response 1 s2 true
> vote-response 1 s3 true
@ 3 vote-response
= state | "candidate" | after one granted vote, state
= votes | 2 | after one granted vote, votes
@ 4 vote-response
= state | "leader" | after two granted votes, state
= votes | 3 | after two granted votes, votes
> state
= term | 1 | state.term"#;

/// The same vote arriving twice does not count twice.
pub const A_DUPLICATE_VOTE_DOES_NOT_COUNT: &'static str = r#"one voter answering three times, and one refusing
> init 5
> timeout
> vote-response 1 s2 true
& votes | 0 | -
> vote-response 1 s2 true
& votes | 0 | -
> vote-response 1 s2 true
& votes | 0 | -
# - | [2,2,2] | the vote counts
> vote-response 1 s3 false
> state
@ 6 vote-response 1 s3 false
= votes | 2 | after a refusal, votes
@ 7 state
= state | "candidate" | state.state"#;

/// An append-entries from the current term ends the election.
pub const AN_APPEND_ENTRIES_ENDS_THE_ELECTION: &'static str = r#"a heartbeat arriving during this node's own election
> init 3
> timeout
> append-entries 1 s2
> state
> append-entries 0 s3
> state
@ 3 append-entries 1 s2
= success | true | append-entries(1, s2).success
= state | "follower" | append-entries(1, s2).state
@ 4 state
= leader | "s2" | state.leader
@ 5 append-entries 0 s3
= success | false | append-entries(0, s3).success
@ 6 state
= leader | "s2" | state.leader after the stale heartbeat"#;

/// A split vote elects nobody until a later term.
pub const A_SPLIT_VOTE_ELECTS_NOBODY: &'static str = r#"an election that nobody won
> init 5
> timeout
> vote-response 1 s2 true
> vote-response 1 s3 false
> vote-response 1 s4 false
~ state | "" | -
> timeout
@ 3 vote-response
= votes | 2 | after s2 granted, votes
@ 4 vote-response
= votes | 2 | after s3 refused, votes
@ 5 vote-response 1 s4 false
= state | "candidate" | after s4 refused, state
@ 6 timeout
= term | 2 | the retry's term
= votes | 1 | the retry's votes"#;

/// A leader steps down when it sees a higher term.
pub const A_LEADER_STEPS_DOWN: &'static str = r#"a leader that meets a later term
> init 3
> timeout
> vote-response 1 s2 true
> state
= state | "leader" | state before the higher term
> append-entries 4 s3
> state
@ 5 append-entries 4 s3
= state | "follower" | append-entries(4, s3).state
@ 6 state
= term | 4 | state.term
= voted_for | null | state.voted_for
= votes | 0 | state.votes"#;

/// A leader does not start an election of its own.
pub const A_LEADER_IGNORES_ITS_TIMEOUT: &'static str = r#"an elected leader whose election timer fires anyway
> init 3
> timeout
> vote-response 1 s2 true
> timeout
= state | "leader" | timeout.state
= term | 1 | timeout.term"#;

/// What somebody stuck on this stage is told, one after the other.
pub const HINTS: [&'static str; 4] = [
    "Topic `raft-election`: one node's role, term, votedFor and vote tally",
    "Any message carrying a higher term makes this node a follower and clears votedFor",
    "One vote per term, and only for a candidate whose log is at least as up to date",
    "Count each voter once: a retransmitted vote must not make a minority a majority",
];

/// The tests of this stage.
pub const TESTS: [TestRow; 15] = [
    (
        "a fresh node is a follower at term zero",
        "a_fresh_node_is_a_follower",
        false,
        false,
        0,
        0,
        A_FRESH_NODE_IS_A_FOLLOWER,
    ),
    (
        "an election timeout makes it a candidate that voted for itself",
        "a_timeout_starts_an_election",
        false,
        false,
        0,
        0,
        A_TIMEOUT_STARTS_AN_ELECTION,
    ),
    (
        "a vote request from an older term is refused",
        "an_older_term_is_refused",
        false,
        false,
        0,
        0,
        AN_OLDER_TERM_IS_REFUSED,
    ),
    (
        "a vote request from a newer term makes it step down",
        "a_newer_term_makes_it_step_down",
        false,
        false,
        0,
        0,
        A_NEWER_TERM_MAKES_IT_STEP_DOWN,
    ),
    (
        "a node votes only once per term",
        "one_vote_per_term",
        false,
        false,
        0,
        0,
        ONE_VOTE_PER_TERM,
    ),
    (
        "the same candidate asking twice gets the same answer",
        "a_repeated_request_is_idempotent",
        false,
        false,
        0,
        0,
        A_REPEATED_REQUEST_IS_IDEMPOTENT,
    ),
    (
        "a candidate whose log is behind is refused",
        "a_shorter_log_is_refused",
        false,
        false,
        0,
        0,
        A_SHORTER_LOG_IS_REFUSED,
    ),
    (
        "a higher last term beats a longer log",
        "a_higher_last_term_wins",
        false,
        false,
        0,
        0,
        A_HIGHER_LAST_TERM_WINS,
    ),
    (
        "a majority of votes makes a candidate the leader",
        "a_majority_elects",
        false,
        false,
        0,
        0,
        A_MAJORITY_ELECTS,
    ),
    (
        "the same vote arriving twice does not count twice",
        "a_duplicate_vote_does_not_count",
        false,
        false,
        0,
        0,
        A_DUPLICATE_VOTE_DOES_NOT_COUNT,
    ),
    (
        "an append-entries from the current term ends the election",
        "an_append_entries_ends_the_election",
        false,
        false,
        0,
        0,
        AN_APPEND_ENTRIES_ENDS_THE_ELECTION,
    ),
    (
        "a split vote elects nobody until a later term",
        "a_split_vote_elects_nobody",
        true,
        false,
        0,
        0,
        A_SPLIT_VOTE_ELECTS_NOBODY,
    ),
    (
        "a leader steps down when it sees a higher term",
        "a_leader_steps_down",
        true,
        false,
        0,
        0,
        A_LEADER_STEPS_DOWN,
    ),
    (
        "a leader does not start an election of its own",
        "a_leader_ignores_its_timeout",
        true,
        false,
        0,
        0,
        A_LEADER_IGNORES_ITS_TIMEOUT,
    ),
    (
        "eighty seeded events match the tester's own replay",
        "a_long_seeded_election",
        true,
        false,
        0,
        0,
        "",
    ),
];

/// The worked examples of this stage.
pub const EXAMPLES: [PrimRow; 2] = [
    (
        "An election won on the third vote",
        "raft-election",
        "init 5
timeout
vote-response 1 s2 true
vote-response 1 s3 true
state",
        "a five-member cluster, one timeout, and two granted votes",
        "candidate at term 1 with one vote, then two, then leader on the third",
        "The candidate's own vote counts, so a five-member cluster needs two more, not three. \
         Forgetting it means a leader is never elected until an extra round of timeouts, which \
         looks like a liveness bug and is really an off-by-one.",
    ),
    (
        "A candidate whose log is behind",
        "raft-election",
        "init 3
log-append 1
log-append 2
request-vote 3 s2 1 1
request-vote 3 s3 2 2",
        "a node holding two entries, asked by a short candidate and then a current one",
        "granted false for the first, and true for the second",
        "This is §5.4.1, and it is the only thing standing between Raft and a leader that \
         silently drops committed entries. Note that the first request still moved the term to \
         3: a refused vote is not an ignored message.",
    ),
];

/// The worked examples of this stage.
pub fn examples() -> (examples: Vec<ExampleSpec>)
    ensures
        described(examples@) == EXAMPLES@.map_values(|row: PrimRow| prim_described(row)),
{
    prim_examples(EXAMPLES)
}

/// What the rows say of this stage's place in the suite.
proof fn lemma_in_place()
    ensures
        rows_written(TESTS@),
        rows_on_topic(EXAMPLES@, HINTS[0]@),
{
    assert(rows_written(TESTS@)) by {
        reveal_strlit("placeholder");
        reveal_strlit("a fresh node is a follower at term zero");
        assert(TESTS@[0].0@.len() == 39);
        reveal_strlit("an election timeout makes it a candidate that voted for itself");
        assert(TESTS@[1].0@.len() == 62);
        reveal_strlit("a vote request from an older term is refused");
        assert(TESTS@[2].0@.len() == 44);
        reveal_strlit("a vote request from a newer term makes it step down");
        assert(TESTS@[3].0@.len() == 51);
        reveal_strlit("a node votes only once per term");
        assert(TESTS@[4].0@.len() == 31);
        reveal_strlit("the same candidate asking twice gets the same answer");
        assert(TESTS@[5].0@.len() == 52);
        reveal_strlit("a candidate whose log is behind is refused");
        assert(TESTS@[6].0@.len() == 42);
        reveal_strlit("a higher last term beats a longer log");
        assert(TESTS@[7].0@.len() == 37);
        reveal_strlit("a majority of votes makes a candidate the leader");
        assert(TESTS@[8].0@.len() == 48);
        reveal_strlit("the same vote arriving twice does not count twice");
        assert(TESTS@[9].0@.len() == 49);
        reveal_strlit("an append-entries from the current term ends the election");
        assert(TESTS@[10].0@.len() == 57);
        reveal_strlit("a split vote elects nobody until a later term");
        assert(TESTS@[11].0@.len() == 45);
        reveal_strlit("a leader steps down when it sees a higher term");
        assert(TESTS@[12].0@.len() == 46);
        reveal_strlit("a leader does not start an election of its own");
        assert(TESTS@[13].0@.len() == 46);
        reveal_strlit("eighty seeded events match the tester's own replay");
        assert(TESTS@[14].0@.len() == 50);
        assert forall|i: int| 0 <= i < 15 implies (#[trigger] TESTS@[i]).0@ != "placeholder"@ by {
            assert(i == 0 || i == 1 || i == 2 || i == 3 || i == 4 || i == 5 || i == 6 || i == 7 || i == 8 || i == 9 || i == 10 || i == 11 || i == 12 || i == 13 || i == 14);
        }
    }
    assert(names_topic_at(HINTS[0]@, "raft-election"@, 6)) by {
        reveal_strlit("`");
        reveal_strlit("raft-election");
        reveal_strlit("Topic `raft-election`: one node's role, term, votedFor and vote tally");
        assert(HINTS[0]@.subrange(6, 21) =~= "`"@ + "raft-election"@ + "`"@);
    }
    reveal_strlit("init ");
    assert(EXAMPLES@[0].2@.len() >= 5 && EXAMPLES@[0].2@.take(5) =~= "init "@) by {
        reveal_strlit(
            "init 5\n\
             timeout\n\
             vote-response 1 s2 true\n\
             vote-response 1 s3 true\n\
             state",
        );
    }
    assert(EXAMPLES@[1].2@.len() >= 5 && EXAMPLES@[1].2@.take(5) =~= "init "@) by {
        reveal_strlit(
            "init 3\n\
             log-append 1\n\
             log-append 2\n\
             request-vote 3 s2 1 1\n\
             request-vote 3 s3 2 2",
        );
    }
}

/// What stage 56 holds.
pub open spec fn is_stage(s: Stage) -> bool {
    &&& s.number == 56
    &&& s.slug == "raft_leader_election"
    &&& s.name == "Raft leader election"
    &&& s.ext == false
    &&& s.ladder == Ladder::Algorithms
    &&& s.hints == HINTS
    &&& s.tests@ == tests_of(TESTS@)
    &&& described(s.examples@) == EXAMPLES@.map_values(|row: PrimRow| prim_described(row))
}

/// Stage 56.
pub fn stage() -> (s: Stage)
    ensures
        is_stage(s),
        s.in_place(),
{
    let s = Stage {
        number: 56,
        slug: "raft_leader_election",
        name: "Raft leader election",
        ext: false,
        ladder: Ladder::Algorithms,
        hints: HINTS,
        examples: examples(),
        tests: tests(TESTS),
    };
    proof {
        reveal(Stage::in_place);
        assert(s.examples@.len() == described(s.examples@).len());
        lemma_in_place();
        assert forall|i: int| 0 <= i < s.examples@.len() implies opens_topic(
            #[trigger] s.examples@[i]@,
            s.hints[0]@,
        ) by {
            assert(described(s.examples@)[i] == prim_described(EXAMPLES@[i]));
        }
    }
    s
}

} // verus!
