//! Stage 60: Raft membership change.
//!
//! A configuration is a set of voters. Single-server changes are made one at a time, which is safe
//! because any majority before such a change and any majority after it share a member.
use rand::rngs::StdRng;
use vstd::prelude::*;
use crate::check::{
    all_hold, is_bool, is_int, is_text, is_that, lemma_until_failure_rest, lemma_until_failure_step, name_step,
    note_seed, run_passes_where_every_step_does, seed_note, step_path, text_fact, until_failure, Check, Ruling,
    Truth, Verdict,
};
use crate::draw::{draw_i32, draw_usize};
use crate::json::{json_names, names_to_json, Json};
use crate::prim::{expect_bool, expect_i64, expect_str, lookup, raw, raw_text, whole_field, Misshapen};
use crate::examples::{described, prim_described, prim_examples, ExampleSpec, PrimRow};
use crate::stages::{names_topic_at, opens_topic, rows_on_topic, rows_written, tests, tests_of, Ladder, Stage, TestRow};
use crate::quorum::{groups_meet, majority, majority_of};
use crate::text::{
    copy_texts, in_order, lemma_in_order, name_list_text, name_list_to_text, same_text, sort_names, strs,
    text_le, text_order_is_total, texts,
};

verus! {

/// Whether a change is in flight.
#[derive(Clone, Copy, Debug, PartialEq, Eq, Structural)]
pub enum Phase {
    Stable,
    Pending,
}

impl Phase {
    /// The phase as an answer spells it.
    pub open spec fn text(self) -> Seq<char> {
        match self {
            Phase::Stable => "stable"@,
            Phase::Pending => "pending"@,
        }
    }

    /// The phase as an answer spells it.
    pub fn name(self) -> (s: &'static str)
        ensures
            s@ == self.text(),
    {
        match self {
            Phase::Stable => "stable",
            Phase::Pending => "pending",
        }
    }
}

/// A majority of a configuration.
pub fn quorum_of(members: &[String]) -> (r: i64)
    requires
        members@.len() <= i64::MAX,
    ensures
        r == majority_of(members@.len()),
{
    members.len() as i64 / 2 + 1
}

/// A configuration and whether a change is in flight over it.
#[verifier::ext_equal]
pub struct Configuration {
    pub phase: Phase,
    pub members: Seq<Seq<char>>,
}

/// Every member but `who`.
pub open spec fn other_than(who: Seq<char>) -> spec_fn(Seq<char>) -> bool {
    |m: Seq<char>| m != who
}

/// The members but for `who`.
pub open spec fn without(members: Seq<Seq<char>>, who: Seq<char>) -> Seq<Seq<char>> {
    members.filter(other_than(who))
}

impl Configuration {
    /// Whether a change is taken: none while another is in flight, no member twice, none that is
    /// not there, and never the last one.
    pub open spec fn accepts(self, add: bool, who: Seq<char>) -> bool {
        &&& self.phase == Phase::Stable
        &&& if add {
            !self.members.contains(who)
        } else {
            self.members.contains(who) && self.members.len() != 1
        }
    }

    /// The configuration once a change has been asked for.
    pub open spec fn changed(self, add: bool, who: Seq<char>) -> Configuration {
        if self.accepts(add, who) {
            Configuration {
                phase: Phase::Pending,
                members: if add {
                    in_order(self.members.push(who))
                } else {
                    without(self.members, who)
                },
            }
        } else {
            self
        }
    }

    /// The configuration once the change in flight, if there is one, has been committed.
    pub open spec fn settled(self) -> Configuration {
        Configuration { phase: Phase::Stable, ..self }
    }

    /// No member is listed twice, and there is one at least.
    pub open spec fn sound(self) -> bool {
        self.members.no_duplicates() && self.members.len() > 0
    }
}

/// A configuration and whatever change is in flight over it.
pub struct Model {
    phase: Phase,
    members: Vec<String>,
}

impl View for Model {
    type V = Configuration;

    closed spec fn view(&self) -> Configuration {
        Configuration { phase: self.phase, members: texts(self.members@) }
    }
}

impl Model {
    pub fn new(members: &[&str]) -> (m: Model)
        ensures
            m@ == (Configuration { phase: Phase::Stable, members: strs(members@) }),
    {
        let mut own: Vec<String> = Vec::new();
        let mut i: usize = 0;
        while i < members.len()
            invariant
                i <= members@.len(),
                texts(own@) == strs(members@).take(i as int),
            decreases members@.len() - i,
        {
            let ghost so_far = texts(own@);
            own.push(String::from_str(members[i]));
            assert(texts(own@) =~= so_far.push(members@[i as int]@));
            assert(texts(own@) =~= strs(members@).take(i + 1));
            i += 1;
        }
        assert(texts(own@) =~= strs(members@));
        Model { phase: Phase::Stable, members: own }
    }

    pub fn phase(&self) -> (r: Phase)
        ensures
            r == self@.phase,
    {
        self.phase
    }

    pub fn members(&self) -> (r: &Vec<String>)
        ensures
            texts(r@) == self@.members,
    {
        &self.members
    }

    /// Whether `who` is a member.
    fn holds(&self, who: &str) -> (r: bool)
        ensures
            r == self@.members.contains(who@),
    {
        let mut i: usize = 0;
        while i < self.members.len()
            invariant
                i <= self.members@.len(),
                forall|k: int| 0 <= k < i ==> #[trigger] texts(self.members@)[k] != who@,
            decreases self.members@.len() - i,
        {
            if same_text(self.members[i].as_str(), who) {
                assert(texts(self.members@)[i as int] == who@);
                return true;
            }
            i += 1;
        }
        false
    }

    /// Returns whether the change was accepted.
    pub fn change(&mut self, add: bool, who: &str) -> (r: bool)
        ensures
            r == old(self)@.accepts(add, who@),
            final(self)@ == old(self)@.changed(add, who@),
    {
        if self.phase != Phase::Stable {
            return false;
        }
        let present = self.holds(who);
        if add {
            if present {
                return false;
            }
            self.members.push(String::from_str(who));
            assert(texts(self.members@) =~= texts(old(self).members@).push(who@));
            self.members = sort_names(&self.members);
        } else {
            if !present || self.members.len() == 1 {
                return false;
            }
            let mut kept: Vec<String> = Vec::new();
            let ghost all = texts(self.members@);
            let ghost stays = other_than(who@);
            let mut i: usize = 0;
            proof {
                reveal(Seq::filter);
                assert(texts(kept@) =~= all.take(0).filter(stays));
            }
            while i < self.members.len()
                invariant
                    i <= self.members@.len(),
                    all == texts(self.members@),
                    stays == other_than(who@),
                    texts(kept@) == all.take(i as int).filter(stays),
                decreases self.members@.len() - i,
            {
                proof {
                    reveal(Seq::filter);
                    assert(all.take(i + 1).drop_last() =~= all.take(i as int));
                }
                if !same_text(self.members[i].as_str(), who) {
                    kept.push(self.members[i].clone());
                    assert(texts(kept@) =~= all.take(i as int).filter(stays).push(all[i as int]));
                }
                i += 1;
            }
            assert(all.take(i as int) =~= all);
            assert(texts(kept@) == without(all, who@));
            self.members = kept;
        }
        self.phase = Phase::Pending;
        true
    }

    /// Returns whether there was a change to commit.
    pub fn commit(&mut self) -> (r: bool)
        ensures
            r == (old(self)@.phase == Phase::Pending),
            final(self)@ == old(self)@.settled(),
    {
        if self.phase != Phase::Pending {
            return false;
        }
        self.phase = Phase::Stable;
        true
    }
}

/// A member list as the command line wants it: compact JSON, no spaces.
pub fn members_arg(members: &[&str]) -> (out: String)
    ensures
        out@ == name_list_text(strs(members@)),
{
    name_list_to_text(members)
}

/// There is never more than one change in flight: while one is, every other is refused.
pub proof fn one_change_at_a_time(c: Configuration, add: bool, who: Seq<char>, add_next: bool, next: Seq<char>)
    ensures
        c.phase == Phase::Pending ==> !c.accepts(add, who),
        c.accepts(add, who) ==> c.changed(add, who).phase == Phase::Pending,
        c.accepts(add, who) ==> !c.changed(add, who).accepts(add_next, next),
{
}

/// A refused change leaves the configuration as it was.
pub proof fn refused_change_changes_nothing(c: Configuration, add: bool, who: Seq<char>)
    requires
        !c.accepts(add, who),
    ensures
        c.changed(add, who) == c,
{
}

/// A change is committed once: after that there is nothing left to commit.
pub proof fn change_is_committed_once(c: Configuration)
    ensures
        c.settled().phase == Phase::Stable,
        c.settled().settled() == c.settled(),
        c.settled().members == c.members,
{
}

proof fn lemma_removal(members: Seq<Seq<char>>, who: Seq<char>)
    requires
        members.no_duplicates(),
        members.contains(who),
    ensures
        without(members, who).no_duplicates(),
        without(members, who).to_set() == members.to_set().remove(who),
        without(members, who).len() == members.len() - 1,
{
    let stays = other_than(who);
    let kept = without(members, who);
    assert(kept == members.filter(stays));
    assert forall|x: Seq<char>| kept.contains(x) == (members.contains(x) && x != who) by {
        if kept.contains(x) {
            members.lemma_filter_contains_rev(stays, x);
            let k = choose|k: int| 0 <= k < kept.len() && kept[k] == x;
            members.lemma_filter_pred(stays, k);
        }
        if members.contains(x) && x != who {
            let k = choose|k: int| 0 <= k < members.len() && members[k] == x;
            members.lemma_filter_contains(stays, k);
        }
    }
    assert(kept.to_set() =~= members.to_set().remove(who));
    lemma_filter_distinct(members, stays);
    kept.unique_seq_to_set();
    members.unique_seq_to_set();
}

proof fn lemma_filter_distinct(members: Seq<Seq<char>>, stays: spec_fn(Seq<char>) -> bool)
    requires
        members.no_duplicates(),
    ensures
        members.filter(stays).no_duplicates(),
    decreases members.len(),
{
    reveal(Seq::filter);
    if members.len() > 0 {
        lemma_filter_distinct(members.drop_last(), stays);
        let kept = members.drop_last().filter(stays);
        if stays(members.last()) && kept.contains(members.last()) {
            members.drop_last().lemma_filter_contains_rev(stays, members.last());
            let k = choose|k: int| 0 <= k < members.len() - 1 && members.drop_last()[k] == members.last();
            assert(members[k] == members[members.len() - 1]);
        }
        assert(kept.no_duplicates());
        assert forall|i: int, j: int|
            0 <= i < members.filter(stays).len() && 0 <= j < members.filter(stays).len() && i != j implies members.filter(
            stays,
        )[i] != members.filter(stays)[j] by {
            if i == kept.len() {
                assert(kept[j] == members.filter(stays)[j]);
            } else if j == kept.len() {
                assert(kept[i] == members.filter(stays)[i]);
            }
        }
    }
}

/// A change that is taken adds or removes exactly the member it names, so a configuration never
/// lists a member twice and never becomes empty.
pub proof fn change_moves_one_member(c: Configuration, add: bool, who: Seq<char>)
    requires
        c.sound(),
    ensures
        c.changed(add, who).sound(),
        c.accepts(true, who) ==> c.changed(true, who).members.to_set() == c.members.to_set().insert(
            who,
        ) && c.changed(true, who).members.len() == c.members.len() + 1,
        c.accepts(false, who) ==> c.changed(false, who).members.to_set()
            == c.members.to_set().remove(who) && c.changed(false, who).members.len()
            == c.members.len() - 1,
{
    if c.accepts(true, who) {
        let grown = c.members.push(who);
        lemma_in_order(grown);
        assert(grown.no_duplicates());
        assert forall|x: Seq<char>| grown.contains(x) == (c.members.contains(x) || x == who) by {
            if grown.contains(x) {
                let k = choose|k: int| 0 <= k < grown.len() && grown[k] == x;
                if k < c.members.len() {
                    assert(c.members[k] == x);
                }
            }
            if c.members.contains(x) {
                let k = choose|k: int| 0 <= k < c.members.len() && c.members[k] == x;
                assert(grown[k] == x);
            }
            if x == who {
                assert(grown[c.members.len() as int] == x);
            }
        }
        assert(grown.to_set() =~= c.members.to_set().insert(who));
    }
    if c.accepts(false, who) {
        lemma_removal(c.members, who);
    }
}

/// A single-server change keeps the majorities overlapping: whichever members decided before it and
/// whichever decide after it, one of them is the same.
pub proof fn majorities_overlap_across_a_change(
    c: Configuration,
    add: bool,
    who: Seq<char>,
    before: Set<Seq<char>>,
    after: Set<Seq<char>>,
)
    requires
        c.sound(),
        c.accepts(add, who),
        before.subset_of(c.members.to_set()),
        before.len() >= majority_of(c.members.len()),
        after.subset_of(c.changed(add, who).members.to_set()),
        after.len() >= majority_of(c.changed(add, who).members.len()),
    ensures
        exists|m: Seq<char>| #[trigger] before.contains(m) && after.contains(m),
{
    change_moves_one_member(c, add, who);
    c.members.unique_seq_to_set();
    let grown = c.changed(add, who);
    grown.members.unique_seq_to_set();
    if add {
        groups_meet(grown.members.to_set(), before, after);
    } else {
        groups_meet(c.members.to_set(), before, after);
    }
}

/// The safety argument in numbers: the quorums either side of a single-server change are together
/// more than all the members the two configurations have between them.
pub proof fn adjacent_quorums_exceed_the_union(n: nat)
    ensures
        majority_of(n) + majority_of(n + 1) > n + 1,
{
}

/// A change, taken or refused, moves the quorum by one at most: up where a member is added and down where
/// one is removed. The quorums before and after it are together more than either configuration.
pub proof fn change_moves_the_quorum_by_one_at_most(c: Configuration, add: bool, who: Seq<char>)
    requires
        c.sound(),
    ensures
        add ==> majority_of(c.members.len()) <= majority_of(c.changed(add, who).members.len())
            <= majority_of(c.members.len()) + 1,
        !add ==> majority_of(c.members.len()) - 1 <= majority_of(c.changed(add, who).members.len())
            <= majority_of(c.members.len()),
        majority_of(c.members.len()) + majority_of(c.changed(add, who).members.len())
            > c.members.len(),
        majority_of(c.members.len()) + majority_of(c.changed(add, who).members.len()) > c.changed(
            add,
            who,
        ).members.len(),
{
    change_moves_one_member(c, add, who);
}

/// A member that is added and, that committed, removed again leaves the members and the quorum
/// that were there before.
pub proof fn removing_the_added_member_restores(c: Configuration, who: Seq<char>)
    requires
        c.sound(),
        c.accepts(true, who),
    ensures
        c.changed(true, who).settled().accepts(false, who),
        c.changed(true, who).settled().changed(false, who).members.to_set() == c.members.to_set(),
        c.changed(true, who).settled().changed(false, who).members.len() == c.members.len(),
{
    change_moves_one_member(c, true, who);
    let grown = c.changed(true, who).settled();
    assert(grown.members.to_set().contains(who));
    change_moves_one_member(grown, false, who);
    assert(c.members.to_set().insert(who).remove(who) =~= c.members.to_set());
}

/// The members stand in order.
pub open spec fn ordered(members: Seq<Seq<char>>) -> bool {
    vstd::relations::sorted_by(members, |a: Seq<char>, b: Seq<char>| text_le(a, b))
}

proof fn lemma_without_ordered(members: Seq<Seq<char>>, who: Seq<char>)
    requires
        ordered(members),
    ensures
        ordered(without(members, who)),
    decreases members.len(),
{
    reveal(Seq::filter);
    if members.len() > 0 {
        let leq = |a: Seq<char>, b: Seq<char>| text_le(a, b);
        let stays = other_than(who);
        let front = members.drop_last();
        let kept = without(front, who);
        assert forall|i: int, j: int| 0 <= i < j < front.len() implies #[trigger] leq(front[i], front[j]) by {
            assert(leq(members[i], members[j]));
        }
        lemma_without_ordered(front, who);
        let all = without(members, who);
        assert forall|i: int, j: int| 0 <= i < j < all.len() implies #[trigger] leq(all[i], all[j]) by {
            if j < kept.len() {
                assert(leq(kept[i], kept[j]));
            } else {
                assert(kept.contains(kept[i]));
                front.lemma_filter_contains_rev(stays, kept[i]);
                let k = choose|k: int| 0 <= k < front.len() && front[k] == kept[i];
                assert(leq(members[k], members[members.len() - 1]));
            }
        }
    }
}

proof fn lemma_ordered_by_its_set(a: Seq<Seq<char>>, b: Seq<Seq<char>>)
    requires
        ordered(a),
        ordered(b),
        a.no_duplicates(),
        b.no_duplicates(),
        a.to_set() == b.to_set(),
    ensures
        a == b,
{
    broadcast use vstd::seq_lib::group_to_multiset_ensures;

    text_order_is_total();
    a.lemma_multiset_has_no_duplicates();
    b.lemma_multiset_has_no_duplicates();
    assert forall|x: Seq<char>| #[trigger] a.to_multiset().count(x) == b.to_multiset().count(x) by {
        assert(a.contains(x) == a.to_set().contains(x));
        assert(b.contains(x) == b.to_set().contains(x));
        assert(a.contains(x) <==> a.to_multiset().count(x) > 0);
        assert(b.contains(x) <==> b.to_multiset().count(x) > 0);
        assert(a.to_multiset().contains(x) <==> a.to_multiset().count(x) > 0);
        assert(b.to_multiset().contains(x) <==> b.to_multiset().count(x) > 0);
    }
    assert(a.to_multiset() =~= b.to_multiset());
    vstd::seq_lib::lemma_sorted_unique(a, b, |x: Seq<char>, y: Seq<char>| text_le(x, y));
}

/// A member that is added to a configuration in order and, that committed, removed again leaves the very
/// list that was there before, with the removal in flight: until it is committed too, every other change
/// is refused and changes nothing.
pub proof fn removing_the_added_member_gives_the_list_back(
    c: Configuration,
    who: Seq<char>,
    add_next: bool,
    next: Seq<char>,
)
    requires
        c.sound(),
        ordered(c.members),
        c.accepts(true, who),
    ensures
        ({
            let grown = c.changed(true, who).settled();
            let back = grown.changed(false, who);
            &&& grown.accepts(false, who)
            &&& back == (Configuration { phase: Phase::Pending, members: c.members })
            &&& !back.accepts(add_next, next)
            &&& back.changed(add_next, next) == back
            &&& back.settled() == c
        }),
{
    removing_the_added_member_restores(c, who);
    change_moves_one_member(c, true, who);
    let grown = c.changed(true, who).settled();
    change_moves_one_member(grown, false, who);
    text_order_is_total();
    c.members.push(who).lemma_sort_by_ensures(|a: Seq<char>, b: Seq<char>| text_le(a, b));
    assert(ordered(grown.members));
    lemma_without_ordered(grown.members, who);
    lemma_ordered_by_its_set(without(grown.members, who), c.members);
}

/// The configuration that a plan starts with.
pub const START: [&'static str; 3] = ["s1", "s2", "s3"];

/// Everybody a plan adds or removes.
pub const POOL: [&'static str; 6] = ["s1", "s2", "s3", "s4", "s5", "s6"];

/// One event of a plan.
#[derive(Clone, Copy, Debug)]
pub enum Event {
    Add { who: &'static str },
    Remove { who: &'static str },
    Commit,
}

impl Event {
    /// The command that has the event happen.
    pub open spec fn text(self) -> Seq<char> {
        match self {
            Event::Add { who } => "add "@ + who@,
            Event::Remove { who } => "remove "@ + who@,
            Event::Commit => "commit-change"@,
        }
    }

    /// The command that has the event happen.
    pub fn command(&self) -> (s: String)
        ensures
            s@ == self.text(),
    {
        match self {
            Event::Add { who } => {
                let mut s = String::from_str("add ");
                s.append(who);
                s
            },
            Event::Remove { who } => {
                let mut s = String::from_str("remove ");
                s.append(who);
                s
            },
            Event::Commit => String::from_str("commit-change"),
        }
    }

    /// Whether a plan may draw the event.
    pub open spec fn drawable(self) -> bool {
        match self {
            Event::Add { who } => POOL@.contains(who),
            Event::Remove { who } => POOL@.contains(who),
            Event::Commit => true,
        }
    }
}

impl Configuration {
    /// Whether an event is taken.
    pub open spec fn takes(self, e: Event) -> bool {
        match e {
            Event::Add { who } => self.accepts(true, who@),
            Event::Remove { who } => self.accepts(false, who@),
            Event::Commit => self.phase == Phase::Pending,
        }
    }

    /// The configuration once an event has happened.
    pub open spec fn after(self, e: Event) -> Configuration {
        match e {
            Event::Add { who } => self.changed(true, who@),
            Event::Remove { who } => self.changed(false, who@),
            Event::Commit => self.settled(),
        }
    }

    /// The configuration once a run of events has happened.
    pub open spec fn run(self, es: Seq<Event>) -> Configuration
        decreases es.len(),
    {
        if es.len() == 0 {
            self
        } else {
            self.run(es.drop_last()).after(es.last())
        }
    }
}

/// The configuration that a plan starts with.
pub open spec fn plan_start() -> Configuration {
    Configuration { phase: Phase::Stable, members: strs(START@) }
}

/// One step of a plan: an event, whether it is taken, and the configuration it must leave behind.
#[derive(Debug)]
pub struct Planned {
    pub event: Event,
    pub command: String,
    pub ok: bool,
    pub phase: Phase,
    pub members: Vec<String>,
}

/// The events of a plan.
pub open spec fn events(plan: Seq<Planned>) -> Seq<Event> {
    plan.map_values(|s: Planned| s.event)
}

/// The step says what the rules make of its event.
pub open spec fn step_follows(s: Planned, before: Configuration) -> bool {
    &&& s.event.drawable()
    &&& s.command@ == s.event.text()
    &&& s.ok == before.takes(s.event)
    &&& s.phase == before.after(s.event).phase
    &&& texts(s.members@) == before.after(s.event).members
}

/// Every step says what the rules make of all the steps up to it.
pub open spec fn follows_the_rules(plan: Seq<Planned>) -> bool {
    forall|i: int|
        0 <= i < plan.len() ==> step_follows(
            #[trigger] plan[i],
            plan_start().run(events(plan.take(i))),
        )
}

impl Model {
    /// Has an event happen, and says whether it is taken and what it must leave behind.
    pub fn step(&mut self, event: Event) -> (s: Planned)
        ensures
            final(self)@ == old(self)@.after(event),
            s.event == event,
            event.drawable() ==> step_follows(s, old(self)@),
    {
        let command = event.command();
        let ok = match event {
            Event::Add { who } => self.change(true, who),
            Event::Remove { who } => self.change(false, who),
            Event::Commit => self.commit(),
        };
        let members = copy_texts(&self.members);
        Planned { event, command, ok, phase: self.phase(), members }
    }
}

/// Draws an event.
fn draw(rng: &mut StdRng) -> (event: Event)
    ensures
        event.drawable(),
{
    let pool = POOL;
    let who = pool[draw_usize(rng, 0, 6)];
    assert(POOL@.contains(who));
    match draw_i32(rng, 0, 5) {
        0 => Event::Add { who },
        1 => Event::Add { who },
        2 => Event::Remove { who },
        _ => Event::Commit,
    }
}

/// Sixty seeded membership changes, each with whether it is taken and what it must leave behind.
pub fn plan(rng: &mut StdRng) -> (plan: Vec<Planned>)
    ensures
        plan@.len() == 60,
        follows_the_rules(plan@),
{
    let start = START;
    let mut model = Model::new(&start);
    let mut plan: Vec<Planned> = Vec::new();
    assert(events(plan@) =~= Seq::<Event>::empty());
    let mut i: usize = 0;
    while i < 60
        invariant
            i <= 60,
            plan@.len() == i,
            model@ == plan_start().run(events(plan@)),
            follows_the_rules(plan@),
        decreases 60 - i,
    {
        let event = draw(rng);
        let ghost before = plan@;
        let step = model.step(event);
        plan.push(step);
        proof {
            assert(events(plan@).drop_last() =~= events(before));
            assert(plan@.take(before.len() as int) =~= before);
            assert forall|k: int| 0 <= k < plan@.len() implies step_follows(
                #[trigger] plan@[k],
                plan_start().run(events(plan@.take(k))),
            ) by {
                if k < before.len() {
                    assert(before[k] == plan@[k]);
                    assert(plan@.take(k) =~= before.take(k));
                }
            }
        }
        i += 1;
    }
    plan
}

/// What the program answered to one change.
#[derive(Debug)]
pub struct Seen {
    pub ok: bool,
    pub phase: String,
    pub members: String,
    pub quorum: i64,
}

/// Reads what the program answered to one change.
pub fn read_step(command: &str, answer: &Json) -> (r: Result<Seen, Misshapen>)
    ensures
        r is Ok <==> {
            &&& lookup(*answer, "ok"@) matches Some(Json::Bool(_))
            &&& lookup(*answer, "phase"@) matches Some(Json::Text(_))
            &&& whole_field(*answer, "quorum"@) is Some
        },
        r matches Ok(seen) ==> {
            &&& lookup(*answer, "ok"@) == Some(Json::Bool(seen.ok))
            &&& lookup(*answer, "phase"@) matches Some(Json::Text(phase)) && phase@ == seen.phase@
            &&& whole_field(*answer, "quorum"@) == Some(seen.quorum)
            &&& seen.members@ == raw_text(*answer, "members"@)
        },
        r matches Err(e) ==> e.command@ == command@ && e.field@ == if !(lookup(*answer, "ok"@) matches Some(Json::Bool(_))) {
            "ok"@
        } else if !(lookup(*answer, "phase"@) matches Some(Json::Text(_))) {
            "phase"@
        } else {
            "quorum"@
        },
{
    let ok = match expect_bool(answer, command, "ok") {
        Ok(b) => b,
        Err(e) => {
            return Err(e);
        },
    };
    let phase = match expect_str(answer, command, "phase") {
        Ok(s) => s,
        Err(e) => {
            return Err(e);
        },
    };
    let quorum: i64 = match expect_i64(answer, command, "quorum") {
        Ok(n) => n,
        Err(e) => {
            return Err(e);
        },
    };
    Ok(Seen { ok, phase, members: raw(answer, "members"), quorum })
}

/// What the report says of one step of a plan: whether it was taken, what it left behind, and that
/// there is one change at most in flight.
pub open spec fn step_rulings(i: nat, want: Planned, got: Seen) -> Seq<Ruling> {
    let command = want.command@;
    seq![
        is_bool(step_path(i, command, "ok"@), want.ok, got.ok),
        is_text(step_path(i, command, "phase"@), want.phase.text(), got.phase@),
        is_text(
            step_path(i, command, "members"@),
            json_names(texts(want.members@)),
            got.members@,
        ),
        is_int(
            step_path(i, command, "quorum"@),
            majority_of(want.members@.len()) as int,
            got.quorum as int,
        ),
        is_that(
            step_path(i, command, "one change at a time"@),
            "a phase of stable or pending"@,
            got.phase@ == "stable"@ || got.phase@ == "pending"@,
            Truth::Text(got.phase@),
        ),
    ]
}

/// What the report says of every step that was seen.
pub open spec fn all_rulings(plan: Seq<Planned>, seen: Seq<Seen>) -> Seq<Seq<Ruling>> {
    Seq::new(seen.len(), |i: int| step_rulings(i as nat, plan[i], seen[i]))
}

/// Holds what was seen so far against a plan, up to the first step that differs.
pub fn judge_plan(seed: u64, plan: &Vec<Planned>, seen: &Vec<Seen>) -> (c: Check)
    requires
        seen@.len() <= plan@.len(),
    ensures
        c@ == (Verdict {
            subject: "sixty seeded membership changes replayed against \u{a7}6"@,
            rulings: until_failure(all_rulings(plan@, seen@)),
            notes: seq![seed_note(seed as nat, plan@.len(), "changes"@)],
            blocks: Seq::empty(),
            remarks: Seq::empty(),
        }),
{
    let mut c = Check::new("sixty seeded membership changes replayed against \u{a7}6");
    c.note(note_seed(seed, plan.len(), "changes").as_str());
    let ghost groups = all_rulings(plan@, seen@);
    let mut i: usize = 0;
    assert(groups.take(0) =~= Seq::empty());
    while i < seen.len() && c.ok()
        invariant
            i <= seen@.len() <= plan@.len(),
            groups == all_rulings(plan@, seen@),
            c@.subject == "sixty seeded membership changes replayed against \u{a7}6"@,
            c@.quiet(),
            c@.notes == seq![seed_note(seed as nat, plan@.len(), "changes"@)],
            c@.rulings == until_failure(groups.take(i as int)),
        decreases seen@.len() - i,
    {
        let want = &plan[i];
        let got = &seen[i];
        let ghost before = c@.rulings;
        let command = want.command.as_str();
        c.eq_bool(name_step(i, command, "ok").as_str(), want.ok, got.ok);
        c.eq_text(name_step(i, command, "phase").as_str(), want.phase.name(), got.phase.as_str());
        c.eq_text(
            name_step(i, command, "members").as_str(),
            names_to_json(&want.members).as_str(),
            got.members.as_str(),
        );
        c.eq_int(
            name_step(i, command, "quorum").as_str(),
            majority(want.members.len()) as i128,
            got.quorum as i128,
        );
        let phase = got.phase.as_str();
        let known = same_text(phase, "stable") || same_text(phase, "pending");
        c.that(
            name_step(i, command, "one change at a time").as_str(),
            "a phase of stable or pending",
            known,
            text_fact(phase),
        );
        proof {
            assert(c@.rulings =~= before + groups[i as int]);
            lemma_until_failure_step(groups, i as int);
        }
        i += 1;
    }
    proof {
        lemma_until_failure_rest(groups, i as int);
    }
    c
}

/// A change is taken exactly where none is in flight and it makes sense: a member is added that is not there
/// yet, or one is removed that is there and is not the last.
pub proof fn change_is_taken_where_it_makes_sense(c: Configuration, who: Seq<char>)
    ensures
        c.accepts(true, who) <==> c.phase == Phase::Stable && !c.members.contains(who),
        c.accepts(false, who) <==> c.phase == Phase::Stable && c.members.contains(who) && c.members.len() != 1,
{
}

proof fn lemma_filter_keeps_all(members: Seq<Seq<char>>, who: Seq<char>)
    requires
        !members.contains(who),
    ensures
        members.filter(other_than(who)) == members,
    decreases members.len(),
{
    reveal(Seq::filter);
    if members.len() > 0 {
        let front = members.drop_last();
        assert(!front.contains(who)) by {
            if front.contains(who) {
                let k = choose|k: int| 0 <= k < front.len() && front[k] == who;
                assert(members[k] == who);
            }
        }
        lemma_filter_keeps_all(front, who);
        assert(members[members.len() - 1] == members.last());
        assert(front.push(members.last()) =~= members);
    }
}

/// A member that is removed leaves everybody else where they were, in the same order.
pub proof fn removal_closes_the_gap(c: Configuration, k: int)
    requires
        c.sound(),
        c.phase == Phase::Stable,
        0 <= k < c.members.len(),
        c.members.len() > 1,
    ensures
        c.changed(false, c.members[k]).members == c.members.take(k) + c.members.skip(k + 1),
        c.changed(false, c.members[k]).phase == Phase::Pending,
{
    let who = c.members[k];
    let a = c.members.take(k);
    let b = c.members.skip(k + 1);
    let one = seq![who];
    assert(c.members.contains(who));
    assert(c.members =~= a + one + b);
    assert(!a.contains(who)) by {
        if a.contains(who) {
            let j = choose|j: int| 0 <= j < a.len() && a[j] == who;
            assert(c.members[j] == c.members[k]);
        }
    }
    assert(!b.contains(who)) by {
        if b.contains(who) {
            let j = choose|j: int| 0 <= j < b.len() && b[j] == who;
            assert(c.members[j + k + 1] == c.members[k]);
        }
    }
    lemma_filter_keeps_all(a, who);
    lemma_filter_keeps_all(b, who);
    let p = other_than(who);
    assert(one.filter(p) =~= Seq::empty()) by {
        reveal(Seq::filter);
        assert(one.drop_last() =~= Seq::empty());
        assert(one.drop_last().filter(p) =~= Seq::empty());
    }
    Seq::filter_distributes_over_add(a + one, b, p);
    Seq::filter_distributes_over_add(a, one, p);
    assert(a.filter(p) + one.filter(p) + b.filter(p) =~= a + b);
}

/// A member that is added is put in its place: everybody is there who was, and the one that was added, in
/// ascending order.
pub proof fn addition_keeps_the_members_in_order(c: Configuration, who: Seq<char>, i: int, j: int)
    requires
        c.accepts(true, who),
    ensures
        c.changed(true, who).members.to_multiset() == c.members.to_multiset().insert(who),
        0 <= i < j < c.changed(true, who).members.len() ==> text_le(
            c.changed(true, who).members[i],
            c.changed(true, who).members[j],
        ),
        c.changed(true, who).phase == Phase::Pending,
{
    let le = |a: Seq<char>, b: Seq<char>| text_le(a, b);
    text_order_is_total();
    let grown = c.members.push(who);
    grown.lemma_sort_by_ensures(le);
    assert(c.changed(true, who).members == grown.sort_by(le));
    broadcast use vstd::seq_lib::group_to_multiset_ensures;
    assert(grown.to_multiset() =~= c.members.to_multiset().insert(who));
    if 0 <= i < j < grown.sort_by(le).len() {
        assert(le(grown.sort_by(le)[i], grown.sort_by(le)[j]));
    }
}

/// Changes happen one after the other, each as its command has it, and the commit of one is taken exactly
/// where one is in flight.
pub proof fn changes_happen_one_after_the_other(c: Configuration, es: Seq<Event>, e: Event, who: &'static str)
    ensures
        c.run(Seq::empty()) == c,
        c.run(es.push(e)) == c.run(es).after(e),
        c.after((Event::Add { who })) == c.changed(true, who@),
        c.after((Event::Remove { who })) == c.changed(false, who@),
        c.after(Event::Commit) == c.settled(),
        c.takes((Event::Add { who })) == c.accepts(true, who@),
        c.takes((Event::Remove { who })) == c.accepts(false, who@),
        c.takes(Event::Commit) == (c.phase == Phase::Pending),
        (Event::Add { who }).text() == "add "@ + who@,
        (Event::Remove { who }).text() == "remove "@ + who@,
        Event::Commit.text() == "commit-change"@,
        Phase::Stable.text() == "stable"@,
        Phase::Pending.text() == "pending"@,
        (Event::Add { who }).drawable() <==> POOL@.contains(who),
        (Event::Remove { who }).drawable() <==> POOL@.contains(who),
        Event::Commit.drawable(),
        plan_start().phase == Phase::Stable,
        plan_start().members == seq!["s1"@, "s2"@, "s3"@],
{
    assert(es.push(e).drop_last() =~= es);
    assert(plan_start().members =~= seq!["s1"@, "s2"@, "s3"@]);
}

/// What was seen after a change is what was planned: whether it was taken, the phase, the members and a
/// quorum of more than half of them.
pub open spec fn as_planned(want: Planned, got: Seen) -> bool {
    &&& want.ok == got.ok
    &&& got.phase@ == (match want.phase {
        Phase::Stable => "stable"@,
        Phase::Pending => "pending"@,
    })
    &&& got.members@ == json_names(texts(want.members@))
    &&& got.quorum == want.members@.len() / 2 + 1
}

/// A run passes exactly where every answer is the planned one.
pub proof fn run_passes_where_every_answer_is_the_planned_one(plan: Seq<Planned>, seen: Seq<Seen>)
    requires
        seen.len() <= plan.len(),
    ensures
        all_hold(until_failure(all_rulings(plan, seen))) <==> forall|i: int|
            0 <= i < seen.len() ==> as_planned(plan[i], #[trigger] seen[i]),
{
    let groups = all_rulings(plan, seen);
    run_passes_where_every_step_does(groups);
    assert forall|i: int| 0 <= i < seen.len() implies (all_hold(#[trigger] groups[i]) <==> as_planned(
        plan[i],
        seen[i],
    )) by {
        let g = groups[i];
        assert(g == step_rulings(i as nat, plan[i], seen[i]));
        assert(g.len() == 5);
        if all_hold(g) {
            assert(g[0].holds() && g[1].holds() && g[2].holds() && g[3].holds() && g[4].holds());
        }
    }
    if all_hold(until_failure(groups)) {
        assert forall|i: int| 0 <= i < seen.len() implies as_planned(plan[i], #[trigger] seen[i]) by {
            assert(all_hold(groups[i]));
        }
    } else {
        let i = choose|i: int| 0 <= i < groups.len() && !all_hold(#[trigger] groups[i]);
        assert(!as_planned(plan[i], seen[i]));
    }
}

/// The topic the program is asked about.
pub const TOPIC: &'static str = "raft-membership";

/// A fresh cluster reports its members and its quorum.
pub const A_FRESH_CLUSTER_REPORTS_ITSELF: &'static str = r#"the quorum of a cluster that is not changing
> init ["s1","s2","s3"]
> state
> init ["a","b","c","d","e"]
> init ["a","b","c","d"]
@ 1 init
= phase | "stable" | init.phase
= quorum | 2 | init(3).quorum
@ 2 state
= members | ["s1","s2","s3"] | state.members
@ 3 init
= quorum | 3 | init(5).quorum
@ 4 init
= quorum | 3 | init(4).quorum"#;

/// Entering the joint configuration names both sides.
pub const ENTERING_THE_JOINT_PHASE: &'static str = r#"a cluster that has proposed C_old,new
> init ["s1","s2","s3"]
> joint ["s3","s4","s5","s6","s7"]
> state
@ 2 joint
= phase | "joint" | joint.phase
= old | ["s1","s2","s3"] | joint.old
= new | ["s3","s4","s5","s6","s7"] | joint.new
= quorum_old | 2 | joint.quorum_old
= quorum_new | 3 | joint.quorum_new
@ 3 state
= phase | "joint" | state.phase"#;

/// A majority of the old configuration alone does not decide.
pub const THE_OLD_SIDE_ALONE_DOES_NOT_DECIDE: &'static str = r#"voters drawn only from the configuration being left
> init ["s1","s2","s3"]
> joint ["s3","s4","s5"]
> agree ["s1","s2"]
> agree ["s1","s2","s3"]
@ 3 agree [s1,s2]
= ok | false | agree([s1,s2]).ok
= reason | "old only" | agree([s1,s2]).reason
@ 4 agree [s1,s2,s3]
= ok | false | agree([s1,s2,s3]).ok
= reason | "old only" | agree([s1,s2,s3]).reason"#;

/// A majority of the new configuration alone does not decide.
pub const THE_NEW_SIDE_ALONE_DOES_NOT_DECIDE: &'static str = r#"voters drawn only from the configuration being joined
> init ["s1","s2","s3"]
> joint ["s3","s4","s5"]
> agree ["s4","s5"]
> agree ["s5"]
@ 3 agree [s4,s5]
= ok | false | agree([s4,s5]).ok
= reason | "new only" | agree([s4,s5]).reason
@ 4 agree [s5]
= ok | false | agree([s5]).ok
= reason | "neither" | agree([s5]).reason"#;

/// A majority of both configurations decides.
pub const BOTH_SIDES_TOGETHER_DECIDE: &'static str = r#"voter sets that carry a joint decision
> init ["s1","s2","s3"]
> joint ["s3","s4","s5"]
> agree ["s1","s2","s3","s4"]
> agree ["s1","s3","s4"]
> agree ["s1","s2","s3","s4","s5"]
@ 3 agree
= ok | true | agree([s1,s2,s3,s4]).ok
= reason | "old and new" | agree([s1,s2,s3,s4]).reason
@ 4 agree
= ok | true | agree([s1,s3,s4]).ok
@ 5 agree
= ok | true | agree(everyone).ok"#;

/// Leaving the joint configuration takes two committed steps.
pub const LEAVING_THE_JOINT_PHASE: &'static str = r#"the two steps out of the joint configuration
> init ["s1","s2","s3"]
> joint ["s3","s4","s5"]
> commit-new
> commit-joint
> agree ["s4","s5"]
> commit-new
> state
@ 3 commit-new
= ok | false | commit-new before commit-joint
@ 4 commit-joint
= phase | "new" | commit-joint.phase
= members | ["s3","s4","s5"] | commit-joint.members
@ 5 agree
= ok | true | agree([s4,s5]).ok after commit-joint
@ 6 commit-new
= phase | "stable" | commit-new.phase
@ 7 state
= quorum | 2 | state.quorum"#;

/// A second change while one is in flight is refused.
pub const ONE_CHANGE_AT_A_TIME: &'static str = r#"changes attempted while another is in flight
> init ["s1","s2","s3"]
> add s4
> add s5
> remove s1
> joint ["s9"]
> commit-change
> add s5
@ 2 add s4
= phase | "pending" | add(s4).phase
= quorum | 3 | add(s4).quorum
@ 3 add s5
= ok | false | add(s5) while pending
@ 4 remove s1
= ok | false | remove(s1) while pending
@ 5 joint
= ok | false | joint while pending
@ 4 remove s1
= members | ["s1","s2","s3","s4"] | members after the refusals
@ 6 commit-change
= phase | "stable" | commit-change.phase
@ 7 add s5
= ok | true | add(s5) after the commit"#;

/// Adding a member that is already there is an error.
pub const ADDING_A_MEMBER_TWICE_IS_AN_ERROR: &'static str = r#"adding a member the cluster already has
> init ["s1","s2","s3"]
> add s2
> state
@ 2 add s2
= ok | false | add(s2).ok
= phase | "stable" | add(s2).phase
@ 3 state
= members | ["s1","s2","s3"] | state.members
= quorum | 2 | state.quorum"#;

/// Removing a member that is not there is an error.
pub const REMOVING_A_STRANGER_IS_AN_ERROR: &'static str = r#"removing a member the cluster does not have
> init ["s1","s2","s3"]
> remove s9
> state
> remove s3
@ 2 remove s9
= ok | false | remove(s9).ok
@ 3 state
= members | ["s1","s2","s3"] | state.members
@ 4 remove s3
= ok | true | remove(s3).ok
= quorum | 2 | remove(s3).quorum"#;

/// A single-server change moves the quorum by at most one.
pub const A_SINGLE_SERVER_CHANGE_KEEPS_THE_MAJORITIES_OVERLAPPING: &'static str = r#"the quorum of every cluster size either side of one change
> init ["s1"]
= quorum | 1 | quorum of 1 members
> add x1
= quorum | 2 | quorum of 1 + 1 members
> commit-change
> remove x1
= quorum | 1 | the quorum after removing the added member
> init ["s1","s2"]
= quorum | 2 | quorum of 2 members
> add x2
= quorum | 2 | quorum of 2 + 1 members
> commit-change
> remove x2
= quorum | 2 | the quorum after removing the added member
> init ["s1","s2","s3"]
= quorum | 2 | quorum of 3 members
> add x3
= quorum | 3 | quorum of 3 + 1 members
> commit-change
> remove x3
= quorum | 2 | the quorum after removing the added member
> init ["s1","s2","s3","s4"]
= quorum | 3 | quorum of 4 members
> add x4
= quorum | 3 | quorum of 4 + 1 members
> commit-change
> remove x4
= quorum | 3 | the quorum after removing the added member
> init ["s1","s2","s3","s4","s5"]
= quorum | 3 | quorum of 5 members
> add x5
= quorum | 4 | quorum of 5 + 1 members
> commit-change
> remove x5
= quorum | 3 | the quorum after removing the added member
> init ["s1","s2","s3","s4","s5","s6"]
= quorum | 4 | quorum of 6 members
> add x6
= quorum | 4 | quorum of 6 + 1 members
> commit-change
> remove x6
= quorum | 4 | the quorum after removing the added member
> init ["s1","s2","s3","s4","s5","s6","s7"]
= quorum | 4 | quorum of 7 members
> add x7
= quorum | 5 | quorum of 7 + 1 members
> commit-change
> remove x7
= quorum | 4 | the quorum after removing the added member
> init ["s1","s2","s3","s4","s5","s6","s7","s8"]
= quorum | 5 | quorum of 8 members
> add x8
= quorum | 5 | quorum of 8 + 1 members
> commit-change
> remove x8
= quorum | 5 | the quorum after removing the added member
> init ["s1","s2","s3","s4","s5","s6","s7","s8","s9"]
= quorum | 5 | quorum of 9 members
> add x9
= quorum | 6 | quorum of 9 + 1 members
> commit-change
> remove x9
= quorum | 5 | the quorum after removing the added member"#;

/// What somebody stuck on this stage is told, one after the other.
pub const HINTS: [&'static str; 4] = [
    "Topic `raft-membership`: a configuration is a set of voters, and its quorum is len/2 + 1",
    "In the joint phase a decision needs a majority of C_old *and* a majority of C_new",
    "Leaving the joint phase takes two committed steps: C_old,new, then C_new",
    "One change at a time: refuse a second while the first is still uncommitted",
];

/// The tests of this stage.
pub const TESTS: [TestRow; 11] = [
    (
        "a fresh cluster reports its members and its quorum",
        "a_fresh_cluster_reports_itself",
        false,
        false,
        0,
        0,
        A_FRESH_CLUSTER_REPORTS_ITSELF,
    ),
    (
        "entering the joint configuration names both sides",
        "entering_the_joint_phase",
        false,
        false,
        0,
        0,
        ENTERING_THE_JOINT_PHASE,
    ),
    (
        "a majority of the old configuration alone does not decide",
        "the_old_side_alone_does_not_decide",
        false,
        false,
        0,
        0,
        THE_OLD_SIDE_ALONE_DOES_NOT_DECIDE,
    ),
    (
        "a majority of the new configuration alone does not decide",
        "the_new_side_alone_does_not_decide",
        false,
        false,
        0,
        0,
        THE_NEW_SIDE_ALONE_DOES_NOT_DECIDE,
    ),
    (
        "a majority of both configurations decides",
        "both_sides_together_decide",
        false,
        false,
        0,
        0,
        BOTH_SIDES_TOGETHER_DECIDE,
    ),
    (
        "leaving the joint configuration takes two committed steps",
        "leaving_the_joint_phase",
        false,
        false,
        0,
        0,
        LEAVING_THE_JOINT_PHASE,
    ),
    (
        "a second change while one is in flight is refused",
        "one_change_at_a_time",
        false,
        false,
        0,
        0,
        ONE_CHANGE_AT_A_TIME,
    ),
    (
        "adding a member that is already there is an error",
        "adding_a_member_twice_is_an_error",
        false,
        false,
        0,
        0,
        ADDING_A_MEMBER_TWICE_IS_AN_ERROR,
    ),
    (
        "removing a member that is not there is an error",
        "removing_a_stranger_is_an_error",
        false,
        false,
        0,
        0,
        REMOVING_A_STRANGER_IS_AN_ERROR,
    ),
    (
        "a single-server change moves the quorum by at most one",
        "a_single_server_change_keeps_the_majorities_overlapping",
        true,
        false,
        0,
        0,
        A_SINGLE_SERVER_CHANGE_KEEPS_THE_MAJORITIES_OVERLAPPING,
    ),
    (
        "sixty seeded changes never leave two configurations in flight",
        "a_long_seeded_reconfiguration",
        true,
        false,
        0,
        0,
        "",
    ),
];

/// The worked examples of this stage.
pub const EXAMPLES: [PrimRow; 2] = [
    (
        "Two majorities that never meet",
        "raft-membership",
        r#"init ["s1","s2","s3"]
joint ["s3","s4","s5"]
agree ["s1","s2"]
agree ["s4","s5"]
agree ["s1","s2","s3","s4"]"#,
        "a cluster moving from {s1,s2,s3} to {s3,s4,s5}, and three sets of voters",
        "old only, new only, and finally old and new",
        "{s1,s2} is a majority of the old configuration and {s4,s5} of the new, and the two sets \
         are disjoint. Switch directly from C_old to C_new and both could elect a leader in the \
         same term, which is the one thing Raft promises cannot happen. In the joint phase \
         neither carries the decision, so neither can.",
    ),
    (
        "One change at a time",
        "raft-membership",
        r#"init ["s1","s2","s3"]
add s4
state
add s5
commit-change
add s5
state"#,
        "two single-server additions, the second attempted before the first commits",
        "the second is refused; after commit-change it is accepted",
        "A single-server change is safe on its own because the old and new majorities always \
         overlap — three of four still contains two of three. Two overlapping changes give that \
         up: {s1,s2,s3} to {s1,s2,s3,s4} to {s1,s2,s3,s4,s5} has {s1,s2} deciding for the first \
         and {s3,s4,s5} for the last, and they are disjoint again.",
    ),
];

/// The worked examples of this stage.
pub fn examples() -> (examples: Vec<ExampleSpec>)
    ensures
        described(examples@) == EXAMPLES@.map_values(|row: PrimRow| prim_described(row)),
{
    prim_examples(EXAMPLES)
}

/// What the rows say of this stage's place in the suite.
proof fn lemma_in_place()
    ensures
        rows_written(TESTS@),
        rows_on_topic(EXAMPLES@, HINTS[0]@),
{
    assert(rows_written(TESTS@)) by {
        reveal_strlit("placeholder");
        reveal_strlit("a fresh cluster reports its members and its quorum");
        assert(TESTS@[0].0@.len() == 50);
        reveal_strlit("entering the joint configuration names both sides");
        assert(TESTS@[1].0@.len() == 49);
        reveal_strlit("a majority of the old configuration alone does not decide");
        assert(TESTS@[2].0@.len() == 57);
        reveal_strlit("a majority of the new configuration alone does not decide");
        assert(TESTS@[3].0@.len() == 57);
        reveal_strlit("a majority of both configurations decides");
        assert(TESTS@[4].0@.len() == 41);
        reveal_strlit("leaving the joint configuration takes two committed steps");
        assert(TESTS@[5].0@.len() == 57);
        reveal_strlit("a second change while one is in flight is refused");
        assert(TESTS@[6].0@.len() == 49);
        reveal_strlit("adding a member that is already there is an error");
        assert(TESTS@[7].0@.len() == 49);
        reveal_strlit("removing a member that is not there is an error");
        assert(TESTS@[8].0@.len() == 47);
        reveal_strlit("a single-server change moves the quorum by at most one");
        assert(TESTS@[9].0@.len() == 54);
        reveal_strlit("sixty seeded changes never leave two configurations in flight");
        assert(TESTS@[10].0@.len() == 61);
        assert forall|i: int| 0 <= i < 11 implies (#[trigger] TESTS@[i]).0@ != "placeholder"@ by {
            assert(i == 0 || i == 1 || i == 2 || i == 3 || i == 4 || i == 5 || i == 6 || i == 7 || i == 8 || i == 9 || i == 10);
        }
    }
    assert(names_topic_at(HINTS[0]@, "raft-membership"@, 6)) by {
        reveal_strlit("`");
        reveal_strlit("raft-membership");
        reveal_strlit("Topic `raft-membership`: a configuration is a set of voters, and its quorum is len/2 + 1");
        assert(HINTS[0]@.subrange(6, 23) =~= "`"@ + "raft-membership"@ + "`"@);
    }
    reveal_strlit("init ");
    assert(EXAMPLES@[0].2@.len() >= 5 && EXAMPLES@[0].2@.take(5) =~= "init "@) by {
        reveal_strlit(
            "init [\"s1\",\"s2\",\"s3\"]\n\
             joint [\"s3\",\"s4\",\"s5\"]\n\
             agree [\"s1\",\"s2\"]\n\
             agree [\"s4\",\"s5\"]\n\
             agree [\"s1\",\"s2\",\"s3\",\"s4\"]",
        );
    }
    assert(EXAMPLES@[1].2@.len() >= 5 && EXAMPLES@[1].2@.take(5) =~= "init "@) by {
        reveal_strlit(
            "init [\"s1\",\"s2\",\"s3\"]\n\
             add s4\n\
             state\n\
             add s5\n\
             commit-change\n\
             add s5\n\
             state",
        );
    }
}

/// What stage 60 holds.
pub open spec fn is_stage(s: Stage) -> bool {
    &&& s.number == 60
    &&& s.slug == "raft_membership"
    &&& s.name == "Raft membership change"
    &&& s.ext == false
    &&& s.ladder == Ladder::Algorithms
    &&& s.hints == HINTS
    &&& s.tests@ == tests_of(TESTS@)
    &&& described(s.examples@) == EXAMPLES@.map_values(|row: PrimRow| prim_described(row))
}

/// Stage 60.
pub fn stage() -> (s: Stage)
    ensures
        is_stage(s),
        s.in_place(),
{
    let s = Stage {
        number: 60,
        slug: "raft_membership",
        name: "Raft membership change",
        ext: false,
        ladder: Ladder::Algorithms,
        hints: HINTS,
        examples: examples(),
        tests: tests(TESTS),
    };
    proof {
        reveal(Stage::in_place);
        assert(s.examples@.len() == described(s.examples@).len());
        lemma_in_place();
        assert forall|i: int| 0 <= i < s.examples@.len() implies opens_topic(
            #[trigger] s.examples@[i]@,
            s.hints[0]@,
        ) by {
            assert(described(s.examples@)[i] == prim_described(EXAMPLES@[i]));
        }
    }
    s
}

} // verus!
