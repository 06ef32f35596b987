//! Stage 62: Multi-Paxos and a stable leader.
//!
//! Phase one is run once, for every slot at the same time; a proposer that holds a majority of
//! promises then spends one round trip per slot until somebody preempts it. The state machine
//! applies a contiguous prefix of the slots, so a gap stops it dead.
use rand::rngs::StdRng;
use std::collections::BTreeMap;
use vstd::prelude::*;
use crate::check::{is_bool, is_int, note_seed, seed_note, Check, Verdict};
use crate::draw::{draw_i32, draw_i64, draw_usize};
use crate::examples::{described, prim_described, prim_examples, ExampleSpec, PrimRow};
use crate::stages::{names_topic_at, opens_topic, rows_on_topic, rows_written, tests, tests_of, Ladder, Stage, TestRow};
use crate::json::Json;
use crate::names::NameSet;
use crate::prim::{expect_bool, expect_i64, lookup, whole_field, Misshapen};
use crate::quorum::majority_of;
use crate::steps::{asked, judge_steps, run_judged, wants_of, Asked, Step, Want, Wanted};
use crate::text::{decimal_reads_back, int_text, nat_text, push_int, push_nat, whole_number};

verus! {

/// One slot of the replicated log.
#[verifier::ext_equal]
pub struct Entry {
    pub value: Option<Seq<char>>,
    pub ballot: int,
    pub accepted_by: Set<Seq<char>>,
    pub chosen: bool,
}

impl Entry {
    /// A slot nobody has proposed into.
    pub open spec fn empty() -> Entry {
        Entry { value: None, ballot: 0, accepted_by: Set::empty(), chosen: false }
    }

    /// The slot once `value` has been proposed into it at `ballot`: a chosen slot stays as it is,
    /// and a new ballot starts counting acceptances anew.
    pub open spec fn proposed(self, ballot: int, value: Seq<char>) -> Entry {
        if self.chosen {
            self
        } else {
            Entry {
                value: Some(value),
                ballot,
                accepted_by: if self.ballot == ballot {
                    self.accepted_by
                } else {
                    Set::empty()
                },
                chosen: false,
            }
        }
    }

    /// The slot once `who` has accepted what was proposed into it.
    pub open spec fn accepted(self, who: Seq<char>, majority: nat) -> Entry {
        let accepted_by = self.accepted_by.insert(who);
        Entry { accepted_by, chosen: self.chosen || accepted_by.len() >= majority, ..self }
    }
}

/// The acceptors, the leader's ballot and the slots.
#[verifier::ext_equal]
pub struct Ensemble {
    pub promised: Seq<i64>,
    pub ballot: int,
    pub leader: bool,
    pub ever_leader: bool,
    pub slots: Map<int, Entry>,
}

/// The acceptors that would promise `n`.
pub open spec fn willing(promised: Seq<i64>, n: int) -> Set<int> {
    Set::new(|i: int| 0 <= i < promised.len() && n > promised[i])
}

/// The promises once every acceptor has been shown `n`.
pub open spec fn raised(promised: Seq<i64>, n: i64) -> Seq<i64> {
    promised.map_values(
        |p: i64|
            if n > p {
                n
            } else {
                p
            },
    )
}

/// The highest of some promises, or zero where there is none.
pub open spec fn highest_promise(promised: Seq<i64>) -> i64
    decreases promised.len(),
{
    if promised.len() == 0 {
        0
    } else if promised.len() == 1 || promised.last() >= highest_promise(promised.drop_last()) {
        promised.last()
    } else {
        highest_promise(promised.drop_last())
    }
}

impl Ensemble {
    pub open spec fn fresh(count: nat) -> Ensemble {
        Ensemble {
            promised: Seq::new(count, |i: int| 0i64),
            ballot: 0,
            leader: false,
            ever_leader: false,
            slots: Map::empty(),
        }
    }

    pub open spec fn majority(self) -> nat {
        majority_of(self.promised.len())
    }

    /// Phase one at `n`: a proposer that wins a majority of promises leads at that ballot.
    pub open spec fn prepared(self, n: i64) -> Ensemble {
        let won = willing(self.promised, n as int).len() >= self.majority();
        Ensemble {
            promised: raised(self.promised, n),
            ballot: if won {
                n as int
            } else {
                self.ballot
            },
            leader: self.leader || won,
            ever_leader: self.ever_leader || won,
            ..self
        }
    }

    /// A rival's phase one at `n`: a higher ballot strips leadership and touches no slot.
    pub open spec fn preempted(self, n: i64) -> Ensemble {
        Ensemble {
            promised: raised(self.promised, n),
            leader: self.leader && n <= self.ballot,
            ..self
        }
    }

    /// The slot, or an empty one where nobody has proposed into it.
    pub open spec fn slot(self, slot: int) -> Entry {
        if self.slots.contains_key(slot) {
            self.slots[slot]
        } else {
            Entry::empty()
        }
    }

    /// Only a leader proposes.
    pub open spec fn proposed(self, slot: int, value: Seq<char>) -> Ensemble {
        if self.leader {
            Ensemble {
                slots: self.slots.insert(slot, self.slot(slot).proposed(self.ballot, value)),
                ..self
            }
        } else {
            self
        }
    }

    /// An acceptance of a slot that nobody proposed into means nothing.
    pub open spec fn accepted(self, slot: int, who: Seq<char>) -> Ensemble {
        if self.slots.contains_key(slot) {
            Ensemble {
                slots: self.slots.insert(slot, self.slots[slot].accepted(who, self.majority())),
                ..self
            }
        } else {
            self
        }
    }

    pub open spec fn is_open(self, slot: int) -> bool {
        self.slots.contains_key(slot) && self.slots[slot].value is Some
    }

    pub open spec fn is_chosen(self, slot: int) -> bool {
        self.slots.contains_key(slot) && self.slots[slot].chosen
    }

    /// `k` is the highest chosen slot, or zero where none is.
    pub open spec fn tops(self, k: int) -> bool {
        &&& forall|j: int| #[trigger] self.is_chosen(j) ==> j <= k
        &&& self.is_chosen(k) || (k == 0 && forall|j: int| !#[trigger] self.is_chosen(j))
    }

    /// The slots from 1 up to `k` are chosen and the next one is not.
    pub open spec fn applies(self, k: int) -> bool {
        &&& 0 <= k
        &&& forall|j: int| 1 <= j <= k ==> #[trigger] self.is_chosen(j)
        &&& !self.is_chosen(k + 1)
    }

    /// The slots from 1 up to `k` that are not chosen, in order.
    pub open spec fn holes(self, k: int) -> Seq<i64>
        decreases k,
    {
        if k <= 0 {
            Seq::empty()
        } else if self.is_chosen(k) {
            self.holes(k - 1)
        } else {
            self.holes(k - 1).push(k as i64)
        }
    }

    /// The holes below the highest chosen slot.
    pub open spec fn gaps(self) -> Seq<i64> {
        self.holes(choose|k: int| self.tops(k))
    }

    /// The contiguous prefix the state machine may apply.
    pub open spec fn applied(self) -> int {
        choose|k: int| self.applies(k)
    }

    /// What holds of an ensemble at every moment: a slot that stands in the log has a value, and a
    /// chosen one has the acceptances of a majority.
    pub open spec fn sound(self) -> bool {
        forall|s: int| #[trigger]
            self.slots.contains_key(s) ==> {
                &&& i64::MIN <= s <= i64::MAX
                &&& self.slots[s].value is Some
                &&& self.slots[s].accepted_by.finite()
                &&& self.slots[s].chosen ==> self.slots[s].accepted_by.len() >= self.majority()
            }
    }
}

/// One slot of the replicated log, as the tester tracks it.
#[derive(Debug)]
pub struct Slot {
    value: Option<String>,
    ballot: i64,
    accepted_by: NameSet,
    chosen: bool,
}

impl View for Slot {
    type V = Entry;

    closed spec fn view(&self) -> Entry {
        Entry {
            value: match self.value {
                Some(v) => Some(v@),
                None => None,
            },
            ballot: self.ballot as int,
            accepted_by: self.accepted_by@,
            chosen: self.chosen,
        }
    }
}

/// The acceptors, the leader's ballot and the slots.
pub struct Model {
    promised: Vec<i64>,
    ballot: i64,
    leader: bool,
    ever_leader: bool,
    slots: BTreeMap<i64, Slot>,
}

impl View for Model {
    type V = Ensemble;

    closed spec fn view(&self) -> Ensemble {
        Ensemble {
            promised: self.promised@,
            ballot: self.ballot as int,
            leader: self.leader,
            ever_leader: self.ever_leader,
            slots: Map::new(
                |s: int|
                    i64::MIN <= s <= i64::MAX && self.slots@.contains_key(
                        s as i64,
                    ),
                |s: int| self.slots@[s as i64]@,
            ),
        }
    }
}

impl Model {
    pub fn new(count: usize) -> (m: Model)
        ensures
            m@ == Ensemble::fresh(count as nat),
    {
        let mut promised: Vec<i64> = Vec::new();
        let mut i: usize = 0;
        while i < count
            invariant
                i <= count,
                promised@ == Seq::new(i as nat, |k: int| 0i64),
            decreases count - i,
        {
            promised.push(0);
            assert(promised@ =~= Seq::new((i + 1) as nat, |k: int| 0i64));
            i += 1;
        }
        let m = Model {
            promised,
            ballot: 0,
            leader: false,
            ever_leader: false,
            slots: BTreeMap::new(),
        };
        assert(m@.slots =~= Map::empty());
        m
    }

    pub fn majority(&self) -> (r: usize)
        ensures
            r == self@.majority(),
    {
        self.promised.len() / 2 + 1
    }

    /// Shows every acceptor `n`, and counts those that promise it.
    fn raise(&mut self, n: i64) -> (count: usize)
        ensures
            final(self)@ == (Ensemble { promised: raised(old(self)@.promised, n), ..old(self)@ }),
            count == willing(old(self)@.promised, n as int).len(),
    {
        let mut promised: Vec<i64> = Vec::new();
        let mut count: usize = 0;
        let mut i: usize = 0;
        let ghost mut seen: Set<int> = Set::empty();
        while i < self.promised.len()
            invariant
                i <= self.promised@.len(),
                *self == *old(self),
                promised@ == raised(self.promised@, n).take(i as int),
                count <= i,
                seen.finite(),
                seen.len() == count,
                forall|k: int| #[trigger]
                    seen.contains(k) <==> k < i && willing(self.promised@, n as int).contains(k),
            decreases self.promised@.len() - i,
        {
            let p: i64 = self.promised[i];
            if n > p {
                promised.push(n);
                count += 1;
                proof {
                    seen = seen.insert(i as int);
                }
            } else {
                promised.push(p);
            }
            assert(promised@ =~= raised(self.promised@, n).take(i + 1));
            i += 1;
        }
        assert(promised@ =~= raised(self.promised@, n));
        assert(seen =~= willing(self.promised@, n as int));
        self.promised = promised;
        count
    }

    /// Returns what a prepare must answer: `(promised, leader)`.
    pub fn prepare(&mut self, n: i64) -> (r: (usize, bool))
        ensures
            final(self)@ == old(self)@.prepared(n),
            r.0 == willing(old(self)@.promised, n as int).len(),
            r.1 == final(self)@.leader,
    {
        let majority: usize = self.majority();
        let promised: usize = self.raise(n);
        if promised >= majority {
            self.leader = true;
            self.ever_leader = true;
            self.ballot = n;
        }
        (promised, self.leader)
    }

    /// Returns what a preempt must answer: `(leader, promised_n)`.
    pub fn preempt(&mut self, n: i64) -> (r: (bool, i64))
        ensures
            final(self)@ == old(self)@.preempted(n),
            r.0 == final(self)@.leader,
            r.1 == highest_promise(final(self)@.promised),
    {
        let _ = self.raise(n);
        if n > self.ballot {
            self.leader = false;
        }
        let mut highest: i64 = 0;
        let mut i: usize = 0;
        while i < self.promised.len()
            invariant
                i <= self.promised@.len(),
                highest == highest_promise(self.promised@.take(i as int)),
            decreases self.promised@.len() - i,
        {
            assert(self.promised@.take(i + 1).drop_last() =~= self.promised@.take(i as int));
            if i == 0 || self.promised[i] >= highest {
                highest = self.promised[i];
            }
            i += 1;
        }
        assert(self.promised@.take(i as int) =~= self.promised@);
        (self.leader, highest)
    }

    /// Returns what a propose must answer: `(ok, round_trips)`.
    pub fn propose(&mut self, slot: i64, value: &str) -> (r: (bool, i64))
        ensures
            final(self)@ == old(self)@.proposed(slot as int, value@),
            r.0 == old(self)@.leader,
            r.1 == (if old(self)@.leader {
                1int
            } else {
                2
            }),
    {
        if !self.leader {
            return (false, 2);
        }
        let ballot: i64 = self.ballot;
        let mut entry = match self.slots.remove(&slot) {
            Some(entry) => entry,
            None => Slot { value: None, ballot: 0, accepted_by: NameSet::new(), chosen: false },
        };
        if !entry.chosen {
            if entry.ballot != ballot {
                entry.accepted_by.clear();
                entry.ballot = ballot;
            }
            entry.value = Some(String::from_str(value));
        }
        self.slots.insert(slot, entry);
        assert(self@.slots =~= old(self)@.proposed(slot as int, value@).slots);
        (true, 1)
    }

    /// Returns what an acceptance must answer: `(chosen, count)`.
    pub fn accepted(&mut self, slot: i64, who: &str) -> (r: (bool, usize))
        ensures
            final(self)@ == old(self)@.accepted(slot as int, who@),
            r.0 == final(self)@.is_chosen(slot as int),
            r.1 == (if old(self)@.slots.contains_key(slot as int) {
                final(self)@.slots[slot as int].accepted_by.len()
            } else {
                0
            }),
    {
        let majority: usize = self.majority();
        match self.slots.remove(&slot) {
            None => {
                assert(self.slots@ =~= old(self).slots@);
                assert(self@ =~= old(self)@);
                (false, 0)
            },
            Some(mut s) => {
                s.accepted_by.insert(who);
                let count: usize = s.accepted_by.len();
                if count >= majority {
                    s.chosen = true;
                }
                let chosen = s.chosen;
                self.slots.insert(slot, s);
                assert(self@.slots =~= old(self)@.accepted(slot as int, who@).slots);
                (chosen, count)
            },
        }
    }

    /// True when this slot has a proposal an acceptance could refer to.
    pub fn is_open(&self, slot: i64) -> (r: bool)
        ensures
            r == self@.is_open(slot as int),
    {
        match self.slots.get(&slot) {
            Some(s) => s.value.is_some(),
            None => false,
        }
    }

    /// Whether this slot is settled.
    pub fn is_chosen(&self, slot: i64) -> (r: bool)
        ensures
            r == self@.is_chosen(slot as int),
    {
        match self.slots.get(&slot) {
            Some(s) => s.chosen,
            None => false,
        }
    }

    /// The contiguous prefix the state machine may apply, and the holes below the highest
    /// chosen slot.
    pub fn progress(&self) -> (r: (i64, Vec<i64>))
        ensures
            r.0 == self@.applied(),
            self@.applies(r.0 as int),
            r.1@ == self@.gaps(),
            exists|h: int| #[trigger] self@.tops(h) && r.1@ == self@.holes(h),
    {
        let mut highest: Option<i64> = None;
        for k in it: self.slots.keys()
            invariant
                it.seq().unref().to_set() == self.slots@.dom(),
                highest matches Some(h) ==> self@.is_chosen(h as int),
                forall|j: int|
                    0 <= j < it.index() && self@.is_chosen(*#[trigger] it.seq()[j] as int)
                        ==> highest is Some && *it.seq()[j] <= highest->0,
        {
            if self.is_chosen(*k) {
                let higher = match highest {
                    Some(h) => *k > h,
                    None => true,
                };
                if higher {
                    highest = Some(*k);
                }
            }
        }
        let highest: i64 = match highest {
            Some(h) => h,
            None => 0,
        };
        assert(self@.tops(highest as int));
        let mut index: i64 = 0;
        while index < i64::MAX && self.is_chosen(index + 1)
            invariant
                0 <= index,
                forall|j: int| 1 <= j <= index ==> #[trigger] self@.is_chosen(j),
            decreases i64::MAX - index,
        {
            index += 1;
        }
        assert(self@.applies(index as int));
        let mut gaps: Vec<i64> = Vec::new();
        let mut k: i64 = 0;
        while k < highest
            invariant
                0 <= k,
                k <= highest || k == 0,
                gaps@ == self@.holes(k as int),
            decreases highest - k,
        {
            k += 1;
            if !self.is_chosen(k) {
                gaps.push(k);
            }
        }
        (index, gaps)
    }
}

/// A slot once chosen stays chosen, with the value it was chosen with, whatever happens to the
/// ensemble after.
pub proof fn chosen_slot_is_final(e: Ensemble, slot: int, n: i64, other: int, text: Seq<char>)
    requires
        e.is_chosen(slot),
    ensures
        e.prepared(n).is_chosen(slot),
        e.prepared(n).slots[slot].value == e.slots[slot].value,
        e.preempted(n).is_chosen(slot),
        e.preempted(n).slots[slot].value == e.slots[slot].value,
        e.proposed(other, text).is_chosen(slot),
        e.proposed(other, text).slots[slot].value == e.slots[slot].value,
        e.accepted(other, text).is_chosen(slot),
        e.accepted(other, text).slots[slot].value == e.slots[slot].value,
{
}

/// A higher ballot strips leadership and touches no slot; one that is no higher strips nothing.
pub proof fn preemption_costs_only_leadership(e: Ensemble, n: i64)
    ensures
        e.preempted(n).slots == e.slots,
        n > e.ballot ==> !e.preempted(n).leader,
        n <= e.ballot ==> e.preempted(n).leader == e.leader,
        e.preempted(n).ever_leader == e.ever_leader,
{
}

/// Phase one is run once for every slot: it changes no slot, and a proposer that wins a majority of
/// promises leads at its ballot.
pub proof fn phase_one_covers_every_slot(e: Ensemble, n: i64)
    ensures
        e.prepared(n).slots == e.slots,
        willing(e.promised, n as int).len() >= e.majority() ==> e.prepared(n).leader && e.prepared(
            n,
        ).ballot == n,
        !e.leader && willing(e.promised, n as int).len() < e.majority() ==> !e.prepared(n).leader,
{
}

/// A promise is never taken back.
pub proof fn promises_only_rise(e: Ensemble, n: i64)
    ensures
        e.prepared(n).promised.len() == e.promised.len(),
        forall|i: int|
            0 <= i < e.promised.len() ==> #[trigger] e.prepared(n).promised[i] >= e.promised[i]
                && e.prepared(n).promised[i] >= n,
        e.preempted(n).promised == e.prepared(n).promised,
{
}

/// A proposal under no leader changes nothing.
pub proof fn only_a_leader_proposes(e: Ensemble, slot: int, value: Seq<char>)
    requires
        !e.leader,
    ensures
        e.proposed(slot, value) == e,
{
}

/// An acceptance delivered twice counts once.
pub proof fn repeated_acceptance_counts_once(e: Ensemble, slot: int, who: Seq<char>)
    ensures
        e.accepted(slot, who).accepted(slot, who) == e.accepted(slot, who),
{
    if e.slots.contains_key(slot) {
        let once = e.slots[slot].accepted(who, e.majority());
        assert(once.accepted_by.insert(who) =~= once.accepted_by);
        assert(once.accepted(who, e.majority()) =~= once);
        assert(e.accepted(slot, who).accepted(slot, who).slots =~= e.accepted(slot, who).slots);
    }
}

/// A fresh ensemble is sound, and nothing that happens to a sound one ends that: a chosen slot has
/// a value and the acceptances of a majority.
pub proof fn soundness_is_kept(count: nat, e: Ensemble, n: i64, slot: i64, text: Seq<char>)
    ensures
        Ensemble::fresh(count).sound(),
        e.sound() ==> e.prepared(n).sound(),
        e.sound() ==> e.preempted(n).sound(),
        e.sound() ==> e.proposed(slot as int, text).sound(),
        e.sound() ==> e.accepted(slot as int, text).sound(),
{
    if e.sound() {
        assert forall|s: int| #[trigger]
            e.accepted(slot as int, text).slots.contains_key(s) && e.slots[s].chosen implies e.accepted(
            slot as int,
            text,
        ).slots[s].accepted_by.len() >= e.majority() by {
            assert(e.slots.contains_key(s));
        }
    }
}

/// The applied prefix is what the definition says, and there is only one.
pub proof fn applied_prefix_is_unique(e: Ensemble, k: int)
    requires
        e.applies(k),
    ensures
        e.applied() == k,
{
    let j = choose|j: int| e.applies(j);
    if j < k {
        assert(e.is_chosen(j + 1));
    } else if k < j {
        assert(e.is_chosen(k + 1));
    }
}

/// A gap blocks every slot above it: however many later slots are chosen, the prefix the state
/// machine may apply does not move until the gap itself is filled.
pub proof fn gap_blocks_every_slot_above(e: Ensemble, k: int, slot: int, text: Seq<char>)
    requires
        e.applies(k),
        slot != k + 1,
    ensures
        e.accepted(slot, text).applies(k),
        e.proposed(slot, text).applies(k),
{
    assert forall|j: int| 1 <= j <= k implies #[trigger] e.accepted(slot, text).is_chosen(j) by {
        assert(e.is_chosen(j));
    }
    assert forall|j: int| 1 <= j <= k implies #[trigger] e.proposed(slot, text).is_chosen(j) by {
        assert(e.is_chosen(j));
    }
}

/// Filling the gap releases what stands above it, up to the next gap.
pub proof fn filling_the_gap_moves_the_prefix(e: Ensemble, k: int, who: Seq<char>, next: int)
    requires
        e.applies(k),
        e.accepted(k + 1, who).is_chosen(k + 1),
        e.accepted(k + 1, who).applies(next),
    ensures
        next >= k + 1,
{
    let f = e.accepted(k + 1, who);
    if next < k + 1 {
        assert(!f.is_chosen(next + 1));
        assert(next + 1 <= k ==> e.is_chosen(next + 1));
    }
}

proof fn lemma_holes(e: Ensemble, k: int)
    requires
        k <= i64::MAX,
    ensures
        forall|i: i64| #[trigger] e.holes(k).contains(i) <==> 1 <= i <= k && !e.is_chosen(i as int),
        forall|a: int, b: int| 0 <= a < b < e.holes(k).len() ==> e.holes(k)[a] < e.holes(k)[b],
    decreases k,
{
    if k > 0 {
        lemma_holes(e, k - 1);
        let below = e.holes(k - 1);
        if !e.is_chosen(k) {
            let all = e.holes(k);
            assert forall|i: i64| #[trigger] all.contains(i) <==> 1 <= i <= k && !e.is_chosen(i as int) by {
                if all.contains(i) {
                    let x = choose|x: int| 0 <= x < all.len() && all[x] == i;
                    if x < below.len() {
                        assert(below[x] == i);
                        assert(below.contains(i));
                    }
                }
                if 1 <= i < k && !e.is_chosen(i as int) {
                    assert(below.contains(i));
                    let x = choose|x: int| 0 <= x < below.len() && below[x] == i;
                    assert(all[x] == i);
                }
                if i == k {
                    assert(all[below.len() as int] == i);
                }
            }
            assert forall|a: int, b: int| 0 <= a < b < all.len() implies all[a] < all[b] by {
                assert(below.contains(below[a]));
                if b < below.len() {
                    assert(below[a] < below[b]);
                }
            }
        }
    }
}

/// The gaps are exactly the slots from 1 up to the highest chosen one that are not chosen, each
/// once, in ascending order.
pub proof fn gaps_are_the_unchosen_slots_below_the_highest(e: Ensemble, top: int)
    requires
        e.tops(top),
        top <= i64::MAX,
    ensures
        forall|i: i64| #[trigger] e.gaps().contains(i) <==> 1 <= i <= top && !e.is_chosen(i as int),
        forall|a: int, b: int| 0 <= a < b < e.gaps().len() ==> e.gaps()[a] < e.gaps()[b],
{
    let k = choose|k: int| e.tops(k);
    assert(e.tops(k));
    assert(k == top) by {
        if e.is_chosen(k) {
            assert(k <= top);
        }
        if e.is_chosen(top) {
            assert(top <= k);
        }
    }
    lemma_holes(e, top);
}

/// One thing the program is told or asked.
pub enum Ask {
    Prepare { n: i64 },
    Preempt { n: i64 },
    Propose { slot: int, value: Seq<char> },
    Accepted { slot: int, who: Seq<char> },
    Applied,
}

impl Ask {
    pub open spec fn command(self) -> Seq<char> {
        match self {
            Ask::Prepare { n } => "prepare "@ + int_text(n as int),
            Ask::Preempt { n } => "preempt "@ + int_text(n as int),
            Ask::Propose { slot, value } => "propose "@ + int_text(slot) + " "@ + value,
            Ask::Accepted { slot, who } => "accepted "@ + int_text(slot) + " "@ + who,
            Ask::Applied => "applied"@,
        }
    }
}

impl Ensemble {
    /// The ensemble once something has been told or asked.
    pub open spec fn after(self, a: Ask) -> Ensemble {
        match a {
            Ask::Prepare { n } => self.prepared(n),
            Ask::Preempt { n } => self.preempted(n),
            Ask::Propose { slot, value } => self.proposed(slot, value),
            Ask::Accepted { slot, who } => self.accepted(slot, who),
            Ask::Applied => self,
        }
    }

    /// What the answer has to carry.
    pub open spec fn wants(self, a: Ask) -> Seq<(Seq<char>, Wanted)> {
        let then = self.after(a);
        match a {
            Ask::Prepare { n } => seq![
                ("promised"@, Wanted::Int(willing(self.promised, n as int).len() as int)),
                ("leader"@, Wanted::Bool(then.leader)),
            ],
            Ask::Preempt { n } => seq![
                ("leader"@, Wanted::Bool(then.leader)),
                ("promised_n"@, Wanted::Int(highest_promise(then.promised) as int)),
            ],
            Ask::Propose { .. } => seq![
                ("ok"@, Wanted::Bool(self.leader)),
                (
                    "round_trips"@,
                    Wanted::Int(
                        if self.leader {
                            1
                        } else {
                            2
                        },
                    ),
                ),
            ],
            Ask::Accepted { slot, .. } => seq![
                ("chosen"@, Wanted::Bool(then.is_chosen(slot))),
                (
                    "count"@,
                    Wanted::Int(
                        if self.slots.contains_key(slot) {
                            then.slots[slot].accepted_by.len() as int
                        } else {
                            0
                        },
                    ),
                ),
            ],
            Ask::Applied => seq![
                ("index"@, Wanted::Int(self.applied())),
                ("gaps"@, Wanted::Ints(self.gaps())),
            ],
        }
    }

    /// The ensemble once a run of things has been told and asked.
    pub open spec fn run(self, asks: Seq<Ask>) -> Ensemble
        decreases asks.len(),
    {
        if asks.len() == 0 {
            self
        } else {
            self.run(asks.drop_last()).after(asks.last())
        }
    }

    /// The whole conversation: every command, with what its answer has to carry.
    pub open spec fn answered(self, asks: Seq<Ask>) -> Seq<Asked>
        decreases asks.len(),
    {
        if asks.len() == 0 {
            Seq::empty()
        } else {
            let front = asks.drop_last();
            self.answered(front).push(
                Asked { command: asks.last().command(), wants: self.run(front).wants(asks.last()) },
            )
        }
    }
}

/// The acceptors of a seeded run.
pub const ACCEPTORS: [&'static str; 5] = ["a1", "a2", "a3", "a4", "a5"];

/// The ballot that a run has come to: that of the last prepare, and 1 before the first.
pub open spec fn ballot_of(asks: Seq<Ask>) -> int
    decreases asks.len(),
{
    if asks.len() == 0 {
        1
    } else {
        match asks.last() {
            Ask::Prepare { n } => n as int,
            _ => ballot_of(asks.drop_last()),
        }
    }
}

/// Whether a seeded run may draw this after `before`: ballots near the last one, slots 1 to 6, and
/// acceptances only of a slot that somebody has proposed into.
pub open spec fn drawable(before: Seq<Ask>, a: Ask) -> bool {
    let ballot = ballot_of(before);
    match a {
        Ask::Prepare { n } => ballot + 1 <= n <= ballot + 2,
        Ask::Preempt { n } => ballot - 2 <= n <= ballot + 2,
        Ask::Propose { slot, value } => 1 <= slot <= 6 && exists|k: nat|
            k < 4 && value == "v"@ + #[trigger] nat_text(k),
        Ask::Accepted { slot, who } => 1 <= slot <= 6 && (exists|k: int|
            0 <= k < 5 && who == #[trigger] ACCEPTORS[k]@) && Ensemble::fresh(5).run(before).is_open(
            slot,
        ),
        Ask::Applied => true,
    }
}

/// Everything a run drew was drawable when it was drawn.
pub open spec fn all_drawable(drawn: Seq<Ask>) -> bool {
    forall|k: int| 0 <= k < drawn.len() ==> drawable(drawn.take(k), #[trigger] drawn[k])
}

/// What one round of a seeded run draws: what is to be told or asked, and the numbers in it.
#[derive(Clone, Copy, Debug)]
pub enum Drawn {
    /// A ballot so much above the last one.
    Prepare { up: i64 },
    /// A rival's ballot so far from the last one.
    Preempt { by: i64 },
    /// The slot, and the number of the value.
    Propose { slot: i64, value: u64 },
    /// The slot, and the acceptor's place in the list.
    Accepted { slot: i64, pick: usize },
    Applied,
}

/// The numbers a round may draw.
pub open spec fn in_range(d: Drawn) -> bool {
    match d {
        Drawn::Prepare { up } => 1 <= up < 3,
        Drawn::Preempt { by } => -2 <= by < 3,
        Drawn::Propose { slot, value } => 1 <= slot < 7 && value < 4,
        Drawn::Accepted { slot, pick } => 1 <= slot < 7 && pick < 5,
        Drawn::Applied => true,
    }
}

/// What a round tells or asks after `before`. An acceptance drawn for a slot nobody has proposed into is
/// left out.
pub open spec fn ask_of(before: Seq<Ask>, d: Drawn) -> Option<Ask> {
    match d {
        Drawn::Prepare { up } => Some(Ask::Prepare { n: (ballot_of(before) + up) as i64 }),
        Drawn::Preempt { by } => Some(Ask::Preempt { n: (ballot_of(before) + by) as i64 }),
        Drawn::Propose { slot, value } => Some(
            Ask::Propose { slot: slot as int, value: "v"@ + nat_text(value as nat) },
        ),
        Drawn::Accepted { slot, pick } => if Ensemble::fresh(5).run(before).is_open(slot as int) {
            Some(Ask::Accepted { slot: slot as int, who: ACCEPTORS[pick as int]@ })
        } else {
            None
        },
        Drawn::Applied => Some(Ask::Applied),
    }
}

/// What a run of rounds tells and asks, in order.
pub open spec fn asks_of(draws: Seq<Drawn>) -> Seq<Ask>
    decreases draws.len(),
{
    if draws.len() == 0 {
        Seq::empty()
    } else {
        let before = asks_of(draws.drop_last());
        match ask_of(before, draws.last()) {
            Some(a) => before.push(a),
            None => before,
        }
    }
}

/// Every round drew numbers it may draw.
pub open spec fn all_in_range(draws: Seq<Drawn>) -> bool {
    forall|k: int| 0 <= k < draws.len() ==> in_range(#[trigger] draws[k])
}

/// What some rounds tell and ask, and what the answers have to carry; the applied prefix is asked for at
/// the end.
pub open spec fn conversation(draws: Seq<Drawn>) -> Seq<Asked> {
    Ensemble::fresh(5).answered(asks_of(draws).push(Ask::Applied))
}

/// Seventy rounds, and what the answers have to carry.
pub open spec fn follows_the_rules(steps: Seq<Asked>) -> bool {
    exists|draws: Seq<Drawn>|
        draws.len() == 70 && #[trigger] all_in_range(draws) && steps == conversation(draws)
}

proof fn lemma_one_more(asks: Seq<Ask>, a: Ask)
    ensures
        Ensemble::fresh(5).run(asks.push(a)) == Ensemble::fresh(5).run(asks).after(a),
        Ensemble::fresh(5).answered(asks.push(a)) == Ensemble::fresh(5).answered(asks).push(
            Asked { command: a.command(), wants: Ensemble::fresh(5).run(asks).wants(a) },
        ),
        ballot_of(asks.push(a)) == (match a {
            Ask::Prepare { n } => n as int,
            _ => ballot_of(asks),
        }),
        all_drawable(asks) && drawable(asks, a) ==> all_drawable(asks.push(a)),
{
    assert(asks.push(a).drop_last() =~= asks);
    if all_drawable(asks) && drawable(asks, a) {
        let more = asks.push(a);
        assert forall|k: int| 0 <= k < more.len() implies drawable(more.take(k), #[trigger] more[k]) by {
            if k < asks.len() {
                assert(more.take(k) =~= asks.take(k));
                assert(asks[k] == more[k]);
            } else {
                assert(more.take(k) =~= asks);
            }
        }
    }
}

/// Puts down one command and what its answer has to carry.
fn put(steps: &mut Vec<Step>, command: String, first: (&'static str, Want), second: (&'static str, Want))
    ensures
        asked(final(steps)@) == asked(old(steps)@).push(
            Asked { command: command@, wants: seq![(first.0@, first.1@), (second.0@, second.1@)] },
        ),
{
    let ghost before = steps@;
    let ghost wanted = seq![(first.0@, first.1@), (second.0@, second.1@)];
    let mut wants: Vec<(&'static str, Want)> = Vec::new();
    wants.push(first);
    wants.push(second);
    assert(wants_of(wants@) =~= wanted);
    steps.push(Step { command, wants });
    assert(asked(steps@) =~= asked(before).push(Asked { command: command@, wants: wanted }));
}

impl Model {
    /// What an acceptor, a proposer or a learner must answer to a command with a number.
    fn ask_number(&mut self, steps: &mut Vec<Step>, n: i64, rival: bool)
        ensures
            ({
                let a = if rival {
                    Ask::Preempt { n }
                } else {
                    Ask::Prepare { n }
                };
                &&& final(self)@ == old(self)@.after(a)
                &&& asked(final(steps)@) == asked(old(steps)@).push(
                    Asked { command: a.command(), wants: old(self)@.wants(a) },
                )
            }),
    {
        if rival {
            let (leader, promised_n) = self.preempt(n);
            let mut command = String::from_str("preempt ");
            push_int(&mut command, n);
            put(
                steps,
                command,
                ("leader", Want::Bool(leader)),
                ("promised_n", Want::Int(promised_n as i128)),
            );
        } else {
            let (promised, leader) = self.prepare(n);
            let mut command = String::from_str("prepare ");
            push_int(&mut command, n);
            put(
                steps,
                command,
                ("promised", Want::Int(promised as i128)),
                ("leader", Want::Bool(leader)),
            );
        }
    }

    fn ask_propose(&mut self, steps: &mut Vec<Step>, slot: i64, value: &str)
        ensures
            final(self)@ == old(self)@.after(Ask::Propose { slot: slot as int, value: value@ }),
            asked(final(steps)@) == asked(old(steps)@).push(
                Asked {
                    command: Ask::Propose { slot: slot as int, value: value@ }.command(),
                    wants: old(self)@.wants(Ask::Propose { slot: slot as int, value: value@ }),
                },
            ),
    {
        let (ok, round_trips) = self.propose(slot, value);
        let mut command = String::from_str("propose ");
        push_int(&mut command, slot);
        command.append(" ");
        command.append(value);
        put(
            steps,
            command,
            ("ok", Want::Bool(ok)),
            ("round_trips", Want::Int(round_trips as i128)),
        );
    }

    fn ask_accepted(&mut self, steps: &mut Vec<Step>, slot: i64, who: &str)
        ensures
            final(self)@ == old(self)@.after(Ask::Accepted { slot: slot as int, who: who@ }),
            asked(final(steps)@) == asked(old(steps)@).push(
                Asked {
                    command: Ask::Accepted { slot: slot as int, who: who@ }.command(),
                    wants: old(self)@.wants(Ask::Accepted { slot: slot as int, who: who@ }),
                },
            ),
    {
        let (chosen, count) = self.accepted(slot, who);
        let mut command = String::from_str("accepted ");
        push_int(&mut command, slot);
        command.append(" ");
        command.append(who);
        put(
            steps,
            command,
            ("chosen", Want::Bool(chosen)),
            ("count", Want::Int(count as i128)),
        );
    }

    fn ask_applied(&self, steps: &mut Vec<Step>)
        ensures
            asked(final(steps)@) == asked(old(steps)@).push(
                Asked { command: Ask::Applied.command(), wants: self@.wants(Ask::Applied) },
            ),
    {
        let (index, gaps) = self.progress();
        put(
            steps,
            String::from_str("applied"),
            ("index", Want::Int(index as i128)),
            ("gaps", Want::Ints(gaps)),
        );
    }
}

proof fn lemma_ballot_bound(draws: Seq<Drawn>)
    requires
        all_in_range(draws),
        2 * draws.len() + 4 <= i64::MAX,
    ensures
        1 <= ballot_of(asks_of(draws)) <= 1 + 2 * draws.len(),
    decreases draws.len(),
{
    if draws.len() > 0 {
        let front = draws.drop_last();
        assert(all_in_range(front)) by {
            assert forall|k: int| 0 <= k < front.len() implies in_range(#[trigger] front[k]) by {
                assert(front[k] == draws[k]);
            }
        }
        lemma_ballot_bound(front);
        assert(in_range(draws[draws.len() - 1]));
        if let Some(a) = ask_of(asks_of(front), draws.last()) {
            lemma_one_more(asks_of(front), a);
        }
    }
}

/// Whatever the rounds drew, everything they tell and ask was drawable when it was drawn, and there is at
/// most one thing for each round.
pub proof fn every_ask_was_drawable(draws: Seq<Drawn>)
    requires
        all_in_range(draws),
        2 * draws.len() + 4 <= i64::MAX,
    ensures
        all_drawable(asks_of(draws)),
        asks_of(draws).len() <= draws.len(),
    decreases draws.len(),
{
    if draws.len() > 0 {
        let front = draws.drop_last();
        assert(all_in_range(front)) by {
            assert forall|k: int| 0 <= k < front.len() implies in_range(#[trigger] front[k]) by {
                assert(front[k] == draws[k]);
            }
        }
        every_ask_was_drawable(front);
        lemma_ballot_bound(front);
        assert(in_range(draws[draws.len() - 1]));
        if let Some(a) = ask_of(asks_of(front), draws.last()) {
            match draws.last() {
                Drawn::Propose { slot, value } => {
                    assert(a->value == "v"@ + nat_text(value as nat));
                },
                Drawn::Accepted { slot, pick } => {
                    assert(a->who == ACCEPTORS[pick as int]@);
                },
                _ => {},
            }
            assert(drawable(asks_of(front), a));
            lemma_one_more(asks_of(front), a);
        }
    }
}

/// The conversation that some rounds make: every command, each with what its answer has to carry.
pub fn plan_of(draws: &Vec<Drawn>) -> (steps: Vec<Step>)
    requires
        all_in_range(draws@),
        2 * draws@.len() + 4 <= i64::MAX,
    ensures
        asked(steps@) == conversation(draws@),
{
    let names = ACCEPTORS;
    let mut model = Model::new(5);
    let mut steps: Vec<Step> = Vec::new();
    let ghost mut told: Seq<Ask> = Seq::empty();
    let mut ballot: i64 = 1;
    let mut i: usize = 0;
    assert(asked(steps@) =~= Seq::<Asked>::empty());
    assert(draws@.take(0) =~= Seq::empty());
    while i < draws.len()
        invariant
            i <= draws@.len(),
            all_in_range(draws@),
            2 * draws@.len() + 4 <= i64::MAX,
            names@ == ACCEPTORS@,
            told == asks_of(draws@.take(i as int)),
            model@ == Ensemble::fresh(5).run(told),
            asked(steps@) == Ensemble::fresh(5).answered(told),
            ballot == ballot_of(told),
        decreases draws@.len() - i,
    {
        proof {
            let front = draws@.take(i as int);
            assert(draws@.take(i + 1).drop_last() =~= front);
            assert(all_in_range(front)) by {
                assert forall|k: int| 0 <= k < front.len() implies in_range(#[trigger] front[k]) by {
                    assert(front[k] == draws@[k]);
                }
            }
            lemma_ballot_bound(front);
            assert(in_range(draws@[i as int]));
        }
        match draws[i] {
            Drawn::Prepare { up } => {
                ballot = ballot + up;
                model.ask_number(&mut steps, ballot, false);
                proof {
                    lemma_one_more(told, Ask::Prepare { n: ballot });
                    told = told.push(Ask::Prepare { n: ballot });
                }
            },
            Drawn::Preempt { by } => {
                let n: i64 = ballot + by;
                model.ask_number(&mut steps, n, true);
                proof {
                    lemma_one_more(told, Ask::Preempt { n });
                    told = told.push(Ask::Preempt { n });
                }
            },
            Drawn::Propose { slot, value: k } => {
                let mut value = String::from_str("v");
                push_nat(&mut value, k);
                model.ask_propose(&mut steps, slot, value.as_str());
                proof {
                    let ask = Ask::Propose { slot: slot as int, value: value@ };
                    lemma_one_more(told, ask);
                    told = told.push(ask);
                }
            },
            Drawn::Accepted { slot, pick } => {
                let who = names[pick];
                if model.is_open(slot) {
                    model.ask_accepted(&mut steps, slot, who);
                    proof {
                        let ask = Ask::Accepted { slot: slot as int, who: who@ };
                        lemma_one_more(told, ask);
                        told = told.push(ask);
                    }
                }
            },
            Drawn::Applied => {
                model.ask_applied(&mut steps);
                proof {
                    lemma_one_more(told, Ask::Applied);
                    told = told.push(Ask::Applied);
                }
            },
        }
        i += 1;
    }
    assert(draws@.take(i as int) =~= draws@);
    model.ask_applied(&mut steps);
    proof {
        lemma_one_more(told, Ask::Applied);
    }
    steps
}

/// Draws one round.
fn draw_round(rng: &mut StdRng) -> (d: Drawn)
    ensures
        in_range(d),
{
    match draw_i32(rng, 0, 5) {
        0 => Drawn::Prepare { up: draw_i64(rng, 1, 3) },
        1 => Drawn::Preempt { by: draw_i64(rng, -2, 3) },
        2 => {
            let slot: i64 = draw_i64(rng, 1, 7);
            let value: i32 = draw_i32(rng, 0, 4);
            Drawn::Propose { slot, value: value as u64 }
        },
        3 => {
            let slot: i64 = draw_i64(rng, 1, 7);
            let pick: usize = draw_usize(rng, 0, 5);
            Drawn::Accepted { slot, pick }
        },
        _ => Drawn::Applied,
    }
}

/// Seventy seeded rounds of ballots, proposals and acceptances, each with what the answer has to carry.
/// Which rounds a generator draws is left to it.
pub fn plan(rng: &mut StdRng) -> (steps: Vec<Step>)
    ensures
        follows_the_rules(asked(steps@)),
{
    let mut draws: Vec<Drawn> = Vec::new();
    let mut i: usize = 0;
    while i < 70
        invariant
            i <= 70,
            draws@.len() == i,
            all_in_range(draws@),
        decreases 70 - i,
    {
        draws.push(draw_round(rng));
        i += 1;
    }
    plan_of(&draws)
}

/// Holds the answers to a seeded run that have come so far against it.
pub fn judge_run(seed: u64, steps: &Vec<Step>, answers: &Vec<Json>) -> (r: Result<Check, Misshapen>)
    requires
        answers@.len() <= steps@.len(),
    ensures
        run_judged(
            r,
            "seventy seeded events replayed against the tester's own rules"@,
            seed_note(seed as nat, steps@.len(), "commands"@),
            steps@,
            answers@,
        ),
{
    let note = note_seed(seed, steps.len(), "commands");
    judge_steps(
        "seventy seeded events replayed against the tester's own rules",
        note.as_str(),
        steps,
        answers,
    )
}

/// The round trips that `n` answers from `from` on report together, where every one can be read.
pub open spec fn trips(answers: Seq<Json>, from: int, n: int) -> Option<int>
    decreases n,
{
    if n <= 0 {
        Some(0)
    } else {
        match (trips(answers, from, n - 1), whole_field(answers[from + n - 1], "round_trips"@)) {
            (Some(before), Some(more)) => Some(before + more),
            _ => None,
        }
    }
}

/// Every one of `n` answers from `from` on says that its proposal succeeded.
pub open spec fn all_ok(answers: Seq<Json>, from: int, n: int) -> bool {
    forall|k: int|
        0 <= k < n ==> lookup(#[trigger] answers[from + k], "ok"@) == Some(Json::Bool(true))
}

/// The field that an answer to a proposal lacks: how many round trips it took comes first, and then, under
/// a leader, whether it succeeded.
pub open spec fn lacking(answer: Json, under_leader: bool) -> Option<Seq<char>> {
    if whole_field(answer, "round_trips"@) is None {
        Some("round_trips"@)
    } else if under_leader && !(lookup(answer, "ok"@) matches Some(Json::Bool(_))) {
        Some("ok"@)
    } else {
        None
    }
}

/// The field that the first of `n` answers from `from` on that lacks one lacks.
pub open spec fn first_lacking(answers: Seq<Json>, from: int, under_leader: bool, n: int) -> Option<Seq<char>>
    decreases n,
{
    if n <= 0 {
        None
    } else {
        match first_lacking(answers, from, under_leader, n - 1) {
            Some(field) => Some(field),
            None => lacking(answers[from + n - 1], under_leader),
        }
    }
}

/// What cannot be read first in the answers to the whole conversation.
pub open spec fn cost_lacking(answers: Seq<Json>) -> Option<Seq<char>> {
    match first_lacking(answers, 1, false, 10) {
        Some(field) => Some(field),
        None => first_lacking(answers, 12, true, 10),
    }
}

proof fn lemma_lacking_stays(answers: Seq<Json>, from: int, under_leader: bool, k: int, n: int)
    requires
        0 <= k <= n,
        first_lacking(answers, from, under_leader, k) is Some,
    ensures
        first_lacking(answers, from, under_leader, n) == first_lacking(answers, from, under_leader, k),
    decreases n - k,
{
    if k < n {
        lemma_lacking_stays(answers, from, under_leader, k, n - 1);
    }
}

/// Adds up the round trips that ten answers from `from` on report; with `under_leader`, also says
/// whether every proposal succeeded.
fn add_up(answers: &Vec<Json>, from: usize, under_leader: bool) -> (r: Result<(i128, bool), Misshapen>)
    requires
        from + 10 <= answers@.len(),
    ensures
        r matches Ok(sum) ==> {
            &&& first_lacking(answers@, from as int, under_leader, 10) is None
            &&& trips(answers@, from as int, 10) == Some(sum.0 as int)
            &&& under_leader ==> sum.1 == all_ok(answers@, from as int, 10)
        },
        r matches Err(e) ==> {
            &&& e.command@ == "propose"@
            &&& first_lacking(answers@, from as int, under_leader, 10) == Some(e.field@)
        },
{
    let held: usize = answers.len();
    let mut sum: i128 = 0;
    let mut every = true;
    let mut k: usize = 0;
    while k < 10
        invariant
            k <= 10,
            from + 10 <= answers@.len() == held,
            first_lacking(answers@, from as int, under_leader, k as int) is None,
            trips(answers@, from as int, k as int) == Some(sum as int),
            under_leader ==> every == all_ok(answers@, from as int, k as int),
            -(k * 0x8000_0000_0000_0000) <= sum <= k * 0x8000_0000_0000_0000,
        decreases 10 - k,
    {
        let answer = &answers[from + k];
        match expect_i64(answer, "propose", "round_trips") {
            Ok(n) => {
                sum = sum + n as i128;
            },
            Err(e) => {
                proof {
                    lemma_lacking_stays(answers@, from as int, under_leader, k + 1, 10);
                }
                return Err(e);
            },
        }
        if under_leader {
            match expect_bool(answer, "propose", "ok") {
                Ok(ok) => {
                    proof {
                        assert(lookup(answers@[from + k], "ok"@) == Some(Json::Bool(ok)));
                    }
                    every = every && ok;
                },
                Err(e) => {
                    proof {
                        lemma_lacking_stays(answers@, from as int, under_leader, k + 1, 10);
                    }
                    return Err(e);
                },
            }
        }
        k += 1;
    }
    Ok((sum, every))
}

/// Holds the cost of ten proposals without a leader against that of ten with one. The answers are
/// those to the whole conversation, the two that start its halves among them.
pub fn judge_cost(answers: &Vec<Json>) -> (r: Result<Check, Misshapen>)
    requires
        answers@.len() == 22,
    ensures
        r matches Ok(c) ==> cost_lacking(answers@) is None && c@ == Verdict::plain(
            "the cost of ten proposals with and without leadership"@,
            seq![
                is_int("round trips without a leader"@, 20, trips(answers@, 1, 10)->0),
                is_int("round trips with a leader"@, 10, trips(answers@, 12, 10)->0),
                is_bool(
                    "every proposal under the leader succeeded"@,
                    true,
                    all_ok(answers@, 12, 10),
                ),
            ],
            Seq::empty(),
        ),
        r matches Err(e) ==> e.command@ == "propose"@ && cost_lacking(answers@) == Some(e.field@),
{
    let without = match add_up(answers, 1, false) {
        Ok(sum) => sum.0,
        Err(e) => {
            return Err(e);
        },
    };
    let (with_one, every) = match add_up(answers, 12, true) {
        Ok(sum) => sum,
        Err(e) => {
            return Err(e);
        },
    };
    let mut c = Check::new("the cost of ten proposals with and without leadership");
    c.eq_int("round trips without a leader", 20, without);
    c.eq_int("round trips with a leader", 10, with_one);
    c.eq_bool("every proposal under the leader succeeded", true, every);
    assert(c@.rulings =~= seq![
        is_int("round trips without a leader"@, 20, trips(answers@, 1, 10)->0),
        is_int("round trips with a leader"@, 10, trips(answers@, 12, 10)->0),
        is_bool("every proposal under the leader succeeded"@, true, all_ok(answers@, 12, 10)),
    ]);
    Ok(c)
}

/// A stable leader halves the cost: a proposal takes two round trips where nobody leads and one where
/// somebody does, and proposing does not cost the leader its lead.
pub proof fn leadership_halves_the_cost(e: Ensemble, slot: int, value: Seq<char>)
    ensures
        !e.leader ==> e.wants(Ask::Propose { slot, value })[1] == ("round_trips"@, Wanted::Int(2)),
        e.leader ==> e.wants(Ask::Propose { slot, value })[1] == ("round_trips"@, Wanted::Int(1)),
        e.after(Ask::Propose { slot, value }).leader == e.leader,
{
}

/// A leader's proposal into a slot that is not chosen stands there at the leader's ballot, and nobody has
/// accepted it where the slot stood at another ballot; a proposal made again at the same ballot keeps who
/// has accepted. A chosen slot is left as it is, and so is every other slot and everything else.
pub proof fn proposal_starts_its_ballot_anew(e: Ensemble, slot: int, value: Seq<char>, other: int)
    requires
        e.leader,
    ensures
        e.proposed(slot, value).slots.contains_key(slot),
        !e.is_chosen(slot) ==> {
            &&& e.proposed(slot, value).slots[slot].value == Some(value)
            &&& e.proposed(slot, value).slots[slot].ballot == e.ballot
            &&& !e.proposed(slot, value).slots[slot].chosen
        },
        !e.is_chosen(slot) && e.slot(slot).ballot != e.ballot ==> e.proposed(slot, value).slots[slot].accepted_by
            == Set::<Seq<char>>::empty(),
        !e.is_chosen(slot) && e.slots.contains_key(slot) && e.slots[slot].ballot == e.ballot ==> e.proposed(
            slot,
            value,
        ).slots[slot].accepted_by == e.slots[slot].accepted_by,
        !e.slots.contains_key(slot) ==> e.proposed(slot, value).slots[slot].accepted_by == Set::<
            Seq<char>,
        >::empty(),
        e.is_chosen(slot) ==> e.proposed(slot, value).slots[slot] == e.slots[slot],
        other != slot ==> {
            &&& e.proposed(slot, value).slots.contains_key(other) == e.slots.contains_key(other)
            &&& e.slots.contains_key(other) ==> e.proposed(slot, value).slots[other] == e.slots[other]
        },
        e.proposed(slot, value).promised == e.promised,
        e.proposed(slot, value).ballot == e.ballot,
        e.proposed(slot, value).leader,
        e.proposed(slot, value).ever_leader == e.ever_leader,
{
}

/// An acceptance of a slot that stands in the log counts the acceptor in, once, and nobody else; the slot
/// is chosen from the moment on that more than half of the acceptors are counted. It changes neither what
/// was proposed nor any other slot, and an acceptance of a slot nobody proposed into changes nothing.
pub proof fn acceptance_counts_its_acceptor(e: Ensemble, slot: int, who: Seq<char>, other: int, name: Seq<char>)
    ensures
        e.slots.contains_key(slot) ==> {
            &&& e.accepted(slot, who).slots.contains_key(slot)
            &&& e.accepted(slot, who).slots[slot].accepted_by.contains(name) <==> name == who
                || e.slots[slot].accepted_by.contains(name)
            &&& e.accepted(slot, who).slots[slot].value == e.slots[slot].value
            &&& e.accepted(slot, who).slots[slot].ballot == e.slots[slot].ballot
            &&& e.accepted(slot, who).slots[slot].chosen <==> e.slots[slot].chosen || 2 * e.accepted(
                slot,
                who,
            ).slots[slot].accepted_by.len() > e.promised.len()
        },
        !e.slots.contains_key(slot) ==> e.accepted(slot, who) == e,
        other != slot ==> {
            &&& e.accepted(slot, who).slots.contains_key(other) == e.slots.contains_key(other)
            &&& e.slots.contains_key(other) ==> e.accepted(slot, who).slots[other] == e.slots[other]
        },
        e.accepted(slot, who).promised == e.promised,
        e.accepted(slot, who).ballot == e.ballot,
        e.accepted(slot, who).leader == e.leader,
        e.accepted(slot, who).ever_leader == e.ever_leader,
{
}

/// After `asks`, the ask at `i` was a leader's proposal into the slot at that ballot.
pub open spec fn proposed_at(count: nat, asks: Seq<Ask>, i: int, slot: int, ballot: int) -> bool {
    &&& 0 <= i < asks.len()
    &&& asks[i] matches Ask::Propose { slot: s, .. } && s == slot
    &&& Ensemble::fresh(count).run(asks.take(i)).leader
    &&& Ensemble::fresh(count).run(asks.take(i)).ballot == ballot
}

/// Somebody proposed into the slot at that ballot.
pub open spec fn was_proposed(count: nat, asks: Seq<Ask>, slot: int, ballot: int) -> bool {
    exists|i: int| #[trigger] proposed_at(count, asks, i, slot, ballot)
}

/// The acceptor accepted the slot at `j`, after a proposal into it at that ballot.
pub open spec fn accepted_at(count: nat, asks: Seq<Ask>, j: int, slot: int, who: Seq<char>, ballot: int) -> bool {
    &&& 0 <= j < asks.len()
    &&& asks[j] == (Ask::Accepted { slot, who })
    &&& was_proposed(count, asks.take(j), slot, ballot)
}

/// The acceptor accepted the slot after a proposal into it at that ballot.
pub open spec fn has_accepted(count: nat, asks: Seq<Ask>, slot: int, who: Seq<char>, ballot: int) -> bool {
    exists|j: int| #[trigger] accepted_at(count, asks, j, slot, who, ballot)
}

proof fn lemma_more_is_said(count: nat, asks: Seq<Ask>, a: Ask, slot: int, who: Seq<char>, ballot: int)
    ensures
        was_proposed(count, asks, slot, ballot) ==> was_proposed(count, asks.push(a), slot, ballot),
        has_accepted(count, asks, slot, who, ballot) ==> has_accepted(count, asks.push(a), slot, who, ballot),
{
    let more = asks.push(a);
    if was_proposed(count, asks, slot, ballot) {
        let i = choose|i: int| #[trigger] proposed_at(count, asks, i, slot, ballot);
        assert(more.take(i) =~= asks.take(i));
        assert(proposed_at(count, more, i, slot, ballot));
    }
    if has_accepted(count, asks, slot, who, ballot) {
        let j = choose|j: int| #[trigger] accepted_at(count, asks, j, slot, who, ballot);
        assert(more.take(j) =~= asks.take(j));
        assert(accepted_at(count, more, j, slot, who, ballot));
    }
}

/// Whatever a run has come to, every acceptance that is counted for a slot was given after a proposal into
/// it at the ballot that stands there now, and a chosen slot has such acceptances of more than half of the
/// acceptors: an acceptance of an earlier ballot is never counted for a later one.
pub proof fn acceptances_are_of_the_standing_ballot(count: nat, asks: Seq<Ask>, slot: int)
    ensures
        Ensemble::fresh(count).run(asks).slots.contains_key(slot) ==> {
            let entry = Ensemble::fresh(count).run(asks).slots[slot];
            &&& was_proposed(count, asks, slot, entry.ballot)
            &&& entry.accepted_by.finite()
            &&& forall|who: Seq<char>| #[trigger]
                entry.accepted_by.contains(who) ==> has_accepted(count, asks, slot, who, entry.ballot)
            &&& entry.chosen ==> 2 * entry.accepted_by.len() > count
        },
        Ensemble::fresh(count).run(asks).promised.len() == count,
    decreases asks.len(),
{
    if asks.len() > 0 {
        let front = asks.drop_last();
        let a = asks.last();
        assert(front.push(a) =~= asks);
        acceptances_are_of_the_standing_ballot(count, front, slot);
        let before = Ensemble::fresh(count).run(front);
        let after = Ensemble::fresh(count).run(asks);
        assert(after == before.after(a));
        if after.slots.contains_key(slot) {
            let entry = after.slots[slot];
            assert(asks.take(front.len() as int) =~= front);
            if before.slots.contains_key(slot) {
                lemma_more_is_said(count, front, a, slot, Seq::empty(), before.slots[slot].ballot);
            }
            if a matches Ask::Propose { slot: s, .. } && s == slot && before.leader {
                assert(proposed_at(count, asks, front.len() as int, slot, before.ballot));
            }
            assert forall|who: Seq<char>| #[trigger] entry.accepted_by.contains(who) implies has_accepted(
                count,
                asks,
                slot,
                who,
                entry.ballot,
            ) by {
                lemma_more_is_said(count, front, a, slot, who, entry.ballot);
                if !(before.slots.contains_key(slot) && before.slots[slot].accepted_by.contains(who)) {
                    assert(a == (Ask::Accepted { slot, who }));
                    assert(was_proposed(count, front, slot, entry.ballot));
                    assert(accepted_at(count, asks, front.len() as int, slot, who, entry.ballot));
                }
            }
        }
    }
}

/// An acceptor promises a ballot exactly where it is above what it has promised, and then promises that
/// and nothing else; every other acceptor keeps its promise.
pub proof fn promise_goes_to_a_higher_ballot_only(e: Ensemble, n: i64, i: int)
    requires
        0 <= i < e.promised.len(),
    ensures
        willing(e.promised, n as int).contains(i) <==> n > e.promised[i],
        n > e.promised[i] ==> e.prepared(n).promised[i] == n,
        n <= e.promised[i] ==> e.prepared(n).promised[i] == e.promised[i],
        forall|k: int| #[trigger] willing(e.promised, n as int).contains(k) ==> 0 <= k < e.promised.len(),
{
}

/// A proposer leads from the moment on that more than half of the acceptors promised its ballot, and at that
/// ballot; with fewer promises neither its ballot nor whether it leads changes.
pub proof fn leadership_is_won_by_a_majority(e: Ensemble, n: i64)
    ensures
        2 * willing(e.promised, n as int).len() > e.promised.len() ==> {
            &&& e.prepared(n).leader
            &&& e.prepared(n).ever_leader
            &&& e.prepared(n).ballot == n
        },
        2 * willing(e.promised, n as int).len() <= e.promised.len() ==> {
            &&& e.prepared(n).leader == e.leader
            &&& e.prepared(n).ever_leader == e.ever_leader
            &&& e.prepared(n).ballot == e.ballot
        },
        e.prepared(n).slots == e.slots,
        e.preempted(n).ballot == e.ballot,
        2 * e.majority() > e.promised.len(),
        2 * (e.majority() - 1) <= e.promised.len(),
{
}

/// The highest promise is one of the promises, and none is above it.
pub proof fn highest_promise_is_the_highest(promised: Seq<i64>, i: int)
    ensures
        0 <= i < promised.len() ==> promised[i] <= highest_promise(promised),
        promised.len() > 0 ==> promised.contains(highest_promise(promised)),
        promised.len() == 0 ==> highest_promise(promised) == 0,
    decreases promised.len(),
{
    if promised.len() > 0 {
        let front = promised.drop_last();
        highest_promise_is_the_highest(front, i);
        assert(promised[promised.len() - 1] == promised.last());
        if promised.len() > 1 {
            assert(front.contains(highest_promise(front)));
            let k = choose|k: int| 0 <= k < front.len() && front[k] == highest_promise(front);
            assert(promised[k] == front[k]);
        }
        if 0 <= i < front.len() {
            assert(front[i] == promised[i]);
        }
    }
}

/// An ensemble starts with so many acceptors that have promised nothing, no leader and no slot.
pub proof fn ensemble_starts_with_nothing(count: nat, i: int, slot: int)
    ensures
        Ensemble::fresh(count).promised.len() == count,
        0 <= i < count ==> Ensemble::fresh(count).promised[i] == 0,
        Ensemble::fresh(count).ballot == 0,
        !Ensemble::fresh(count).leader,
        !Ensemble::fresh(count).ever_leader,
        !Ensemble::fresh(count).slots.contains_key(slot),
{
}

proof fn lemma_prefix_exists(e: Ensemble, k: int)
    requires
        e.sound(),
        0 <= k <= i64::MAX,
        forall|j: int| 1 <= j <= k ==> #[trigger] e.is_chosen(j),
    ensures
        exists|j: int| e.applies(j),
    decreases i64::MAX - k,
{
    if e.is_chosen(k + 1) {
        assert(e.slots.contains_key(k + 1));
        lemma_prefix_exists(e, k + 1);
    } else {
        assert(e.applies(k));
    }
}

/// What the state machine may apply ends right below the first slot that is not chosen, whatever is chosen
/// above it.
pub proof fn prefix_ends_below_the_first_open_slot(e: Ensemble, k: int)
    requires
        e.sound(),
    ensures
        e.applied() >= 0,
        1 <= k <= e.applied() ==> e.slots.contains_key(k) && e.slots[k].chosen,
        k == e.applied() + 1 ==> !(e.slots.contains_key(k) && e.slots[k].chosen),
{
    lemma_prefix_exists(e, 0);
    assert(e.applies(e.applied()));
    if 1 <= k <= e.applied() {
        assert(e.is_chosen(k));
    }
}

/// A slot is a gap exactly where it is not chosen and a higher one is; gaps are given in ascending order.
pub proof fn gap_is_an_open_slot_below_a_chosen_one(e: Ensemble, i: i64, top: int)
    requires
        e.sound(),
        top == 0 || (e.slots.contains_key(top) && e.slots[top].chosen),
        forall|j: int| #[trigger] e.slots.contains_key(j) && e.slots[j].chosen ==> j <= top,
        top == 0 && !e.is_chosen(0) ==> forall|j: int| !#[trigger] e.is_chosen(j),
        top <= i64::MAX,
    ensures
        e.gaps().contains(i) <==> 1 <= i <= top && !(e.slots.contains_key(i as int) && e.slots[i as int].chosen),
        forall|a: int, b: int| 0 <= a < b < e.gaps().len() ==> e.gaps()[a] < e.gaps()[b],
{
    assert(e.tops(top));
    gaps_are_the_unchosen_slots_below_the_highest(e, top);
}

/// A slot is open from the first proposal into it on.
pub proof fn slot_is_open_once_proposed(e: Ensemble, slot: int, value: Seq<char>)
    ensures
        e.sound() ==> (e.is_open(slot) <==> e.slots.contains_key(slot)),
        e.sound() && e.leader ==> e.proposed(slot, value).is_open(slot),
        e.is_chosen(slot) <==> e.slots.contains_key(slot) && e.slots[slot].chosen,
{
}

/// A run is made one ask after the other, and each ask has its own effect.
pub proof fn asks_happen_one_after_the_other(e: Ensemble, asks: Seq<Ask>, a: Ask, n: i64, slot: int, text: Seq<char>)
    ensures
        e.run(Seq::empty()) == e,
        e.run(asks.push(a)) == e.run(asks).after(a),
        e.after((Ask::Prepare { n })) == e.prepared(n),
        e.after((Ask::Preempt { n })) == e.preempted(n),
        e.after((Ask::Propose { slot, value: text })) == e.proposed(slot, text),
        e.after((Ask::Accepted { slot, who: text })) == e.accepted(slot, text),
        e.after(Ask::Applied) == e,
{
    assert(asks.push(a).drop_last() =~= asks);
}

/// What the answers have to carry, in terms of what the ask changes: how many promised and whether the
/// proposer leads then; whether it still leads and what the highest promise is then; whether a leader
/// proposed, in one round trip rather than two; whether the slot is chosen then and by how many.
pub proof fn answers_tell_what_changed(e: Ensemble, n: i64, slot: int, text: Seq<char>)
    ensures
        e.wants((Ask::Prepare { n })) == seq![
            ("promised"@, Wanted::Int(willing(e.promised, n as int).len() as int)),
            ("leader"@, Wanted::Bool(e.prepared(n).leader)),
        ],
        e.wants((Ask::Preempt { n })) == seq![
            ("leader"@, Wanted::Bool(e.preempted(n).leader)),
            ("promised_n"@, Wanted::Int(highest_promise(e.preempted(n).promised) as int)),
        ],
        e.leader ==> e.wants((Ask::Propose { slot, value: text })) == seq![
            ("ok"@, Wanted::Bool(true)),
            ("round_trips"@, Wanted::Int(1)),
        ],
        !e.leader ==> e.wants((Ask::Propose { slot, value: text })) == seq![
            ("ok"@, Wanted::Bool(false)),
            ("round_trips"@, Wanted::Int(2)),
        ],
        e.slots.contains_key(slot) ==> e.wants((Ask::Accepted { slot, who: text })) == seq![
            ("chosen"@, Wanted::Bool(e.accepted(slot, text).slots[slot].chosen)),
            ("count"@, Wanted::Int(e.slots[slot].accepted_by.insert(text).len() as int)),
        ],
        !e.slots.contains_key(slot) ==> e.wants((Ask::Accepted { slot, who: text })) == seq![
            ("chosen"@, Wanted::Bool(false)),
            ("count"@, Wanted::Int(0)),
        ],
        e.wants(Ask::Applied) == seq![
            ("index"@, Wanted::Int(e.applied())),
            ("gaps"@, Wanted::Ints(e.gaps())),
        ],
{
}

/// Every ask of a conversation is answered by the ensemble that the asks before it have made.
pub proof fn every_answer_is_of_its_moment(e: Ensemble, asks: Seq<Ask>, k: int)
    requires
        0 <= k < asks.len(),
    ensures
        e.answered(asks).len() == asks.len(),
        e.answered(asks)[k].command == asks[k].command(),
        e.answered(asks)[k].wants == e.run(asks.take(k)).wants(asks[k]),
    decreases asks.len(),
{
    let front = asks.drop_last();
    if k < front.len() {
        every_answer_is_of_its_moment(e, front, k);
        assert(front.take(k) =~= asks.take(k));
    } else {
        assert(asks.take(k) =~= front);
        if front.len() > 0 {
            every_answer_is_of_its_moment(e, front, 0);
        } else {
            assert(e.answered(front).len() == 0);
        }
    }
}

/// What an ask says reads back as the ask.
#[verifier::spinoff_prover]
#[verifier::rlimit(40)]
pub proof fn commands_read_back(n: i64, slot: i64, text: Seq<char>)
    ensures
        (Ask::Prepare { n }).command().take(8) == "prepare "@,
        whole_number((Ask::Prepare { n }).command().skip(8)) == Some(n),
        (Ask::Preempt { n }).command().take(8) == "preempt "@,
        whole_number((Ask::Preempt { n }).command().skip(8)) == Some(n),
        (Ask::Propose { slot: slot as int, value: text }).command() == "propose "@ + int_text(slot as int) + " "@
            + text,
        (Ask::Accepted { slot: slot as int, who: text }).command() == "accepted "@ + int_text(slot as int)
            + " "@ + text,
        Ask::Applied.command() == "applied"@,
{
    reveal_strlit("prepare ");
    reveal_strlit("preempt ");
    decimal_reads_back(n);
    assert((Ask::Prepare { n }).command().skip(8) =~= int_text(n as int));
    assert((Ask::Prepare { n }).command().take(8) =~= "prepare "@);
    assert((Ask::Preempt { n }).command().skip(8) =~= int_text(n as int));
    assert((Ask::Preempt { n }).command().take(8) =~= "preempt "@);
}

/// What a round draws is told or asked: ballots are counted from the last prepare on, or from 1, and an
/// acceptance is left out exactly where nobody has proposed into its slot.
pub proof fn draws_become_asks(before: Seq<Ask>, a: Ask, up: i64, slot: i64, value: u64, pick: usize)
    requires
        i64::MIN <= ballot_of(before) + up <= i64::MAX,
        pick < 5,
    ensures
        ballot_of(Seq::empty()) == 1,
        ballot_of(before.push(a)) == (match a {
            Ask::Prepare { n } => n as int,
            _ => ballot_of(before),
        }),
        ask_of(before, (Drawn::Prepare { up })) matches Some((Ask::Prepare { n })) && n == ballot_of(before) + up,
        ask_of(before, (Drawn::Preempt { by: up })) matches Some((Ask::Preempt { n })) && n == ballot_of(before) + up,
        ask_of(before, (Drawn::Propose { slot, value })) == Some(
            (Ask::Propose { slot: slot as int, value: "v"@ + nat_text(value as nat) }),
        ),
        ask_of(before, (Drawn::Accepted { slot, pick })) is Some <==> Ensemble::fresh(5).run(before).is_open(
            slot as int,
        ),
        ask_of(before, (Drawn::Accepted { slot, pick })) is Some ==> ask_of(before, (Drawn::Accepted { slot, pick }))
            == Some((Ask::Accepted { slot: slot as int, who: "a"@ + nat_text((pick + 1) as nat) })),
        ask_of(before, Drawn::Applied) == Some(Ask::Applied),
{
    assert(before.push(a).drop_last() =~= before);
    reveal_strlit("a");
    reveal_strlit("a1");
    reveal_strlit("a2");
    reveal_strlit("a3");
    reveal_strlit("a4");
    reveal_strlit("a5");
    let k = (pick + 1) as nat;
    assert(nat_text(k) =~= seq![crate::text::digit(k as int)]);
    assert(ACCEPTORS[pick as int]@ =~= "a"@ + nat_text(k));
}

/// The asks of a run are those of its rounds, in order, with the applied prefix asked for at the end.
pub proof fn rounds_are_asked_in_order(draws: Seq<Drawn>, d: Drawn)
    ensures
        asks_of(Seq::empty()) == Seq::<Ask>::empty(),
        ask_of(asks_of(draws), d) matches Some(a) ==> asks_of(draws.push(d)) == asks_of(draws).push(a),
        ask_of(asks_of(draws), d) is None ==> asks_of(draws.push(d)) == asks_of(draws),
        conversation(draws) == Ensemble::fresh(5).answered(asks_of(draws).push(Ask::Applied)),
{
    assert(draws.push(d).drop_last() =~= draws);
}

/// The numbers a round may draw: a ballot one or two up, a rival's at most two away, slots one to six, four
/// values and five acceptors.
pub proof fn rounds_draw_near_numbers(slot: i64, value: u64, pick: usize, by: i64)
    ensures
        in_range((Drawn::Prepare { up: by })) <==> by == 1 || by == 2,
        in_range((Drawn::Preempt { by })) <==> -2 <= by <= 2,
        in_range((Drawn::Propose { slot, value })) <==> 1 <= slot <= 6 && value <= 3,
        in_range((Drawn::Accepted { slot, pick })) <==> 1 <= slot <= 6 && pick <= 4,
        in_range(Drawn::Applied),
{
}

/// The topic the program is asked about.
pub const TOPIC: &'static str = "multi-paxos";

/// A fresh instance has no leader and every slot needs phase one.
pub const A_FRESH_INSTANCE_HAS_NO_LEADER: &'static str = r#"an instance where phase one has never run
> init 3
> phase 1
> phase 4242
> state
@ 1 init 3
= acceptors | 3 | init.acceptors
= majority | 2 | init.majority
@ 2 phase 1
= phase | "prepare" | phase(1).phase
= reason | "no leader" | phase(1).reason
@ 3 phase 4242
= phase | "prepare" | phase(4242).phase
@ 4 state
= leader | false | state.leader
= n | 0 | state.n"#;

/// A proposal without leadership costs two round trips.
pub const A_PROPOSAL_WITHOUT_LEADERSHIP_COSTS_TWO: &'static str = r#"a proposal made without a majority of promises
> init 3
> propose 1 alpha
> chosen 1
@ 2 propose 1 alpha
= ok | false | propose.ok
= round_trips | 2 | propose.round_trips
= phase | "prepare" | propose.phase
@ 3 chosen 1
= chosen | false | chosen(1).chosen"#;

/// One prepare turns every slot into a single accept round.
pub const ONE_PREPARE_COVERS_EVERY_SLOT: &'static str = r#"every slot's phase after a single prepare
> init 5
> prepare 4
> phase 1
@ 3 phase
~ phase | "" | -
~ reason | "" | -
> phase 2
@ 4 phase
~ phase | "" | -
~ reason | "" | -
> phase 7
@ 5 phase
~ phase | "" | -
~ reason | "" | -
> phase 99
@ 6 phase
~ phase | "" | -
~ reason | "" | -
> phase 100000
@ 7 phase
~ phase | "" | -
~ reason | "" | -
@ 2 prepare 4
= promised | 5 | prepare(4).promised
= leader | true | prepare(4).leader
@ 3 phase
= phase | "accept" | phase(1).phase
= reason | "stable leader" | phase(1).reason
@ 4 phase
= phase | "accept" | phase(2).phase
= reason | "stable leader" | phase(2).reason
@ 5 phase
= phase | "accept" | phase(7).phase
= reason | "stable leader" | phase(7).reason
@ 6 phase
= phase | "accept" | phase(99).phase
= reason | "stable leader" | phase(99).reason
@ 7 phase
= phase | "accept" | phase(100000).phase
= reason | "stable leader" | phase(100000).reason"#;

/// A stable leader commits in one round trip.
pub const A_STABLE_LEADER_COMMITS_IN_ONE: &'static str = r#"two proposals made by an established leader
> init 3
> prepare 2
> propose 1 alpha
> propose 2 beta
@ 3 propose 1 alpha
= ok | true | propose(1).ok
= round_trips | 1 | propose(1).round_trips
= phase | "accept" | propose(1).phase
@ 4 propose 2 beta
= round_trips | 1 | propose(2).round_trips"#;

/// A prepare that wins no majority grants no leadership.
pub const A_LOSING_PREPARE_GRANTS_NOTHING: &'static str = r#"a prepare at a ballot the acceptors have moved past
> init 5
> preempt 9
> prepare 4
> phase 1
> prepare 11
@ 3 prepare 4
= promised | 0 | prepare(4).promised
= leader | false | prepare(4).leader
@ 4 phase 1
= phase | "prepare" | phase(1).phase
@ 5 prepare 11
= promised | 5 | prepare(11).promised
= leader | true | prepare(11).leader"#;

/// A slot is chosen once a majority has accepted it.
pub const A_MAJORITY_CHOOSES_A_SLOT: &'static str = r#"acceptances arriving for one slot of five acceptors
> init 5
> prepare 1
> propose 7 gamma
> accepted 7 a1
> accepted 7 a2
> accepted 7 a3
> chosen 7
@ 4 accepted 7 a1
= chosen | false | after one, chosen
@ 5 accepted 7 a2
= chosen | false | after two, chosen
@ 6 accepted 7 a3
= chosen | true | after three, chosen
= count | 3 | after three, count
@ 7 chosen 7
= value | "gamma" | chosen(7).value"#;

/// An acceptor accepting the same slot twice counts once.
pub const A_DUPLICATE_ACCEPTANCE_COUNTS_ONCE: &'static str = "one acceptor's acceptance retransmitted three times
> init 5
> prepare 1
> propose 1 alpha
> accepted 1 a1
& count | 0 | -
> accepted 1 a1
& count | 0 | -
> accepted 1 a1
& count | 0 | -
# - | [1,1,1] | the three counts
> chosen 1
= chosen | false | chosen(1).chosen";

/// A higher ballot sends the leader back to phase one.
pub const PREEMPTION_RESTORES_PHASE_ONE: &'static str = r#"a rival ballot arriving at the acceptors
> init 3
> prepare 5
> preempt 7
> phase 1
> propose 2 beta
@ 3 preempt 7
= leader | false | preempt(7).leader
= promised_n | 7 | preempt(7).promised_n
@ 4 phase 1
= phase | "prepare" | phase(1).phase
= reason | "preempted" | phase(1).reason
@ 5 propose 2 beta
= round_trips | 2 | propose.round_trips
= ok | false | propose.ok"#;

/// A lower ballot does not preempt the leader.
pub const A_LOWER_BALLOT_DOES_NOT_PREEMPT: &'static str = r#"a rival whose ballot is behind the leader's
> init 3
> prepare 5
> preempt 3
> phase 1
> propose 1 alpha
@ 3 preempt 3
= leader | true | preempt(3).leader
= promised_n | 5 | preempt(3).promised_n
@ 4 phase 1
= phase | "accept" | phase(1).phase
@ 5 propose 1 alpha
= round_trips | 1 | propose.round_trips"#;

/// Preemption does not un-choose what was already chosen.
pub const PREEMPTION_DOES_NOT_UNCHOOSE: &'static str = r#"an acceptance that was in flight when leadership changed
> init 3
> prepare 5
> propose 1 alpha
> accepted 1 a1
> preempt 9
> accepted 1 a2
> chosen 1
@ 6 accepted 1 a2
= chosen | true | the late acceptance's chosen
= count | 2 | the late acceptance's count
@ 7 chosen 1
= chosen | true | chosen(1).chosen
= value | "alpha" | chosen(1).value"#;

/// The state machine cannot apply past a gap.
pub const A_GAP_BLOCKS_THE_STATE_MACHINE: &'static str = "slots 1, 2 and 4 chosen, and then the hole filled
> init 3
> prepare 1
> propose 1 alpha
> accepted 1 a1
> accepted 1 a2
> propose 2 beta
> accepted 2 a1
> accepted 2 a2
> propose 4 delta
> accepted 4 a1
> accepted 4 a2
> applied
~ gaps | [0] | -
> propose 3 gamma
> accepted 3 a1
> accepted 3 a2
> applied
~ gaps | [0] | -
@ 12 applied
= index | 2 | applied.index with a gap
% gaps | [3] | applied.gaps
@ 16 applied
= index | 4 | applied.index once filled
% gaps | [] | applied.gaps once filled";

/// Re-proposing a chosen slot cannot change its value.
pub const A_CHOSEN_SLOT_KEEPS_ITS_VALUE: &'static str = r#"a leader proposing a second value into a settled slot
> init 3
> prepare 2
> propose 1 alpha
> accepted 1 a1
> accepted 1 a2
> propose 1 omega
> chosen 1
@ 6 propose 1 omega
= ok | true | propose.ok
@ 7 chosen 1
= value | "alpha" | chosen(1).value"#;

/// Ten slots under one leader cost ten round trips, not twenty.
pub const LEADERSHIP_HALVES_THE_COST: &'static str = "the cost of ten proposals with and without leadership
> init 5
> propose 1 v1
> propose 2 v2
> propose 3 v3
> propose 4 v4
> propose 5 v5
> propose 6 v6
> propose 7 v7
> propose 8 v8
> propose 9 v9
> propose 10 v10
> prepare 3
> propose 1 v1
> propose 2 v2
> propose 3 v3
> propose 4 v4
> propose 5 v5
> propose 6 v6
> propose 7 v7
> propose 8 v8
> propose 9 v9
> propose 10 v10";

/// What somebody stuck on this stage is told, one after the other.
pub const HINTS: [&'static str; 4] = [
    "Topic `multi-paxos`: one ballot, every slot — phase one is run once, not per slot",
    "While a proposer holds a majority of promises, every proposal costs one round trip; without \
     them it costs two",
    "A higher ballot strips leadership but never un-chooses a slot that was settled",
    "The state machine applies a contiguous prefix: a gap blocks every slot above it",
];

/// The tests of this stage.
pub const TESTS: [TestRow; 14] = [
    (
        "a fresh instance has no leader and every slot needs phase one",
        "a_fresh_instance_has_no_leader",
        false,
        false,
        0,
        0,
        A_FRESH_INSTANCE_HAS_NO_LEADER,
    ),
    (
        "a proposal without leadership costs two round trips",
        "a_proposal_without_leadership_costs_two",
        false,
        false,
        0,
        0,
        A_PROPOSAL_WITHOUT_LEADERSHIP_COSTS_TWO,
    ),
    (
        "one prepare turns every slot into a single accept round",
        "one_prepare_covers_every_slot",
        false,
        false,
        0,
        0,
        ONE_PREPARE_COVERS_EVERY_SLOT,
    ),
    (
        "a stable leader commits in one round trip",
        "a_stable_leader_commits_in_one",
        false,
        false,
        0,
        0,
        A_STABLE_LEADER_COMMITS_IN_ONE,
    ),
    (
        "a prepare that wins no majority grants no leadership",
        "a_losing_prepare_grants_nothing",
        false,
        false,
        0,
        0,
        A_LOSING_PREPARE_GRANTS_NOTHING,
    ),
    (
        "a slot is chosen once a majority has accepted it",
        "a_majority_chooses_a_slot",
        false,
        false,
        0,
        0,
        A_MAJORITY_CHOOSES_A_SLOT,
    ),
    (
        "an acceptor accepting the same slot twice counts once",
        "a_duplicate_acceptance_counts_once",
        false,
        false,
        0,
        0,
        A_DUPLICATE_ACCEPTANCE_COUNTS_ONCE,
    ),
    (
        "a higher ballot sends the leader back to phase one",
        "preemption_restores_phase_one",
        false,
        false,
        0,
        0,
        PREEMPTION_RESTORES_PHASE_ONE,
    ),
    (
        "a lower ballot does not preempt the leader",
        "a_lower_ballot_does_not_preempt",
        false,
        false,
        0,
        0,
        A_LOWER_BALLOT_DOES_NOT_PREEMPT,
    ),
    (
        "preemption does not un-choose what was already chosen",
        "preemption_does_not_unchoose",
        false,
        false,
        0,
        0,
        PREEMPTION_DOES_NOT_UNCHOOSE,
    ),
    (
        "the state machine cannot apply past a gap",
        "a_gap_blocks_the_state_machine",
        false,
        false,
        0,
        0,
        A_GAP_BLOCKS_THE_STATE_MACHINE,
    ),
    (
        "re-proposing a chosen slot cannot change its value",
        "a_chosen_slot_keeps_its_value",
        false,
        false,
        0,
        0,
        A_CHOSEN_SLOT_KEEPS_ITS_VALUE,
    ),
    (
        "ten slots under one leader cost ten round trips, not twenty",
        "leadership_halves_the_cost",
        true,
        false,
        0,
        0,
        LEADERSHIP_HALVES_THE_COST,
    ),
    (
        "seventy seeded ballots and acceptances match the tester's own replay",
        "a_long_seeded_run",
        true,
        false,
        0,
        0,
        "",
    ),
];

/// The worked examples of this stage.
pub const EXAMPLES: [PrimRow; 3] = [
    (
        "One prepare, then slot after slot",
        "multi-paxos",
        "init 3
phase 1
propose 1 alpha
prepare 4
phase 1
phase 900
propose 1 alpha",
        "a proposal before phase one, then a prepare, then the same proposal again",
        "two round trips and a refusal, then `accept` for every slot and one round trip",
        "`phase 900` is the point of the whole stage: a single prepare at ballot 4 covers slots \
         nobody has thought of yet, because the promise an acceptor makes is about the ballot, \
         not about any one decree. That is what turns Paxos from two round trips per value into \
         one.",
    ),
    (
        "A gap the state machine cannot cross",
        "multi-paxos",
        "init 3
prepare 1
propose 1 alpha
accepted 1 a1
accepted 1 a2
propose 3 gamma
accepted 3 a1
accepted 3 a2
applied",
        "slots 1 and 3 chosen, with slot 2 left open",
        "`applied` is 1, with slot 2 named as the gap",
        "Multi-Paxos chooses slots independently, so holes are normal and a leader has to go \
         back and fill them before anything above can be applied. Raft's AppendEntries \
         consistency check removes the problem by making a hole impossible in the first place, \
         which is most of why Raft is easier to hold in your head.",
    ),
    (
        "Preemption doubles the cost again",
        "multi-paxos",
        "init 3
prepare 5
propose 1 alpha
preempt 9
phase 2
propose 2 beta",
        "a leader at ballot 5, then a rival's ballot 9, then another proposal",
        "leadership lost, the slot back in `prepare`, and two round trips again",
        "Nothing was corrupted and nothing was un-chosen — the only casualty is latency. A \
         system whose leader is preempted repeatedly is correct and slow, which is exactly the \
         failure mode that makes leader stability a production concern rather than a \
         theoretical one.",
    ),
];

/// The worked examples of this stage.
pub fn examples() -> (examples: Vec<ExampleSpec>)
    ensures
        described(examples@) == EXAMPLES@.map_values(|row: PrimRow| prim_described(row)),
{
    prim_examples(EXAMPLES)
}

/// What the rows say of this stage's place in the suite.
proof fn lemma_in_place()
    ensures
        rows_written(TESTS@),
        rows_on_topic(EXAMPLES@, HINTS[0]@),
{
    assert(rows_written(TESTS@)) by {
        reveal_strlit("placeholder");
        reveal_strlit("a fresh instance has no leader and every slot needs phase one");
        assert(TESTS@[0].0@.len() == 61);
        reveal_strlit("a proposal without leadership costs two round trips");
        assert(TESTS@[1].0@.len() == 51);
        reveal_strlit("one prepare turns every slot into a single accept round");
        assert(TESTS@[2].0@.len() == 55);
        reveal_strlit("a stable leader commits in one round trip");
        assert(TESTS@[3].0@.len() == 41);
        reveal_strlit("a prepare that wins no majority grants no leadership");
        assert(TESTS@[4].0@.len() == 52);
        reveal_strlit("a slot is chosen once a majority has accepted it");
        assert(TESTS@[5].0@.len() == 48);
        reveal_strlit("an acceptor accepting the same slot twice counts once");
        assert(TESTS@[6].0@.len() == 53);
        reveal_strlit("a higher ballot sends the leader back to phase one");
        assert(TESTS@[7].0@.len() == 50);
        reveal_strlit("a lower ballot does not preempt the leader");
        assert(TESTS@[8].0@.len() == 42);
        reveal_strlit("preemption does not un-choose what was already chosen");
        assert(TESTS@[9].0@.len() == 53);
        reveal_strlit("the state machine cannot apply past a gap");
        assert(TESTS@[10].0@.len() == 41);
        reveal_strlit("re-proposing a chosen slot cannot change its value");
        assert(TESTS@[11].0@.len() == 50);
        reveal_strlit("ten slots under one leader cost ten round trips, not twenty");
        assert(TESTS@[12].0@.len() == 59);
        reveal_strlit("seventy seeded ballots and acceptances match the tester's own replay");
        assert(TESTS@[13].0@.len() == 68);
        assert forall|i: int| 0 <= i < 14 implies (#[trigger] TESTS@[i]).0@ != "placeholder"@ by {
            assert(i == 0 || i == 1 || i == 2 || i == 3 || i == 4 || i == 5 || i == 6 || i == 7 || i == 8 || i == 9 || i == 10 || i == 11 || i == 12 || i == 13);
        }
    }
    assert(names_topic_at(HINTS[0]@, "multi-paxos"@, 6)) by {
        reveal_strlit("`");
        reveal_strlit("multi-paxos");
        reveal_strlit("Topic `multi-paxos`: one ballot, every slot — phase one is run once, not per slot");
        assert(HINTS[0]@.subrange(6, 19) =~= "`"@ + "multi-paxos"@ + "`"@);
    }
    reveal_strlit("init ");
    assert(EXAMPLES@[0].2@.len() >= 5 && EXAMPLES@[0].2@.take(5) =~= "init "@) by {
        reveal_strlit(
            "init 3\n\
             phase 1\n\
             propose 1 alpha\n\
             prepare 4\n\
             phase 1\n\
             phase 900\n\
             propose 1 alpha",
        );
    }
    assert(EXAMPLES@[1].2@.len() >= 5 && EXAMPLES@[1].2@.take(5) =~= "init "@) by {
        reveal_strlit(
            "init 3\n\
             prepare 1\n\
             propose 1 alpha\n\
             accepted 1 a1\n\
             accepted 1 a2\n\
             propose 3 gamma\n\
             accepted 3 a1\n\
             accepted 3 a2\n\
             applied",
        );
    }
    assert(EXAMPLES@[2].2@.len() >= 5 && EXAMPLES@[2].2@.take(5) =~= "init "@) by {
        reveal_strlit(
            "init 3\n\
             prepare 5\n\
             propose 1 alpha\n\
             preempt 9\n\
             phase 2\n\
             propose 2 beta",
        );
    }
}

/// What stage 62 holds.
pub open spec fn is_stage(s: Stage) -> bool {
    &&& s.number == 62
    &&& s.slug == "multi_paxos"
    &&& s.name == "Multi-Paxos and a stable leader"
    &&& s.ext == false
    &&& s.ladder == Ladder::Algorithms
    &&& s.hints == HINTS
    &&& s.tests@ == tests_of(TESTS@)
    &&& described(s.examples@) == EXAMPLES@.map_values(|row: PrimRow| prim_described(row))
}

/// Stage 62.
pub fn stage() -> (s: Stage)
    ensures
        is_stage(s),
        s.in_place(),
{
    let s = Stage {
        number: 62,
        slug: "multi_paxos",
        name: "Multi-Paxos and a stable leader",
        ext: false,
        ladder: Ladder::Algorithms,
        hints: HINTS,
        examples: examples(),
        tests: tests(TESTS),
    };
    proof {
        reveal(Stage::in_place);
        assert(s.examples@.len() == described(s.examples@).len());
        lemma_in_place();
        assert forall|i: int| 0 <= i < s.examples@.len() implies opens_topic(
            #[trigger] s.examples@[i]@,
            s.hints[0]@,
        ) by {
            assert(described(s.examples@)[i] == prim_described(EXAMPLES@[i]));
        }
    }
    s
}

/// Round trips add up, answer by answer; an answer without its number leaves no sum.
pub proof fn round_trips_add_up(answers: Seq<Json>, from: int, n: int)
    requires
        0 <= n,
    ensures
        trips(answers, from, 0) == Some(0int),
        trips(answers, from, n + 1) == (match (trips(answers, from, n), whole_field(answers[from + n], "round_trips"@)) {
            (Some(before), Some(more)) => Some(before + more),
            _ => None,
        }),
        whole_field(answers[from + n], "round_trips"@) is None ==> trips(answers, from, n + 1) is None,
        (forall|k: int| 0 <= k < n ==> whole_field(#[trigger] answers[from + k], "round_trips"@) == Some(2i64))
            ==> trips(answers, from, n) == Some(2 * n),
        (forall|k: int| 0 <= k < n ==> whole_field(#[trigger] answers[from + k], "round_trips"@) == Some(1i64))
            ==> trips(answers, from, n) == Some(n),
    decreases n,
{
    if n > 0 {
        round_trips_add_up(answers, from, n - 1);
        assert(answers[from + (n - 1)] == answers[from + n - 1]);
    }
}

/// Under a leader everything succeeded where every answer says so.
pub proof fn everything_succeeded_where_every_answer_says_so(answers: Seq<Json>, from: int, n: int)
    requires
        0 <= n,
    ensures
        all_ok(answers, from, 0),
        all_ok(answers, from, n + 1) <==> all_ok(answers, from, n) && lookup(answers[from + n], "ok"@) == Some(
            Json::Bool(true),
        ),
{
    if all_ok(answers, from, n + 1) {
        assert(lookup(answers[from + n], "ok"@) == Some(Json::Bool(true)));
    }
}

/// An answer lacks what it does not say: the number of round trips first, and under a leader whether it
/// succeeded; the first answer that lacks something is the one complained of, the ten without a leader first.
pub proof fn first_lack_is_complained_of(answers: Seq<Json>, answer: Json, from: int, under_leader: bool, n: int)
    requires
        0 <= n,
    ensures
        lacking(answer, under_leader) == Some("round_trips"@) <==> whole_field(answer, "round_trips"@) is None,
        lacking(answer, false) is None <==> whole_field(answer, "round_trips"@) is Some,
        lacking(answer, true) is None <==> whole_field(answer, "round_trips"@) is Some && lookup(answer, "ok"@) matches Some(
            Json::Bool(_),
        ),
        whole_field(answer, "round_trips"@) is Some && under_leader && !(lookup(answer, "ok"@) matches Some(
            Json::Bool(_),
        )) ==> lacking(answer, under_leader) == Some("ok"@),
        first_lacking(answers, from, under_leader, 0) is None,
        first_lacking(answers, from, under_leader, n) is Some ==> first_lacking(answers, from, under_leader, n + 1)
            == first_lacking(answers, from, under_leader, n),
        first_lacking(answers, from, under_leader, n) is None ==> first_lacking(answers, from, under_leader, n + 1)
            == lacking(answers[from + n], under_leader),
        first_lacking(answers, 1, false, 10) is Some ==> cost_lacking(answers) == first_lacking(answers, 1, false, 10),
        first_lacking(answers, 1, false, 10) is None ==> cost_lacking(answers) == first_lacking(answers, 12, true, 10),
{
    reveal_strlit("round_trips");
    reveal_strlit("ok");
    assert("round_trips"@.len() == 11 && "ok"@.len() == 2);
}

} // verus!
