//! Stage 63: Two-phase commit.
//!
//! A coordinator asks every participant whether it can commit; one that answers yes has given up
//! its right to abort and must wait. A coordinator that dies between the last vote and the
//! broadcast leaves every prepared participant holding locks it cannot release.
use rand::rngs::StdRng;
use vstd::prelude::*;
use crate::check::{
    all_hold, is_text, is_that, lemma_until_failure_rest, lemma_until_failure_step, name_trial, note_seed,
    run_passes_where_every_step_does, seed_note, texts_fact, trial_path, until_failure, Check, Ruling, Truth,
    Verdict,
};
use crate::draw::{draw_ratio, draw_usize};
use crate::examples::{described, prim_described, prim_examples, ExampleSpec, PrimRow};
use crate::stages::{names_topic_at, opens_topic, rows_on_topic, rows_written, tests, tests_of, Ladder, Stage, TestRow};
use crate::text::{joined, name_list_text, nat_text, push_nat, put_text, same_text, texts};

verus! {

/// Where a participant stands.
#[derive(Clone, Copy, Debug, PartialEq, Eq, Structural)]
pub enum State {
    Prepared,
    Aborted,
    Committed,
}

impl State {
    /// The state as a `p-state` answer spells it.
    pub open spec fn text(self) -> Seq<char> {
        match self {
            State::Prepared => "prepared"@,
            State::Aborted => "aborted"@,
            State::Committed => "committed"@,
        }
    }

    /// The state as a `p-state` answer spells it.
    pub fn name(self) -> (s: &'static str)
        ensures
            s@ == self.text(),
    {
        match self {
            State::Prepared => "prepared",
            State::Aborted => "aborted",
            State::Committed => "committed",
        }
    }
}

/// How one seeded trial is driven: who voted what, in which order, and what the
/// coordinator managed to do before it died.
#[derive(Debug)]
pub struct Trial {
    /// True where that participant voted yes.
    pub votes: [bool; 3],
    /// The order the votes arrive in.
    pub order: Vec<usize>,
    /// The coordinator dies before it can broadcast anything.
    pub crash: bool,
    /// Which participants the broadcast reached, when there was one.
    pub delivered: Vec<usize>,
}

/// Somebody voted no.
pub open spec fn any_no(votes: Seq<bool>) -> bool {
    exists|i: int| 0 <= i < votes.len() && !#[trigger] votes[i]
}

/// The state every participant must end in: one no aborts; commit needs every vote and a broadcast
/// that reached somebody; otherwise they are all stuck.
pub open spec fn expected_of(votes: Seq<bool>, crash: bool, delivered: Seq<usize>) -> State {
    if any_no(votes) {
        State::Aborted
    } else if !crash && delivered.len() > 0 {
        State::Committed
    } else {
        State::Prepared
    }
}

impl Trial {
    /// The state every participant must end in, worked out from the rules alone.
    ///
    /// Abort needs one no; commit needs every vote and a coordinator alive long enough to
    /// say so. Once any participant has settled, cooperative termination carries that
    /// decision to the rest, and when none has, they are all stuck.
    pub fn expected_state(&self) -> (s: State)
        ensures
            s == expected_of(self.votes@, self.crash, self.delivered@),
    {
        let refused = !self.votes[0] || !self.votes[1] || !self.votes[2];
        let anyone_settled = refused || (!self.crash && self.delivered.len() > 0);
        proof {
            if any_no(self.votes@) {
                let i = choose|i: int| 0 <= i < self.votes@.len() && !self.votes@[i];
                assert(i == 0 || i == 1 || i == 2);
            }
        }
        if !anyone_settled {
            return State::Prepared;
        }
        if refused {
            State::Aborted
        } else {
            State::Committed
        }
    }
}

/// Where a participant stands once it has voted: a no is an abort of its own.
pub open spec fn voted(yes: bool) -> State {
    if yes {
        State::Prepared
    } else {
        State::Aborted
    }
}

/// What the coordinator decides once it has every vote.
pub open spec fn decision(votes: Seq<bool>) -> State {
    if any_no(votes) {
        State::Aborted
    } else {
        State::Committed
    }
}

/// Where each participant stands once the votes are in and the broadcast, if there was one, has
/// reached whom it reached.
pub open spec fn heard(votes: Seq<bool>, crash: bool, delivered: Seq<usize>) -> Seq<State> {
    Seq::new(
        votes.len(),
        |i: int|
            if !crash && delivered.contains(i as usize) {
                decision(votes)
            } else {
                voted(votes[i])
            },
    )
}

/// The participants once number `i` has asked its peers: a prepared one takes over what any of them
/// has settled on, and learns nothing where none has.
pub open spec fn consulted(states: Seq<State>, i: int) -> Seq<State> {
    if states[i] != State::Prepared {
        states
    } else if states.contains(State::Committed) {
        states.update(i, State::Committed)
    } else if states.contains(State::Aborted) {
        states.update(i, State::Aborted)
    } else {
        states
    }
}

/// The participants once the first `k` of them have asked their peers, one after the other.
pub open spec fn consulted_up_to(states: Seq<State>, k: int) -> Seq<State>
    decreases k,
{
    if k <= 0 {
        states
    } else {
        consulted(consulted_up_to(states, k - 1), k - 1)
    }
}

/// Nobody settled otherwise than on `d`, and either somebody did or everybody waits for it.
spec fn settles_on(states: Seq<State>, d: State) -> bool {
    &&& forall|i: int| 0 <= i < states.len() ==> #[trigger] states[i] == State::Prepared || states[i] == d
    &&& d != State::Prepared ==> states.contains(d)
}

proof fn lemma_consulting(states: Seq<State>, d: State, k: int)
    requires
        settles_on(states, d),
        0 <= k <= states.len(),
    ensures
        consulted_up_to(states, k).len() == states.len(),
        settles_on(consulted_up_to(states, k), d),
        forall|i: int| 0 <= i < k ==> #[trigger] consulted_up_to(states, k)[i] == d,
    decreases k,
{
    if k > 0 {
        lemma_consulting(states, d, k - 1);
        let before = consulted_up_to(states, k - 1);
        let after = consulted_up_to(states, k);
        assert(before[k - 1] == State::Prepared || before[k - 1] == d);
        if before.contains(State::Committed) {
            let j = choose|j: int| 0 <= j < before.len() && before[j] == State::Committed;
            assert(before[j] == State::Prepared || before[j] == d);
        }
        if before.contains(State::Aborted) {
            let j = choose|j: int| 0 <= j < before.len() && before[j] == State::Aborted;
            assert(before[j] == State::Prepared || before[j] == d);
        }
        if d != State::Prepared {
            assert(after[k - 1] == d);
            let j = choose|j: int| 0 <= j < before.len() && before[j] == d;
            assert(after[j] == d);
        }
        assert forall|i: int| 0 <= i < k implies #[trigger] after[i] == d by {
            if i < k - 1 {
                assert(before[i] == d);
            }
        }
        assert forall|i: int| 0 <= i < after.len() implies #[trigger] after[i] == State::Prepared
            || after[i] == d by {
            assert(before[i] == State::Prepared || before[i] == d);
        }
    }
}

/// Atomicity: whoever voted what, whether or not the coordinator survived to broadcast and whomever
/// the broadcast reached, once every participant has asked its peers they all stand in the same
/// state, and it is the expected one.
pub proof fn participants_never_split(votes: Seq<bool>, crash: bool, delivered: Seq<usize>, i: int)
    requires
        votes.len() <= usize::MAX,
        forall|k: int| 0 <= k < delivered.len() ==> #[trigger] delivered[k] < votes.len(),
        0 <= i < votes.len(),
    ensures
        consulted_up_to(heard(votes, crash, delivered), votes.len() as int)[i] == expected_of(
            votes,
            crash,
            delivered,
        ),
{
    let states = heard(votes, crash, delivered);
    let d = expected_of(votes, crash, delivered);
    assert forall|j: int| 0 <= j < states.len() implies #[trigger] states[j] == State::Prepared
        || states[j] == d by {
        if !crash && delivered.contains(j as usize) {
            let k = choose|k: int| 0 <= k < delivered.len() && delivered[k] == j as usize;
            assert(delivered.len() > 0);
        } else if !votes[j] {
            assert(any_no(votes));
        }
    }
    if any_no(votes) {
        let j = choose|j: int| 0 <= j < votes.len() && !#[trigger] votes[j];
        assert(states[j] == State::Aborted);
    } else if !crash && delivered.len() > 0 {
        let j = delivered[0] as int;
        assert(delivered.contains(j as usize));
        assert(states[j] == State::Committed);
    }
    lemma_consulting(states, d, votes.len() as int);
}

/// The blocking window: where everybody voted yes and no broadcast reached anybody, every
/// participant stays prepared, however much it asks around.
pub proof fn silence_leaves_everybody_prepared(votes: Seq<bool>, crash: bool, i: int)
    requires
        votes.len() <= usize::MAX,
        !any_no(votes),
        0 <= i < votes.len(),
    ensures
        consulted_up_to(heard(votes, crash, Seq::<usize>::empty()), votes.len() as int)[i]
            == State::Prepared,
{
    participants_never_split(votes, crash, Seq::<usize>::empty(), i);
}

/// The order the votes arrive in decides nothing.
pub proof fn vote_order_decides_nothing(votes: Seq<bool>, order: Seq<int>, crash: bool, delivered: Seq<usize>)
    requires
        forall|i: int| 0 <= i < votes.len() ==> #[trigger] order.contains(i),
        forall|k: int| 0 <= k < order.len() ==> 0 <= #[trigger] order[k] < votes.len(),
    ensures
        any_no(order.map_values(|i: int| votes[i])) == any_no(votes),
        expected_of(order.map_values(|i: int| votes[i]), crash, delivered) == expected_of(
            votes,
            crash,
            delivered,
        ),
{
    let arrived = order.map_values(|i: int| votes[i]);
    if any_no(votes) {
        let i = choose|i: int| 0 <= i < votes.len() && !#[trigger] votes[i];
        assert(order.contains(i));
        let k = choose|k: int| 0 <= k < order.len() && order[k] == i;
        assert(!arrived[k]);
    }
    if any_no(arrived) {
        let k = choose|k: int| 0 <= k < arrived.len() && !#[trigger] arrived[k];
        assert(!votes[order[k]]);
    }
}

/// The three participants arrive in some order, each of them once.
pub open spec fn is_order(order: Seq<usize>) -> bool {
    order.len() == 3 && order.no_duplicates() && forall|k: int| 0 <= k < 3 ==> #[trigger] order[k] < 3
}

/// Some of the three participants, in their own order.
pub open spec fn is_selection(picked: Seq<usize>) -> bool {
    &&& forall|k: int| 0 <= k < picked.len() ==> #[trigger] picked[k] < 3
    &&& forall|j: int, k: int| 0 <= j < k < picked.len() ==> #[trigger] picked[j] < #[trigger] picked[k]
}

impl Trial {
    /// A trial that can be driven: every participant votes once, and the broadcast reaches some.
    pub open spec fn well_formed(self) -> bool {
        is_order(self.order@) && is_selection(self.delivered@)
    }
}

/// An order the three votes arrive in.
fn draw_order(rng: &mut StdRng) -> (order: Vec<usize>)
    ensures
        is_order(order@),
{
    let mut order: Vec<usize> = Vec::new();
    order.push(0);
    order.push(1);
    order.push(2);
    let mut i: usize = 2;
    while i > 0
        invariant
            i <= 2,
            is_order(order@),
        decreases i,
    {
        let j: usize = draw_usize(rng, 0, i + 1);
        let moved: usize = order[i];
        let other: usize = order[j];
        order.set(i, other);
        order.set(j, moved);
        i -= 1;
    }
    order
}

/// Those of the first `n` participants that a broadcast reached, in order.
pub open spec fn reached_among(reached: Seq<bool>, n: int) -> Seq<usize>
    decreases n,
{
    if n <= 0 {
        Seq::empty()
    } else if reached[n - 1] {
        reached_among(reached, n - 1).push((n - 1) as usize)
    } else {
        reached_among(reached, n - 1)
    }
}

proof fn lemma_reached_are_a_selection(reached: Seq<bool>, n: int)
    requires
        0 <= n <= 3,
    ensures
        is_selection(reached_among(reached, n)),
        forall|k: int|
            0 <= k < reached_among(reached, n).len() ==> #[trigger] reached_among(reached, n)[k] < n,
    decreases n,
{
    if n > 0 {
        lemma_reached_are_a_selection(reached, n - 1);
    }
}

/// Those of three participants that a broadcast reached, in order.
pub fn delivered_to(reached: &[bool; 3]) -> (picked: Vec<usize>)
    ensures
        picked@ == reached_among(reached@, 3),
        is_selection(picked@),
{
    let mut picked: Vec<usize> = Vec::new();
    let mut i: usize = 0;
    while i < 3
        invariant
            i <= 3,
            picked@ == reached_among(reached@, i as int),
        decreases 3 - i,
    {
        if reached[i] {
            picked.push(i);
        }
        i += 1;
    }
    proof {
        lemma_reached_are_a_selection(reached@, 3);
    }
    picked
}

/// Some of the three participants: each of them is drawn for, and those that are hit are picked.
fn draw_delivered(rng: &mut StdRng) -> (picked: Vec<usize>)
    ensures
        exists|reached: [bool; 3]| picked@ == #[trigger] reached_among(reached@, 3),
        is_selection(picked@),
{
    let first = draw_ratio(rng, 3, 5);
    let second = draw_ratio(rng, 3, 5);
    let third = draw_ratio(rng, 3, 5);
    let reached = [first, second, third];
    delivered_to(&reached)
}

/// Twenty-four seeded trials: the votes, the order they arrive in, whether the coordinator survives to
/// broadcast, and whom the broadcast reached.
pub fn plan(rng: &mut StdRng) -> (trials: Vec<Trial>)
    ensures
        trials@.len() == 24,
        forall|t: int| 0 <= t < 24 ==> (#[trigger] trials@[t]).well_formed(),
{
    let mut trials: Vec<Trial> = Vec::new();
    while trials.len() < 24
        invariant
            trials@.len() <= 24,
            forall|t: int| 0 <= t < trials@.len() ==> (#[trigger] trials@[t]).well_formed(),
        decreases 24 - trials@.len(),
    {
        let first = draw_ratio(rng, 3, 4);
        let second = draw_ratio(rng, 3, 4);
        let third = draw_ratio(rng, 3, 4);
        let order = draw_order(rng);
        let crash = draw_ratio(rng, 2, 5);
        let delivered = draw_delivered(rng);
        trials.push(Trial { votes: [first, second, third], order, crash, delivered });
    }
    trials
}

/// The name of the participant at `i`.
pub open spec fn participant(i: int) -> Seq<char> {
    "p"@ + nat_text((i + 1) as nat)
}

/// `verb` said to or about the participant at `i`.
pub open spec fn about(verb: Seq<char>, i: int) -> Seq<char> {
    verb + participant(i)
}

/// The vote of the participant at `i`.
pub open spec fn vote_command(votes: Seq<bool>, i: usize) -> Seq<char> {
    about("vote "@, i as int) + if votes[i as int] {
        " yes"@
    } else {
        " no"@
    }
}

/// What `verb` is said to or about each of three participants.
pub open spec fn about_three(verb: Seq<char>) -> Seq<Seq<char>> {
    seq![about(verb, 0), about(verb, 1), about(verb, 2)]
}

/// How a trial is driven: the votes in their order, what the coordinator manages to do, then everybody
/// consults its peers and is asked for its state.
pub open spec fn driven(votes: Seq<bool>, order: Seq<usize>, crash: bool, delivered: Seq<usize>) -> Seq<
    Seq<char>,
> {
    seq![r#"init ["p1","p2","p3"]"#@, "prepare"@] + order.map_values(
        |i: usize| vote_command(votes, i),
    ) + (if crash {
        Seq::empty()
    } else {
        seq!["decide"@] + delivered.map_values(|i: usize| about("deliver "@, i as int))
    }) + seq!["crash coordinator"@] + about_three("p-consult "@) + about_three("p-state "@)
}

/// `verb` said to or about the participant at `i`.
pub(crate) fn name_about(verb: &str, i: usize) -> (s: String)
    requires
        i < 3,
    ensures
        s@ == about(verb@, i as int),
{
    let mut s = String::from_str(verb);
    s.append("p");
    push_nat(&mut s, i as u64 + 1);
    assert(s@ =~= about(verb@, i as int));
    s
}

/// Puts down what `verb` is said to or about each of three participants.
pub(crate) fn put_three(all: &mut Vec<String>, verb: &str)
    ensures
        texts(final(all)@) == texts(old(all)@) + about_three(verb@),
{
    put_text(all, name_about(verb, 0));
    put_text(all, name_about(verb, 1));
    put_text(all, name_about(verb, 2));
    assert(texts(all@) =~= texts(old(all)@) + about_three(verb@));
}

/// The vote of the participant at `i`.
pub(crate) fn name_vote(votes: &[bool; 3], i: usize) -> (s: String)
    requires
        i < 3,
    ensures
        s@ == vote_command(votes@, i),
{
    let mut s = name_about("vote ", i);
    s.append(
        if votes[i] {
            " yes"
        } else {
            " no"
        },
    );
    s
}

impl Trial {
    /// The commands that drive the trial; the last three are asked for the states they leave behind.
    pub fn commands(&self) -> (all: Vec<String>)
        requires
            self.well_formed(),
        ensures
            texts(all@) == driven(self.votes@, self.order@, self.crash, self.delivered@),
    {
        let ghost votes = self.order@.map_values(|i: usize| vote_command(self.votes@, i));
        let ghost reached = self.delivered@.map_values(|i: usize| about("deliver "@, i as int));
        let ghost start = seq![r#"init ["p1","p2","p3"]"#@, "prepare"@];
        let mut all: Vec<String> = Vec::new();
        put_text(&mut all, String::from_str(r#"init ["p1","p2","p3"]"#));
        put_text(&mut all, String::from_str("prepare"));
        assert(texts(all@) =~= start + votes.take(0));
        let mut k: usize = 0;
        while k < self.order.len()
            invariant
                k <= self.order@.len(),
                is_order(self.order@),
                votes == self.order@.map_values(|i: usize| vote_command(self.votes@, i)),
                texts(all@) == start + votes.take(k as int),
            decreases self.order@.len() - k,
        {
            put_text(&mut all, name_vote(&self.votes, self.order[k]));
            assert(texts(all@) =~= start + votes.take(k + 1));
            k += 1;
        }
        assert(votes.take(k as int) =~= votes);
        let ghost voted = start + votes;
        if self.crash {
            assert(voted + Seq::<Seq<char>>::empty() =~= voted);
        } else {
            put_text(&mut all, String::from_str("decide"));
            assert(texts(all@) =~= voted + (seq!["decide"@] + reached.take(0)));
            let mut d: usize = 0;
            while d < self.delivered.len()
                invariant
                    d <= self.delivered@.len(),
                    is_selection(self.delivered@),
                    reached == self.delivered@.map_values(|i: usize| about("deliver "@, i as int)),
                    texts(all@) == voted + (seq!["decide"@] + reached.take(d as int)),
                decreases self.delivered@.len() - d,
            {
                put_text(&mut all, name_about("deliver ", self.delivered[d]));
                assert(texts(all@) =~= voted + (seq!["decide"@] + reached.take(d + 1)));
                d += 1;
            }
            assert(reached.take(d as int) =~= reached);
        }
        put_text(&mut all, String::from_str("crash coordinator"));
        put_three(&mut all, "p-consult ");
        put_three(&mut all, "p-state ");
        assert(texts(all@) =~= driven(self.votes@, self.order@, self.crash, self.delivered@));
        all
    }
}

/// Every one of the states is the first.
pub open spec fn all_alike(states: Seq<Seq<char>>) -> bool {
    forall|i: int| 0 <= i < states.len() ==> #[trigger] states[i] == states[0]
}

/// What the report says of one trial: the state each participant ended in, and that no two disagree.
pub open spec fn trial_rulings(t: nat, want: Seq<char>, states: Seq<Seq<char>>) -> Seq<Ruling> {
    Seq::new(
        states.len(),
        |i: int|
            is_text(
                trial_path(t, participant(i) + " final state"@),
                want,
                states[i],
            ),
    ).push(
        is_that(
            trial_path(t, "agreement"@),
            "every participant in the same state"@,
            all_alike(states),
            Truth::Texts(states),
        ),
    )
}

/// What the report says of every trial that was observed.
pub open spec fn all_rulings(trials: Seq<Trial>, observed: Seq<Vec<String>>) -> Seq<Seq<Ruling>> {
    Seq::new(
        observed.len(),
        |t: int|
            trial_rulings(
                t as nat,
                expected_of(trials[t].votes@, trials[t].crash, trials[t].delivered@).text(),
                texts(observed[t]@),
            ),
    )
}

/// Whether every one of the states is the first.
fn alike(states: &Vec<String>) -> (r: bool)
    ensures
        r == all_alike(texts(states@)),
{
    let mut i: usize = 0;
    while i < states.len()
        invariant
            i <= states@.len(),
            forall|k: int| 0 <= k < i ==> #[trigger] texts(states@)[k] == texts(states@)[0],
        decreases states@.len() - i,
    {
        if !same_text(states[i].as_str(), states[0].as_str()) {
            assert(texts(states@)[i as int] != texts(states@)[0]);
            return false;
        }
        i += 1;
    }
    true
}

/// Holds what the participants ended in against the trials, up to the first trial that differs.
pub fn judge_trials(seed: u64, trials: &Vec<Trial>, observed: &Vec<Vec<String>>) -> (c: Check)
    requires
        observed@.len() <= trials@.len(),
        forall|t: int| 0 <= t < observed@.len() ==> (#[trigger] observed@[t])@.len() <= 3,
    ensures
        c@ == (Verdict {
            subject: "twenty-four seeded runs of the whole protocol"@,
            rulings: until_failure(all_rulings(trials@, observed@)),
            notes: seq![seed_note(seed as nat, trials@.len(), "trials"@)],
            blocks: Seq::empty(),
            remarks: Seq::empty(),
        }),
{
    let mut c = Check::new("twenty-four seeded runs of the whole protocol");
    c.note(note_seed(seed, trials.len(), "trials").as_str());
    let ghost groups = all_rulings(trials@, observed@);
    let mut t: usize = 0;
    assert(groups.take(0) =~= Seq::empty());
    while t < observed.len() && c.ok()
        invariant
            t <= observed@.len() <= trials@.len(),
            forall|t: int| 0 <= t < observed@.len() ==> (#[trigger] observed@[t])@.len() <= 3,
            groups == all_rulings(trials@, observed@),
            c@.subject == "twenty-four seeded runs of the whole protocol"@,
            c@.quiet(),
            c@.notes == seq![seed_note(seed as nat, trials@.len(), "trials"@)],
            c@.rulings == until_failure(groups.take(t as int)),
        decreases observed@.len() - t,
    {
        let want = trials[t].expected_state().name();
        let states = &observed[t];
        let ghost before = c@.rulings;
        let ghost group = groups[t as int];
        let mut i: usize = 0;
        assert(before + group.take(0) =~= before);
        while i < states.len()
            invariant
                i <= states@.len() <= 3,
                group == trial_rulings(t as nat, want@, texts(states@)),
                c@.subject == "twenty-four seeded runs of the whole protocol"@,
                c@.quiet(),
                c@.notes == seq![seed_note(seed as nat, trials@.len(), "trials"@)],
                c@.rulings == before + group.take(i as int),
            decreases states@.len() - i,
        {
            let mut what = name_about("", i);
            what.append(" final state");
            assert(what@ =~= participant(i as int) + " final state"@) by {
                reveal_strlit("");
            }
            c.eq_text(name_trial(t, what.as_str()).as_str(), want, states[i].as_str());
            assert(c@.rulings =~= before + group.take(i + 1));
            i += 1;
        }
        c.that(
            name_trial(t, "agreement").as_str(),
            "every participant in the same state",
            alike(states),
            texts_fact(states),
        );
        proof {
            assert(c@.rulings =~= before + group);
            lemma_until_failure_step(groups, t as int);
        }
        t += 1;
    }
    proof {
        lemma_until_failure_rest(groups, t as int);
    }
    c
}

/// One no is enough to abort; where everybody voted yes, everybody commits exactly where the coordinator
/// lived to decide and somebody heard of it, and otherwise all of them stay prepared.
pub proof fn outcome_goes_by_votes_and_delivery(votes: Seq<bool>, crash: bool, delivered: Seq<usize>)
    ensures
        expected_of(votes, crash, delivered) == State::Aborted <==> exists|i: int|
            0 <= i < votes.len() && !#[trigger] votes[i],
        expected_of(votes, crash, delivered) == State::Committed <==> !crash && delivered.len() > 0 && forall|i: int|
            0 <= i < votes.len() ==> #[trigger] votes[i],
        expected_of(votes, crash, delivered) == State::Prepared <==> (crash || delivered.len() == 0) && forall|
            i: int,
        | 0 <= i < votes.len() ==> #[trigger] votes[i],
        State::Prepared.text() == "prepared"@,
        State::Aborted.text() == "aborted"@,
        State::Committed.text() == "committed"@,
{
}

/// A vote prepares or aborts the participant that casts it, and a decision that reaches it settles it: to
/// commit where nobody voted no, and to abort otherwise.
pub proof fn participant_goes_by_its_vote_and_what_it_heard(
    votes: Seq<bool>,
    crash: bool,
    delivered: Seq<usize>,
    i: int,
)
    requires
        0 <= i < votes.len(),
    ensures
        heard(votes, crash, delivered).len() == votes.len(),
        !crash && delivered.contains(i as usize) ==> {
            &&& heard(votes, crash, delivered)[i] == State::Committed <==> forall|k: int|
                0 <= k < votes.len() ==> #[trigger] votes[k]
            &&& heard(votes, crash, delivered)[i] == State::Aborted <==> exists|k: int|
                0 <= k < votes.len() && !#[trigger] votes[k]
        },
        crash || !delivered.contains(i as usize) ==> {
            &&& heard(votes, crash, delivered)[i] == State::Prepared <==> votes[i]
            &&& heard(votes, crash, delivered)[i] == State::Aborted <==> !votes[i]
        },
{
}

/// A participant that is only prepared takes over what a peer has decided, and changes nobody else; one that
/// has decided keeps its decision.
pub proof fn consulting_takes_over_a_decision(states: Seq<State>, i: int, j: int)
    requires
        0 <= i < states.len(),
        0 <= j < states.len(),
    ensures
        consulted(states, i).len() == states.len(),
        j != i ==> consulted(states, i)[j] == states[j],
        states[i] != State::Prepared ==> consulted(states, i)[i] == states[i],
        states[i] == State::Prepared && states.contains(State::Committed) ==> consulted(states, i)[i]
            == State::Committed,
        states[i] == State::Prepared && !states.contains(State::Committed) && states.contains(State::Aborted)
            ==> consulted(states, i)[i] == State::Aborted,
        states[i] == State::Prepared && !states.contains(State::Committed) && !states.contains(State::Aborted)
            ==> consulted(states, i)[i] == State::Prepared,
{
}

proof fn lemma_three(verb: Seq<char>, c: Seq<char>)
    ensures
        about_three(verb).contains(c) <==> exists|i: int| 0 <= i < 3 && c == #[trigger] about(verb, i),
{
    let all = about_three(verb);
    assert(all[0] == about(verb, 0) && all[1] == about(verb, 1) && all[2] == about(verb, 2));
}

proof fn lemma_one(c: Seq<char>, x: Seq<char>)
    ensures
        seq![c].contains(x) <==> c == x,
{
    assert(seq![c][0] == c);
}

proof fn lemma_driven_parts(votes: Seq<bool>, order: Seq<usize>, crash: bool, delivered: Seq<usize>, c: Seq<char>)
    ensures
        driven(votes, order, crash, delivered).contains(c) <==> {
            ||| c == r#"init ["p1","p2","p3"]"#@
            ||| c == "prepare"@
            ||| exists|k: int| 0 <= k < order.len() && c == vote_command(votes, #[trigger] order[k])
            ||| !crash && c == "decide"@
            ||| !crash && exists|k: int|
                0 <= k < delivered.len() && c == about("deliver "@, #[trigger] delivered[k] as int)
            ||| c == "crash coordinator"@
            ||| about_three("p-consult "@).contains(c)
            ||| about_three("p-state "@).contains(c)
        },
{
    let head = seq![r#"init ["p1","p2","p3"]"#@, "prepare"@];
    assert(head[0] == r#"init ["p1","p2","p3"]"#@ && head[1] == "prepare"@);
    let ballots = order.map_values(|i: usize| vote_command(votes, i));
    assert(ballots.contains(c) <==> exists|k: int|
        0 <= k < order.len() && c == vote_command(votes, #[trigger] order[k])) by {
        if ballots.contains(c) {
            let k = choose|k: int| 0 <= k < ballots.len() && ballots[k] == c;
            assert(c == vote_command(votes, order[k]));
        }
        if exists|k: int| 0 <= k < order.len() && c == vote_command(votes, #[trigger] order[k]) {
            let k = choose|k: int| 0 <= k < order.len() && c == vote_command(votes, #[trigger] order[k]);
            assert(ballots[k] == c);
        }
    }
    let posts = delivered.map_values(|i: usize| about("deliver "@, i as int));
    assert(posts.contains(c) <==> exists|k: int|
        0 <= k < delivered.len() && c == about("deliver "@, #[trigger] delivered[k] as int)) by {
        if posts.contains(c) {
            let k = choose|k: int| 0 <= k < posts.len() && posts[k] == c;
            assert(c == about("deliver "@, delivered[k] as int));
        }
        if exists|k: int| 0 <= k < delivered.len() && c == about("deliver "@, #[trigger] delivered[k] as int) {
            let k = choose|k: int|
                0 <= k < delivered.len() && c == about("deliver "@, #[trigger] delivered[k] as int);
            assert(posts[k] == c);
        }
    }
    let round = if crash {
        Seq::<Seq<char>>::empty()
    } else {
        seq!["decide"@] + posts
    };
    let end = seq!["crash coordinator"@];
    let asks = about_three("p-consult "@);
    let tells = about_three("p-state "@);
    lemma_one("decide"@, c);
    lemma_one("crash coordinator"@, c);
    vstd::seq_lib::lemma_seq_concat_contains_all_elements(seq!["decide"@], posts, c);
    vstd::seq_lib::lemma_seq_concat_contains_all_elements(head, ballots, c);
    vstd::seq_lib::lemma_seq_concat_contains_all_elements(head + ballots, round, c);
    vstd::seq_lib::lemma_seq_concat_contains_all_elements(head + ballots + round, end, c);
    vstd::seq_lib::lemma_seq_concat_contains_all_elements(head + ballots + round + end, asks, c);
    vstd::seq_lib::lemma_seq_concat_contains_all_elements(head + ballots + round + end + asks, tells, c);
    assert(driven(votes, order, crash, delivered) == head + ballots + round + end + asks + tells);
}

proof fn lemma_words()
    ensures
        "vote "@.len() == 5 && "vote "@[0] == 'v',
        "deliver "@.len() == 8 && "deliver "@[0] == 'd' && "deliver "@[2] == 'l',
        "decide"@.len() == 6 && "decide"@[0] == 'd' && "decide"@[2] == 'c',
        "prepare"@.len() == 7 && "prepare"@[0] == 'p' && "prepare"@[1] == 'r',
        "crash coordinator"@.len() == 17 && "crash coordinator"@[0] == 'c',
        "p-consult "@.len() == 10 && "p-consult "@[0] == 'p' && "p-consult "@[1] == '-',
        "p-state "@.len() == 8 && "p-state "@[0] == 'p' && "p-state "@[1] == '-',
        "p"@ == seq!['p'],
        r#"init ["p1","p2","p3"]"#@.len() == 21 && r#"init ["p1","p2","p3"]"#@[0] == 'i',
        " yes"@.len() == 4,
        " no"@.len() == 3,
{
    reveal_strlit("vote ");
    reveal_strlit("deliver ");
    reveal_strlit("decide");
    reveal_strlit("prepare");
    reveal_strlit("crash coordinator");
    reveal_strlit("p-consult ");
    reveal_strlit("p-state ");
    reveal_strlit("p");
    reveal_strlit(r#"init ["p1","p2","p3"]"#);
    reveal_strlit(" yes");
    reveal_strlit(" no");
    assert("p"@ =~= seq!['p']);
}

proof fn lemma_numbers_differ(i: int, j: int)
    requires
        0 <= i < 3,
        0 <= j < 3,
        i != j,
    ensures
        nat_text((i + 1) as nat).len() == 1,
        nat_text((j + 1) as nat).len() == 1,
        nat_text((i + 1) as nat)[0] != nat_text((j + 1) as nat)[0],
{
    assert(nat_text((i + 1) as nat)[0] == crate::text::digit(i + 1));
    assert(nat_text((j + 1) as nat)[0] == crate::text::digit(j + 1));
}

/// The commands of a trial are what it is about: everybody is told to vote as the trial has it, the
/// coordinator decides exactly where it does not crash first, and its decision is delivered to exactly those
/// the trial has it reach. So the state that is expected is the one that these commands bring about.
pub proof fn commands_bring_about_the_expected_state(
    votes: Seq<bool>,
    order: Seq<usize>,
    crash: bool,
    delivered: Seq<usize>,
    i: usize,
)
    requires
        votes.len() == 3,
        is_order(order),
        is_selection(delivered),
        i < 3,
    ensures
        driven(votes, order, crash, delivered).contains("decide"@) <==> !crash,
        driven(votes, order, crash, delivered).contains("deliver "@ + participant(i as int)) <==> !crash
            && delivered.contains(i),
        driven(votes, order, crash, delivered).contains("vote "@ + participant(i as int) + " yes"@) <==> votes[i as int],
        driven(votes, order, crash, delivered).contains("vote "@ + participant(i as int) + " no"@) <==> !votes[i as int],
        expected_of(votes, crash, delivered) == State::Committed <==> votes[0] && votes[1] && votes[2] && exists|
            j: usize,
        |
            j < 3 && #[trigger] driven(votes, order, crash, delivered).contains("deliver "@ + participant(j as int)),
{
    let all = driven(votes, order, crash, delivered);
    lemma_words();
    lemma_decide(votes, order, crash, delivered);
    lemma_deliver(votes, order, crash, delivered, i);
    lemma_vote(votes, order, crash, delivered, i);
    if votes[0] && votes[1] && votes[2] {
        assert(!any_no(votes));
        if !crash && delivered.len() > 0 {
            let j = delivered[0];
            assert(j < 3);
            assert(delivered.contains(j));
            lemma_deliver(votes, order, crash, delivered, j);
            assert(all.contains("deliver "@ + participant(j as int)));
        }
        if exists|j: usize| j < 3 && #[trigger] all.contains("deliver "@ + participant(j as int)) {
            let j = choose|j: usize| j < 3 && #[trigger] all.contains("deliver "@ + participant(j as int));
            lemma_deliver(votes, order, crash, delivered, j);
        }
    } else {
        assert(any_no(votes)) by {
            assert(!votes[0] || !votes[1] || !votes[2]);
        }
    }
}

proof fn lemma_decide(votes: Seq<bool>, order: Seq<usize>, crash: bool, delivered: Seq<usize>)
    ensures
        driven(votes, order, crash, delivered).contains("decide"@) <==> !crash,
{
    let c = "decide"@;
    lemma_words();
    lemma_driven_parts(votes, order, crash, delivered, c);
    lemma_three("p-consult "@, c);
    lemma_three("p-state "@, c);
    assert forall|k: int| 0 <= k < order.len() implies c != vote_command(votes, #[trigger] order[k]) by {
        assert(vote_command(votes, order[k])[0] == 'v');
    }
    assert forall|k: int| 0 <= k < 3 implies c != #[trigger] about("p-consult "@, k) by {
        assert(about("p-consult "@, k)[0] == 'p');
    }
    assert forall|k: int| 0 <= k < 3 implies c != #[trigger] about("p-state "@, k) by {
        assert(about("p-state "@, k)[0] == 'p');
    }
}

proof fn lemma_deliver(votes: Seq<bool>, order: Seq<usize>, crash: bool, delivered: Seq<usize>, i: usize)
    requires
        is_selection(delivered),
        i < 3,
    ensures
        driven(votes, order, crash, delivered).contains("deliver "@ + participant(i as int)) <==> !crash
            && delivered.contains(i),
{
    let c = "deliver "@ + participant(i as int);
    lemma_words();
    lemma_driven_parts(votes, order, crash, delivered, c);
    lemma_three("p-consult "@, c);
    lemma_three("p-state "@, c);
    assert(c[0] == 'd' && c[2] == 'l');
    assert forall|k: int| 0 <= k < order.len() implies c != vote_command(votes, #[trigger] order[k]) by {
        assert(vote_command(votes, order[k])[0] == 'v');
    }
    assert forall|k: int| 0 <= k < 3 implies c != #[trigger] about("p-consult "@, k) by {
        assert(about("p-consult "@, k)[0] == 'p');
    }
    assert forall|k: int| 0 <= k < 3 implies c != #[trigger] about("p-state "@, k) by {
        assert(about("p-state "@, k)[0] == 'p');
    }
    assert forall|k: int| 0 <= k < delivered.len() implies (c == about("deliver "@, #[trigger] delivered[k] as int)
        <==> delivered[k] == i) by {
        let j = delivered[k];
        assert(j < 3);
        if j != i {
            lemma_numbers_differ(i as int, j as int);
            assert(c[9] == nat_text((i + 1) as nat)[0]);
            assert(about("deliver "@, j as int)[9] == nat_text((j + 1) as nat)[0]);
        }
    }
    if delivered.contains(i) {
        let k = choose|k: int| 0 <= k < delivered.len() && delivered[k] == i;
        assert(c == about("deliver "@, delivered[k] as int));
    }
}

proof fn lemma_vote(votes: Seq<bool>, order: Seq<usize>, crash: bool, delivered: Seq<usize>, i: usize)
    requires
        votes.len() == 3,
        is_order(order),
        i < 3,
    ensures
        driven(votes, order, crash, delivered).contains("vote "@ + participant(i as int) + " yes"@) <==> votes[i as int],
        driven(votes, order, crash, delivered).contains("vote "@ + participant(i as int) + " no"@) <==> !votes[i as int],
{
    let yes = "vote "@ + participant(i as int) + " yes"@;
    let no = "vote "@ + participant(i as int) + " no"@;
    lemma_words();
    lemma_driven_parts(votes, order, crash, delivered, yes);
    lemma_driven_parts(votes, order, crash, delivered, no);
    lemma_three("p-consult "@, yes);
    lemma_three("p-state "@, yes);
    lemma_three("p-consult "@, no);
    lemma_three("p-state "@, no);
    assert(yes[0] == 'v' && no[0] == 'v');
    assert forall|k: int| 0 <= k < 3 implies yes != #[trigger] about("p-consult "@, k) && no != about(
        "p-consult "@,
        k,
    ) by {
        assert(about("p-consult "@, k)[0] == 'p');
    }
    assert forall|k: int| 0 <= k < 3 implies yes != #[trigger] about("p-state "@, k) && no != about(
        "p-state "@,
        k,
    ) by {
        assert(about("p-state "@, k)[0] == 'p');
    }
    assert forall|k: int| 0 <= k < delivered.len() implies yes != about(
        "deliver "@,
        #[trigger] delivered[k] as int,
    ) && no != about("deliver "@, delivered[k] as int) by {
        assert(about("deliver "@, delivered[k] as int)[0] == 'd');
    }
    let j: int = if i == 0 {
        0
    } else if i == 1 {
        1
    } else {
        2
    };
    assert(nat_text((j + 1) as nat).len() == 1);
    assert(yes.len() == 11 && no.len() == 10);
    assert forall|k: int| 0 <= k < order.len() implies (vote_command(votes, #[trigger] order[k]) == yes <==> order[k]
        == i && votes[i as int]) && (vote_command(votes, order[k]) == no <==> order[k] == i && !votes[i as int]) by {
        let m = order[k];
        assert(m < 3);
        let v = vote_command(votes, m);
        if m != i {
            lemma_numbers_differ(i as int, m as int);
            assert(v[6] == nat_text((m + 1) as nat)[0]);
            assert(yes[6] == nat_text((i + 1) as nat)[0]);
            assert(no[6] == nat_text((i + 1) as nat)[0]);
        }
    }
    lemma_order_has_all(order, i);
    let k = choose|k: int| 0 <= k < order.len() && order[k] == i;
    assert(votes[i as int] ==> yes == vote_command(votes, order[k]));
    assert(!votes[i as int] ==> no == vote_command(votes, order[k]));
}

proof fn lemma_order_has_all(order: Seq<usize>, i: usize)
    requires
        is_order(order),
        i < 3,
    ensures
        order.contains(i),
{
    assert(order[0] < 3 && order[1] < 3 && order[2] < 3);
    assert(order[0] != order[1] && order[1] != order[2] && order[0] != order[2]);
    if order[0] == i {
        assert(order.contains(i));
    } else if order[1] == i {
        assert(order.contains(i));
    } else {
        assert(order[2] == i);
    }
}

/// A trial begins with three participants and a prepare, takes the votes in the order the trial has them, and
/// ends with the coordinator's crash, everybody asking everybody, and what state each is in.
pub proof fn trial_goes_through_the_protocol(
    votes: Seq<bool>,
    order: Seq<usize>,
    crash: bool,
    delivered: Seq<usize>,
    i: int,
)
    requires
        0 <= i < 3,
    ensures
        ({
            let all = driven(votes, order, crash, delivered);
            let n = all.len() as int;
            &&& n == 2 + order.len() + (if crash {
                0
            } else {
                1 + delivered.len()
            }) + 7
            &&& all[0] == r#"init ["p1","p2","p3"]"#@
            &&& all[1] == "prepare"@
            &&& forall|k: int|
                0 <= k < order.len() ==> #[trigger] all[2 + k] == vote_command(votes, order[k])
            &&& !crash ==> all[2int + order.len()] == "decide"@
            &&& all[n - 7] == "crash coordinator"@
            &&& all[n - 6 + i] == "p-consult p"@ + nat_text((i + 1) as nat)
            &&& all[n - 3 + i] == "p-state p"@ + nat_text((i + 1) as nat)
        }),
{
    reveal_strlit("p-consult ");
    reveal_strlit("p-consult p");
    reveal_strlit("p-state ");
    reveal_strlit("p-state p");
    reveal_strlit("p");
    assert(about("p-consult "@, i) =~= "p-consult p"@ + nat_text((i + 1) as nat));
    assert(about("p-state "@, i) =~= "p-state p"@ + nat_text((i + 1) as nat));
}

/// The participants are called after their number, from p1 on, and the trial is set up with these names.
#[verifier::spinoff_prover]
#[verifier::rlimit(60)]
pub proof fn participants_are_set_up_by_name()
    ensures
        participant(0) == "p1"@,
        participant(1) == "p2"@,
        participant(2) == "p3"@,
        r#"init ["p1","p2","p3"]"#@ == "init "@ + name_list_text(seq![participant(0), participant(1), participant(2)]),
{
    reveal_strlit("p");
    reveal_strlit("p1");
    reveal_strlit("p2");
    reveal_strlit("p3");
    reveal_strlit("init ");
    reveal_strlit(r#"init ["p1","p2","p3"]"#);
    assert(participant(0) =~= "p1"@);
    assert(participant(1) =~= "p2"@);
    assert(participant(2) =~= "p3"@);
    let names = seq![participant(0), participant(1), participant(2)];
    let quoted = names.map_values(|n: Seq<char>| seq!['"'] + n + seq!['"']);
    let two = quoted.drop_last();
    assert(joined(two.drop_last(), seq![',']) == quoted[0]);
    assert(joined(two, seq![',']) == quoted[0] + seq![','] + quoted[1]);
    assert(joined(quoted, seq![',']) == quoted[0] + seq![','] + quoted[1] + seq![','] + quoted[2]);
    assert(r#"init ["p1","p2","p3"]"#@ =~= "init "@ + name_list_text(names));
}

/// Those a broadcast reaches are those it was drawn for, in ascending order and each once.
pub proof fn broadcast_reaches_those_it_was_drawn_for(reached: Seq<bool>, n: int, i: usize)
    requires
        0 <= n <= reached.len(),
        n <= usize::MAX,
    ensures
        reached_among(reached, n).contains(i) <==> i < n && reached[i as int],
        forall|j: int, k: int|
            0 <= j < k < reached_among(reached, n).len() ==> reached_among(reached, n)[j] < reached_among(
                reached,
                n,
            )[k],
        forall|k: int| 0 <= k < reached_among(reached, n).len() ==> #[trigger] reached_among(reached, n)[k] < n,
    decreases n,
{
    if n > 0 {
        broadcast_reaches_those_it_was_drawn_for(reached, n - 1, i);
        let before = reached_among(reached, n - 1);
        let all = reached_among(reached, n);
        if reached[n - 1] {
            assert(all.contains(i) <==> before.contains(i) || i == n - 1) by {
                if before.contains(i) {
                    let k = choose|k: int| 0 <= k < before.len() && before[k] == i;
                    assert(all[k] == i);
                }
                assert(all[before.len() as int] == n - 1);
                if all.contains(i) && i != n - 1 {
                    let k = choose|k: int| 0 <= k < all.len() && all[k] == i;
                    assert(before[k] == i);
                }
            }
        }
    }
}

/// What was observed of a trial is what was expected of everybody.
pub open spec fn ended_so(trial: Trial, states: Seq<Seq<char>>) -> bool {
    forall|i: int|
        0 <= i < states.len() ==> #[trigger] states[i] == (match expected_of(
            trial.votes@,
            trial.crash,
            trial.delivered@,
        ) {
            State::Prepared => "prepared"@,
            State::Aborted => "aborted"@,
            State::Committed => "committed"@,
        })
}

/// The trials pass exactly where everybody ended in the state that was expected; that they agree follows.
pub proof fn trials_pass_where_everybody_ends_so(trials: Seq<Trial>, observed: Seq<Vec<String>>)
    requires
        observed.len() <= trials.len(),
    ensures
        all_hold(until_failure(all_rulings(trials, observed))) <==> forall|t: int|
            0 <= t < observed.len() ==> ended_so(trials[t], texts((#[trigger] observed[t])@)),
{
    let groups = all_rulings(trials, observed);
    run_passes_where_every_step_does(groups);
    assert forall|t: int| 0 <= t < observed.len() implies (all_hold(#[trigger] groups[t]) <==> ended_so(
        trials[t],
        texts(observed[t]@),
    )) by {
        let g = groups[t];
        let states = texts(observed[t]@);
        assert(g.len() == states.len() + 1);
        if all_hold(g) {
            assert forall|i: int| 0 <= i < states.len() implies #[trigger] states[i] == expected_of(
                trials[t].votes@,
                trials[t].crash,
                trials[t].delivered@,
            ).text() by {
                assert(g[i].holds());
            }
        }
        if ended_so(trials[t], states) {
            assert(all_alike(states));
            assert forall|i: int| 0 <= i < g.len() implies (#[trigger] g[i]).holds() by {
                if i < states.len() {
                    assert(states[i] == expected_of(
                        trials[t].votes@,
                        trials[t].crash,
                        trials[t].delivered@,
                    ).text());
                }
            }
        }
    }
    if all_hold(until_failure(groups)) {
        assert forall|t: int| 0 <= t < observed.len() implies ended_so(trials[t], texts((#[trigger] observed[t])@)) by {
            assert(all_hold(groups[t]));
        }
    } else {
        let t = choose|t: int| 0 <= t < groups.len() && !all_hold(#[trigger] groups[t]);
        assert(!ended_so(trials[t], texts(observed[t]@)));
    }
}

/// The topic the program is asked about.
pub const TOPIC: &'static str = "two-phase-commit";

/// A fresh transaction has every participant working.
pub const A_FRESH_TRANSACTION: &'static str = r#"a transaction nobody has voted on
> init ["p1","p2","p3"]
@ 1 init
$ participants | ["p1","p2","p3"] | init.participants
> state
> p-state p1
@ 2 state
= state | "init" | state.state
= decision | null | state.decision
= coordinator | "up" | state.coordinator
@ 3 p-state p1
= state | "working" | p-state(p1).state"#;

/// The coordinator does not decide until every vote is in.
pub const NO_DECISION_UNTIL_EVERY_VOTE: &'static str = r#"a coordinator asked to decide before the last vote arrived
> init ["p1","p2","p3"]
> prepare
> vote p1 yes
> vote p2 yes
= decision | null | vote(p2).decision
> decide
= decision | null | the early decide's decision
> vote p3 yes
> decide
@ 5 decide
= sent | 0 | the early decide's sent
@ 6 vote p3 yes
= decision | "commit" | vote(p3).decision
@ 7 decide
= decision | "commit" | the later decide's decision
= sent | 3 | the later decide's sent"#;

/// Every yes decides commit.
pub const EVERY_YES_DECIDES_COMMIT: &'static str = r#"a transaction every participant agreed to
> init ["p1","p2"]
> prepare
> vote p1 yes
> vote p2 yes
> decide
> deliver p1
> deliver p2
> state
= state | "committed" | state.state
= decision | "commit" | state.decision
@ 6 deliver p1
= state | "committed" | deliver(p1).state
@ 7 deliver p2
= state | "committed" | deliver(p2).state"#;

/// One no decides abort whatever the rest say.
pub const ONE_NO_DECIDES_ABORT: &'static str = r#"a transaction one participant refused
> init ["p1","p2","p3"]
> prepare
> vote p2 no
> vote p1 yes
> vote p3 yes
> decide
> deliver p1
@ 3 vote p2 no
= decision | "abort" | vote(p2, no).decision
= state | "aborted" | vote(p2, no).state
@ 5 vote p3 yes
= decision | "abort" | the decision after the later yes votes
@ 6 decide
= decision | "abort" | decide.decision
@ 7 deliver p1
= state | "aborted" | deliver(p1).state"#;

/// A yes vote leaves the participant prepared.
pub const A_YES_VOTE_PREPARES: &'static str = r#"what a vote does to the participant that cast it
> init ["p1","p2"]
> prepare
> vote p1 yes
> p-state p1
> vote p2 no
> p-state p2
@ 4 p-state p1
= state | "prepared" | p-state(p1).state after a yes
@ 6 p-state p2
= state | "aborted" | p-state(p2).state after a no"#;

/// A participant that has not voted may abort on its own.
pub const AN_UNVOTED_PARTICIPANT_MAY_ABORT: &'static str = r#"a participant whose prepare never arrived
> init ["p1","p2"]
> prepare
> vote p1 yes
> p-timeout p2
> p-state p2
@ 4 p-timeout p2
= decision | "abort" | p-timeout(p2).decision
= blocked | false | p-timeout(p2).blocked
= reason | "has not voted" | p-timeout(p2).reason
@ 5 p-state p2
= state | "aborted" | p-state(p2).state"#;

/// A prepared participant is blocked when the coordinator dies.
pub const THE_BLOCKING_WINDOW: &'static str = r#"a coordinator that died between the last vote and the broadcast
> init ["p1","p2","p3"]
> prepare
> vote p1 yes
> vote p2 yes
> vote p3 yes
> crash coordinator
> decide
> p-timeout p1
@ 8 p-timeout
~ blocked | true | -
~ reason | "" | -
> p-timeout p2
@ 9 p-timeout
~ blocked | true | -
~ reason | "" | -
> p-timeout p3
@ 10 p-timeout
~ blocked | true | -
~ reason | "" | -
> p-state p1
@ 7 decide
= sent | 0 | decide.sent after the crash
= decision | null | decide.decision after the crash
@ 8 p-timeout
= blocked | true | p-timeout(p1).blocked
= reason | "prepared, waiting for the coordinator" | p-timeout(p1).reason
@ 9 p-timeout
= blocked | true | p-timeout(p2).blocked
= reason | "prepared, waiting for the coordinator" | p-timeout(p2).reason
@ 10 p-timeout
= blocked | true | p-timeout(p3).blocked
= reason | "prepared, waiting for the coordinator" | p-timeout(p3).reason
@ 11 p-state p1
= state | "prepared" | p-state(p1).state"#;

/// Asking the peers settles nothing when every peer is prepared.
pub const CONSULTING_PEERS_DOES_NOT_HELP: &'static str = r#"cooperative termination with every peer prepared
> init ["p1","p2","p3"]
> prepare
> vote p1 yes
> vote p2 yes
> vote p3 yes
> crash coordinator
> p-consult p1
@ 7 p-consult
= blocked | true | p-consult(p1).blocked
= reason | "every peer is prepared" | p-consult(p1).reason
> p-consult p2
@ 8 p-consult
= blocked | true | p-consult(p2).blocked
= reason | "every peer is prepared" | p-consult(p2).reason
> p-consult p3
@ 9 p-consult
= blocked | true | p-consult(p3).blocked
= reason | "every peer is prepared" | p-consult(p3).reason"#;

/// A peer that already decided settles the question.
pub const A_DECIDED_PEER_SETTLES_IT: &'static str = r#"one participant that heard the decision, and one that did not
> init ["p1","p2","p3"]
> prepare
> vote p1 yes
> vote p2 yes
> vote p3 yes
> decide
> deliver p1
> crash coordinator
> p-consult p2
> p-state p2
@ 9 p-consult p2
= decision | "commit" | p-consult(p2).decision
= blocked | false | p-consult(p2).blocked
= reason | "a peer already decided" | p-consult(p2).reason
@ 10 p-state p2
= state | "committed" | p-state(p2).state"#;

/// A peer that never voted makes abort safe.
pub const AN_UNVOTED_PEER_MAKES_ABORT_SAFE: &'static str = r#"cooperative termination with one peer still working
> init ["p1","p2","p3"]
> prepare
> vote p1 yes
> vote p2 yes
> crash coordinator
> p-consult p1
> p-state p1
@ 6 p-consult p1
= decision | "abort" | p-consult(p1).decision
= blocked | false | p-consult(p1).blocked
= reason | "a peer never voted" | p-consult(p1).reason
@ 7 p-state p1
= state | "aborted" | p-state(p1).state"#;

/// Delivering the decision twice changes nothing.
pub const DELIVERY_IS_IDEMPOTENT: &'static str = r#"the same decision delivered three times
> init ["p1","p2"]
> prepare
> vote p1 yes
> vote p2 yes
> decide
> deliver p1
& state | "" | -
> deliver p1
& state | "" | -
> deliver p1
& state | "" | -
# - | ["committed","committed","committed"] | the three deliveries
> p-timeout p1
= decision | "commit" | p-timeout(p1).decision once it has committed
= blocked | false | p-timeout(p1).blocked"#;

/// A unilateral abort makes commit impossible for ever.
pub const A_UNILATERAL_ABORT_RULES_OUT_COMMIT: &'static str = r#"a participant that aborted before it was ever asked
> init ["p1","p2"]
> prepare
> p-timeout p2
> vote p1 yes
> decide
> state
@ 4 vote p1 yes
= decision | "abort" | the decision once p1 has agreed
@ 5 decide
= decision | "abort" | decide.decision
@ 6 state
= votes.p2 | "no" | state.votes.p2"#;

/// What somebody stuck on this stage is told, one after the other.
pub const HINTS: [&'static str; 4] = [
    "Topic `two-phase-commit`: a coordinator state machine and one per participant",
    "One no is enough to abort; commit needs every vote, so a missing vote decides nothing",
    "A yes vote is a promise: from then on the participant may not decide for itself",
    "Cooperative termination settles some cases and not the one that matters",
];

/// The tests of this stage.
pub const TESTS: [TestRow; 13] = [
    (
        "a fresh transaction has every participant working",
        "a_fresh_transaction",
        false,
        false,
        0,
        0,
        A_FRESH_TRANSACTION,
    ),
    (
        "the coordinator does not decide until every vote is in",
        "no_decision_until_every_vote",
        false,
        false,
        0,
        0,
        NO_DECISION_UNTIL_EVERY_VOTE,
    ),
    (
        "every yes decides commit",
        "every_yes_decides_commit",
        false,
        false,
        0,
        0,
        EVERY_YES_DECIDES_COMMIT,
    ),
    (
        "one no decides abort whatever the rest say",
        "one_no_decides_abort",
        false,
        false,
        0,
        0,
        ONE_NO_DECIDES_ABORT,
    ),
    (
        "a yes vote leaves the participant prepared",
        "a_yes_vote_prepares",
        false,
        false,
        0,
        0,
        A_YES_VOTE_PREPARES,
    ),
    (
        "a participant that has not voted may abort on its own",
        "an_unvoted_participant_may_abort",
        false,
        false,
        0,
        0,
        AN_UNVOTED_PARTICIPANT_MAY_ABORT,
    ),
    (
        "a prepared participant is blocked when the coordinator dies",
        "the_blocking_window",
        false,
        false,
        0,
        0,
        THE_BLOCKING_WINDOW,
    ),
    (
        "asking the peers settles nothing when every peer is prepared",
        "consulting_peers_does_not_help",
        false,
        false,
        0,
        0,
        CONSULTING_PEERS_DOES_NOT_HELP,
    ),
    (
        "a peer that already decided settles the question",
        "a_decided_peer_settles_it",
        false,
        false,
        0,
        0,
        A_DECIDED_PEER_SETTLES_IT,
    ),
    (
        "a peer that never voted makes abort safe",
        "an_unvoted_peer_makes_abort_safe",
        false,
        false,
        0,
        0,
        AN_UNVOTED_PEER_MAKES_ABORT_SAFE,
    ),
    (
        "delivering the decision twice changes nothing",
        "delivery_is_idempotent",
        true,
        false,
        0,
        0,
        DELIVERY_IS_IDEMPOTENT,
    ),
    (
        "a unilateral abort makes commit impossible for ever",
        "a_unilateral_abort_rules_out_commit",
        true,
        false,
        0,
        0,
        A_UNILATERAL_ABORT_RULES_OUT_COMMIT,
    ),
    (
        "seeded vote orders and crash points never split the participants",
        "seeded_runs_never_split_the_participants",
        true,
        false,
        0,
        0,
        "",
    ),
];

/// The worked examples of this stage.
pub const EXAMPLES: [PrimRow; 2] = [
    (
        "The blocking window",
        "two-phase-commit",
        r#"init ["p1","p2"]
prepare
vote p1 yes
vote p2 yes
crash coordinator
p-timeout p1
p-consult p1"#,
        "two participants that both voted yes, and a coordinator that dies before it speaks",
        "blocked twice: once on its own timer, and again after asking its peer",
        "The decision exists — every vote was yes — and it is unreachable. Both participants are \
         holding their locks, neither may abort, and the only cure is the coordinator coming \
         back. This is the window that makes two-phase commit a blocking protocol, and it is \
         why stage 64 adds a round.",
    ),
    (
        "One no aborts the lot",
        "two-phase-commit",
        r#"init ["p1","p2","p3"]
prepare
vote p2 no
vote p1 yes
vote p3 yes
decide
deliver p1"#,
        "one refusal, then two agreements, then the broadcast",
        "abort as soon as the no lands, and the later yes votes change nothing",
        "Abort needs one vote; commit needs all of them. An implementation that waits for every \
         vote before deciding abort is not wrong, but one that lets a later yes overturn an \
         abort has lost atomicity outright.",
    ),
];

/// The worked examples of this stage.
pub fn examples() -> (examples: Vec<ExampleSpec>)
    ensures
        described(examples@) == EXAMPLES@.map_values(|row: PrimRow| prim_described(row)),
{
    prim_examples(EXAMPLES)
}

/// What the rows say of this stage's place in the suite.
proof fn lemma_in_place()
    ensures
        rows_written(TESTS@),
        rows_on_topic(EXAMPLES@, HINTS[0]@),
{
    assert(rows_written(TESTS@)) by {
        reveal_strlit("placeholder");
        reveal_strlit("a fresh transaction has every participant working");
        assert(TESTS@[0].0@.len() == 49);
        reveal_strlit("the coordinator does not decide until every vote is in");
        assert(TESTS@[1].0@.len() == 54);
        reveal_strlit("every yes decides commit");
        assert(TESTS@[2].0@.len() == 24);
        reveal_strlit("one no decides abort whatever the rest say");
        assert(TESTS@[3].0@.len() == 42);
        reveal_strlit("a yes vote leaves the participant prepared");
        assert(TESTS@[4].0@.len() == 42);
        reveal_strlit("a participant that has not voted may abort on its own");
        assert(TESTS@[5].0@.len() == 53);
        reveal_strlit("a prepared participant is blocked when the coordinator dies");
        assert(TESTS@[6].0@.len() == 59);
        reveal_strlit("asking the peers settles nothing when every peer is prepared");
        assert(TESTS@[7].0@.len() == 60);
        reveal_strlit("a peer that already decided settles the question");
        assert(TESTS@[8].0@.len() == 48);
        reveal_strlit("a peer that never voted makes abort safe");
        assert(TESTS@[9].0@.len() == 40);
        reveal_strlit("delivering the decision twice changes nothing");
        assert(TESTS@[10].0@.len() == 45);
        reveal_strlit("a unilateral abort makes commit impossible for ever");
        assert(TESTS@[11].0@.len() == 51);
        reveal_strlit("seeded vote orders and crash points never split the participants");
        assert(TESTS@[12].0@.len() == 64);
        assert forall|i: int| 0 <= i < 13 implies (#[trigger] TESTS@[i]).0@ != "placeholder"@ by {
            assert(i == 0 || i == 1 || i == 2 || i == 3 || i == 4 || i == 5 || i == 6 || i == 7 || i == 8 || i == 9 || i == 10 || i == 11 || i == 12);
        }
    }
    assert(names_topic_at(HINTS[0]@, "two-phase-commit"@, 6)) by {
        reveal_strlit("`");
        reveal_strlit("two-phase-commit");
        reveal_strlit("Topic `two-phase-commit`: a coordinator state machine and one per participant");
        assert(HINTS[0]@.subrange(6, 24) =~= "`"@ + "two-phase-commit"@ + "`"@);
    }
    reveal_strlit("init ");
    assert(EXAMPLES@[0].2@.len() >= 5 && EXAMPLES@[0].2@.take(5) =~= "init "@) by {
        reveal_strlit(
            "init [\"p1\",\"p2\"]\n\
             prepare\n\
             vote p1 yes\n\
             vote p2 yes\n\
             crash coordinator\n\
             p-timeout p1\n\
             p-consult p1",
        );
    }
    assert(EXAMPLES@[1].2@.len() >= 5 && EXAMPLES@[1].2@.take(5) =~= "init "@) by {
        reveal_strlit(
            "init [\"p1\",\"p2\",\"p3\"]\n\
             prepare\n\
             vote p2 no\n\
             vote p1 yes\n\
             vote p3 yes\n\
             decide\n\
             deliver p1",
        );
    }
}

/// What stage 63 holds.
pub open spec fn is_stage(s: Stage) -> bool {
    &&& s.number == 63
    &&& s.slug == "two_phase_commit"
    &&& s.name == "Two-phase commit"
    &&& s.ext == false
    &&& s.ladder == Ladder::Algorithms
    &&& s.hints == HINTS
    &&& s.tests@ == tests_of(TESTS@)
    &&& described(s.examples@) == EXAMPLES@.map_values(|row: PrimRow| prim_described(row))
}

/// Stage 63.
pub fn stage() -> (s: Stage)
    ensures
        is_stage(s),
        s.in_place(),
{
    let s = Stage {
        number: 63,
        slug: "two_phase_commit",
        name: "Two-phase commit",
        ext: false,
        ladder: Ladder::Algorithms,
        hints: HINTS,
        examples: examples(),
        tests: tests(TESTS),
    };
    proof {
        reveal(Stage::in_place);
        assert(s.examples@.len() == described(s.examples@).len());
        lemma_in_place();
        assert forall|i: int| 0 <= i < s.examples@.len() implies opens_topic(
            #[trigger] s.examples@[i]@,
            s.hints[0]@,
        ) by {
            assert(described(s.examples@)[i] == prim_described(EXAMPLES@[i]));
        }
    }
    s
}

} // verus!
