//! Stage 65: Commit recovery from the log.
//!
//! What a dead participant may decide when it comes back: all it has left is a write-ahead log and a
//! store. No prepare record means presumed abort, a prepare record with no decision means ask and do
//! not guess, a commit record whose effect never landed means redo.
use rand::rngs::StdRng;
use vstd::prelude::*;
use crate::check::{
    all_hold, is_bool, is_text, lemma_until_failure_rest, lemma_until_failure_step, name_trial, note_seed,
    run_passes_where_every_step_does, seed_note, trial_path, until_failure, Check, Ruling, Verdict,
};
use crate::draw::{draw_ratio, draw_usize};
use crate::examples::{described, prim_described, prim_examples, ExampleSpec, PrimRow};
use crate::json::Json;
use crate::prim::{expect_bool, expect_str, look_up, lookup, Misshapen};
use crate::stages::{names_topic_at, opens_topic, rows_on_topic, rows_written, tests, tests_of, Ladder, Stage, TestRow};
use crate::text::{nat_text, push_nat, put_text, texts};

verus! {

/// What a recovered transaction is.
#[derive(Clone, Copy, Debug, PartialEq, Eq, Structural)]
pub enum State {
    Unknown,
    Prepared,
    Aborted,
    Committed,
}

impl State {
    /// The state as an `outcome` answer spells it.
    pub open spec fn text(self) -> Seq<char> {
        match self {
            State::Unknown => "unknown"@,
            State::Prepared => "prepared"@,
            State::Aborted => "aborted"@,
            State::Committed => "committed"@,
        }
    }

    /// The state as an `outcome` answer spells it.
    pub fn name(self) -> (s: &'static str)
        ensures
            s@ == self.text(),
    {
        match self {
            State::Unknown => "unknown",
            State::Prepared => "prepared",
            State::Aborted => "aborted",
            State::Committed => "committed",
        }
    }
}

/// What recovery does about a transaction.
#[derive(Clone, Copy, Debug, PartialEq, Eq, Structural)]
pub enum Action {
    /// The transaction is not in the log at all.
    Absent,
    Abort,
    AskCoordinator,
    Redo,
    Nothing,
}

impl Action {
    /// The action as a `recover` answer spells it; an absent transaction has none.
    pub open spec fn text(self) -> Seq<char> {
        match self {
            Action::Absent => ""@,
            Action::Abort => "abort"@,
            Action::AskCoordinator => "ask-coordinator"@,
            Action::Redo => "redo"@,
            Action::Nothing => "none"@,
        }
    }

    /// The action as a `recover` answer spells it; an absent transaction has none.
    pub fn name(self) -> (s: &'static str)
        ensures
            s@ == self.text(),
    {
        match self {
            Action::Absent => "",
            Action::Abort => "abort",
            Action::AskCoordinator => "ask-coordinator",
            Action::Redo => "redo",
            Action::Nothing => "none",
        }
    }
}

/// What a crash after `steps` steps of a whole transaction must leave behind.
pub open spec fn left_behind(steps: int, commit: bool) -> (State, Action, bool) {
    if steps == 0 {
        (State::Unknown, Action::Absent, false)
    } else if steps == 1 {
        (State::Aborted, Action::Abort, false)
    } else if steps == 2 || steps == 3 {
        (State::Prepared, Action::AskCoordinator, false)
    } else if steps == 4 {
        if commit {
            (State::Committed, Action::Redo, false)
        } else {
            (State::Aborted, Action::Nothing, false)
        }
    } else {
        (State::Committed, Action::Nothing, true)
    }
}

/// What a crash after `steps` steps of a whole transaction must leave behind.
///
/// This is the recovery rule stated directly: `(state, action, applied)`, where an absent action
/// means the transaction is not in the log at all.
pub fn expected_after(steps: usize, commit: bool) -> (r: (State, Action, bool))
    ensures
        r == left_behind(steps as int, commit),
{
    match steps {
        // Nothing was written, so the transaction does not exist as far as this machine is
        // concerned, and it can never have voted yes for it.
        0 => (State::Unknown, Action::Absent, false),
        // Only a begin record: presumed abort is safe, and recovery performs it.
        1 => (State::Aborted, Action::Abort, false),
        // Prepared, with no decision in sight. `vote-sent` writes nothing, so crashing
        // before or after the vote left the machine looks exactly the same from the log.
        2 => (State::Prepared, Action::AskCoordinator, false),
        3 => (State::Prepared, Action::AskCoordinator, false),
        4 => {
            if commit {
                (State::Committed, Action::Redo, false)
            } else {
                (State::Aborted, Action::Nothing, false)
            }
        },
        _ => (State::Committed, Action::Nothing, true),
    }
}

/// One step of a transaction, as the participant sees it.
pub enum Deed {
    Begin,
    Prepare,
    VoteSent,
    Decide { commit: bool },
    Apply,
}

impl Deed {
    /// The command that has the step done.
    pub open spec fn command(self) -> Seq<char> {
        match self {
            Deed::Begin => "begin tx1"@,
            Deed::Prepare => "prepare tx1 yes"@,
            Deed::VoteSent => "vote-sent tx1"@,
            Deed::Decide { commit } => if commit {
                "decide tx1 commit"@
            } else {
                "decide tx1 abort"@
            },
            Deed::Apply => "apply tx1"@,
        }
    }

    /// Whether the step leaves a record that outlives a crash.
    pub open spec fn durable(self) -> bool {
        !(self is VoteSent)
    }
}

/// The steps of one whole transaction, up to and including the decision's effect.
pub open spec fn deeds(commit: bool) -> Seq<Deed> {
    if commit {
        seq![Deed::Begin, Deed::Prepare, Deed::VoteSent, Deed::Decide { commit: true }, Deed::Apply]
    } else {
        seq![Deed::Begin, Deed::Prepare, Deed::VoteSent, Deed::Decide { commit: false }]
    }
}

/// The commands of one whole transaction, up to and including the decision's effect.
pub fn script(commit: bool) -> (steps: Vec<String>)
    ensures
        texts(steps@) == deeds(commit).map_values(|d: Deed| d.command()),
{
    let mut steps: Vec<String> = Vec::new();
    steps.push(String::from_str("begin tx1"));
    steps.push(String::from_str("prepare tx1 yes"));
    steps.push(String::from_str("vote-sent tx1"));
    if commit {
        steps.push(String::from_str("decide tx1 commit"));
        steps.push(String::from_str("apply tx1"));
    } else {
        steps.push(String::from_str("decide tx1 abort"));
    }
    assert(texts(steps@) =~= deeds(commit).map_values(|d: Deed| d.command()));
    steps
}

/// The records that a crash after `steps` steps leaves in the log.
pub open spec fn records(commit: bool, steps: int) -> Seq<Deed> {
    deeds(commit).take(steps).filter(|d: Deed| d.durable())
}

/// What recovery makes of a log: nothing written means nothing known; no prepare record means
/// presumed abort; prepared without a decision means ask and do not guess; a decision stands, and a
/// commit whose effect did not land is redone.
pub open spec fn recovered(log: Seq<Deed>) -> (State, Action, bool) {
    if log.contains(Deed::Decide { commit: true }) {
        if log.contains(Deed::Apply) {
            (State::Committed, Action::Nothing, true)
        } else {
            (State::Committed, Action::Redo, false)
        }
    } else if log.contains(Deed::Decide { commit: false }) {
        (State::Aborted, Action::Nothing, false)
    } else if log.contains(Deed::Prepare) {
        (State::Prepared, Action::AskCoordinator, false)
    } else if log.contains(Deed::Begin) {
        (State::Aborted, Action::Abort, false)
    } else {
        (State::Unknown, Action::Absent, false)
    }
}

/// Wherever in a whole transaction the machine dies, what it recovers to is exactly what the durable
/// records imply.
pub proof fn recovery_follows_from_the_records(commit: bool, steps: int)
    requires
        0 <= steps <= deeds(commit).len(),
    ensures
        recovered(records(commit, steps)) == left_behind(steps, commit),
{
    let all = deeds(commit);
    let log = records(commit, steps);
    let lasting = |d: Deed| d.durable();
    assert(log == all.take(steps).filter(lasting));
    assert forall|d: Deed| log.contains(d) == (d.durable() && all.take(steps).contains(d)) by {
        let done = all.take(steps);
        if log.contains(d) {
            done.lemma_filter_contains_rev(lasting, d);
            let k = choose|k: int| 0 <= k < log.len() && log[k] == d;
            done.lemma_filter_pred(lasting, k);
        }
        if d.durable() && done.contains(d) {
            let k = choose|k: int| 0 <= k < done.len() && done[k] == d;
            done.lemma_filter_contains(lasting, k);
        }
    }
    let done = all.take(steps);
    assert(steps > 0 ==> done[0] == Deed::Begin);
    assert(steps > 1 ==> done[1] == Deed::Prepare);
    assert(steps > 3 ==> done[3] == Deed::Decide { commit });
    assert(steps > 4 ==> done[4] == Deed::Apply);
}

/// A vote that left the machine leaves no trace: a crash just before it and one just after it
/// recover alike.
pub proof fn sending_the_vote_leaves_no_trace(commit: bool)
    ensures
        left_behind(2, commit) == left_behind(3, commit),
{
}

/// One seeded trial: which way the coordinator decided, and how far the transaction got before the
/// machine died.
#[derive(Clone, Copy, Debug)]
pub struct Trial {
    pub commit: bool,
    pub crash_after: usize,
}

/// Sixteen seeded crash points.
pub fn plan(rng: &mut StdRng) -> (trials: Vec<Trial>)
    ensures
        trials@.len() == 16,
        forall|t: int|
            0 <= t < 16 ==> (#[trigger] trials@[t]).crash_after <= deeds(trials@[t].commit).len(),
{
    let mut trials: Vec<Trial> = Vec::new();
    while trials.len() < 16
        invariant
            trials@.len() <= 16,
            forall|t: int|
                0 <= t < trials@.len() ==> (#[trigger] trials@[t]).crash_after <= deeds(
                    trials@[t].commit,
                ).len(),
        decreases 16 - trials@.len(),
    {
        let commit = draw_ratio(rng, 3, 5);
        let steps = script(commit);
        assert(texts(steps@).len() == steps@.len());
        let crash_after: usize = draw_usize(rng, 0, steps.len() + 1);
        trials.push(Trial { commit, crash_after });
    }
    trials
}

/// How a trial is driven: so many steps of the transaction, a crash, a recovery, and the question what
/// has become of it.
pub open spec fn driven(commit: bool, crash_after: int) -> Seq<Seq<char>> {
    seq!["init p1"@] + deeds(commit).take(crash_after).map_values(|d: Deed| d.command()) + seq![
        "crash"@,
        "recover"@,
        "outcome tx1"@,
    ]
}

impl Trial {
    /// The commands that drive the trial; the last two are asked for what recovery did.
    pub fn commands(&self) -> (all: Vec<String>)
        requires
            self.crash_after <= deeds(self.commit).len(),
        ensures
            texts(all@) == driven(self.commit, self.crash_after as int),
    {
        let steps = script(self.commit);
        let ghost whole = deeds(self.commit).map_values(|d: Deed| d.command());
        assert(texts(steps@).len() == steps@.len());
        let mut all: Vec<String> = Vec::new();
        put_text(&mut all, String::from_str("init p1"));
        assert(texts(all@) =~= seq!["init p1"@] + whole.take(0));
        let mut i: usize = 0;
        while i < self.crash_after
            invariant
                i <= self.crash_after <= steps@.len(),
                texts(steps@) == whole,
                texts(all@) == seq!["init p1"@] + whole.take(i as int),
            decreases self.crash_after - i,
        {
            assert(texts(steps@)[i as int] == steps@[i as int]@);
            put_text(&mut all, steps[i].clone());
            assert(texts(all@) =~= seq!["init p1"@] + whole.take(i + 1));
            i += 1;
        }
        put_text(&mut all, String::from_str("crash"));
        put_text(&mut all, String::from_str("recover"));
        put_text(&mut all, String::from_str("outcome tx1"));
        assert(texts(all@) =~= driven(self.commit, self.crash_after as int));
        all
    }
}

/// What the program recovered to.
#[derive(Debug)]
pub struct Observed {
    pub state: String,
    pub action: String,
    pub applied: bool,
}

/// What a recovery says it did about the transaction; nothing where it says nothing.
pub open spec fn action_of(recover: Json) -> Seq<char> {
    match lookup(recover, "actions.tx1"@) {
        Some(Json::Text(s)) => s@,
        _ => Seq::empty(),
    }
}

/// Reads what the program recovered to.
pub fn read_outcome(recover: &Json, outcome: &Json) -> (r: Result<Observed, Misshapen>)
    ensures
        r is Ok <==> {
            &&& lookup(*outcome, "state"@) matches Some(Json::Text(_))
            &&& lookup(*outcome, "applied"@) matches Some(Json::Bool(_))
        },
        r matches Ok(seen) ==> {
            &&& lookup(*outcome, "state"@) matches Some(Json::Text(state)) && state@ == seen.state@
            &&& lookup(*outcome, "applied"@) == Some(Json::Bool(seen.applied))
            &&& seen.action@ == action_of(*recover)
        },
        r matches Err(e) ==> e.command@ == "outcome tx1"@ && e.field@ == if !(lookup(*outcome, "state"@) matches Some(Json::Text(_))) {
            "state"@
        } else {
            "applied"@
        },
{
    let action = match look_up(recover, "actions.tx1") {
        Some(Json::Text(s)) => s.clone(),
        _ => String::new(),
    };
    assert(action@ =~= action_of(*recover));
    let state = match expect_str(outcome, "outcome tx1", "state") {
        Ok(s) => s,
        Err(e) => {
            return Err(e);
        },
    };
    match expect_bool(outcome, "outcome tx1", "applied") {
        Ok(applied) => Ok(Observed { state, action, applied }),
        Err(e) => Err(e),
    }
}

/// How the report names a field of a trial.
pub open spec fn place(t: nat, trial: Trial, field: Seq<char>) -> Seq<char> {
    trial_path(
        t,
        "crash after "@ + nat_text(trial.crash_after as nat) + " step(s) of a "@ + (if trial.commit {
            "commit"@
        } else {
            "abort"@
        }) + " \u{2192} "@ + field,
    )
}

/// How the report names a field of a trial.
fn name_place(t: usize, trial: &Trial, field: &str) -> (s: String)
    ensures
        s@ == place(t as nat, *trial, field@),
{
    let mut what = String::from_str("crash after ");
    push_nat(&mut what, trial.crash_after as u64);
    what.append(" step(s) of a ");
    what.append(
        if trial.commit {
            "commit"
        } else {
            "abort"
        },
    );
    what.append(" \u{2192} ");
    what.append(field);
    name_trial(t, what.as_str())
}

/// What the report says of one trial.
pub open spec fn trial_rulings(t: nat, trial: Trial, got: Observed) -> Seq<Ruling> {
    let (state, action, applied) = left_behind(trial.crash_after as int, trial.commit);
    seq![
        is_text(place(t, trial, "state"@), state.text(), got.state@),
        is_text(place(t, trial, "action"@), action.text(), got.action@),
        is_bool(place(t, trial, "applied"@), applied, got.applied),
    ]
}

/// What the report says of every trial that was observed.
pub open spec fn all_rulings(trials: Seq<Trial>, observed: Seq<Observed>) -> Seq<Seq<Ruling>> {
    Seq::new(observed.len(), |t: int| trial_rulings(t as nat, trials[t], observed[t]))
}

/// Holds what was recovered against the trials, up to the first trial that differs.
pub fn judge_trials(seed: u64, trials: &Vec<Trial>, observed: &Vec<Observed>) -> (c: Check)
    requires
        observed@.len() <= trials@.len(),
    ensures
        c@ == (Verdict {
            subject: "sixteen seeded crash points through a whole transaction"@,
            rulings: until_failure(all_rulings(trials@, observed@)),
            notes: seq![seed_note(seed as nat, trials@.len(), "trials"@)],
            blocks: Seq::empty(),
            remarks: Seq::empty(),
        }),
{
    let mut c = Check::new("sixteen seeded crash points through a whole transaction");
    c.note(note_seed(seed, trials.len(), "trials").as_str());
    let ghost groups = all_rulings(trials@, observed@);
    let mut t: usize = 0;
    assert(groups.take(0) =~= Seq::empty());
    while t < observed.len() && c.ok()
        invariant
            t <= observed@.len() <= trials@.len(),
            groups == all_rulings(trials@, observed@),
            c@.subject == "sixteen seeded crash points through a whole transaction"@,
            c@.quiet(),
            c@.notes == seq![seed_note(seed as nat, trials@.len(), "trials"@)],
            c@.rulings == until_failure(groups.take(t as int)),
        decreases observed@.len() - t,
    {
        let trial = &trials[t];
        let got = &observed[t];
        let ghost before = c@.rulings;
        let (state, action, applied) = expected_after(trial.crash_after, trial.commit);
        c.eq_text(name_place(t, trial, "state").as_str(), state.name(), got.state.as_str());
        c.eq_text(name_place(t, trial, "action").as_str(), action.name(), got.action.as_str());
        c.eq_bool(name_place(t, trial, "applied").as_str(), applied, got.applied);
        proof {
            assert(c@.rulings =~= before + groups[t as int]);
            lemma_until_failure_step(groups, t as int);
        }
        t += 1;
    }
    proof {
        lemma_until_failure_rest(groups, t as int);
    }
    c
}

/// What a crash leaves behind goes by what the log had taken up: nothing of a transaction that was not begun;
/// an abort where no vote was prepared; a question to the coordinator from the prepare on, whether or not the
/// vote was sent; then the decision, which is redone as long as it has not been applied.
pub proof fn recovery_goes_by_how_far_the_log_got(commit: bool)
    ensures
        left_behind(0, commit) == (State::Unknown, Action::Absent, false),
        left_behind(1, commit) == (State::Aborted, Action::Abort, false),
        left_behind(2, commit) == (State::Prepared, Action::AskCoordinator, false),
        left_behind(3, commit) == (State::Prepared, Action::AskCoordinator, false),
        left_behind(4, true) == (State::Committed, Action::Redo, false),
        left_behind(4, false) == (State::Aborted, Action::Nothing, false),
        left_behind(5, true) == (State::Committed, Action::Nothing, true),
        forall|steps: int| #[trigger] left_behind(steps, commit).2 ==> left_behind(steps, commit).0
            == State::Committed,
        forall|steps: int| steps < 4 ==> #[trigger] left_behind(steps, true) == left_behind(steps, false),
{
}

/// The records of a log decide: a decision over a prepare, a prepare over a begin, and an effect that landed
/// over one that did not.
pub proof fn records_decide_what_is_recovered(log: Seq<Deed>)
    ensures
        recovered(log).0 == State::Committed <==> log.contains((Deed::Decide { commit: true })),
        recovered(log).1 == Action::Redo <==> log.contains((Deed::Decide { commit: true })) && !log.contains(
            Deed::Apply,
        ),
        recovered(log).2 <==> log.contains((Deed::Decide { commit: true })) && log.contains(Deed::Apply),
        recovered(log).1 == Action::AskCoordinator <==> log.contains(Deed::Prepare) && !log.contains(
            (Deed::Decide { commit: true }),
        ) && !log.contains((Deed::Decide { commit: false })),
        recovered(log).0 == State::Unknown <==> !log.contains(Deed::Begin) && !log.contains(Deed::Prepare)
            && !log.contains((Deed::Decide { commit: true })) && !log.contains((Deed::Decide { commit: false })),
{
}

/// A transaction goes through begin, prepare, the vote and the decision, and a commit is applied after it;
/// everything but the sending of the vote is recorded.
pub proof fn transaction_goes_through_its_deeds(commit: bool)
    ensures
        deeds(commit)[0] == Deed::Begin,
        deeds(commit)[1] == Deed::Prepare,
        deeds(commit)[2] == Deed::VoteSent,
        deeds(commit)[3] == (Deed::Decide { commit }),
        commit ==> deeds(commit).len() == 5 && deeds(commit)[4] == Deed::Apply,
        !commit ==> deeds(commit).len() == 4,
        forall|d: Deed| #[trigger] d.durable() <==> d != Deed::VoteSent,
        Deed::Begin.command() == "begin tx1"@,
        Deed::Prepare.command() == "prepare tx1 yes"@,
        Deed::VoteSent.command() == "vote-sent tx1"@,
        (Deed::Decide { commit: true }).command() == "decide tx1 commit"@,
        (Deed::Decide { commit: false }).command() == "decide tx1 abort"@,
        Deed::Apply.command() == "apply tx1"@,
{
}

/// A trial sets a participant up, goes through as many deeds as it has before the crash, in order and no
/// more, and then crashes, recovers and asks for the outcome.
pub proof fn trial_crashes_after_so_many_deeds(commit: bool, crash_after: int, k: int)
    requires
        0 <= crash_after <= deeds(commit).len(),
    ensures
        driven(commit, crash_after).len() == crash_after + 4,
        driven(commit, crash_after)[0] == "init p1"@,
        0 <= k < crash_after ==> driven(commit, crash_after)[1 + k] == deeds(commit)[k].command(),
        driven(commit, crash_after)[crash_after + 1] == "crash"@,
        driven(commit, crash_after)[crash_after + 2] == "recover"@,
        driven(commit, crash_after)[crash_after + 3] == "outcome tx1"@,
{
}

/// The names of states and actions, as a program gives them.
pub proof fn names_of_states_and_actions()
    ensures
        State::Unknown.text() == "unknown"@,
        State::Prepared.text() == "prepared"@,
        State::Aborted.text() == "aborted"@,
        State::Committed.text() == "committed"@,
        Action::Absent.text() == ""@,
        Action::Abort.text() == "abort"@,
        Action::AskCoordinator.text() == "ask-coordinator"@,
        Action::Redo.text() == "redo"@,
        Action::Nothing.text() == "none"@,
{
}

/// What was observed of a trial is what the records of its log call for.
pub open spec fn recovered_so(trial: Trial, got: Observed) -> bool {
    let (state, action, applied) = recovered(records(trial.commit, trial.crash_after as int));
    got.state@ == state.text() && got.action@ == action.text() && got.applied == applied
}

/// The trials pass exactly where every recovery came to what the records of its log call for.
pub proof fn trials_pass_where_recovery_follows_the_records(trials: Seq<Trial>, observed: Seq<Observed>)
    requires
        observed.len() <= trials.len(),
        forall|t: int| 0 <= t < observed.len() ==> (#[trigger] trials[t]).crash_after <= deeds(trials[t].commit).len(),
    ensures
        all_hold(until_failure(all_rulings(trials, observed))) <==> forall|t: int|
            0 <= t < observed.len() ==> recovered_so(trials[t], #[trigger] observed[t]),
{
    let groups = all_rulings(trials, observed);
    run_passes_where_every_step_does(groups);
    assert forall|t: int| 0 <= t < observed.len() implies (all_hold(#[trigger] groups[t]) <==> recovered_so(
        trials[t],
        observed[t],
    )) by {
        let g = groups[t];
        assert(trials[t].crash_after <= deeds(trials[t].commit).len());
        recovery_follows_from_the_records(trials[t].commit, trials[t].crash_after as int);
        assert(g == trial_rulings(t as nat, trials[t], observed[t]));
        if all_hold(g) {
            assert(g[0].holds() && g[1].holds() && g[2].holds());
        }
    }
    if all_hold(until_failure(groups)) {
        assert forall|t: int| 0 <= t < observed.len() implies recovered_so(trials[t], #[trigger] observed[t]) by {
            assert(all_hold(groups[t]));
        }
    } else {
        let t = choose|t: int| 0 <= t < groups.len() && !all_hold(#[trigger] groups[t]);
        assert(!recovered_so(trials[t], observed[t]));
    }
}

/// The topic the program is asked about.
pub const TOPIC: &'static str = "commit-recovery";

/// A fresh participant has an empty log.
pub const A_FRESH_PARTICIPANT: &'static str = r#"a participant that has never seen a transaction
> init p1
> log
> outcome tx1
> recover
@ 1 init p1
= ok | true | init.ok
@ 2 log
$ records | [] | log.records
@ 3 outcome tx1
= state | "unknown" | outcome(tx1).state
@ 4 recover
$ pending | [] | recover.pending
$ decided | [] | recover.decided"#;

/// The prepare record is forced out before the vote is sent.
pub const THE_PREPARE_RECORD_IS_FORCED_OUT: &'static str = r#"a crash between the vote being written and the vote being sent
> init p1
> begin tx1
> prepare tx1 yes
> crash
> recover
> log
@ 3 prepare tx1 yes
= logged | "prepared" | prepare.logged
= vote | "yes" | prepare.vote
@ 6 log
$ records | ["begin:tx1","prepared:tx1"] | log.records
@ 5 recover
$ pending | ["tx1"] | recover.pending
= actions.tx1 | "ask-coordinator" | recover.actions.tx1"#;

/// A crash takes the volatile state and leaves the log.
pub const A_CRASH_TAKES_ONLY_VOLATILE_STATE: &'static str = r#"what a crash takes and what it leaves
> init p1
> begin tx1
> prepare tx1 yes
> outcome tx1
> crash
> outcome tx1
> log
> recover
> outcome tx1
@ 4 outcome tx1
= state | "prepared" | outcome before the crash
@ 6 outcome tx1
= state | "unknown" | outcome while it is down
@ 7 log
$ records | ["begin:tx1","prepared:tx1"] | log.records across the crash
@ 9 outcome tx1
= state | "prepared" | outcome after the restart"#;

/// A transaction that was never prepared is aborted on recovery.
pub const AN_UNPREPARED_TRANSACTION_IS_PRESUMED_ABORTED: &'static str = r#"a transaction that got as far as begin and no further
> init p1
> begin tx1
> crash
> recover
> outcome tx1
@ 4 recover
$ pending | [] | recover.pending
$ decided | ["tx1"] | recover.decided
= actions.tx1 | "abort" | recover.actions.tx1
@ 5 outcome tx1
= state | "aborted" | outcome(tx1).state"#;

/// A no vote is logged as an abort and needs nobody's permission.
pub const A_NO_VOTE_IS_LOGGED_AS_AN_ABORT: &'static str = r#"a participant that refused and then crashed
> init p1
> begin tx1
> prepare tx1 no
> crash
> recover
> outcome tx1
@ 3 prepare tx1 no
= vote | "no" | prepare.vote
= logged | "abort" | prepare.logged
@ 5 recover
= actions.tx1 | "none" | recover.actions.tx1
@ 6 outcome tx1
= state | "aborted" | outcome(tx1).state"#;

/// A prepared transaction asks rather than guessing.
pub const A_PREPARED_TRANSACTION_ASKS: &'static str = r#"a transaction whose yes was sent and whose answer never came
> init p1
> begin tx1
> prepare tx1 yes
> vote-sent tx1
> crash
> recover
> outcome tx1
= state | "prepared" | outcome(tx1).state
! state | "committed" | outcome(tx1).state is not a guess at commit
! state | "aborted" | outcome(tx1).state is not a guess at abort
@ 6 recover
$ pending | ["tx1"] | recover.pending
= actions.tx1 | "ask-coordinator" | recover.actions.tx1"#;

/// The coordinator's answer resolves a prepared transaction.
pub const THE_COORDINATOR_RESOLVES_IT: &'static str = r#"a prepared transaction resolved by the coordinator
> init p1
> begin tx1
> prepare tx1 yes
> crash
> recover
> coordinator-says tx1 commit
> log
> begin tx2
> prepare tx2 yes
> crash
> recover
> coordinator-says tx2 abort
@ 6 coordinator-says tx1 commit
= state | "committed" | coordinator-says(tx1, commit).state
= applied | true | coordinator-says(tx1, commit).applied
@ 7 log
? records | commit:tx1 ; a commit record for tx1 | log.records
@ 12 coordinator-says tx2 abort
= state | "aborted" | coordinator-says(tx2, abort).state"#;

/// A commit record whose effect never landed is redone.
pub const A_COMMIT_THAT_NEVER_LANDED_IS_REDONE: &'static str = r#"a commit record with no effect behind it
> init p1
> begin tx1
> prepare tx1 yes
> decide tx1 commit
> crash
> recover
> outcome tx1
> apply tx1
> outcome tx1
@ 6 recover
$ decided | ["tx1"] | recover.decided
= actions.tx1 | "redo" | recover.actions.tx1
@ 7 outcome tx1
= state | "committed" | outcome(tx1).state
= applied | false | outcome(tx1).applied before the redo
@ 9 outcome tx1
= applied | true | outcome(tx1).applied after the redo"#;

/// Redo is idempotent.
pub const REDO_IS_IDEMPOTENT: &'static str = r#"an effect redone three times
> init p1
> begin tx1
> prepare tx1 yes
> decide tx1 commit
> crash
> recover
> apply tx1
> apply tx1
> apply tx1
> outcome tx1
> crash
> recover
@ 10 outcome tx1
= applied | true | outcome(tx1).applied
= state | "committed" | outcome(tx1).state
@ 12 recover
= actions.tx1 | "none" | recover.actions.tx1 after the redo"#;

/// An aborted transaction needs nothing doing.
pub const AN_ABORTED_TRANSACTION_NEEDS_NOTHING: &'static str = r#"a transaction the coordinator rolled back
> init p1
> begin tx1
> prepare tx1 yes
> decide tx1 abort
> crash
> recover
> outcome tx1
@ 6 recover
$ pending | [] | recover.pending
= actions.tx1 | "none" | recover.actions.tx1
@ 7 outcome tx1
= state | "aborted" | outcome(tx1).state
= applied | false | outcome(tx1).applied"#;

/// Recovering twice says the same thing.
pub const RECOVERY_IS_IDEMPOTENT: &'static str = r#"three recoveries in a row
> init p1
> begin tx1
> prepare tx1 yes
> crash
> recover
~ pending | [] | -
~ actions.tx1 | "" | -
> recover
~ pending | [] | -
~ actions.tx1 | "" | -
> recover
~ pending | [] | -
~ actions.tx1 | "" | -
> log
@ 5 recover
& pending | [] | -
@ 6 recover
& pending | [] | -
@ 7 recover
& pending | [] | -
# - | [["tx1"],["tx1"],["tx1"]] | the three pending lists
@ 5 recover
& actions.tx1 | "" | -
@ 6 recover
& actions.tx1 | "" | -
@ 7 recover
& actions.tx1 | "" | -
# - | ["ask-coordinator","ask-coordinator","ask-coordinator"] | the three actions
@ 8 log
$ records | ["begin:tx1","prepared:tx1"] | log.records"#;

/// The log survives any number of crashes.
pub const THE_LOG_SURVIVES_REPEATED_CRASHES: &'static str = r#"four crashes and four restarts over one committed transaction
> init p1
> begin tx1
> prepare tx1 yes
> decide tx1 commit
> apply tx1
> crash
> recover
> log
$ records | ["begin:tx1","prepared:tx1","commit:tx1"] | log.records after crash 0
> outcome tx1
~ state | "" | -
~ applied | true | -
> crash
> recover
> log
$ records | ["begin:tx1","prepared:tx1","commit:tx1"] | log.records after crash 1
> outcome tx1
~ state | "" | -
~ applied | true | -
> crash
> recover
> log
$ records | ["begin:tx1","prepared:tx1","commit:tx1"] | log.records after crash 2
> outcome tx1
~ state | "" | -
~ applied | true | -
> crash
> recover
> log
$ records | ["begin:tx1","prepared:tx1","commit:tx1"] | log.records after crash 3
@ 9 outcome tx1
= state | "committed" | outcome after crash 0
= applied | true | applied after crash 0
@ 13 outcome tx1
= state | "committed" | outcome after crash 1
= applied | true | applied after crash 1
@ 17 outcome tx1
= state | "committed" | outcome after crash 2
= applied | true | applied after crash 2
> outcome tx1
= state | "committed" | outcome after crash 3
= applied | true | applied after crash 3"#;

/// Several transactions recover independently.
pub const SEVERAL_TRANSACTIONS_RECOVER_INDEPENDENTLY: &'static str = r#"four transactions in four different states across one crash
> init p1
> begin tx1
> prepare tx1 yes
> begin tx2
> prepare tx2 yes
> decide tx2 commit
> begin tx3
> begin tx4
> prepare tx4 yes
> decide tx4 abort
> crash
> recover
> outcome tx1
@ 13 outcome
& state | "" | -
> outcome tx2
@ 14 outcome
& state | "" | -
> outcome tx3
@ 15 outcome
& state | "" | -
> outcome tx4
@ 16 outcome
& state | "" | -
@ 12 recover
$ pending | ["tx1"] | recover.pending
$ decided | ["tx2","tx3","tx4"] | recover.decided
= actions.tx1 | "ask-coordinator" | recover.actions.tx1
= actions.tx2 | "redo" | recover.actions.tx2
= actions.tx3 | "abort" | recover.actions.tx3
= actions.tx4 | "none" | recover.actions.tx4
# - | ["prepared","committed","aborted","aborted"] | the four outcomes"#;

/// What somebody stuck on this stage is told, one after the other.
pub const HINTS: [&'static str; 4] = [
    "Topic `commit-recovery`: a durable log, a durable store, and volatile state a crash eats",
    "The prepare record is forced out before the vote is sent, never after",
    "No prepare record means presumed abort; a prepare record with no decision means ask",
    "A commit record whose effect never landed is redone, and redo is idempotent",
];

/// The tests of this stage.
pub const TESTS: [TestRow; 14] = [
    (
        "a fresh participant has an empty log",
        "a_fresh_participant",
        false,
        false,
        0,
        0,
        A_FRESH_PARTICIPANT,
    ),
    (
        "the prepare record is forced out before the vote is sent",
        "the_prepare_record_is_forced_out",
        false,
        false,
        0,
        0,
        THE_PREPARE_RECORD_IS_FORCED_OUT,
    ),
    (
        "a crash takes the volatile state and leaves the log",
        "a_crash_takes_only_volatile_state",
        false,
        false,
        0,
        0,
        A_CRASH_TAKES_ONLY_VOLATILE_STATE,
    ),
    (
        "a transaction that was never prepared is aborted on recovery",
        "an_unprepared_transaction_is_presumed_aborted",
        false,
        false,
        0,
        0,
        AN_UNPREPARED_TRANSACTION_IS_PRESUMED_ABORTED,
    ),
    (
        "a no vote is logged as an abort and needs nobody's permission",
        "a_no_vote_is_logged_as_an_abort",
        false,
        false,
        0,
        0,
        A_NO_VOTE_IS_LOGGED_AS_AN_ABORT,
    ),
    (
        "a prepared transaction asks rather than guessing",
        "a_prepared_transaction_asks",
        false,
        false,
        0,
        0,
        A_PREPARED_TRANSACTION_ASKS,
    ),
    (
        "the coordinator's answer resolves a prepared transaction",
        "the_coordinator_resolves_it",
        false,
        false,
        0,
        0,
        THE_COORDINATOR_RESOLVES_IT,
    ),
    (
        "a commit record whose effect never landed is redone",
        "a_commit_that_never_landed_is_redone",
        false,
        false,
        0,
        0,
        A_COMMIT_THAT_NEVER_LANDED_IS_REDONE,
    ),
    ("redo is idempotent", "redo_is_idempotent", false, false, 0, 0, REDO_IS_IDEMPOTENT),
    (
        "an aborted transaction needs nothing doing",
        "an_aborted_transaction_needs_nothing",
        false,
        false,
        0,
        0,
        AN_ABORTED_TRANSACTION_NEEDS_NOTHING,
    ),
    (
        "recovering twice says the same thing",
        "recovery_is_idempotent",
        true,
        false,
        0,
        0,
        RECOVERY_IS_IDEMPOTENT,
    ),
    (
        "the log survives any number of crashes",
        "the_log_survives_repeated_crashes",
        true,
        false,
        0,
        0,
        THE_LOG_SURVIVES_REPEATED_CRASHES,
    ),
    (
        "several transactions recover independently",
        "several_transactions_recover_independently",
        true,
        false,
        0,
        0,
        SEVERAL_TRANSACTIONS_RECOVER_INDEPENDENTLY,
    ),
    (
        "a seeded sweep of crash points recovers exactly what the log implies",
        "a_seeded_sweep_of_crash_points",
        true,
        false,
        0,
        0,
        "",
    ),
];

/// The worked examples of this stage.
pub const EXAMPLES: [PrimRow; 2] = [
    (
        "A participant that crashed while prepared",
        "commit-recovery",
        "init p1
begin tx1
prepare tx1 yes
crash
outcome tx1
recover
outcome tx1",
        "a yes vote, a crash, and then a restart",
        "unknown while it is down, and prepared once it has read its own log back",
        "The crash took everything the process believed and left the log untouched. `prepared` \
         is the honest answer and the only safe one: the coordinator may have committed, and it \
         may have aborted, and nothing on this machine can tell which.",
    ),
    (
        "A commit whose effect never landed",
        "commit-recovery",
        "init p1
begin tx1
prepare tx1 yes
decide tx1 commit
crash
recover
outcome tx1",
        "a decision written to the log, and a crash before the store was touched",
        "committed with applied false, and an action of redo",
        "Logging the decision before applying it is what makes this recoverable at all. Recovery \
         redoes the effect from the record; because redo is idempotent, doing it again after a \
         second crash costs nothing.",
    ),
];

/// The worked examples of this stage.
pub fn examples() -> (examples: Vec<ExampleSpec>)
    ensures
        described(examples@) == EXAMPLES@.map_values(|row: PrimRow| prim_described(row)),
{
    prim_examples(EXAMPLES)
}

/// What the rows say of this stage's place in the suite.
proof fn lemma_in_place()
    ensures
        rows_written(TESTS@),
        rows_on_topic(EXAMPLES@, HINTS[0]@),
{
    assert(rows_written(TESTS@)) by {
        reveal_strlit("placeholder");
        reveal_strlit("a fresh participant has an empty log");
        assert(TESTS@[0].0@.len() == 36);
        reveal_strlit("the prepare record is forced out before the vote is sent");
        assert(TESTS@[1].0@.len() == 56);
        reveal_strlit("a crash takes the volatile state and leaves the log");
        assert(TESTS@[2].0@.len() == 51);
        reveal_strlit("a transaction that was never prepared is aborted on recovery");
        assert(TESTS@[3].0@.len() == 60);
        reveal_strlit("a no vote is logged as an abort and needs nobody's permission");
        assert(TESTS@[4].0@.len() == 61);
        reveal_strlit("a prepared transaction asks rather than guessing");
        assert(TESTS@[5].0@.len() == 48);
        reveal_strlit("the coordinator's answer resolves a prepared transaction");
        assert(TESTS@[6].0@.len() == 56);
        reveal_strlit("a commit record whose effect never landed is redone");
        assert(TESTS@[7].0@.len() == 51);
        reveal_strlit("redo is idempotent");
        assert(TESTS@[8].0@.len() == 18);
        reveal_strlit("an aborted transaction needs nothing doing");
        assert(TESTS@[9].0@.len() == 42);
        reveal_strlit("recovering twice says the same thing");
        assert(TESTS@[10].0@.len() == 36);
        reveal_strlit("the log survives any number of crashes");
        assert(TESTS@[11].0@.len() == 38);
        reveal_strlit("several transactions recover independently");
        assert(TESTS@[12].0@.len() == 42);
        reveal_strlit("a seeded sweep of crash points recovers exactly what the log implies");
        assert(TESTS@[13].0@.len() == 68);
        assert forall|i: int| 0 <= i < 14 implies (#[trigger] TESTS@[i]).0@ != "placeholder"@ by {
            assert(i == 0 || i == 1 || i == 2 || i == 3 || i == 4 || i == 5 || i == 6 || i == 7 || i == 8 || i == 9 || i == 10 || i == 11 || i == 12 || i == 13);
        }
    }
    assert(names_topic_at(HINTS[0]@, "commit-recovery"@, 6)) by {
        reveal_strlit("`");
        reveal_strlit("commit-recovery");
        reveal_strlit("Topic `commit-recovery`: a durable log, a durable store, and volatile state a crash eats");
        assert(HINTS[0]@.subrange(6, 23) =~= "`"@ + "commit-recovery"@ + "`"@);
    }
    reveal_strlit("init ");
    assert(EXAMPLES@[0].2@.len() >= 5 && EXAMPLES@[0].2@.take(5) =~= "init "@) by {
        reveal_strlit(
            "init p1\n\
             begin tx1\n\
             prepare tx1 yes\n\
             crash\n\
             outcome tx1\n\
             recover\n\
             outcome tx1",
        );
    }
    assert(EXAMPLES@[1].2@.len() >= 5 && EXAMPLES@[1].2@.take(5) =~= "init "@) by {
        reveal_strlit(
            "init p1\n\
             begin tx1\n\
             prepare tx1 yes\n\
             decide tx1 commit\n\
             crash\n\
             recover\n\
             outcome tx1",
        );
    }
}

/// What stage 65 holds.
pub open spec fn is_stage(s: Stage) -> bool {
    &&& s.number == 65
    &&& s.slug == "commit_recovery"
    &&& s.name == "Commit recovery from the log"
    &&& s.ext == false
    &&& s.ladder == Ladder::Algorithms
    &&& s.hints == HINTS
    &&& s.tests@ == tests_of(TESTS@)
    &&& described(s.examples@) == EXAMPLES@.map_values(|row: PrimRow| prim_described(row))
}

/// Stage 65.
pub fn stage() -> (s: Stage)
    ensures
        is_stage(s),
        s.in_place(),
{
    let s = Stage {
        number: 65,
        slug: "commit_recovery",
        name: "Commit recovery from the log",
        ext: false,
        ladder: Ladder::Algorithms,
        hints: HINTS,
        examples: examples(),
        tests: tests(TESTS),
    };
    proof {
        reveal(Stage::in_place);
        assert(s.examples@.len() == described(s.examples@).len());
        lemma_in_place();
        assert forall|i: int| 0 <= i < s.examples@.len() implies opens_topic(
            #[trigger] s.examples@[i]@,
            s.hints[0]@,
        ) by {
            assert(described(s.examples@)[i] == prim_described(EXAMPLES@[i]));
        }
    }
    s
}

} // verus!
