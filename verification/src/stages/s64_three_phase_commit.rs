//! Stage 64: Three-phase commit.
//!
//! Before it commits, the coordinator tells everybody that everybody voted yes. A participant that
//! has heard the pre-commit can decide commit on its own, and one that has not can decide abort, so
//! nobody is ever blocked, as long as the pre-commit reached everybody or nobody.
use rand::rngs::StdRng;
use vstd::prelude::*;
use crate::check::{
    all_hold, is_bool, is_text, lemma_until_failure_rest, lemma_until_failure_step, name_trial, note_seed,
    run_passes_where_every_step_does, seed_note, trial_path, until_failure, Check, Ruling, Verdict,
};
use crate::draw::draw_ratio;
use crate::examples::{described, prim_described, prim_examples, ExampleSpec, PrimRow};
use crate::stages::s63_two_phase_commit::{
    about, about_three, name_about, name_vote, participant, put_three, vote_command,
};
use crate::stages::{names_topic_at, opens_topic, rows_on_topic, rows_written, tests, tests_of, Ladder, Stage, TestRow};
use crate::text::{nat_text, put_text, texts};

verus! {

/// What a participant decides.
#[derive(Clone, Copy, Debug, PartialEq, Eq, Structural)]
pub enum Decision {
    Commit,
    Abort,
}

impl Decision {
    /// The decision as a `p-timeout` answer spells it.
    pub open spec fn text(self) -> Seq<char> {
        match self {
            Decision::Commit => "commit"@,
            Decision::Abort => "abort"@,
        }
    }

    /// The decision as a `p-timeout` answer spells it.
    pub fn name(self) -> (s: &'static str)
        ensures
            s@ == self.text(),
    {
        match self {
            Decision::Commit => "commit",
            Decision::Abort => "abort",
        }
    }
}

/// One seeded trial: who voted yes, and whether the pre-commit round reached everybody.
#[derive(Debug)]
pub struct Trial {
    /// True where that participant voted yes.
    pub votes: [bool; 3],
    /// True when the pre-commit reached every participant rather than none of them.
    pub complete: bool,
}

/// Everybody voted yes.
pub open spec fn all_yes(votes: Seq<bool>) -> bool {
    forall|i: int| 0 <= i < votes.len() ==> #[trigger] votes[i]
}

/// The decision every participant must reach: commit needs every vote and a pre-commit round that
/// everybody saw.
pub open spec fn expected_of(votes: Seq<bool>, complete: bool) -> Decision {
    if all_yes(votes) && complete {
        Decision::Commit
    } else {
        Decision::Abort
    }
}

impl Trial {
    /// The decision every participant must reach, from the termination rule alone.
    ///
    /// Commit needs every vote and a pre-commit round that everybody saw; anything else is
    /// an abort. The rule is only safe because these two are the only possibilities here.
    pub fn expected(&self) -> (d: Decision)
        ensures
            d == expected_of(self.votes@, self.complete),
    {
        let everybody = self.votes[0] && self.votes[1] && self.votes[2];
        proof {
            assert(all_yes(self.votes@) ==> self.votes@[0] && self.votes@[1] && self.votes@[2]);
            assert(everybody ==> all_yes(self.votes@));
        }
        if everybody && self.complete {
            Decision::Commit
        } else {
            Decision::Abort
        }
    }
}

/// Which participants the pre-commit reached: it is only sent once everybody has voted yes.
pub open spec fn precommitted(votes: Seq<bool>, reached: Set<int>) -> Set<int> {
    if all_yes(votes) {
        reached
    } else {
        Set::empty()
    }
}

/// The termination rule: a participant that waits in vain for the coordinator commits where the
/// pre-commit reached it, and aborts where it did not.
pub open spec fn decides(votes: Seq<bool>, reached: Set<int>, i: int) -> Decision {
    if precommitted(votes, reached).contains(i) {
        Decision::Commit
    } else {
        Decision::Abort
    }
}

/// Where the pre-commit reaches everybody or nobody, the termination rule never lets two
/// participants differ: every one of them reaches the expected decision.
pub proof fn all_or_nothing_never_diverges(votes: Seq<bool>, complete: bool, reached: Set<int>, i: int)
    requires
        forall|k: int| 0 <= k < votes.len() ==> #[trigger] reached.contains(k) == complete,
        0 <= i < votes.len(),
    ensures
        decides(votes, reached, i) == expected_of(votes, complete),
{
    assert(reached.contains(i) == complete);
}

/// A pre-commit that reached one participant and not another splits them: no further silence
/// repairs what they then decide.
pub proof fn half_delivered_round_splits(votes: Seq<bool>, reached: Set<int>, i: int, j: int)
    requires
        all_yes(votes),
        reached.contains(i),
        !reached.contains(j),
    ensures
        decides(votes, reached, i) == Decision::Commit,
        decides(votes, reached, j) == Decision::Abort,
{
}

/// A participant never waits for ever, and never commits what somebody refused.
pub proof fn one_no_aborts_everybody(votes: Seq<bool>, reached: Set<int>, i: int, j: int)
    requires
        0 <= j < votes.len(),
        !votes[j],
    ensures
        decides(votes, reached, i) == Decision::Abort,
        expected_of(votes, true) == Decision::Abort,
{
}

/// Twenty seeded trials: who votes yes, and whether the pre-commit round reaches everybody or nobody.
pub fn plan(rng: &mut StdRng) -> (trials: Vec<Trial>)
    ensures
        trials@.len() == 20,
{
    let mut trials: Vec<Trial> = Vec::new();
    while trials.len() < 20
        invariant
            trials@.len() <= 20,
        decreases 20 - trials@.len(),
    {
        let first = draw_ratio(rng, 17, 20);
        let second = draw_ratio(rng, 17, 20);
        let third = draw_ratio(rng, 17, 20);
        let complete = draw_ratio(rng, 1, 2);
        trials.push(Trial { votes: [first, second, third], complete });
    }
    trials
}

/// How a trial is driven: the votes, the pre-commit round where everybody agreed, then the coordinator
/// dies and everybody times out.
pub open spec fn driven(votes: Seq<bool>, complete: bool) -> Seq<Seq<char>> {
    seq![
        r#"init ["p1","p2","p3"]"#@,
        vote_command(votes, 0),
        vote_command(votes, 1),
        vote_command(votes, 2),
    ] + (if !all_yes(votes) {
        Seq::empty()
    } else if complete {
        seq!["pre-commit"@] + about_three("p-precommit "@)
    } else {
        seq!["pre-commit"@]
    }) + seq!["crash coordinator"@] + about_three("p-timeout "@) + seq!["decisions"@]
}

impl Trial {
    /// The commands that drive the trial; the last four are asked for what was decided.
    pub fn commands(&self) -> (all: Vec<String>)
        ensures
            texts(all@) == driven(self.votes@, self.complete),
    {
        let everybody = self.votes[0] && self.votes[1] && self.votes[2];
        proof {
            assert(all_yes(self.votes@) ==> self.votes@[0] && self.votes@[1] && self.votes@[2]);
            assert(everybody ==> all_yes(self.votes@));
        }
        let mut all: Vec<String> = Vec::new();
        put_text(&mut all, String::from_str(r#"init ["p1","p2","p3"]"#));
        put_text(&mut all, name_vote(&self.votes, 0));
        put_text(&mut all, name_vote(&self.votes, 1));
        put_text(&mut all, name_vote(&self.votes, 2));
        if everybody {
            put_text(&mut all, String::from_str("pre-commit"));
            if self.complete {
                put_three(&mut all, "p-precommit ");
            }
        }
        put_text(&mut all, String::from_str("crash coordinator"));
        put_three(&mut all, "p-timeout ");
        put_text(&mut all, String::from_str("decisions"));
        assert(texts(all@) =~= driven(self.votes@, self.complete));
        all
    }
}

/// What a trial came to: what each participant decided, and whether the program calls that inconsistent.
#[derive(Debug)]
pub struct Observed {
    pub decisions: Vec<String>,
    pub inconsistent: bool,
}

/// What the report says of one trial: what each participant decided, and that nothing is inconsistent.
pub open spec fn trial_rulings(t: nat, want: Seq<char>, decisions: Seq<Seq<char>>, inconsistent: bool) -> Seq<
    Ruling,
> {
    Seq::new(
        decisions.len(),
        |i: int| is_text(trial_path(t, participant(i) + " decision"@), want, decisions[i]),
    ).push(is_bool(trial_path(t, "inconsistent"@), false, inconsistent))
}

/// What the report says of every trial that was observed.
pub open spec fn all_rulings(trials: Seq<Trial>, observed: Seq<Observed>) -> Seq<Seq<Ruling>> {
    Seq::new(
        observed.len(),
        |t: int|
            trial_rulings(
                t as nat,
                expected_of(trials[t].votes@, trials[t].complete).text(),
                texts(observed[t].decisions@),
                observed[t].inconsistent,
            ),
    )
}

/// Holds what the participants decided against the trials, up to the first trial that differs.
pub fn judge_trials(seed: u64, trials: &Vec<Trial>, observed: &Vec<Observed>) -> (c: Check)
    requires
        observed@.len() <= trials@.len(),
        forall|t: int| 0 <= t < observed@.len() ==> (#[trigger] observed@[t]).decisions@.len() <= 3,
    ensures
        c@ == (Verdict {
            subject: "twenty seeded runs with an all-or-nothing pre-commit round"@,
            rulings: until_failure(all_rulings(trials@, observed@)),
            notes: seq![seed_note(seed as nat, trials@.len(), "trials"@)],
            blocks: Seq::empty(),
            remarks: Seq::empty(),
        }),
{
    let mut c = Check::new("twenty seeded runs with an all-or-nothing pre-commit round");
    c.note(note_seed(seed, trials.len(), "trials").as_str());
    let ghost groups = all_rulings(trials@, observed@);
    let mut t: usize = 0;
    assert(groups.take(0) =~= Seq::empty());
    while t < observed.len() && c.ok()
        invariant
            t <= observed@.len() <= trials@.len(),
            forall|t: int| 0 <= t < observed@.len() ==> (#[trigger] observed@[t]).decisions@.len() <= 3,
            groups == all_rulings(trials@, observed@),
            c@.subject == "twenty seeded runs with an all-or-nothing pre-commit round"@,
            c@.quiet(),
            c@.notes == seq![seed_note(seed as nat, trials@.len(), "trials"@)],
            c@.rulings == until_failure(groups.take(t as int)),
        decreases observed@.len() - t,
    {
        let want = trials[t].expected().name();
        let decisions = &observed[t].decisions;
        let ghost before = c@.rulings;
        let ghost group = groups[t as int];
        let mut i: usize = 0;
        assert(before + group.take(0) =~= before);
        while i < decisions.len()
            invariant
                i <= decisions@.len() <= 3,
                t < observed@.len(),
                group == trial_rulings(
                    t as nat,
                    want@,
                    texts(decisions@),
                    observed@[t as int].inconsistent,
                ),
                c@.subject == "twenty seeded runs with an all-or-nothing pre-commit round"@,
                c@.quiet(),
                c@.notes == seq![seed_note(seed as nat, trials@.len(), "trials"@)],
                c@.rulings == before + group.take(i as int),
            decreases decisions@.len() - i,
        {
            let mut what = name_about("", i);
            what.append(" decision");
            assert(what@ =~= participant(i as int) + " decision"@) by {
                reveal_strlit("");
            }
            c.eq_text(name_trial(t, what.as_str()).as_str(), want, decisions[i].as_str());
            assert(c@.rulings =~= before + group.take(i + 1));
            i += 1;
        }
        c.eq_bool(name_trial(t, "inconsistent").as_str(), false, observed[t].inconsistent);
        proof {
            assert(c@.rulings =~= before + group);
            lemma_until_failure_step(groups, t as int);
        }
        t += 1;
    }
    proof {
        lemma_until_failure_rest(groups, t as int);
    }
    c
}

/// The participants that a trial's commands take the pre-commit to.
pub open spec fn reached_by(commands: Seq<Seq<char>>) -> Set<int> {
    Set::new(|i: int| 0 <= i < 3 && commands.contains("p-precommit p"@ + nat_text((i + 1) as nat)))
}

proof fn lemma_three(verb: Seq<char>, c: Seq<char>)
    ensures
        about_three(verb).contains(c) <==> exists|i: int| 0 <= i < 3 && c == #[trigger] about(verb, i),
{
    let all = about_three(verb);
    assert(all[0] == about(verb, 0) && all[1] == about(verb, 1) && all[2] == about(verb, 2));
}

proof fn lemma_one(c: Seq<char>, x: Seq<char>)
    ensures
        seq![c].contains(x) <==> c == x,
{
    assert(seq![c][0] == c);
}

/// The parts of a trial: what begins it, what makes the pre-commit round, and what ends it.
proof fn lemma_driven_parts(votes: Seq<bool>, complete: bool, c: Seq<char>)
    ensures
        driven(votes, complete).contains(c) <==> {
            ||| c == r#"init ["p1","p2","p3"]"#@
            ||| exists|i: usize| i < 3 && c == #[trigger] vote_command(votes, i)
            ||| all_yes(votes) && c == "pre-commit"@
            ||| all_yes(votes) && complete && about_three("p-precommit "@).contains(c)
            ||| c == "crash coordinator"@
            ||| about_three("p-timeout "@).contains(c)
            ||| c == "decisions"@
        },
{
    let head = seq![
        r#"init ["p1","p2","p3"]"#@,
        vote_command(votes, 0),
        vote_command(votes, 1),
        vote_command(votes, 2),
    ];
    assert(head[0] == r#"init ["p1","p2","p3"]"#@ && head[1] == vote_command(votes, 0) && head[2]
        == vote_command(votes, 1) && head[3] == vote_command(votes, 2));
    assert(head.contains(c) <==> c == r#"init ["p1","p2","p3"]"#@ || exists|i: usize|
        i < 3 && c == #[trigger] vote_command(votes, i)) by {
        if exists|i: usize| i < 3 && c == #[trigger] vote_command(votes, i) {
            let i = choose|i: usize| i < 3 && c == #[trigger] vote_command(votes, i);
            assert(head[i as int + 1] == c);
        }
    }
    let round = if !all_yes(votes) {
        Seq::<Seq<char>>::empty()
    } else if complete {
        seq!["pre-commit"@] + about_three("p-precommit "@)
    } else {
        seq!["pre-commit"@]
    };
    let crash = seq!["crash coordinator"@];
    let timeouts = about_three("p-timeout "@);
    let end = seq!["decisions"@];
    lemma_one("pre-commit"@, c);
    lemma_one("crash coordinator"@, c);
    lemma_one("decisions"@, c);
    vstd::seq_lib::lemma_seq_concat_contains_all_elements(
        seq!["pre-commit"@],
        about_three("p-precommit "@),
        c,
    );
    vstd::seq_lib::lemma_seq_concat_contains_all_elements(head, round, c);
    vstd::seq_lib::lemma_seq_concat_contains_all_elements(head + round, crash, c);
    vstd::seq_lib::lemma_seq_concat_contains_all_elements(head + round + crash, timeouts, c);
    vstd::seq_lib::lemma_seq_concat_contains_all_elements(head + round + crash + timeouts, end, c);
    assert(driven(votes, complete) == head + round + crash + timeouts + end);
}

proof fn lemma_reached(votes: Seq<bool>, complete: bool, i: int)
    requires
        0 <= i < 3,
    ensures
        reached_by(driven(votes, complete)).contains(i) <==> all_yes(votes) && complete,
{
    let c = "p-precommit p"@ + nat_text((i + 1) as nat);
    reveal_strlit("p-precommit p");
    reveal_strlit("p-precommit ");
    reveal_strlit("p");
    reveal_strlit("p-timeout ");
    reveal_strlit("pre-commit");
    reveal_strlit("crash coordinator");
    reveal_strlit("decisions");
    reveal_strlit(r#"init ["p1","p2","p3"]"#);
    reveal_strlit("vote ");
    lemma_driven_parts(votes, complete, c);
    assert(c[0] == 'p' && c[1] == '-' && c[2] == 'p');
    assert(c =~= about("p-precommit "@, i));
    lemma_three("p-precommit "@, c);
    lemma_three("p-timeout "@, c);
    assert forall|k: usize| k < 3 implies c != #[trigger] vote_command(votes, k) by {
        assert(vote_command(votes, k)[0] == 'v');
    }
    assert forall|k: int| 0 <= k < 3 implies c != #[trigger] about("p-timeout "@, k) by {
        assert(about("p-timeout "@, k)[2] == 't');
    }
    assert("pre-commit"@[1] == 'r');
    assert("crash coordinator"@[0] == 'c');
    assert("decisions"@[0] == 'd');
    assert(r#"init ["p1","p2","p3"]"#@[0] == 'i');
}

/// A trial's commands and the decision it expects belong together: take the pre-commit to the participants
/// that the commands take it to, and the termination rule makes every one of them decide as expected. A
/// unanimous trial reaches all three where the round is complete and nobody where it is not, and one with a
/// no in it reaches nobody.
pub proof fn commands_bring_about_the_expected_decision(votes: Seq<bool>, complete: bool, i: int)
    requires
        votes.len() == 3,
        0 <= i < 3,
    ensures
        decides(votes, reached_by(driven(votes, complete)), i) == expected_of(votes, complete),
        reached_by(driven(votes, complete)).contains(i) <==> votes[0] && votes[1] && votes[2] && complete,
        driven(votes, complete).contains("p-precommit p"@ + nat_text((i + 1) as nat)) ==> expected_of(
            votes,
            complete,
        ) == Decision::Commit,
{
    lemma_reached(votes, complete, i);
}

/// Everybody votes as the trial has it, and the coordinator announces a pre-commit exactly where nobody
/// voted no.
pub proof fn commands_cast_the_votes(votes: Seq<bool>, complete: bool, i: int)
    requires
        votes.len() == 3,
        0 <= i < 3,
    ensures
        driven(votes, complete)[i + 1] == "vote p"@ + nat_text((i + 1) as nat) + (if votes[i] {
            " yes"@
        } else {
            " no"@
        }),
        driven(votes, complete).contains("pre-commit"@) <==> votes[0] && votes[1] && votes[2],
{
    reveal_strlit("vote p");
    reveal_strlit("vote ");
    reveal_strlit("p");
    assert("vote p"@ =~= "vote "@ + "p"@);
    assert(about("vote "@, i) =~= "vote p"@ + nat_text((i + 1) as nat));
    reveal_strlit("pre-commit");
    reveal_strlit("p-timeout ");
    reveal_strlit("crash coordinator");
    reveal_strlit("decisions");
    reveal_strlit(r#"init ["p1","p2","p3"]"#);
    reveal_strlit("p-precommit ");
    lemma_driven_parts(votes, complete, "pre-commit"@);
    lemma_three("p-precommit "@, "pre-commit"@);
    lemma_three("p-timeout "@, "pre-commit"@);
    assert forall|k: usize| k < 3 implies "pre-commit"@ != #[trigger] vote_command(votes, k) by {
        assert(vote_command(votes, k)[0] == 'v');
    }
    assert forall|k: int| 0 <= k < 3 implies "pre-commit"@ != #[trigger] about("p-timeout "@, k) by {
        assert(about("p-timeout "@, k)[1] == '-');
    }
    assert("pre-commit"@[1] == 'r');
    assert("crash coordinator"@[0] == 'c');
    assert("decisions"@[0] == 'd');
    assert(r#"init ["p1","p2","p3"]"#@[0] == 'i');
}

/// A trial ends with the coordinator's crash, a timeout of everybody and the question what was decided.
pub proof fn trial_ends_with_a_crash_and_timeouts(votes: Seq<bool>, complete: bool, i: int)
    requires
        0 <= i < 3,
    ensures
        driven(votes, complete).len() >= 9,
        driven(votes, complete)[0] == r#"init ["p1","p2","p3"]"#@,
        driven(votes, complete)[driven(votes, complete).len() - 5] == "crash coordinator"@,
        driven(votes, complete)[driven(votes, complete).len() - 4 + i] == "p-timeout p"@ + nat_text(
            (i + 1) as nat,
        ),
        driven(votes, complete).last() == "decisions"@,
        driven(votes, complete).len() == 9 + (if !all_yes(votes) {
            0int
        } else if complete {
            4
        } else {
            1
        }),
        complete && all_yes(votes) ==> driven(votes, complete)[4] == "pre-commit"@ && driven(votes, complete)[5 + i]
            == "p-precommit p"@ + nat_text((i + 1) as nat),
{
    reveal_strlit("p");
    reveal_strlit("p-timeout ");
    reveal_strlit("p-timeout p");
    reveal_strlit("p-precommit ");
    reveal_strlit("p-precommit p");
    assert(about("p-timeout "@, i) =~= "p-timeout p"@ + nat_text((i + 1) as nat));
    assert(about("p-precommit "@, i) =~= "p-precommit p"@ + nat_text((i + 1) as nat));
}

/// A decision is to commit exactly where the pre-commit reached everybody and nobody voted no.
pub proof fn commit_is_expected_where_everything_arrived(votes: Seq<bool>, complete: bool)
    ensures
        expected_of(votes, complete) == Decision::Commit <==> complete && forall|i: int|
            0 <= i < votes.len() ==> #[trigger] votes[i],
        Decision::Commit.text() == "commit"@,
        Decision::Abort.text() == "abort"@,
{
}

/// A participant that has the pre-commit commits and one that has not aborts; nobody has it where somebody
/// voted no.
pub proof fn termination_goes_by_the_pre_commit(votes: Seq<bool>, reached: Set<int>, i: int)
    ensures
        decides(votes, reached, i) == Decision::Commit <==> reached.contains(i) && forall|k: int|
            0 <= k < votes.len() ==> #[trigger] votes[k],
{
}

/// What was observed of a trial is what was expected: everybody decided so, and consistently.
pub open spec fn decided_so(trial: Trial, got: Observed) -> bool {
    !got.inconsistent && forall|i: int|
        0 <= i < got.decisions@.len() ==> texts(got.decisions@)[i] == (if trial.complete && all_yes(trial.votes@) {
            "commit"@
        } else {
            "abort"@
        })
}

/// The trials pass exactly where every one of them was decided as expected.
pub proof fn trials_pass_where_everybody_decides_so(trials: Seq<Trial>, observed: Seq<Observed>)
    requires
        observed.len() <= trials.len(),
    ensures
        all_hold(until_failure(all_rulings(trials, observed))) <==> forall|t: int|
            0 <= t < observed.len() ==> decided_so(trials[t], #[trigger] observed[t]),
{
    let groups = all_rulings(trials, observed);
    run_passes_where_every_step_does(groups);
    assert forall|t: int| 0 <= t < observed.len() implies (all_hold(#[trigger] groups[t]) <==> decided_so(
        trials[t],
        observed[t],
    )) by {
        let g = groups[t];
        let states = texts(observed[t].decisions@);
        assert(g.len() == states.len() + 1);
        if all_hold(g) {
            assert(g[states.len() as int].holds());
            assert forall|i: int| 0 <= i < states.len() implies states[i] == (if trials[t].complete && all_yes(
                trials[t].votes@,
            ) {
                "commit"@
            } else {
                "abort"@
            }) by {
                assert(g[i].holds());
            }
        }
    }
    if all_hold(until_failure(groups)) {
        assert forall|t: int| 0 <= t < observed.len() implies decided_so(trials[t], #[trigger] observed[t]) by {
            assert(all_hold(groups[t]));
        }
    } else {
        let t = choose|t: int| 0 <= t < groups.len() && !all_hold(#[trigger] groups[t]);
        assert(!decided_so(trials[t], observed[t]));
    }
}

/// The topic the program is asked about.
pub const TOPIC: &'static str = "three-phase-commit";

/// A fresh transaction has every participant working.
pub const A_FRESH_TRANSACTION: &'static str = r#"a transaction nobody has voted on
> init ["p1","p2","p3"]
@ 1 init
$ participants | ["p1","p2","p3"] | init.participants
> p-state p1
> decisions
@ 1 init
= state | "init" | init.state
@ 2 p-state p1
= state | "working" | p-state(p1).state
@ 3 decisions
= decisions.p1 | null | decisions.decisions.p1
= inconsistent | false | decisions.inconsistent"#;

/// A pre-commit before every yes vote is refused.
pub const PRE_COMMIT_NEEDS_EVERY_YES: &'static str = r#"a pre-commit sent before the vote was unanimous
> init ["p1","p2","p3"]
> vote p1 yes
> vote p2 yes
> pre-commit
> vote p3 no
> pre-commit
@ 4 pre-commit
= ok | false | the early pre-commit's ok
= sent | 0 | the early pre-commit's sent
@ 6 pre-commit
= ok | false | the pre-commit after a no"#;

/// One no aborts before the pre-commit round begins.
pub const ONE_NO_ABORTS_EARLY: &'static str = r#"a refusal that arrives before the pre-commit round
> init ["p1","p2","p3"]
> vote p1 yes
> vote p2 no
> deliver p1
> deliver p3
> decisions
@ 3 vote p2 no
= decision | "abort" | vote(p2, no).decision
@ 4 deliver p1
= state | "aborted" | deliver(p1).state
@ 5 deliver p3
= state | "aborted" | deliver(p3).state
@ 6 decisions
= inconsistent | false | decisions.inconsistent"#;

/// The happy path commits every participant.
pub const THE_HAPPY_PATH: &'static str = r#"a unanimous transaction taken all the way through
> init ["p1","p2","p3"]
> vote p1 yes
> vote p2 yes
> vote p3 yes
> pre-commit
> p-precommit p1
> p-precommit p2
> p-precommit p3
> ack p1
> ack p2
> commit
> deliver p1
> deliver p2
> deliver p3
> decisions
@ 5 pre-commit
= ok | true | pre-commit.ok
= sent | 3 | pre-commit.sent
@ 10 ack p2
= acks | 2 | ack(p2).acks
@ 11 commit
= ok | true | commit.ok
@ 15 decisions
= decisions.p1 | "commit" | decisions.decisions.p1
= decisions.p2 | "commit" | decisions.decisions.p2
= decisions.p3 | "commit" | decisions.decisions.p3
= inconsistent | false | decisions.inconsistent"#;

/// A commit without a majority of acknowledgements is refused.
pub const COMMIT_NEEDS_A_MAJORITY_OF_ACKS: &'static str = r#"a commit attempted on one acknowledgement, and then on two
> init ["p1","p2","p3"]
> vote p1 yes
> vote p2 yes
> vote p3 yes
> pre-commit
> p-precommit p1
> ack p1
> commit
> p-precommit p2
> ack p2
> commit
@ 8 commit
= ok | false | the early commit's ok
= decision | null | the early commit's decision
@ 11 commit
= ok | true | the later commit's ok
= decision | "commit" | the later commit's decision"#;

/// A pre-committed participant commits on its own when the coordinator dies.
pub const A_PRE_COMMITTED_PARTICIPANT_COMMITS: &'static str = r#"a pre-committed participant whose coordinator went away
> init ["p1","p2","p3"]
> vote p1 yes
> vote p2 yes
> vote p3 yes
> pre-commit
> p-precommit p1
> p-precommit p2
> p-precommit p3
> crash coordinator
> p-timeout p1
> p-state p1
> decisions
@ 10 p-timeout p1
= decision | "commit" | p-timeout(p1).decision
= blocked | false | p-timeout(p1).blocked
= reason | "pre-commit received, every participant voted yes" | p-timeout(p1).reason
@ 11 p-state p1
= state | "committed" | p-state(p1).state
@ 12 decisions
= inconsistent | false | decisions.inconsistent"#;

/// A participant that never saw the pre-commit aborts on its own.
pub const A_PREPARED_PARTICIPANT_ABORTS: &'static str = r#"three prepared participants with no pre-commit between them
> init ["p1","p2","p3"]
> vote p1 yes
> vote p2 yes
> vote p3 yes
> crash coordinator
> p-timeout p1
@ 6 p-timeout
= decision | "abort" | p-timeout(p1).decision
= blocked | false | p-timeout(p1).blocked
= reason | "no pre-commit received" | p-timeout(p1).reason
> p-timeout p2
@ 7 p-timeout
= decision | "abort" | p-timeout(p2).decision
= blocked | false | p-timeout(p2).blocked
= reason | "no pre-commit received" | p-timeout(p2).reason
> p-timeout p3
@ 8 p-timeout
= decision | "abort" | p-timeout(p3).decision
= blocked | false | p-timeout(p3).blocked
= reason | "no pre-commit received" | p-timeout(p3).reason
> decisions
= inconsistent | false | decisions.inconsistent"#;

/// No participant is ever blocked, which is what the extra round buys.
pub const NOBODY_IS_EVER_BLOCKED: &'static str = r#"a timeout in each of the three states a participant can be in
> init ["p1","p2","p3"]
> vote p1 yes
> crash coordinator
> p-timeout p2
> p-timeout p1
> init ["p1","p2","p3"]
> vote p1 yes
> vote p2 yes
> vote p3 yes
> pre-commit
> p-precommit p1
> crash coordinator
> p-timeout p1
@ 4 p-timeout p2
= blocked | false | a working participant is blocked
@ 5 p-timeout p1
= blocked | false | a prepared participant is blocked
@ 13 p-timeout p1
= blocked | false | a pre-committed participant is blocked
= decision | "commit" | the pre-committed participant's decision"#;

/// A partition makes two groups decide differently.
pub const A_PARTITION_SPLITS_THE_DECISION: &'static str = r#"a half-delivered pre-commit round, and then a partition
> init ["p1","p2","p3"]
> vote p1 yes
> vote p2 yes
> vote p3 yes
> pre-commit
> p-precommit p1
> crash coordinator
> partition ["p1"]
> p-timeout p1
> p-timeout p2
> p-timeout p3
> decisions
@ 8 partition
= split | true | partition.split
@ 9 p-timeout p1
= decision | "commit" | p-timeout(p1).decision
@ 10 p-timeout p2
= decision | "abort" | p-timeout(p2).decision
@ 11 p-timeout p3
= decision | "abort" | p-timeout(p3).decision
@ 12 decisions
= inconsistent | true | decisions.inconsistent"#;

/// The split decision survives the heal.
pub const THE_SPLIT_IS_PERMANENT: &'static str = r#"a healed network after both sides had already decided
> init ["p1","p2","p3"]
> vote p1 yes
> vote p2 yes
> vote p3 yes
> pre-commit
> p-precommit p1
> crash coordinator
> partition ["p1"]
> p-timeout p1
> p-timeout p2
> p-timeout p3
> heal
> decisions
> p-state p1
> p-state p2
@ 12 heal
= split | false | heal.split
@ 14 p-state p1
= state | "committed" | p-state(p1).state after the heal
@ 15 p-state p2
= state | "aborted" | p-state(p2).state after the heal
@ 13 decisions
= inconsistent | true | decisions.inconsistent after the heal"#;

/// A partition stops the coordinator's broadcast reaching the far side.
pub const A_PARTITION_SWALLOWS_THE_BROADCAST: &'static str = r#"a commit broadcast sent across a partition
> init ["p1","p2","p3"]
> vote p1 yes
> vote p2 yes
> vote p3 yes
> pre-commit
> p-precommit p1
> p-precommit p2
> p-precommit p3
> ack p1
> ack p2
> partition ["p3"]
> pre-commit
> commit
> deliver p1
> deliver p3
@ 12 pre-commit
= sent | 2 | pre-commit.sent while p3 is cut off
@ 14 deliver p1
= state | "committed" | deliver(p1).state
@ 15 deliver p3
= state | "pre-committed" | deliver(p3).state"#;

/// An acknowledgement from a participant that never saw the pre-commit does not count.
pub const AN_ACK_WITHOUT_A_PRE_COMMIT_DOES_NOT_COUNT: &'static str = r#"an acknowledgement from a participant that never saw the pre-commit
> init ["p1","p2","p3"]
> vote p1 yes
> vote p2 yes
> vote p3 yes
> pre-commit
> p-precommit p1
> ack p1
> ack p2
> commit
@ 7 ack p1
= acks | 1 | ack(p1).acks
@ 8 ack p2
= acks | 1 | ack(p2).acks
@ 9 commit
= ok | false | commit.ok"#;

/// What somebody stuck on this stage is told, one after the other.
pub const HINTS: [&'static str; 4] = [
    "Topic `three-phase-commit`: vote, then pre-commit, then commit",
    "Pre-commit is only legal once every participant has voted yes",
    "On a timeout a pre-committed participant commits and a merely prepared one aborts",
    "That rule reads 'no pre-commit arrived' as 'none was sent', which a partition breaks",
];

/// The tests of this stage.
pub const TESTS: [TestRow; 13] = [
    (
        "a fresh transaction has every participant working",
        "a_fresh_transaction",
        false,
        false,
        0,
        0,
        A_FRESH_TRANSACTION,
    ),
    (
        "a pre-commit before every yes vote is refused",
        "pre_commit_needs_every_yes",
        false,
        false,
        0,
        0,
        PRE_COMMIT_NEEDS_EVERY_YES,
    ),
    (
        "one no aborts before the pre-commit round begins",
        "one_no_aborts_early",
        false,
        false,
        0,
        0,
        ONE_NO_ABORTS_EARLY,
    ),
    (
        "the happy path commits every participant",
        "the_happy_path",
        false,
        false,
        0,
        0,
        THE_HAPPY_PATH,
    ),
    (
        "a commit without a majority of acknowledgements is refused",
        "commit_needs_a_majority_of_acks",
        false,
        false,
        0,
        0,
        COMMIT_NEEDS_A_MAJORITY_OF_ACKS,
    ),
    (
        "a pre-committed participant commits on its own when the coordinator dies",
        "a_pre_committed_participant_commits",
        false,
        false,
        0,
        0,
        A_PRE_COMMITTED_PARTICIPANT_COMMITS,
    ),
    (
        "a participant that never saw the pre-commit aborts on its own",
        "a_prepared_participant_aborts",
        false,
        false,
        0,
        0,
        A_PREPARED_PARTICIPANT_ABORTS,
    ),
    (
        "no participant is ever blocked, which is what the extra round buys",
        "nobody_is_ever_blocked",
        false,
        false,
        0,
        0,
        NOBODY_IS_EVER_BLOCKED,
    ),
    (
        "a partition makes two groups decide differently",
        "a_partition_splits_the_decision",
        false,
        false,
        0,
        0,
        A_PARTITION_SPLITS_THE_DECISION,
    ),
    (
        "the split decision survives the heal",
        "the_split_is_permanent",
        true,
        false,
        0,
        0,
        THE_SPLIT_IS_PERMANENT,
    ),
    (
        "a partition stops the coordinator's broadcast reaching the far side",
        "a_partition_swallows_the_broadcast",
        true,
        false,
        0,
        0,
        A_PARTITION_SWALLOWS_THE_BROADCAST,
    ),
    (
        "an acknowledgement from a participant that never saw the pre-commit does not count",
        "an_ack_without_a_pre_commit_does_not_count",
        true,
        false,
        0,
        0,
        AN_ACK_WITHOUT_A_PRE_COMMIT_DOES_NOT_COUNT,
    ),
    (
        "seeded runs with a complete or a lost pre-commit round never diverge",
        "seeded_runs_never_diverge",
        true,
        false,
        0,
        0,
        "",
    ),
];

/// The worked examples of this stage.
pub const EXAMPLES: [PrimRow; 2] = [
    (
        "What the extra round buys",
        "three-phase-commit",
        r#"init ["p1","p2"]
vote p1 yes
vote p2 yes
pre-commit
p-precommit p1
p-precommit p2
crash coordinator
p-timeout p1"#,
        "both participants pre-committed, and then a coordinator crash",
        "commit, decided by the participant itself, with blocked false",
        "Compare stage 63, where the same crash left everyone stuck. The pre-commit is the \
         participant's evidence that every vote was yes, which is exactly the fact the \
         coordinator was about to act on, so it can act on it too.",
    ),
    (
        "What it still does not survive",
        "three-phase-commit",
        r#"init ["p1","p2","p3"]
vote p1 yes
vote p2 yes
vote p3 yes
pre-commit
p-precommit p1
crash coordinator
partition ["p1"]
p-timeout p1
p-timeout p2
decisions"#,
        "a pre-commit that reached one participant, then a crash and a partition",
        "p1 commits, p2 aborts, and `inconsistent` is true",
        "The termination rule reads silence as proof that no pre-commit was sent. A partition \
         makes silence mean nothing at all, and the two sides walk away with different answers. \
         No extra round fixes this; replicating the decision does.",
    ),
];

/// The worked examples of this stage.
pub fn examples() -> (examples: Vec<ExampleSpec>)
    ensures
        described(examples@) == EXAMPLES@.map_values(|row: PrimRow| prim_described(row)),
{
    prim_examples(EXAMPLES)
}

/// What the rows say of this stage's place in the suite.
proof fn lemma_in_place()
    ensures
        rows_written(TESTS@),
        rows_on_topic(EXAMPLES@, HINTS[0]@),
{
    assert(rows_written(TESTS@)) by {
        reveal_strlit("placeholder");
        reveal_strlit("a fresh transaction has every participant working");
        assert(TESTS@[0].0@.len() == 49);
        reveal_strlit("a pre-commit before every yes vote is refused");
        assert(TESTS@[1].0@.len() == 45);
        reveal_strlit("one no aborts before the pre-commit round begins");
        assert(TESTS@[2].0@.len() == 48);
        reveal_strlit("the happy path commits every participant");
        assert(TESTS@[3].0@.len() == 40);
        reveal_strlit("a commit without a majority of acknowledgements is refused");
        assert(TESTS@[4].0@.len() == 58);
        reveal_strlit("a pre-committed participant commits on its own when the coordinator dies");
        assert(TESTS@[5].0@.len() == 72);
        reveal_strlit("a participant that never saw the pre-commit aborts on its own");
        assert(TESTS@[6].0@.len() == 61);
        reveal_strlit("no participant is ever blocked, which is what the extra round buys");
        assert(TESTS@[7].0@.len() == 66);
        reveal_strlit("a partition makes two groups decide differently");
        assert(TESTS@[8].0@.len() == 47);
        reveal_strlit("the split decision survives the heal");
        assert(TESTS@[9].0@.len() == 36);
        reveal_strlit("a partition stops the coordinator's broadcast reaching the far side");
        assert(TESTS@[10].0@.len() == 67);
        reveal_strlit("an acknowledgement from a participant that never saw the pre-commit does not count");
        assert(TESTS@[11].0@.len() == 82);
        reveal_strlit("seeded runs with a complete or a lost pre-commit round never diverge");
        assert(TESTS@[12].0@.len() == 68);
        assert forall|i: int| 0 <= i < 13 implies (#[trigger] TESTS@[i]).0@ != "placeholder"@ by {
            assert(i == 0 || i == 1 || i == 2 || i == 3 || i == 4 || i == 5 || i == 6 || i == 7 || i == 8 || i == 9 || i == 10 || i == 11 || i == 12);
        }
    }
    assert(names_topic_at(HINTS[0]@, "three-phase-commit"@, 6)) by {
        reveal_strlit("`");
        reveal_strlit("three-phase-commit");
        reveal_strlit("Topic `three-phase-commit`: vote, then pre-commit, then commit");
        assert(HINTS[0]@.subrange(6, 26) =~= "`"@ + "three-phase-commit"@ + "`"@);
    }
    reveal_strlit("init ");
    assert(EXAMPLES@[0].2@.len() >= 5 && EXAMPLES@[0].2@.take(5) =~= "init "@) by {
        reveal_strlit(
            "init [\"p1\",\"p2\"]\n\
             vote p1 yes\n\
             vote p2 yes\n\
             pre-commit\n\
             p-precommit p1\n\
             p-precommit p2\n\
             crash coordinator\n\
             p-timeout p1",
        );
    }
    assert(EXAMPLES@[1].2@.len() >= 5 && EXAMPLES@[1].2@.take(5) =~= "init "@) by {
        reveal_strlit(
            "init [\"p1\",\"p2\",\"p3\"]\n\
             vote p1 yes\n\
             vote p2 yes\n\
             vote p3 yes\n\
             pre-commit\n\
             p-precommit p1\n\
             crash coordinator\n\
             partition [\"p1\"]\n\
             p-timeout p1\n\
             p-timeout p2\n\
             decisions",
        );
    }
}

/// What stage 64 holds.
pub open spec fn is_stage(s: Stage) -> bool {
    &&& s.number == 64
    &&& s.slug == "three_phase_commit"
    &&& s.name == "Three-phase commit"
    &&& s.ext == false
    &&& s.ladder == Ladder::Algorithms
    &&& s.hints == HINTS
    &&& s.tests@ == tests_of(TESTS@)
    &&& described(s.examples@) == EXAMPLES@.map_values(|row: PrimRow| prim_described(row))
}

/// Stage 64.
pub fn stage() -> (s: Stage)
    ensures
        is_stage(s),
        s.in_place(),
{
    let s = Stage {
        number: 64,
        slug: "three_phase_commit",
        name: "Three-phase commit",
        ext: false,
        ladder: Ladder::Algorithms,
        hints: HINTS,
        examples: examples(),
        tests: tests(TESTS),
    };
    proof {
        reveal(Stage::in_place);
        assert(s.examples@.len() == described(s.examples@).len());
        lemma_in_place();
        assert forall|i: int| 0 <= i < s.examples@.len() implies opens_topic(
            #[trigger] s.examples@[i]@,
            s.hints[0]@,
        ) by {
            assert(described(s.examples@)[i] == prim_described(EXAMPLES@[i]));
        }
    }
    s
}

} // verus!
