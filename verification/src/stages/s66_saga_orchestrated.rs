//! Stage 66: Orchestrated saga.
//!
//! There is no rollback across databases; there is a compensation per step and a rule about the
//! order they run in. An orchestrator drives the forward steps and, when one of them fails, walks
//! back down the ones that succeeded.
use rand::rngs::StdRng;
use vstd::prelude::*;
use crate::check::{
    all_hold, is_fact, lemma_until_failure_rest, lemma_until_failure_step, run_passes_where_every_step_does,
    texts_fact, until_failure, Check, Ruling, Truth, Verdict,
};
use crate::draw::draw_usize;
use crate::examples::{described, prim_described, prim_examples, ExampleSpec, PrimRow};
use crate::stages::{names_topic_at, opens_topic, rows_on_topic, rows_written, tests, tests_of, Ladder, Stage, TestRow};
use crate::text::{joined, lemma_joined_push, name_list_text, nat_text, push_nat, put_text, strs, texts};

verus! {

/// A three-step saga, the one most of the stage uses.
pub const THREE: &'static str = r#"init ["reserve","charge","ship"]"#;

/// The ledger's entry for a step that was done.
pub open spec fn done_entry(name: Seq<char>) -> Seq<char> {
    "do:"@ + name
}

/// The ledger's entry for a step that was undone.
pub open spec fn undone_entry(name: Seq<char>) -> Seq<char> {
    "undo:"@ + name
}

/// How many steps complete in a saga of `len` steps that fails at `fail_at`, counted from one; zero
/// means that none fails.
pub open spec fn completed(len: nat, fail_at: nat) -> nat {
    if fail_at == 0 {
        len
    } else {
        (fail_at - 1) as nat
    }
}

/// The ledger the rules demand: what completed, in order, and where a step failed the compensations
/// of what completed, newest first.
pub open spec fn demanded_ledger(names: Seq<Seq<char>>, fail_at: nat) -> Seq<Seq<char>> {
    let done = names.take(completed(names.len(), fail_at) as int);
    let forward = done.map_values(|n: Seq<char>| done_entry(n));
    if fail_at == 0 {
        forward
    } else {
        forward + done.reverse().map_values(|n: Seq<char>| undone_entry(n))
    }
}

/// The compensations still owed after `done` steps have completed, newest first.
pub open spec fn owed(names: Seq<Seq<char>>, done: nat) -> Seq<Seq<char>> {
    names.take(done as int).reverse()
}

/// The ledger the rules demand for a saga over `names` that fails at `fail_at`.
///
/// `fail_at` is 1-based; 0 means every step succeeded.
pub fn expected_ledger(names: &[&str], fail_at: usize) -> (out: Vec<String>)
    requires
        fail_at <= names@.len() + 1,
    ensures
        texts(out@) == demanded_ledger(strs(names@), fail_at as nat),
{
    let done: usize = if fail_at == 0 {
        names.len()
    } else {
        fail_at - 1
    };
    let ghost kept = strs(names@).take(done as int);
    let ghost forward = kept.map_values(|n: Seq<char>| done_entry(n));
    let ghost backward = kept.reverse().map_values(|n: Seq<char>| undone_entry(n));
    let mut out: Vec<String> = Vec::new();
    let mut i: usize = 0;
    while i < done
        invariant
            i <= done <= names@.len(),
            kept == strs(names@).take(done as int),
            forward == kept.map_values(|n: Seq<char>| done_entry(n)),
            texts(out@) == forward.take(i as int),
        decreases done - i,
    {
        let ghost so_far = texts(out@);
        let mut entry = String::from_str("do:");
        entry.append(names[i]);
        out.push(entry);
        assert(texts(out@) =~= so_far.push(forward[i as int]));
        assert(texts(out@) =~= forward.take(i + 1));
        i += 1;
    }
    assert(texts(out@) =~= forward);
    if fail_at != 0 {
        let mut left: usize = done;
        assert(forward + backward.take(0) =~= forward);
        while left > 0
            invariant
                left <= done <= names@.len(),
                kept == strs(names@).take(done as int),
                forward == kept.map_values(|n: Seq<char>| done_entry(n)),
                backward == kept.reverse().map_values(|n: Seq<char>| undone_entry(n)),
                texts(out@) == forward + backward.take(done - left),
            decreases left,
        {
            let ghost so_far = texts(out@);
            left -= 1;
            let mut entry = String::from_str("undo:");
            entry.append(names[left]);
            out.push(entry);
            assert(backward[done - left - 1] == entry@);
            assert(texts(out@) =~= so_far.push(backward[done - left - 1]));
            assert(texts(out@) =~= forward + backward.take(done - left));
        }
        assert(backward.take(done - left) =~= backward);
    }
    out
}

/// The compensations still owed after `done` steps have completed, newest first.
pub fn expected_pending(names: &[&str], done: usize) -> (out: Vec<String>)
    requires
        done <= names@.len(),
    ensures
        texts(out@) == owed(strs(names@), done as nat),
{
    let ghost all = owed(strs(names@), done as nat);
    let mut out: Vec<String> = Vec::new();
    let mut left: usize = done;
    assert(texts(out@) =~= all.take(0));
    while left > 0
        invariant
            left <= done <= names@.len(),
            all == owed(strs(names@), done as nat),
            texts(out@) == all.take(done - left),
        decreases left,
    {
        let ghost so_far = texts(out@);
        left -= 1;
        out.push(String::from_str(names[left]));
        assert(texts(out@) =~= so_far.push(all[done - left - 1]));
        assert(texts(out@) =~= all.take(done - left));
    }
    assert(texts(out@) =~= all);
    out
}

/// What a failed saga leaves in its ledger, entry by entry: first what completed, oldest first, then
/// the compensation of each, newest first, and nothing for the step that failed or any after it.
pub proof fn compensations_mirror_the_completed_steps(names: Seq<Seq<char>>, fail_at: nat, i: int)
    requires
        1 <= fail_at <= names.len() + 1,
        0 <= i < fail_at - 1,
    ensures
        demanded_ledger(names, fail_at).len() == 2 * (fail_at - 1),
        demanded_ledger(names, fail_at)[i] == done_entry(names[i]),
        demanded_ledger(names, fail_at)[2 * (fail_at - 1) - 1 - i] == undone_entry(names[i]),
{
}

/// A saga that never fails compensates nothing: its ledger is every step once, in order.
pub proof fn success_compensates_nothing(names: Seq<Seq<char>>, i: int)
    requires
        0 <= i < names.len(),
    ensures
        demanded_ledger(names, 0).len() == names.len(),
        demanded_ledger(names, 0)[i] == done_entry(names[i]),
{
}

/// A saga whose first step fails leaves an empty ledger.
pub proof fn failing_first_leaves_nothing(names: Seq<Seq<char>>)
    ensures
        demanded_ledger(names, 1) == Seq::<Seq<char>>::empty(),
{
    assert(demanded_ledger(names, 1) =~= Seq::<Seq<char>>::empty());
}

/// The compensations owed when a saga fails are exactly those its ledger then records, in the order
/// it records them.
pub proof fn what_is_owed_is_what_is_recorded(names: Seq<Seq<char>>, fail_at: nat)
    requires
        1 <= fail_at <= names.len() + 1,
    ensures
        demanded_ledger(names, fail_at).skip(fail_at - 1) == owed(
            names,
            (fail_at - 1) as nat,
        ).map_values(|n: Seq<char>| undone_entry(n)),
{
    assert(demanded_ledger(names, fail_at).skip(fail_at - 1) =~= owed(
        names,
        (fail_at - 1) as nat,
    ).map_values(|n: Seq<char>| undone_entry(n)));
}

/// The steps of a seeded saga.
pub const SIX: [&'static str; 6] = ["a", "b", "c", "d", "e", "f"];

/// A seeded saga: which step fails, counted from one, and how often each compensation fails before it
/// lands.
#[derive(Debug)]
pub struct SeededSaga {
    pub fail_at: usize,
    pub retries: Vec<usize>,
}

impl SeededSaga {
    /// One of the six steps fails, and every compensation fails twice at most.
    pub open spec fn well_formed(self) -> bool {
        &&& 1 <= self.fail_at <= 6
        &&& self.retries@.len() == 6
        &&& forall|i: int| 0 <= i < 6 ==> #[trigger] self.retries@[i] < 3
    }
}

/// Draws a seeded saga.
pub fn plan(rng: &mut StdRng) -> (saga: SeededSaga)
    ensures
        saga.well_formed(),
{
    let fail_at: usize = draw_usize(rng, 1, 7);
    let mut retries: Vec<usize> = Vec::new();
    while retries.len() < 6
        invariant
            retries@.len() <= 6,
            forall|i: int| 0 <= i < retries@.len() ==> #[trigger] retries@[i] < 3,
        decreases 6 - retries@.len(),
    {
        retries.push(draw_usize(rng, 0, 3));
    }
    SeededSaga { fail_at, retries }
}

/// The command that runs a step of the saga.
pub open spec fn step_command(name: Seq<char>, ok: bool) -> Seq<char> {
    "step "@ + name + if ok {
        " ok"@
    } else {
        " fail"@
    }
}

/// The command that attempts a compensation.
pub open spec fn compensate_command(name: Seq<char>, ok: bool) -> Seq<char> {
    "compensate "@ + name + if ok {
        " ok"@
    } else {
        " fail"@
    }
}

/// How the forward half is driven: every step succeeds up to the one that fails, which is the last.
pub open spec fn forward(fail_at: int) -> Seq<Seq<char>> {
    seq![r#"init ["a","b","c","d","e","f"]"#@] + Seq::new(
        fail_at as nat,
        |i: int| step_command(SIX@[i]@, i + 1 != fail_at),
    )
}

/// One attempt at a compensation, and the compensations that are owed once it was made.
pub struct Attempt {
    pub command: Seq<char>,
    pub pending: Seq<Seq<char>>,
}

/// `n` attempts that fail: each leaves the queue exactly as it was.
pub open spec fn misses(name: Seq<char>, pending: Seq<Seq<char>>, n: nat) -> Seq<Attempt> {
    Seq::new(n, |i: int| Attempt { command: compensate_command(name, false), pending })
}

/// The attempts at the first `n` compensations of a queue: each fails as often as it is told to, and
/// then lands and leaves the queue.
pub open spec fn attempts(queue: Seq<Seq<char>>, retries: Seq<usize>, n: int) -> Seq<Attempt>
    decreases n,
{
    if n <= 0 {
        Seq::empty()
    } else {
        (attempts(queue, retries, n - 1) + misses(
            queue[n - 1],
            queue.skip(n - 1),
            retries[n - 1] as nat,
        )).push(
            Attempt { command: compensate_command(queue[n - 1], true), pending: queue.skip(n) },
        )
    }
}

impl SeededSaga {
    /// The compensations that are owed when the step has failed.
    pub open spec fn queue(self) -> Seq<Seq<char>> {
        owed(strs(SIX@), (self.fail_at - 1) as nat)
    }

    /// The commands of the forward half.
    pub fn forward(&self) -> (all: Vec<String>)
        requires
            self.well_formed(),
        ensures
            texts(all@) == forward(self.fail_at as int),
    {
        let names = SIX;
        let ghost whole = forward(self.fail_at as int);
        let mut all: Vec<String> = Vec::new();
        put_text(&mut all, String::from_str(r#"init ["a","b","c","d","e","f"]"#));
        assert(texts(all@) =~= whole.take(1));
        let mut i: usize = 0;
        while i < self.fail_at
            invariant
                i <= self.fail_at <= 6,
                names@ == SIX@,
                whole == forward(self.fail_at as int),
                texts(all@) == whole.take(i + 1),
            decreases self.fail_at - i,
        {
            let mut command = String::from_str("step ");
            command.append(names[i]);
            command.append(
                if i + 1 != self.fail_at {
                    " ok"
                } else {
                    " fail"
                },
            );
            assert(command@ == whole[i + 1]);
            put_text(&mut all, command);
            assert(texts(all@) =~= whole.take(i + 2));
            i += 1;
        }
        assert(whole.take(i + 1) =~= whole);
        all
    }
}

/// One attempt at a compensation, and the compensations that are owed once it was made.
#[derive(Debug)]
pub struct Awaited {
    pub command: String,
    pub pending: Vec<String>,
}

impl View for Awaited {
    type V = Attempt;

    open spec fn view(&self) -> Attempt {
        Attempt { command: self.command@, pending: texts(self.pending@) }
    }
}

/// What is attempted.
pub open spec fn attempted(all: Seq<Awaited>) -> Seq<Attempt> {
    all.map_values(|a: Awaited| a@)
}

/// What is left of a queue from `from` on.
fn rest_of(queue: &Vec<String>, from: usize) -> (out: Vec<String>)
    requires
        from <= queue@.len(),
    ensures
        texts(out@) == texts(queue@).skip(from as int),
{
    let mut out: Vec<String> = Vec::new();
    let mut i: usize = from;
    while i < queue.len()
        invariant
            from <= i <= queue@.len(),
            out@ == queue@.subrange(from as int, i as int),
        decreases queue@.len() - i,
    {
        out.push(queue[i].clone());
        assert(out@ =~= queue@.subrange(from as int, i + 1));
        i += 1;
    }
    assert(texts(out@) =~= texts(queue@).skip(from as int));
    out
}

/// Puts down one attempt.
fn put_attempt(all: &mut Vec<Awaited>, name: &str, ok: bool, pending: Vec<String>)
    ensures
        attempted(final(all)@) == attempted(old(all)@).push(
            Attempt { command: compensate_command(name@, ok), pending: texts(pending@) },
        ),
{
    let ghost before = all@;
    let mut command = String::from_str("compensate ");
    command.append(name);
    command.append(
        if ok {
            " ok"
        } else {
            " fail"
        },
    );
    all.push(Awaited { command, pending });
    assert(attempted(all@) =~= attempted(before).push(
        Attempt { command: compensate_command(name@, ok), pending: texts(pending@) },
    ));
}

impl SeededSaga {
    /// Every attempt at a compensation, with what must still be owed once it was made.
    pub fn compensations(&self) -> (all: Vec<Awaited>)
        requires
            self.well_formed(),
        ensures
            attempted(all@) == attempts(self.queue(), self.retries@, self.fail_at - 1),
    {
        let names = SIX;
        let queue = expected_pending(&names, self.fail_at - 1);
        let ghost owing = self.queue();
        assert(texts(queue@).len() == queue@.len());
        let mut all: Vec<Awaited> = Vec::new();
        assert(attempted(all@) =~= Seq::<Attempt>::empty());
        let mut i: usize = 0;
        while i < queue.len()
            invariant
                i <= queue@.len() == self.fail_at - 1,
                self.well_formed(),
                owing == texts(queue@),
                attempted(all@) == attempts(owing, self.retries@, i as int),
            decreases queue@.len() - i,
        {
            let ghost done = attempted(all@);
            assert(owing[i as int] == queue@[i as int]@);
            let name = queue[i].as_str();
            let mut r: usize = 0;
            assert(done + misses(owing[i as int], owing.skip(i as int), 0) =~= done);
            while r < self.retries[i]
                invariant
                    i < queue@.len() == self.fail_at - 1,
                    r <= self.retries@[i as int],
                    self.well_formed(),
                    owing == texts(queue@),
                    name@ == owing[i as int],
                    attempted(all@) == done + misses(owing[i as int], owing.skip(i as int), r as nat),
                decreases self.retries@[i as int] - r,
            {
                put_attempt(&mut all, name, false, rest_of(&queue, i));
                assert(attempted(all@) =~= done + misses(
                    owing[i as int],
                    owing.skip(i as int),
                    (r + 1) as nat,
                ));
                r += 1;
            }
            put_attempt(&mut all, name, true, rest_of(&queue, i + 1));
            i += 1;
        }
        all
    }

    /// The ledger the saga must leave behind.
    pub fn ledger(&self) -> (out: Vec<String>)
        requires
            self.well_formed(),
        ensures
            texts(out@) == demanded_ledger(strs(SIX@), self.fail_at as nat),
    {
        let names = SIX;
        expected_ledger(&names, self.fail_at)
    }
}

/// The note a seeded saga starts with.
pub open spec fn saga_note(seed: nat, fail_at: nat, retries: Seq<usize>) -> Seq<char> {
    "seed "@ + nat_text(seed) + ", fail_at "@ + nat_text(fail_at) + ", retries ["@ + joined(
        retries.map_values(|n: usize| nat_text(n as nat)),
        ", "@,
    ) + "]"@
}

/// The note a seeded saga starts with.
fn note_saga(seed: u64, saga: &SeededSaga) -> (s: String)
    ensures
        s@ == saga_note(seed as nat, saga.fail_at as nat, saga.retries@),
{
    let mut s = String::from_str("seed ");
    push_nat(&mut s, seed);
    s.append(", fail_at ");
    push_nat(&mut s, saga.fail_at as u64);
    s.append(", retries [");
    let ghost head = s@;
    let ghost parts = saga.retries@.map_values(|n: usize| nat_text(n as nat));
    let mut i: usize = 0;
    assert(parts.take(0) =~= Seq::empty());
    assert(head + joined(parts.take(0), ", "@) =~= head);
    while i < saga.retries.len()
        invariant
            i <= saga.retries@.len(),
            parts == saga.retries@.map_values(|n: usize| nat_text(n as nat)),
            s@ == head + joined(parts.take(i as int), ", "@),
        decreases saga.retries@.len() - i,
    {
        proof {
            lemma_joined_push(parts.take(i as int), parts[i as int], ", "@);
            assert(parts.take(i as int).push(parts[i as int]) =~= parts.take(i + 1));
        }
        if i > 0 {
            s.append(", ");
        }
        push_nat(&mut s, saga.retries[i] as u64);
        assert(s@ =~= head + joined(parts.take(i + 1), ", "@));
        i += 1;
    }
    assert(parts.take(i as int) =~= parts);
    s.append("]");
    s
}

/// What the report says of one attempt.
pub open spec fn attempt_ruling(want: Attempt, got: Seq<Seq<char>>) -> Ruling {
    is_fact(
        want.command + " \u{2192} pending"@,
        Truth::Texts(want.pending),
        Truth::Texts(got),
    )
}

/// What the report says of every attempt that was seen.
pub open spec fn all_rulings(all: Seq<Attempt>, seen: Seq<Vec<String>>) -> Seq<Seq<Ruling>> {
    Seq::new(seen.len(), |i: int| seq![attempt_ruling(all[i], texts(seen[i]@))])
}

/// Holds what was owed after every attempt against a seeded saga, up to the first that differs, and
/// then the ledger it left behind.
pub fn judge_saga(
    seed: u64,
    saga: &SeededSaga,
    all: &Vec<Awaited>,
    seen: &Vec<Vec<String>>,
    ledger: &Vec<String>,
) -> (c: Check)
    requires
        saga.well_formed(),
        seen@.len() <= all@.len(),
    ensures
        c@ == (Verdict {
            subject: "a seeded six-step saga with seeded compensation failures"@,
            rulings: until_failure(all_rulings(attempted(all@), seen@)).push(
                is_fact(
                    "ledger.entries"@,
                    Truth::Texts(demanded_ledger(strs(SIX@), saga.fail_at as nat)),
                    Truth::Texts(texts(ledger@)),
                ),
            ),
            notes: seq![saga_note(seed as nat, saga.fail_at as nat, saga.retries@)],
            blocks: Seq::empty(),
            remarks: Seq::empty(),
        }),
{
    let mut c = Check::new("a seeded six-step saga with seeded compensation failures");
    c.note(note_saga(seed, saga).as_str());
    let ghost groups = all_rulings(attempted(all@), seen@);
    let mut i: usize = 0;
    assert(groups.take(0) =~= Seq::empty());
    while i < seen.len() && c.ok()
        invariant
            i <= seen@.len() <= all@.len(),
            groups == all_rulings(attempted(all@), seen@),
            c@.subject == "a seeded six-step saga with seeded compensation failures"@,
            c@.quiet(),
            c@.notes == seq![saga_note(seed as nat, saga.fail_at as nat, saga.retries@)],
            c@.rulings == until_failure(groups.take(i as int)),
        decreases seen@.len() - i,
    {
        let ghost before = c@.rulings;
        let mut path = all[i].command.clone();
        path.append(" \u{2192} pending");
        assert(attempted(all@)[i as int] == all@[i as int]@);
        c.eq(path.as_str(), texts_fact(&all[i].pending), texts_fact(&seen[i]));
        proof {
            assert(c@.rulings =~= before + groups[i as int]);
            lemma_until_failure_step(groups, i as int);
        }
        i += 1;
    }
    proof {
        lemma_until_failure_rest(groups, i as int);
    }
    c.eq("ledger.entries", texts_fact(&saga.ledger()), texts_fact(ledger));
    c
}

/// However often its compensations fail, a saga owes nothing once the last of them has landed.
pub proof fn retried_compensations_settle_everything(queue: Seq<Seq<char>>, retries: Seq<usize>, n: int)
    requires
        0 < n <= queue.len(),
        n <= retries.len(),
    ensures
        attempts(queue, retries, n).last().pending == queue.skip(n),
        n == queue.len() ==> attempts(queue, retries, n).last().pending == Seq::<Seq<char>>::empty(),
{
}

/// The ledger tells what was done from what was undone by its first word.
pub proof fn entries_tell_done_from_undone(name: Seq<char>)
    ensures
        done_entry(name).take(3) == "do:"@,
        done_entry(name).skip(3) == name,
        undone_entry(name).take(5) == "undo:"@,
        undone_entry(name).skip(5) == name,
        done_entry(name) != undone_entry(name),
{
    reveal_strlit("do:");
    reveal_strlit("undo:");
    assert(done_entry(name).take(3) =~= "do:"@);
    assert(done_entry(name).skip(3) =~= name);
    assert(undone_entry(name).take(5) =~= "undo:"@);
    assert(undone_entry(name).skip(5) =~= name);
    assert(done_entry(name)[0] == 'd' && undone_entry(name)[0] == 'u');
}

/// The compensations still owed are the steps that were done, newest first; the one that failed is not among
/// them.
pub proof fn owed_is_the_done_steps_newest_first(names: Seq<Seq<char>>, done: nat, k: int)
    requires
        done <= names.len(),
    ensures
        owed(names, done).len() == done,
        0 <= k < done ==> owed(names, done)[k] == names[done - 1 - k],
{
}

/// Every ledger of a saga that failed undoes exactly what it did, and of one that did not undoes nothing: an
/// entry of a step is there exactly where the step was completed.
pub proof fn ledger_holds_the_completed_steps(names: Seq<Seq<char>>, fail_at: nat, i: int)
    requires
        fail_at <= names.len() + 1,
        0 <= i < demanded_ledger(names, fail_at).len(),
    ensures
        fail_at == 0 ==> demanded_ledger(names, 0).len() == names.len() && demanded_ledger(names, 0)[i] == "do:"@
            + names[i],
        fail_at > 0 ==> demanded_ledger(names, fail_at).len() == 2 * (fail_at - 1) && (if i < fail_at - 1 {
            demanded_ledger(names, fail_at)[i] == "do:"@ + names[i]
        } else {
            demanded_ledger(names, fail_at)[i] == "undo:"@ + names[2 * (fail_at - 1) - 1 - i]
        }),
{
    if fail_at == 0 {
        success_compensates_nothing(names, i);
    } else {
        if fail_at == 1 {
            failing_first_leaves_nothing(names);
        } else if i < fail_at - 1 {
            compensations_mirror_the_completed_steps(names, fail_at, i);
        } else {
            compensations_mirror_the_completed_steps(names, fail_at, 0);
            compensations_mirror_the_completed_steps(names, fail_at, 2 * (fail_at - 1) - 1 - i);
        }
    }
}

/// A seeded saga runs its six steps in order up to the one that fails, and that one alone fails.
pub proof fn steps_run_up_to_the_one_that_fails(fail_at: int, i: int)
    requires
        1 <= fail_at <= 6,
        0 <= i < fail_at,
    ensures
        forward(fail_at).len() == fail_at + 1,
        forward(fail_at)[0] == "init "@ + name_list_text(strs(SIX@)),
        forward(fail_at)[i + 1] == "step "@ + SIX@[i]@ + (if i == fail_at - 1 {
            " fail"@
        } else {
            " ok"@
        }),
        strs(SIX@) == seq!["a"@, "b"@, "c"@, "d"@, "e"@, "f"@],
{
    let names = seq!["a"@, "b"@, "c"@, "d"@, "e"@, "f"@];
    assert(strs(SIX@) =~= names);
    reveal_strlit("a");
    reveal_strlit("b");
    reveal_strlit("c");
    reveal_strlit("d");
    reveal_strlit("e");
    reveal_strlit("f");
    reveal_strlit("init ");
    reveal_strlit(r#"init ["a","b","c","d","e","f"]"#);
    let quoted = names.map_values(|n: Seq<char>| seq!['"'] + n + seq!['"']);
    lemma_six_joined(quoted);
    assert(r#"init ["a","b","c","d","e","f"]"#@ =~= "init "@ + name_list_text(names));
}

proof fn lemma_six_joined(q: Seq<Seq<char>>)
    requires
        q.len() == 6,
    ensures
        joined(q, seq![',']) == q[0] + seq![','] + q[1] + seq![','] + q[2] + seq![','] + q[3] + seq![','] + q[4]
            + seq![','] + q[5],
{
    let c = seq![','];
    let a = q.drop_last();
    let b = a.drop_last();
    let d = b.drop_last();
    let e = d.drop_last();
    let f = e.drop_last();
    assert(joined(f, c) == q[0]);
    assert(joined(e, c) == joined(f, c) + c + q[1]);
    assert(joined(d, c) == joined(e, c) + c + q[2]);
    assert(joined(b, c) == joined(d, c) + c + q[3]);
    assert(joined(a, c) == joined(b, c) + c + q[4]);
    assert(joined(q, c) == joined(a, c) + c + q[5]);
}

/// Where the attempts at step `k` of the queue begin: every step before it took its retries and one more.
pub open spec fn begun(retries: Seq<usize>, k: int) -> int
    decreases k,
{
    if k <= 0 {
        0
    } else {
        begun(retries, k - 1) + retries[k - 1] + 1
    }
}

proof fn lemma_attempts_len(queue: Seq<Seq<char>>, retries: Seq<usize>, n: int)
    requires
        0 <= n <= queue.len(),
        n <= retries.len(),
    ensures
        attempts(queue, retries, n).len() == begun(retries, n),
    decreases n,
{
    if n > 0 {
        lemma_attempts_len(queue, retries, n - 1);
    }
}

/// Every step of the queue is compensated in turn: it fails as often as it is to be retried, with nothing
/// leaving the queue, and then it succeeds and leaves it.
pub proof fn compensation_is_tried_until_it_takes(
    queue: Seq<Seq<char>>,
    retries: Seq<usize>,
    n: int,
    k: int,
    j: int,
)
    requires
        0 <= k < n <= queue.len(),
        n <= retries.len(),
        0 <= j <= retries[k],
    ensures
        attempts(queue, retries, n).len() == begun(retries, n),
        begun(retries, k) + j < attempts(queue, retries, n).len(),
        j < retries[k] ==> attempts(queue, retries, n)[begun(retries, k) + j] == (Attempt {
            command: "compensate "@ + queue[k] + " fail"@,
            pending: queue.skip(k),
        }),
        j == retries[k] ==> attempts(queue, retries, n)[begun(retries, k) + j] == (Attempt {
            command: "compensate "@ + queue[k] + " ok"@,
            pending: queue.skip(k + 1),
        }),
    decreases n,
{
    lemma_attempts_len(queue, retries, n);
    lemma_attempts_len(queue, retries, n - 1);
    lemma_begun_grows(retries, k + 1, n);
    lemma_begun_grows(retries, 0, k);
    if k < n - 1 {
        lemma_begun_grows(retries, k + 1, n - 1);
        compensation_is_tried_until_it_takes(queue, retries, n - 1, k, j);
    }
}

proof fn lemma_begun_grows(retries: Seq<usize>, j: int, k: int)
    requires
        0 <= j <= k,
    ensures
        begun(retries, j) <= begun(retries, k),
    decreases k - j,
{
    if j < k {
        lemma_begun_grows(retries, j, k - 1);
    }
}

/// A seeded saga owes its completed steps, newest first, and its draws are a failing step of the six and at
/// most two retries of each.
pub proof fn seeded_saga_owes_its_completed_steps(saga: SeededSaga, k: int)
    ensures
        saga.well_formed() <==> 1 <= saga.fail_at <= 6 && saga.retries@.len() == 6 && forall|i: int|
            0 <= i < 6 ==> #[trigger] saga.retries@[i] <= 2,
        saga.well_formed() ==> saga.queue().len() == saga.fail_at - 1,
        saga.well_formed() && 0 <= k < saga.fail_at - 1 ==> saga.queue()[k] == SIX@[saga.fail_at - 2 - k]@,
{
}

/// A saga passes exactly where what is still owed after every attempt is what is demanded, and the ledger at
/// the end is the demanded one.
pub proof fn saga_passes_where_queue_and_ledger_are_demanded(
    all: Seq<Attempt>,
    seen: Seq<Vec<String>>,
    want: Seq<Seq<char>>,
    got: Seq<Seq<char>>,
)
    requires
        seen.len() <= all.len(),
    ensures
        all_hold(
            until_failure(all_rulings(all, seen)).push(
                is_fact("ledger.entries"@, Truth::Texts(want), Truth::Texts(got)),
            ),
        ) <==> want == got && forall|i: int|
            0 <= i < seen.len() ==> texts((#[trigger] seen[i])@) == all[i].pending,
{
    let groups = all_rulings(all, seen);
    let run = until_failure(groups);
    let last = is_fact("ledger.entries"@, Truth::Texts(want), Truth::Texts(got));
    run_passes_where_every_step_does(groups);
    assert(all_hold(run.push(last)) <==> all_hold(run) && last.holds()) by {
        if all_hold(run.push(last)) {
            assert(run.push(last)[run.len() as int].holds());
            assert forall|i: int| 0 <= i < run.len() implies (#[trigger] run[i]).holds() by {
                assert(run.push(last)[i].holds());
            }
        }
    }
    assert forall|i: int| 0 <= i < seen.len() implies (all_hold(#[trigger] groups[i]) <==> texts(seen[i]@)
        == all[i].pending) by {
        if all_hold(groups[i]) {
            assert(groups[i][0].holds());
        }
    }
    if all_hold(run) {
        assert forall|i: int| 0 <= i < seen.len() implies texts((#[trigger] seen[i])@) == all[i].pending by {
            assert(all_hold(groups[i]));
        }
    } else {
        let i = choose|i: int| 0 <= i < groups.len() && !all_hold(#[trigger] groups[i]);
        assert(texts(seen[i]@) != all[i].pending);
    }
}

/// The topic the program is asked about.
pub const TOPIC: &'static str = "saga";

/// A saga with no failure commits every step.
pub const A_SAGA_WITH_NO_FAILURE_COMMITS: &'static str = r#"a saga in which every step succeeded
> init ["reserve","charge","ship"]
> run 0
> ledger
> state
@ 2 run 0
$ executed | ["reserve","charge","ship"] | run(0).executed
$ compensated | [] | run(0).compensated
= outcome | "committed" | run(0).outcome
@ 3 ledger
$ entries | ["do:reserve","do:charge","do:ship"] | ledger.entries
@ 4 state
= phase | "done" | state.phase"#;

/// A failure at the last step undoes the rest in reverse.
pub const A_FAILURE_UNDOES_IN_REVERSE: &'static str = r#"a five-step saga that failed at the last step
> init ["reserve","charge","pack","ship","notify"]
> run 5
> ledger
@ 2 run 5
$ executed | ["reserve","charge","pack","ship"] | run(5).executed
$ compensated | ["ship","pack","charge","reserve"] | run(5).compensated
= outcome | "compensated" | run(5).outcome
@ 3 ledger
$ entries | ["do:reserve","do:charge","do:pack","do:ship","undo:ship","undo:pack","undo:charge","undo:reserve"] | ledger.entries"#;

/// The step that failed is never compensated.
pub const THE_FAILED_STEP_IS_NOT_COMPENSATED: &'static str = r#"the step that failed, and what it owes
> init ["reserve","charge","pack","ship","notify"]
> step reserve ok
> step charge ok
> step pack fail
> state
> compensate charge ok
> compensate reserve ok
> ledger
~ entries | [] | -
@ 4 step pack fail
= phase | "compensating" | step(pack, fail).phase
$ completed | ["reserve","charge"] | step(pack, fail).completed
@ 5 state
$ pending | ["charge","reserve"] | state.pending after the failure
@ 8 ledger
/ entries | pack ; no entry naming the step that failed | ledger.entries
$ entries | ["do:reserve","do:charge","undo:charge","undo:reserve"] | ledger.entries"#;

/// A failure at the first step compensates nothing.
pub const A_FAILURE_AT_THE_FIRST_STEP: &'static str = r#"a saga whose very first step failed
> init ["reserve","charge","ship"]
> run 1
> ledger
@ 2 run 1
$ executed | [] | run(1).executed
$ compensated | [] | run(1).compensated
= outcome | "compensated" | run(1).outcome
@ 3 ledger
$ entries | [] | ledger.entries"#;

/// A retried compensation leaves one undo, not two.
pub const A_RETRIED_COMPENSATION_IS_IDEMPOTENT: &'static str = r#"one compensation run three times
> init ["reserve","charge","ship"]
> step reserve ok
> step charge ok
> step ship fail
> compensate charge ok
> compensate charge ok
> compensate charge ok
> ledger
@ 5 compensate charge ok
$ pending | ["reserve"] | the first compensate(charge).pending
@ 6 compensate charge ok
$ pending | ["reserve"] | the second compensate(charge).pending
@ 7 compensate charge ok
$ pending | ["reserve"] | the third compensate(charge).pending
@ 8 ledger
$ entries | ["do:reserve","do:charge","undo:charge"] | ledger.entries"#;

/// A compensation that fails stays at the head of the queue.
pub const A_FAILED_COMPENSATION_IS_RETRIED: &'static str = r#"a compensation whose first two attempts did not take
> init ["reserve","charge","ship"]
> step reserve ok
> step charge ok
> step ship fail
> compensate charge fail
> compensate charge fail
> compensate charge ok
> ledger
@ 5 compensate charge fail
$ pending | ["charge","reserve"] | the first compensate(charge, fail).pending
@ 6 compensate charge fail
$ pending | ["charge","reserve"] | the second compensate(charge, fail).pending
@ 7 compensate charge ok
$ pending | ["reserve"] | compensate(charge, ok).pending
@ 8 ledger
$ entries | ["do:reserve","do:charge","undo:charge"] | ledger.entries"#;

/// The phase and the outcome follow the saga through.
pub const THE_PHASE_FOLLOWS_THE_SAGA: &'static str = r#"the phase and outcome at four points of one saga
> init ["reserve","charge","ship"]
> state
> step reserve ok
> state
> step charge fail
> state
> compensate reserve ok
> state
@ 2 state
= phase | "forward" | state.phase before anything ran
= outcome | "running" | state.outcome before anything ran
@ 4 state
= phase | "forward" | state.phase after one step
@ 6 state
= phase | "compensating" | state.phase after the failure
$ pending | ["reserve"] | state.pending after the failure
@ 8 state
= phase | "done" | state.phase once the queue is empty
= outcome | "compensated" | state.outcome once the queue is empty"#;

/// A compensation for a step that never ran is refused.
pub const AN_UNRUN_STEP_CANNOT_BE_COMPENSATED: &'static str = r#"compensating steps the saga never completed
> init ["reserve","charge","ship"]
> step reserve ok
> step charge fail
> compensate ship ok
> compensate charge ok
> ledger
@ 4 compensate ship ok
= ok | false | compensate(ship).ok
@ 5 compensate charge ok
= ok | false | compensate(charge).ok
@ 6 ledger
$ entries | ["do:reserve"] | ledger.entries"#;

/// Driving step by step reaches the same ledger as one run.
pub const STEP_BY_STEP_AGREES_WITH_RUN: &'static str = r#"every failure point, driven both ways
> init ["reserve","charge","pack","ship","notify"]
> step reserve ok
> step charge ok
> step pack ok
> step ship ok
> step notify ok
> ledger
~ entries | [] | -
> init ["reserve","charge","pack","ship","notify"]
> run 0
> ledger
~ entries | [] | -
> init ["reserve","charge","pack","ship","notify"]
> step reserve fail
> ledger
~ entries | [] | -
> init ["reserve","charge","pack","ship","notify"]
> run 1
> ledger
~ entries | [] | -
> init ["reserve","charge","pack","ship","notify"]
> step reserve ok
> step charge fail
> compensate reserve ok
> ledger
~ entries | [] | -
> init ["reserve","charge","pack","ship","notify"]
> run 2
> ledger
~ entries | [] | -
> init ["reserve","charge","pack","ship","notify"]
> step reserve ok
> step charge ok
> step pack fail
> compensate charge ok
> compensate reserve ok
> ledger
~ entries | [] | -
> init ["reserve","charge","pack","ship","notify"]
> run 3
> ledger
~ entries | [] | -
> init ["reserve","charge","pack","ship","notify"]
> step reserve ok
> step charge ok
> step pack ok
> step ship fail
> compensate pack ok
> compensate charge ok
> compensate reserve ok
> ledger
~ entries | [] | -
> init ["reserve","charge","pack","ship","notify"]
> run 4
> ledger
~ entries | [] | -
> init ["reserve","charge","pack","ship","notify"]
> step reserve ok
> step charge ok
> step pack ok
> step ship ok
> step notify fail
> compensate ship ok
> compensate pack ok
> compensate charge ok
> compensate reserve ok
> ledger
~ entries | [] | -
> init ["reserve","charge","pack","ship","notify"]
> run 5
> ledger
~ entries | [] | -
@ 7 ledger
$ entries | ["do:reserve","do:charge","do:pack","do:ship","do:notify"] | step-by-step ledger for fail_at 0
@ 10 ledger
$ entries | ["do:reserve","do:charge","do:pack","do:ship","do:notify"] | run(0) ledger
. stop
@ 13 ledger
$ entries | [] | step-by-step ledger for fail_at 1
@ 16 ledger
$ entries | [] | run(1) ledger
. stop
@ 21 ledger
$ entries | ["do:reserve","undo:reserve"] | step-by-step ledger for fail_at 2
@ 24 ledger
$ entries | ["do:reserve","undo:reserve"] | run(2) ledger
. stop
@ 31 ledger
$ entries | ["do:reserve","do:charge","undo:charge","undo:reserve"] | step-by-step ledger for fail_at 3
@ 34 ledger
$ entries | ["do:reserve","do:charge","undo:charge","undo:reserve"] | run(3) ledger
. stop
@ 43 ledger
$ entries | ["do:reserve","do:charge","do:pack","undo:pack","undo:charge","undo:reserve"] | step-by-step ledger for fail_at 4
@ 46 ledger
$ entries | ["do:reserve","do:charge","do:pack","undo:pack","undo:charge","undo:reserve"] | run(4) ledger
. stop
@ 57 ledger
$ entries | ["do:reserve","do:charge","do:pack","do:ship","undo:ship","undo:pack","undo:charge","undo:reserve"] | step-by-step ledger for fail_at 5
@ 60 ledger
$ entries | ["do:reserve","do:charge","do:pack","do:ship","undo:ship","undo:pack","undo:charge","undo:reserve"] | run(5) ledger
. go"#;

/// What somebody stuck on this stage is told, one after the other.
pub const HINTS: [&'static str; 4] = [
    "Topic `saga`: remember the steps that completed, and undo them newest first",
    "A failure at step k compensates k-1 … 1; the step that failed never completed",
    "Compensations are retried, so running one twice must leave one undo behind",
    "A compensation that fails stays at the head of the queue until it succeeds",
];

/// The tests of this stage.
pub const TESTS: [TestRow; 10] = [
    (
        "a saga with no failure commits every step",
        "a_saga_with_no_failure_commits",
        false,
        false,
        0,
        0,
        A_SAGA_WITH_NO_FAILURE_COMMITS,
    ),
    (
        "a failure at the last step undoes the rest in reverse",
        "a_failure_undoes_in_reverse",
        false,
        false,
        0,
        0,
        A_FAILURE_UNDOES_IN_REVERSE,
    ),
    (
        "the step that failed is never compensated",
        "the_failed_step_is_not_compensated",
        false,
        false,
        0,
        0,
        THE_FAILED_STEP_IS_NOT_COMPENSATED,
    ),
    (
        "a failure at the first step compensates nothing",
        "a_failure_at_the_first_step",
        false,
        false,
        0,
        0,
        A_FAILURE_AT_THE_FIRST_STEP,
    ),
    (
        "a retried compensation leaves one undo, not two",
        "a_retried_compensation_is_idempotent",
        false,
        false,
        0,
        0,
        A_RETRIED_COMPENSATION_IS_IDEMPOTENT,
    ),
    (
        "a compensation that fails stays at the head of the queue",
        "a_failed_compensation_is_retried",
        false,
        false,
        0,
        0,
        A_FAILED_COMPENSATION_IS_RETRIED,
    ),
    (
        "the phase and the outcome follow the saga through",
        "the_phase_follows_the_saga",
        false,
        false,
        0,
        0,
        THE_PHASE_FOLLOWS_THE_SAGA,
    ),
    (
        "a compensation for a step that never ran is refused",
        "an_unrun_step_cannot_be_compensated",
        true,
        false,
        0,
        0,
        AN_UNRUN_STEP_CANNOT_BE_COMPENSATED,
    ),
    (
        "driving step by step reaches the same ledger as one run",
        "step_by_step_agrees_with_run",
        true,
        false,
        0,
        0,
        STEP_BY_STEP_AGREES_WITH_RUN,
    ),
    (
        "a seeded saga with seeded compensation failures matches the replay",
        "a_seeded_saga",
        true,
        false,
        0,
        0,
        "",
    ),
];

/// The worked examples of this stage.
pub const EXAMPLES: [PrimRow; 2] = [
    (
        "A saga that fails at the third of five steps",
        "saga",
        r#"init ["reserve","charge","pack","ship","notify"]
run 3
ledger"#,
        "a five-step saga driven in one command, failing at step three",
        "two steps executed, the same two compensated newest first",
        "The ledger is the whole specification of this stage: `do:reserve`, `do:charge`, \
         `undo:charge`, `undo:reserve`. Note that `pack` appears nowhere. It failed, so it \
         never completed, and compensating a step that did not happen is how a saga refunds \
         money it never took.",
    ),
    (
        "A compensation retried after it failed",
        "saga",
        r#"init ["reserve","charge","ship"]
step reserve ok
step charge fail
compensate reserve fail
compensate reserve ok
compensate reserve ok
ledger"#,
        "one compensation that fails, then succeeds, then is retried once more",
        "the failed attempt leaves the queue alone; the ledger holds one undo",
        "Both halves matter. A compensation that fails must stay at the head of the queue, \
         because skipping it leaves the reservation held for ever; and the retry that \
         eventually lands must be idempotent, because the orchestrator cannot tell a lost \
         answer from a step that never ran.",
    ),
];

/// The worked examples of this stage.
pub fn examples() -> (examples: Vec<ExampleSpec>)
    ensures
        described(examples@) == EXAMPLES@.map_values(|row: PrimRow| prim_described(row)),
{
    prim_examples(EXAMPLES)
}

/// What the rows say of this stage's place in the suite.
proof fn lemma_in_place()
    ensures
        rows_written(TESTS@),
        rows_on_topic(EXAMPLES@, HINTS[0]@),
{
    assert(rows_written(TESTS@)) by {
        reveal_strlit("placeholder");
        reveal_strlit("a saga with no failure commits every step");
        assert(TESTS@[0].0@.len() == 41);
        reveal_strlit("a failure at the last step undoes the rest in reverse");
        assert(TESTS@[1].0@.len() == 53);
        reveal_strlit("the step that failed is never compensated");
        assert(TESTS@[2].0@.len() == 41);
        reveal_strlit("a failure at the first step compensates nothing");
        assert(TESTS@[3].0@.len() == 47);
        reveal_strlit("a retried compensation leaves one undo, not two");
        assert(TESTS@[4].0@.len() == 47);
        reveal_strlit("a compensation that fails stays at the head of the queue");
        assert(TESTS@[5].0@.len() == 56);
        reveal_strlit("the phase and the outcome follow the saga through");
        assert(TESTS@[6].0@.len() == 49);
        reveal_strlit("a compensation for a step that never ran is refused");
        assert(TESTS@[7].0@.len() == 51);
        reveal_strlit("driving step by step reaches the same ledger as one run");
        assert(TESTS@[8].0@.len() == 55);
        reveal_strlit("a seeded saga with seeded compensation failures matches the replay");
        assert(TESTS@[9].0@.len() == 66);
        assert forall|i: int| 0 <= i < 10 implies (#[trigger] TESTS@[i]).0@ != "placeholder"@ by {
            assert(i == 0 || i == 1 || i == 2 || i == 3 || i == 4 || i == 5 || i == 6 || i == 7 || i == 8 || i == 9);
        }
    }
    assert(names_topic_at(HINTS[0]@, "saga"@, 6)) by {
        reveal_strlit("`");
        reveal_strlit("saga");
        reveal_strlit("Topic `saga`: remember the steps that completed, and undo them newest first");
        assert(HINTS[0]@.subrange(6, 12) =~= "`"@ + "saga"@ + "`"@);
    }
    reveal_strlit("init ");
    assert(EXAMPLES@[0].2@.len() >= 5 && EXAMPLES@[0].2@.take(5) =~= "init "@) by {
        reveal_strlit(
            "init [\"reserve\",\"charge\",\"pack\",\"ship\",\"notify\"]\n\
             run 3\n\
             ledger",
        );
    }
    assert(EXAMPLES@[1].2@.len() >= 5 && EXAMPLES@[1].2@.take(5) =~= "init "@) by {
        reveal_strlit(
            "init [\"reserve\",\"charge\",\"ship\"]\n\
             step reserve ok\n\
             step charge fail\n\
             compensate reserve fail\n\
             compensate reserve ok\n\
             compensate reserve ok\n\
             ledger",
        );
    }
}

/// What stage 66 holds.
pub open spec fn is_stage(s: Stage) -> bool {
    &&& s.number == 66
    &&& s.slug == "saga_orchestrated"
    &&& s.name == "Orchestrated saga"
    &&& s.ext == false
    &&& s.ladder == Ladder::Algorithms
    &&& s.hints == HINTS
    &&& s.tests@ == tests_of(TESTS@)
    &&& described(s.examples@) == EXAMPLES@.map_values(|row: PrimRow| prim_described(row))
}

/// Stage 66.
pub fn stage() -> (s: Stage)
    ensures
        is_stage(s),
        s.in_place(),
{
    let s = Stage {
        number: 66,
        slug: "saga_orchestrated",
        name: "Orchestrated saga",
        ext: false,
        ladder: Ladder::Algorithms,
        hints: HINTS,
        examples: examples(),
        tests: tests(TESTS),
    };
    proof {
        reveal(Stage::in_place);
        assert(s.examples@.len() == described(s.examples@).len());
        lemma_in_place();
        assert forall|i: int| 0 <= i < s.examples@.len() implies opens_topic(
            #[trigger] s.examples@[i]@,
            s.hints[0]@,
        ) by {
            assert(described(s.examples@)[i] == prim_described(EXAMPLES@[i]));
        }
    }
    s
}

} // verus!
