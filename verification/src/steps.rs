//! Planned conversations: commands, each with what its answer has to carry.
use vstd::prelude::*;
use crate::check::{
    all_hold, check_passes_where_every_ruling_holds, is_bool, is_fact, is_int, is_text, name_step, step_path,
    Check, Fact, Ruling, Truth, Verdict,
};
use crate::json::{field_of, json_text, whole, Json};
use crate::prim::{expect_bool, expect_i64, expect_str, lookup, raw, raw_text, whole_field, Misshapen};

verus! {

/// What one field of an answer must hold.
#[verifier::ext_equal]
pub enum Wanted {
    Int(int),
    Bool(bool),
    Text(Seq<char>),
    Null,
    Ints(Seq<i64>),
}

/// What one field of an answer must hold, in whichever JSON shape the contract allows.
#[derive(Debug)]
pub enum Want {
    Int(i128),
    Bool(bool),
    Text(String),
    Null,
    Ints(Vec<i64>),
}

impl View for Want {
    type V = Wanted;

    open spec fn view(&self) -> Wanted {
        match self {
            Want::Int(n) => Wanted::Int(*n as int),
            Want::Bool(b) => Wanted::Bool(*b),
            Want::Text(s) => Wanted::Text(s@),
            Want::Null => Wanted::Null,
            Want::Ints(ns) => Wanted::Ints(ns@),
        }
    }
}

/// One command and the fields its answer has to carry.
#[verifier::ext_equal]
pub struct Asked {
    pub command: Seq<char>,
    pub wants: Seq<(Seq<char>, Wanted)>,
}

/// One scripted command and the fields its answer has to carry.
#[derive(Debug)]
pub struct Step {
    pub command: String,
    pub wants: Vec<(&'static str, Want)>,
}

/// The fields an answer has to carry.
pub open spec fn wants_of(wants: Seq<(&'static str, Want)>) -> Seq<(Seq<char>, Wanted)> {
    wants.map_values(|w: (&'static str, Want)| (w.0@, w.1@))
}

impl View for Step {
    type V = Asked;

    open spec fn view(&self) -> Asked {
        Asked { command: self.command@, wants: wants_of(self.wants@) }
    }
}

/// What a script asks.
pub open spec fn asked(steps: Seq<Step>) -> Seq<Asked> {
    steps.map_values(|s: Step| s@)
}

/// Why a list of whole numbers could not be read out of an answer.
#[derive(Clone, Copy, PartialEq, Eq, Structural, Debug)]
pub enum Unlisted {
    /// The answer has no such field.
    Absent,
    /// The field is no array.
    NoArray,
    /// The item there is no whole number, and it is the first that is none.
    NotWhole { at: usize },
}

/// The whole numbers of a JSON array that holds nothing else, in either shape.
pub open spec fn whole_items(items: Seq<Json>) -> Option<Seq<i64>> {
    if forall|i: int| 0 <= i < items.len() ==> whole(#[trigger] items[i]) is Some {
        Some(items.map_values(|j: Json| whole(j)->0))
    } else {
        None
    }
}

/// The list of whole numbers a field is.
pub open spec fn whole_list(answer: Json, field: Seq<char>) -> Option<Seq<i64>> {
    match field_of(answer, field) {
        Some(Json::Array(items)) => whole_items(items@),
        _ => None,
    }
}

/// Reads a named array of whole numbers out of an answer, tolerating either JSON shape.
pub fn int_list(answer: &Json, field: &str) -> (r: Result<Vec<i64>, Unlisted>)
    ensures
        match whole_list(*answer, field@) {
            Some(ns) => r is Ok && r->Ok_0@ == ns,
            None => r is Err,
        },
        r matches Err(e) ==> match field_of(*answer, field@) {
            None => e == Unlisted::Absent,
            Some(Json::Array(items)) => e matches Unlisted::NotWhole { at } && at < items@.len()
                && whole(items@[at as int]) is None && forall|k: int|
                0 <= k < at ==> whole(#[trigger] items@[k]) is Some,
            Some(_) => e == Unlisted::NoArray,
        },
{
    match answer.get(field) {
        Some(Json::Array(items)) => {
            let mut out: Vec<i64> = Vec::new();
            let mut i: usize = 0;
            while i < items.len()
                invariant
                    i <= items@.len(),
                    out@.len() == i,
                    field_of(*answer, field@) == Some(Json::Array(*items)),
                    forall|k: int|
                        0 <= k < i ==> whole(#[trigger] items@[k]) is Some && out@[k] == whole(items@[k])->0,
                decreases items@.len() - i,
            {
                match items[i].as_whole() {
                    Some(n) => {
                        out.push(n);
                    },
                    None => {
                        assert(whole(items@[i as int]) is None);
                        return Err(Unlisted::NotWhole { at: i });
                    },
                }
                i += 1;
            }
            assert(whole_items(items@) is Some);
            assert(out@ =~= items@.map_values(|j: Json| whole(j)->0));
            Ok(out)
        },
        Some(_) => Err(Unlisted::NoArray),
        None => Err(Unlisted::Absent),
    }
}

/// The `Debug` text of a string, as std writes it: between double quotes, with some characters escaped.
pub uninterp spec fn debug_text(s: Seq<char>) -> Seq<char>;

/// std's `Debug` of a `str`. Claimed is only that the text depends on the string alone; which characters
/// are escaped, and how, is left unsaid.
#[verifier::external_body]
fn debug_of(s: &str) -> (r: String)
    ensures
        r@ == debug_text(s@),
{
    format!("{s:?}")
}

/// What is said of a list that could not be read. `quoted` is the field's name in quotes where the
/// answer has no such field, and the item in quotes where it is a text; `value` is the item, or the
/// field where it is no array.
pub open spec fn unlisted_words(why: Unlisted, field: Seq<char>, quoted: Seq<char>, value: Json) -> Seq<char> {
    match why {
        Unlisted::Absent => "the answer has no "@ + quoted + " field"@,
        Unlisted::NoArray => field + " should be an array, got "@ + json_text(value),
        Unlisted::NotWhole { .. } => field + " holds "@ + (if value is Text {
            quoted
        } else {
            json_text(value)
        }) + ", not a whole number"@,
    }
}

/// What is said of a list that could not be read.
pub fn unlisted_text(why: Unlisted, field: &str, quoted: &str, value: &Json) -> (s: String)
    ensures
        s@ == unlisted_words(why, field@, quoted@, *value),
{
    match why {
        Unlisted::Absent => {
            let mut s = String::from_str("the answer has no ");
            s.append(quoted);
            s.append(" field");
            s
        },
        Unlisted::NoArray => {
            let mut s = String::from_str(field);
            s.append(" should be an array, got ");
            s.append(value.render().as_str());
            s
        },
        Unlisted::NotWhole { .. } => {
            let mut s = String::from_str(field);
            s.append(" holds ");
            match value {
                Json::Text(_) => {
                    s.append(quoted);
                },
                _ => {
                    s.append(value.render().as_str());
                },
            }
            s.append(", not a whole number");
            s
        },
    }
}

/// The first item that is no whole number is the one there.
pub open spec fn first_unwhole(items: Seq<Json>, at: int) -> bool {
    0 <= at < items.len() && whole(items[at]) is None && forall|k: int|
        0 <= k < at ==> whole(#[trigger] items[k]) is Some
}

/// `words` is what is said of a field that is no list of whole numbers.
pub open spec fn list_trouble_is(answer: Json, field: Seq<char>, words: Seq<char>) -> bool {
    match field_of(answer, field) {
        None => words == unlisted_words(Unlisted::Absent, field, debug_text(field), answer),
        Some(Json::Array(items)) => exists|at: usize|
            #![trigger items@[at as int]]
            first_unwhole(items@, at as int) && words == unlisted_words(
                Unlisted::NotWhole { at },
                field,
                match items@[at as int] {
                    Json::Text(s) => debug_text(s@),
                    _ => Seq::empty(),
                },
                items@[at as int],
            ),
        Some(other) => words == unlisted_words(Unlisted::NoArray, field, Seq::empty(), other),
    }
}

/// What is said of a field that is no list of whole numbers; nothing where it is one.
pub fn list_trouble(answer: &Json, field: &str) -> (r: Option<String>)
    ensures
        r is None <==> whole_list(*answer, field@) is Some,
        r matches Some(s) ==> list_trouble_is(*answer, field@, s@),
{
    let why = match int_list(answer, field) {
        Ok(_) => {
            return None;
        },
        Err(why) => why,
    };
    let nothing = String::new();
    match answer.get(field) {
        Some(Json::Array(items)) => {
            if let Unlisted::NotWhole { at } = why {
                let quoted = match &items[at] {
                    Json::Text(s) => debug_of(s.as_str()),
                    _ => nothing,
                };
                assert(first_unwhole(items@, at as int));
                Some(unlisted_text(why, field, quoted.as_str(), &items[at]))
            } else {
                None
            }
        },
        Some(other) => Some(unlisted_text(why, field, nothing.as_str(), other)),
        None => Some(unlisted_text(why, field, debug_of(field).as_str(), answer)),
    }
}

/// What the report says of one field, where the answer has it in a shape that can be read.
pub open spec fn field_ruling(path: Seq<char>, want: Wanted, answer: Json, field: Seq<char>) -> Option<Ruling> {
    match want {
        Wanted::Int(n) => match whole_field(answer, field) {
            Some(got) => Some(is_int(path, n, got as int)),
            None => None,
        },
        Wanted::Bool(b) => match lookup(answer, field) {
            Some(Json::Bool(got)) => Some(is_bool(path, b, got)),
            _ => None,
        },
        Wanted::Text(s) => match lookup(answer, field) {
            Some(Json::Text(got)) => Some(is_text(path, s, got@)),
            _ => None,
        },
        Wanted::Null => Some(is_text(path, "null"@, raw_text(answer, field))),
        Wanted::Ints(ns) => match whole_list(answer, field) {
            Some(got) => Some(is_fact(path, Truth::Ints(ns), Truth::Ints(got))),
            None => None,
        },
    }
}

/// What the report says of the first `n` fields of step `i`, where they can all be read.
pub open spec fn fields_rulings(i: nat, step: Asked, answer: Json, n: int) -> Option<Seq<Ruling>>
    decreases n,
{
    if n <= 0 {
        Some(Seq::empty())
    } else {
        let (field, want) = step.wants[n - 1];
        match (
            fields_rulings(i, step, answer, n - 1),
            field_ruling(step_path(i, step.command, field), want, answer, field),
        ) {
            (Some(before), Some(ruling)) => Some(before.push(ruling)),
            _ => None,
        }
    }
}

/// What the report says of step `i`, where its answer can be read.
pub open spec fn step_rulings(i: nat, step: Asked, answer: Json) -> Option<Seq<Ruling>> {
    fields_rulings(i, step, answer, step.wants.len() as int)
}

proof fn lemma_fields_stop(i: nat, step: Asked, answer: Json, k: int, n: int)
    requires
        0 <= k <= n,
        fields_rulings(i, step, answer, k) is None,
    ensures
        fields_rulings(i, step, answer, n) is None,
    decreases n - k,
{
    if k < n {
        lemma_fields_stop(i, step, answer, k, n - 1);
    }
}

/// A list as a fact of its own.
fn ints_fact(ns: &Vec<i64>) -> (f: Fact)
    ensures
        f@ == Truth::Ints(ns@),
{
    let own = ns.clone();
    assert(own@ =~= ns@);
    Fact::Ints(own)
}

/// Holds one field of an answer against what it must be; says whether it could be read.
fn judge_field(c: &mut Check, path: &str, want: &Want, answer: &Json, command: &str, field: &str) -> (r: bool)
    ensures
        match field_ruling(path@, want@, *answer, field@) {
            Some(ruling) => r && final(c)@ == (Verdict {
                rulings: old(c)@.rulings.push(ruling),
                ..old(c)@
            }),
            None => !r,
        },
{
    match want {
        Want::Int(n) => {
            if let Ok(got) = expect_i64(answer, command, field) {
                c.eq_int(path, *n, got as i128);
                return true;
            }
        },
        Want::Bool(b) => {
            if let Ok(got) = expect_bool(answer, command, field) {
                c.eq_bool(path, *b, got);
                return true;
            }
        },
        Want::Text(s) => {
            if let Ok(got) = expect_str(answer, command, field) {
                c.eq_text(path, s.as_str(), got.as_str());
                return true;
            }
        },
        Want::Null => {
            c.eq_text(path, "null", raw(answer, field).as_str());
            return true;
        },
        Want::Ints(ns) => {
            if let Ok(got) = int_list(answer, field) {
                c.eq(path, ints_fact(ns), Fact::Ints(got));
                return true;
            }
        },
    }
    false
}

/// Holds the answer to step `i` against what it has to carry, field by field. It fails where a field
/// cannot be read, and names the first of them.
pub fn judge_step(c: &mut Check, i: usize, step: &Step, answer: &Json) -> (r: Result<(), Misshapen>)
    ensures
        match step_rulings(i as nat, step@, *answer) {
            Some(rulings) => r is Ok && final(c)@ == (Verdict {
                rulings: old(c)@.rulings + rulings,
                ..old(c)@
            }),
            None => r is Err,
        },
        r matches Err(e) ==> e.command@ == step@.command && exists|k: int|
            0 <= k < step@.wants.len() && fields_rulings(i as nat, step@, *answer, k) is Some
                && fields_rulings(i as nat, step@, *answer, k + 1) is None && e.field@ == (
            #[trigger] step@.wants[k]).0,
{
    let ghost before = c@;
    let command = step.command.as_str();
    let mut k: usize = 0;
    while k < step.wants.len()
        invariant
            k <= step.wants@.len(),
            command@ == step@.command,
            fields_rulings(i as nat, step@, *answer, k as int) is Some,
            c@ == (Verdict {
                rulings: before.rulings + fields_rulings(i as nat, step@, *answer, k as int)->0,
                ..before
            }),
        decreases step.wants@.len() - k,
    {
        let field = step.wants[k].0;
        assert(step@.wants[k as int] == (field@, step.wants@[k as int].1@));
        let path = name_step(i, command, field);
        if !judge_field(c, path.as_str(), &step.wants[k].1, answer, command, field) {
            proof {
                assert(fields_rulings(i as nat, step@, *answer, k + 1) is None);
                lemma_fields_stop(i as nat, step@, *answer, k + 1, step@.wants.len() as int);
            }
            return Err(Misshapen { command: step.command.clone(), field: String::from_str(field) });
        }
        proof {
            assert(c@.rulings =~= before.rulings + fields_rulings(
                i as nat,
                step@,
                *answer,
                k + 1,
            )->0);
        }
        k += 1;
    }
    Ok(())
}

/// What the report says of the first `n` answers of a conversation that ends after the first step in
/// which something does not hold; nothing where an answer up to there cannot be read.
pub open spec fn run_rulings(steps: Seq<Asked>, answers: Seq<Json>, n: int) -> Option<Seq<Ruling>>
    decreases n,
{
    if n <= 0 {
        Some(Seq::empty())
    } else {
        match run_rulings(steps, answers, n - 1) {
            None => None,
            Some(before) => if all_hold(before) {
                match step_rulings((n - 1) as nat, steps[n - 1], answers[n - 1]) {
                    Some(more) => Some(before + more),
                    None => None,
                }
            } else {
                Some(before)
            },
        }
    }
}

proof fn lemma_run_stops(steps: Seq<Asked>, answers: Seq<Json>, k: int, n: int)
    requires
        0 <= k <= n,
        run_rulings(steps, answers, k) is None || (run_rulings(steps, answers, k) is Some && !all_hold(
            run_rulings(steps, answers, k)->0,
        )),
    ensures
        run_rulings(steps, answers, n) == run_rulings(steps, answers, k),
    decreases n - k,
{
    if k < n {
        lemma_run_stops(steps, answers, k, n - 1);
    }
}

/// What comes of holding the answers that have come so far against a script: a report up to the first
/// step in which something does not hold, or the first command whose answer cannot be read.
pub open spec fn run_judged(
    r: Result<Check, Misshapen>,
    subject: Seq<char>,
    note: Seq<char>,
    steps: Seq<Step>,
    answers: Seq<Json>,
) -> bool {
    &&& match run_rulings(asked(steps), answers, answers.len() as int) {
        Some(rulings) => r is Ok && r->Ok_0@ == Verdict::plain(subject, rulings, seq![note]),
        None => r is Err,
    }
    &&& r matches Err(e) ==> exists|k: int|
        0 <= k < answers.len() && run_rulings(asked(steps), answers, k) is Some && run_rulings(
            asked(steps),
            answers,
            k + 1,
        ) is None && e.command@ == (#[trigger] asked(steps)[k]).command
}

/// Holds the answers that have come so far against a script, up to the first step in which something
/// does not hold.
pub fn judge_steps(subject: &str, note: &str, steps: &Vec<Step>, answers: &Vec<Json>) -> (r: Result<
    Check,
    Misshapen,
>)
    requires
        answers@.len() <= steps@.len(),
    ensures
        run_judged(r, subject@, note@, steps@, answers@),
{
    let mut c = Check::new(subject);
    c.note(note);
    let ghost all = asked(steps@);
    let mut i: usize = 0;
    while i < answers.len() && c.ok()
        invariant
            i <= answers@.len() <= steps@.len(),
            all == asked(steps@),
            run_rulings(all, answers@, i as int) == Some(c@.rulings),
            c@.subject == subject@,
            c@.quiet(),
            c@.notes == seq![note@],
        decreases answers@.len() - i,
    {
        assert(all[i as int] == steps@[i as int]@);
        if let Err(e) = judge_step(&mut c, i, &steps[i], &answers[i]) {
            proof {
                lemma_run_stops(all, answers@, i + 1, answers@.len() as int);
                assert(all[i as int].command == e.command@);
            }
            return Err(e);
        }
        i += 1;
    }
    proof {
        lemma_run_stops_or_ends(all, answers@, i as int);
    }
    assert(c@ =~= Verdict::plain(subject@, c@.rulings, seq![note@]));
    Ok(c)
}

proof fn lemma_run_stops_or_ends(steps: Seq<Asked>, answers: Seq<Json>, i: int)
    requires
        0 <= i <= answers.len(),
        run_rulings(steps, answers, i) is Some,
        i == answers.len() || !all_hold(run_rulings(steps, answers, i)->0),
    ensures
        run_rulings(steps, answers, answers.len() as int) == run_rulings(steps, answers, i),
{
    if i < answers.len() {
        lemma_run_stops(steps, answers, i, answers.len() as int);
    }
}

/// The answer carries what is wanted of the field.
pub open spec fn carries(answer: Json, field: Seq<char>, want: Wanted) -> bool {
    match want {
        Wanted::Int(n) => whole_field(answer, field) matches Some(got) && got == n,
        Wanted::Bool(b) => lookup(answer, field) == Some(Json::Bool(b)),
        Wanted::Text(s) => lookup(answer, field) matches Some(Json::Text(got)) && got@ == s,
        Wanted::Null => raw_text(answer, field) == "null"@,
        Wanted::Ints(ns) => whole_list(answer, field) == Some(ns),
    }
}

/// A field is ruled to be as wanted exactly where the answer carries that, and can be ruled on wherever it
/// does.
pub proof fn field_is_ruled_on_as_wanted(path: Seq<char>, want: Wanted, answer: Json, field: Seq<char>)
    ensures
        field_ruling(path, want, answer, field) matches Some(r) ==> r.path == path && (r.holds() <==> carries(
            answer,
            field,
            want,
        )),
        carries(answer, field, want) ==> field_ruling(path, want, answer, field) is Some,
        field_ruling(path, want, answer, field) is None ==> want !is Null,
{
}

proof fn lemma_fields_pass(i: nat, step: Asked, answer: Json, n: int)
    requires
        0 <= n <= step.wants.len(),
    ensures
        (fields_rulings(i, step, answer, n) matches Some(r) && all_hold(r)) <==> forall|k: int|
            0 <= k < n ==> carries(answer, (#[trigger] step.wants[k]).0, step.wants[k].1),
        fields_rulings(i, step, answer, n) matches Some(r) ==> r.len() == n,
    decreases n,
{
    if n > 0 {
        lemma_fields_pass(i, step, answer, n - 1);
        let (field, want) = step.wants[n - 1];
        field_is_ruled_on_as_wanted(step_path(i, step.command, field), want, answer, field);
        let before = fields_rulings(i, step, answer, n - 1);
        let one = field_ruling(step_path(i, step.command, field), want, answer, field);
        if before is Some && one is Some {
            check_passes_where_every_ruling_holds(before->0, one->0);
        }
        if forall|k: int| 0 <= k < n ==> carries(answer, (#[trigger] step.wants[k]).0, step.wants[k].1) {
            assert(carries(answer, step.wants[n - 1].0, step.wants[n - 1].1));
        }
    }
}

/// A step passes exactly where the answer carries everything that is wanted of it.
pub proof fn step_passes_where_the_answer_carries_everything(i: nat, step: Asked, answer: Json)
    ensures
        (step_rulings(i, step, answer) matches Some(r) && all_hold(r)) <==> forall|k: int|
            0 <= k < step.wants.len() ==> carries(answer, (#[trigger] step.wants[k]).0, step.wants[k].1),
        step_rulings(i, step, answer) matches Some(r) ==> r.len() == step.wants.len(),
{
    lemma_fields_pass(i, step, answer, step.wants.len() as int);
}

/// The answer carries everything that is wanted at the step.
pub open spec fn satisfies(step: Asked, answer: Json) -> bool {
    forall|k: int| 0 <= k < step.wants.len() ==> carries(answer, (#[trigger] step.wants[k]).0, step.wants[k].1)
}

/// A run passes exactly where every answer carries everything that is wanted at its step.
pub proof fn run_passes_where_every_answer_satisfies(steps: Seq<Asked>, answers: Seq<Json>, n: int)
    requires
        0 <= n <= answers.len(),
        answers.len() <= steps.len(),
    ensures
        (run_rulings(steps, answers, n) matches Some(r) && all_hold(r)) <==> forall|i: int|
            0 <= i < n ==> satisfies(steps[i], #[trigger] answers[i]),
    decreases n,
{
    if n > 0 {
        run_passes_where_every_answer_satisfies(steps, answers, n - 1);
        step_passes_where_the_answer_carries_everything((n - 1) as nat, steps[n - 1], answers[n - 1]);
        let before = run_rulings(steps, answers, n - 1);
        let more = step_rulings((n - 1) as nat, steps[n - 1], answers[n - 1]);
        if before is Some && all_hold(before->0) && more is Some {
            lemma_all_hold_added(before->0, more->0);
        }
        if forall|i: int| 0 <= i < n ==> satisfies(steps[i], #[trigger] answers[i]) {
            assert(satisfies(steps[n - 1], answers[n - 1]));
        }
    }
}

proof fn lemma_all_hold_added(a: Seq<Ruling>, b: Seq<Ruling>)
    ensures
        all_hold(a + b) <==> all_hold(a) && all_hold(b),
{
    if all_hold(a + b) {
        assert forall|i: int| 0 <= i < a.len() implies (#[trigger] a[i]).holds() by {
            assert((a + b)[i].holds());
        }
        assert forall|i: int| 0 <= i < b.len() implies (#[trigger] b[i]).holds() by {
            assert((a + b)[a.len() + i].holds());
        }
    }
}

/// A run goes on as long as everything holds: a step after one that failed is not ruled on, and one that
/// cannot be read ends it.
pub proof fn run_goes_on_while_everything_holds(steps: Seq<Asked>, answers: Seq<Json>, n: int)
    requires
        0 < n,
    ensures
        run_rulings(steps, answers, 0) == Some(Seq::<Ruling>::empty()),
        run_rulings(steps, answers, n - 1) is None ==> run_rulings(steps, answers, n) is None,
        run_rulings(steps, answers, n - 1) matches Some(r) ==> (!all_hold(r) ==> run_rulings(steps, answers, n)
            == Some(r)),
        run_rulings(steps, answers, n - 1) matches Some(r) ==> (all_hold(r) ==> (match step_rulings(
            (n - 1) as nat,
            steps[n - 1],
            answers[n - 1],
        ) {
            Some(more) => run_rulings(steps, answers, n) == Some(r + more),
            None => run_rulings(steps, answers, n) is None,
        })),
{
}

/// A list of numbers can be read exactly where every item of it is a whole number, and reads as these.
pub proof fn list_reads_as_its_numbers(items: Seq<Json>, i: int)
    ensures
        whole_items(items) is Some <==> forall|k: int| 0 <= k < items.len() ==> whole(#[trigger] items[k]) is Some,
        whole_items(items) matches Some(ns) ==> ns.len() == items.len(),
        whole_items(items) matches Some(ns) ==> (0 <= i < items.len() ==> whole(items[i]) == Some(ns[i])),
{
    if whole_items(items) is Some && 0 <= i < items.len() {
        assert(whole(items[i]) is Some);
    }
}

/// What is said of a field that is no list of numbers: that it is not there, that it is no array, or which
/// item is no whole number.
pub proof fn trouble_is_put_in_words(field: Seq<char>, quoted: Seq<char>, value: Json, at: usize)
    ensures
        unlisted_words(Unlisted::Absent, field, quoted, value) == "the answer has no "@ + quoted + " field"@,
        unlisted_words(Unlisted::NoArray, field, quoted, value) == field + " should be an array, got "@ + json_text(
            value,
        ),
        value is Text ==> unlisted_words((Unlisted::NotWhole { at }), field, quoted, value) == field + " holds "@
            + quoted + ", not a whole number"@,
        !(value is Text) ==> unlisted_words((Unlisted::NotWhole { at }), field, quoted, value) == field
            + " holds "@ + json_text(value) + ", not a whole number"@,
{
}

} // verus!
