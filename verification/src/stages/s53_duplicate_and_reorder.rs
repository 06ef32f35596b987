//! Stage 53: Duplicated and reordered peer messages are tolerated.
//!
//! A quarter of the peer messages are sent twice and a quarter of them arrive one place late. The log
//! decides what happened, not the wire: nothing is applied twice and nothing is lost.
use vstd::prelude::*;
use crate::claims::Claims;
use crate::examples::{cluster_described, cluster_example, described, one, ExampleSpec, StepRow, TextRow};
use crate::stages::{rows_written, tests, tests_of, Ladder, Stage, TestRow};
use crate::cluster::{LinkFault, LinkStep};
use crate::text::{nat_text, push_nat};

verus! {

/// How long a mangled cluster is given to name a leader, in milliseconds.
pub const ELECT_MS: u64 = 30_000;

/// How long one write is given to find a member willing to take it, in milliseconds.
pub const PATIENCE_MS: u64 = 25_000;

/// How long every link is cut so that the peers dial again, in milliseconds.
pub const REDIAL_MS: u64 = 400;

/// The fault this stage runs under: a quarter of framed messages sent twice, a quarter of them delivered
/// one place late.
pub open spec fn mangling() -> LinkFault {
    LinkFault { cut: false, delay_ms: 0, drop_connection: 0, duplicate: 25, reorder: 25 }
}

/// A link on which nothing passes.
pub open spec fn cutting() -> LinkFault {
    LinkFault { cut: true, delay_ms: 0, drop_connection: 0, duplicate: 0, reorder: 0 }
}

/// The fault this stage runs under.
pub fn mangled() -> (f: LinkFault)
    ensures
        f == mangling(),
{
    LinkFault { duplicate: 25, reorder: 25, ..LinkFault::none() }
}

/// Puts every link into message mode. A proxy decides whether to take a connection apart when it accepts
/// it, so every link is cut for a moment first and the peers dial again.
pub fn mangle_every_link() -> (steps: Vec<LinkStep>)
    ensures
        steps@ == seq![
            LinkStep::EveryLink { fault: cutting() },
            LinkStep::Sleep { ms: REDIAL_MS },
            LinkStep::EveryLink { fault: mangling() },
        ],
{
    let mut steps: Vec<LinkStep> = Vec::new();
    steps.push(LinkStep::EveryLink { fault: LinkFault::cut() });
    steps.push(LinkStep::Sleep { ms: REDIAL_MS });
    steps.push(LinkStep::EveryLink { fault: mangled() });
    assert(steps@ =~= seq![
        LinkStep::EveryLink { fault: cutting() },
        LinkStep::Sleep { ms: REDIAL_MS },
        LinkStep::EveryLink { fault: mangling() },
    ]);
    steps
}

/// Takes every link out of message mode. A connection accepted in message mode stays in it, so every link
/// is cut for a moment before the faults are taken off.
pub fn heal_and_reconnect() -> (steps: Vec<LinkStep>)
    ensures
        steps@ == seq![
            LinkStep::EveryLink { fault: cutting() },
            LinkStep::Sleep { ms: REDIAL_MS },
            LinkStep::Heal,
        ],
{
    let mut steps: Vec<LinkStep> = Vec::new();
    steps.push(LinkStep::EveryLink { fault: LinkFault::cut() });
    steps.push(LinkStep::Sleep { ms: REDIAL_MS });
    steps.push(LinkStep::Heal);
    assert(steps@ =~= seq![
        LinkStep::EveryLink { fault: cutting() },
        LinkStep::Sleep { ms: REDIAL_MS },
        LinkStep::Heal,
    ]);
    steps
}

/// What is said of what the injector managed.
pub open spec fn mangling_said(duplicated: nat, reordered: nat, summary: Seq<char>) -> Seq<char> {
    if duplicated == 0 && reordered == 0 {
        "the proxy framed nothing it could mangle, so this run proved tolerance of a healthy stream only \u{2014} "@
            + summary
    } else {
        nat_text(duplicated) + " peer messages were sent twice and "@ + nat_text(reordered)
            + " were delivered one slot late \u{2014} "@ + summary
    }
}

/// A line saying what the injector managed, and whether it managed anything at all.
pub fn mangling_note(duplicated: u64, reordered: u64, summary: &str) -> (s: String)
    ensures
        s@ == mangling_said(duplicated as nat, reordered as nat, summary@),
{
    if duplicated == 0 && reordered == 0 {
        let mut s = String::from_str(
            "the proxy framed nothing it could mangle, so this run proved tolerance of a healthy stream only \u{2014} ",
        );
        s.append(summary);
        return s;
    }
    let mut s = String::new();
    push_nat(&mut s, duplicated);
    s.append(" peer messages were sent twice and ");
    push_nat(&mut s, reordered);
    s.append(" were delivered one slot late \u{2014} ");
    s.append(summary);
    assert(s@ =~= mangling_said(duplicated as nat, reordered as nat, summary@));
    s
}

/// How far the last of some revisions is past the first; nothing where there is none.
pub fn span(revisions: &Vec<i64>) -> (r: Option<i128>)
    ensures
        match r {
            Some(n) => revisions@.len() > 0 && n == revisions@.last() - revisions@[0],
            None => revisions@.len() == 0,
        },
{
    let n: usize = revisions.len();
    if n == 0 {
        None
    } else {
        Some(revisions[n - 1] as i128 - revisions[0] as i128)
    }
}

/// A run of writes all succeed while peer messages are mangled.
pub const PROGRESS_IS_MADE: Claims<4> = (
    "twelve writes issued while peer messages were duplicated and reordered",
    [
        ("", "=", "written", "12", "writes acknowledged"),
        ("", "remark", "", "", "{stirred}"),
        ("", "remark", "", "", "twelve further writes took {took} ms"),
        ("", "remark", "", "", "{mangling}"),
    ],
);

/// Every value written under mangling reads back.
pub const VALUES_ARE_CORRECT: Claims<1> = (
    "eight writes made while peer messages were mangled",
    [
        ("", "remark", "", "", "{mangling}"),
    ],
);

/// The revision sequence is unbroken.
pub const REVISIONS_ARE_UNBROKEN: Claims<4> = (
    "the revisions ten mangled writes were acknowledged with",
    [
        ("", "? rising revisions", "revisions", "strictly increasing", "revisions"),
        ("", "=", "span", "9", "revisions.last - revisions.first"),
        ("", "see", "revisions", "", "revisions"),
        ("", "remark", "", "", "{mangling}"),
    ],
);

/// Every member converges once the mangling stops.
pub const MEMBERS_CONVERGE: Claims<5> = (
    "what every member sees after a mangled workload",
    [
        ("", ">=", "acknowledged", "20", "operations acknowledged"),
        ("", "=", "agreed", "keys", "keys agreed on by every member"),
        ("", "remark", "", "", "{summary}"),
        ("", "remark", "", "", "the members settled on {settled}"),
        ("", "remark", "", "", "{mangling}"),
    ],
);

/// A retransmitted append is idempotent, so no value is applied twice.
pub const APPENDS_ARE_IDEMPOTENT: Claims<6> = (
    "ten keys, each written exactly once, under duplication",
    [
        ("member/range", "=", "count", "10", "{name}.range(prefix).count"),
        ("member/range", "=", "len", "10", "{name}.range(prefix).kvs.len()"),
        ("member/pair", "=", "version", "1", "{name}.{key}.version"),
        (
            "member/pair",
            "=",
            "mod_revision",
            "create_revision",
            "{name}.{key}.create_revision == mod_revision",
        ),
        ("", "remark", "", "", "{stirred}"),
        ("", "remark", "", "", "{mangling}"),
    ],
);

/// One leader is still named under mangling.
pub const A_LEADER_IS_NAMED: Claims<4> = (
    "the leader of a cluster whose peers repeat themselves",
    [
        ("", "? under < 3", "under", "one of the three members", "leader index under mangling"),
        ("", "=", "written", "4", "writes acknowledged"),
        (
            "",
            "remark",
            "",
            "",
            "leader m{under+1} under mangling, m{after+1} after the heal — {described}",
        ),
        ("", "remark", "", "", "{mangling}"),
    ],
);

/// A read under mangling never invents a value.
pub const READS_INVENT_NOTHING: Claims<4> = (
    "what a read sees while peer messages are duplicated and reordered",
    [
        ("member/read", "=", "count", "0", "{name}.range({absent}).count"),
        ("member/read", "=", "len", "0", "{name}.range({absent}).kvs.len()"),
        ("member/refusal", "see", "error", "", "{name}.range({absent})"),
        ("", "remark", "", "", "{mangling}"),
    ],
);

/// What the proxy managed to mangle is reported.
pub const THE_INJECTOR_REPORTS_ITSELF: Claims<5> = (
    "what the message-mode injector managed",
    [
        ("", "see", "duplicated", "", "cluster.stats.duplicated()"),
        ("", "see", "reordered", "", "cluster.stats.reordered()"),
        ("", "=", "written", "10", "writes acknowledged while in message mode"),
        ("", "remark", "", "", "{stirred}"),
        ("", "remark", "", "", "{mangling}"),
    ],
);

/// What somebody stuck on this stage is told, one after the other.
pub const HINTS: [&'static str; 4] = [
    "A retransmitted append must be idempotent: applying it twice changes nothing",
    "An out-of-order append is rejected on its previous index, not applied at the wrong place",
    "Terms and indexes are what make this safe, not the order bytes happen to arrive in",
    "The cluster must keep making progress, not merely avoid corruption",
];

/// The tests of this stage.
pub const TESTS: [TestRow; 8] = [
    (
        "a run of writes all succeed while peer messages are mangled",
        "progress_is_made",
        true,
        true,
        0,
        60000,
        "",
    ),
    (
        "every value written under mangling reads back",
        "values_are_correct",
        true,
        true,
        0,
        60000,
        "",
    ),
    ("the revision sequence is unbroken", "revisions_are_unbroken", true, true, 0, 60000, ""),
    (
        "every member converges once the mangling stops",
        "members_converge",
        true,
        true,
        0,
        60000,
        "",
    ),
    (
        "a retransmitted append is idempotent, so no value is applied twice",
        "appends_are_idempotent",
        true,
        true,
        0,
        60000,
        "",
    ),
    ("one leader is still named under mangling", "a_leader_is_named", true, true, 0, 60000, ""),
    (
        "a read under mangling never invents a value",
        "reads_invent_nothing",
        true,
        true,
        0,
        60000,
        "",
    ),
    (
        "what the proxy managed to mangle is reported",
        "the_injector_reports_itself",
        true,
        true,
        0,
        60000,
        "",
    ),
];

/// The texts of the example.
pub const EXAMPLE_TEXTS: TextRow = (
    "A write that is sent twice and arrives late",
    "one put, with the peer traffic behind it duplicated and reordered",
    "version 1 on every member, and create_revision equal to mod_revision",
    "`version` is the field to watch. One put means version 1, however many times the append \
     carrying it crossed the wire. A store that counts messages rather than log indexes answers \
     version 2 here and is wrong in a way no read of the value alone would catch.",
);

/// The steps of the example: whom to ask, the path, the key, the value and why.
pub const EXAMPLE_STEPS: [StepRow; 3] = [
    (
        0,
        "/v3/kv/put",
        "s53/k0",
        "once",
        "write s53/k0 once, while a quarter of peer messages are duplicated",
    ),
    (
        1,
        "/v3/kv/range",
        "s53/k0",
        "",
        "m2's copy: version tells whether the write was applied more than once",
    ),
    (2, "/v3/kv/range", "s53/k0", "", "m3's copy, which must match m2's exactly"),
];

/// Mangling touches one message in four either way and cuts nothing; cutting lets nothing pass and mangles
/// nothing.
pub proof fn mangling_is_no_cut()
    ensures
        !mangling().cut,
        mangling().duplicate == 25,
        mangling().reorder == 25,
        mangling().delay_ms == 0,
        mangling().drop_connection == 0,
        cutting().cut,
        cutting().duplicate == 0,
        cutting().reorder == 0,
        cutting().delay_ms == 0,
        cutting().drop_connection == 0,
{
}

/// A run in which nothing was mangled says that it proved little, and any other says how much was.
pub proof fn note_says_how_much_was_mangled(duplicated: nat, reordered: nat, summary: Seq<char>)
    ensures
        duplicated + reordered > 0 ==> mangling_said(duplicated, reordered, summary) == nat_text(duplicated)
            + " peer messages were sent twice and "@ + nat_text(reordered)
            + " were delivered one slot late \u{2014} "@ + summary,
        duplicated + reordered == 0 ==> mangling_said(duplicated, reordered, summary)
            == "the proxy framed nothing it could mangle, so this run proved tolerance of a healthy stream only \u{2014} "@
            + summary,
{
}

/// The worked examples of this stage.
pub fn examples() -> (examples: Vec<ExampleSpec>)
    ensures
        described(examples@) == seq![cluster_described(EXAMPLE_TEXTS, EXAMPLE_STEPS@)],
{
    one(cluster_example(EXAMPLE_TEXTS, EXAMPLE_STEPS))
}

/// What the rows say of this stage's place in the suite.
proof fn lemma_in_place()
    ensures
        rows_written(TESTS@),
{
    assert(rows_written(TESTS@)) by {
        reveal_strlit("placeholder");
        reveal_strlit("a run of writes all succeed while peer messages are mangled");
        assert(TESTS@[0].0@.len() == 59);
        reveal_strlit("every value written under mangling reads back");
        assert(TESTS@[1].0@.len() == 45);
        reveal_strlit("the revision sequence is unbroken");
        assert(TESTS@[2].0@.len() == 33);
        reveal_strlit("every member converges once the mangling stops");
        assert(TESTS@[3].0@.len() == 46);
        reveal_strlit("a retransmitted append is idempotent, so no value is applied twice");
        assert(TESTS@[4].0@.len() == 66);
        reveal_strlit("one leader is still named under mangling");
        assert(TESTS@[5].0@.len() == 40);
        reveal_strlit("a read under mangling never invents a value");
        assert(TESTS@[6].0@.len() == 43);
        reveal_strlit("what the proxy managed to mangle is reported");
        assert(TESTS@[7].0@.len() == 44);
        assert forall|i: int| 0 <= i < 8 implies (#[trigger] TESTS@[i]).0@ != "placeholder"@ by {
            assert(i == 0 || i == 1 || i == 2 || i == 3 || i == 4 || i == 5 || i == 6 || i == 7);
        }
    }
}

/// What stage 53 holds.
pub open spec fn is_stage(s: Stage) -> bool {
    &&& s.number == 53
    &&& s.slug == "duplicate_and_reorder"
    &&& s.name == "Duplicated and reordered peer messages are tolerated"
    &&& s.ext == true
    &&& s.ladder == Ladder::Cluster
    &&& s.hints == HINTS
    &&& s.tests@ == tests_of(TESTS@)
    &&& described(s.examples@) == seq![cluster_described(EXAMPLE_TEXTS, EXAMPLE_STEPS@)]
}

/// Stage 53.
pub fn stage() -> (s: Stage)
    ensures
        is_stage(s),
        s.in_place(),
{
    let s = Stage {
        number: 53,
        slug: "duplicate_and_reorder",
        name: "Duplicated and reordered peer messages are tolerated",
        ext: true,
        ladder: Ladder::Cluster,
        hints: HINTS,
        examples: examples(),
        tests: tests(TESTS),
    };
    proof {
        reveal(Stage::in_place);
        lemma_in_place();
    }
    s
}

} // verus!
