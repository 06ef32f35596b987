//! Stage 49: Removing a member.
//!
//! A member is removed by its id. The rest keep serving, the quorum shrinks with the membership, an id
//! nobody has is refused, and so is the removal of the last member.
use vstd::prelude::*;
use crate::claims::Claims;
use crate::examples::{cluster_described, cluster_example, described, one, ExampleSpec, StepRow, TextRow};
use crate::stages::{rows_written, tests, tests_of, Ladder, Stage, TestRow};
use crate::cluster::{self, live_poll, Poll};
use crate::text::{in_order, join_texts, joined, nat_text, push_nat, push_wide, put_text, sort_names, texts};

verus! {

/// What a driver that waits until every member still running names one leader, and that one is itself
/// still running, does next.
pub fn live_leader(alive: &Vec<usize>, named: &Vec<Option<usize>>, elapsed_ms: u64, within_ms: u64) -> (next:
    Poll)
    ensures
        live_poll(alive@, named@, elapsed_ms, within_ms, next),
{
    cluster::poll_live(alive, named, elapsed_ms, within_ms)
}

/// How long a removal is offered again, in milliseconds.
pub const REMOVE_WITHIN_MS: u64 = 25_000;

/// The names a member list gives, in order.
pub fn member_names(listed: &Vec<String>) -> (names: Vec<String>)
    ensures
        texts(names@) == in_order(texts(listed@)),
{
    sort_names(listed)
}

/// What a driver does when a removal was refused.
#[derive(Debug)]
pub enum Removal {
    /// Offer it again after so many milliseconds.
    Again(u64),
    /// Give up: what went wrong, and what to note.
    GiveUp { message: String, note: String },
}

/// What a driver does when a removal was refused: a cluster that has not been connected for long enough
/// refuses for a while, so the removal is offered again until the time is over.
pub open spec fn refused_removal(victim: usize, elapsed_ms: u64, refusal: Seq<char>, next: Removal) -> bool {
    if elapsed_ms >= REMOVE_WITHIN_MS {
        next matches Removal::GiveUp { message, note } && message@ == "m"@ + nat_text((victim + 1) as nat)
            + " could not be removed within "@ + nat_text(elapsed_ms as nat) + " ms"@ && note@ == refusal
    } else {
        next == Removal::Again(300)
    }
}

/// What a driver does when a removal was refused.
pub fn remove_settled(victim: usize, elapsed_ms: u64, refusal: &str) -> (next: Removal)
    ensures
        refused_removal(victim, elapsed_ms, refusal@, next),
{
    if elapsed_ms < REMOVE_WITHIN_MS {
        return Removal::Again(300);
    }
    let mut message = String::from_str("m");
    push_wide(&mut message, victim as i128 + 1);
    message.append(" could not be removed within ");
    push_nat(&mut message, elapsed_ms);
    message.append(" ms");
    assert(message@ =~= "m"@ + nat_text((victim + 1) as nat) + " could not be removed within "@ + nat_text(
        elapsed_ms as nat,
    ) + " ms"@);
    Removal::GiveUp { message, note: String::from_str(refusal) }
}

/// What came of a removal that was offered.
#[verifier::ext_equal]
pub enum RemovalSaid {
    Accepted,
    /// It was refused, with these messages.
    Refused(Seq<Seq<char>>),
}

/// What came of a removal that was offered.
#[derive(Debug)]
pub enum RemovalAnswer {
    Accepted,
    /// It was refused, with these messages.
    Refused(Vec<String>),
}

impl View for RemovalAnswer {
    type V = RemovalSaid;

    open spec fn view(&self) -> RemovalSaid {
        match self {
            RemovalAnswer::Accepted => RemovalSaid::Accepted,
            RemovalAnswer::Refused(messages) => RemovalSaid::Refused(texts(messages@)),
        }
    }
}

/// What a driver that offers a removal does next.
#[verifier::ext_equal]
pub enum RemovalCourse {
    Done,
    Again { ms: u64 },
    GiveUp { message: Seq<char>, note: Seq<char> },
}

/// What a driver that offers a removal does next.
#[derive(Debug)]
pub enum RemovalStep {
    /// Nothing: the removal was accepted.
    Done,
    /// Offer it again after so many milliseconds.
    Again(u64),
    /// Give up: what went wrong, and what to note.
    GiveUp { message: String, note: String },
}

impl View for RemovalStep {
    type V = RemovalCourse;

    open spec fn view(&self) -> RemovalCourse {
        match self {
            RemovalStep::Done => RemovalCourse::Done,
            RemovalStep::Again(ms) => RemovalCourse::Again { ms: *ms },
            RemovalStep::GiveUp { message, note } => RemovalCourse::GiveUp {
                message: message@,
                note: note@,
            },
        }
    }
}

/// An answer, and how long the removal has been offered by then.
#[verifier::ext_equal]
pub struct RemovalHeard {
    pub said: RemovalSaid,
    pub elapsed_ms: u64,
}

impl RemovalHeard {
    /// It is a refusal, and there is still time.
    pub open spec fn goes_on(self) -> bool {
        self.said is Refused && self.elapsed_ms < REMOVE_WITHIN_MS
    }

    /// What the driver does about it: an acceptance ends the offer, however long it took; a refusal has
    /// it made again until the time is over, and then its messages, in one line, are the note.
    pub open spec fn course(self, victim: usize) -> RemovalCourse {
        match self.said {
            RemovalSaid::Accepted => RemovalCourse::Done,
            RemovalSaid::Refused(messages) => if self.elapsed_ms >= REMOVE_WITHIN_MS {
                RemovalCourse::GiveUp {
                    message: "m"@ + nat_text((victim + 1) as nat) + " could not be removed within "@ + nat_text(
                        self.elapsed_ms as nat,
                    ) + " ms"@,
                    note: joined(messages, "; "@),
                }
            } else {
                RemovalCourse::Again { ms: 300 }
            },
        }
    }
}

/// What a driver does once a removal that it offered has been answered.
pub fn removal_step(victim: usize, answer: &RemovalAnswer, elapsed_ms: u64) -> (next: RemovalStep)
    ensures
        next@ == (RemovalHeard { said: answer@, elapsed_ms }).course(victim),
{
    match answer {
        RemovalAnswer::Accepted => RemovalStep::Done,
        RemovalAnswer::Refused(messages) => match remove_settled(
            victim,
            elapsed_ms,
            join_texts(messages, "; ").as_str(),
        ) {
            Removal::Again(ms) => RemovalStep::Again(ms),
            Removal::GiveUp { message, note } => RemovalStep::GiveUp { message, note },
        },
    }
}

/// Where a removal stands once the driver has heard all this, one after the other. It is offered at once.
pub open spec fn removal_run(victim: usize, heard: Seq<RemovalHeard>) -> RemovalCourse
    decreases heard.len(),
{
    if heard.len() == 0 {
        RemovalCourse::Again { ms: 0 }
    } else {
        match removal_run(victim, heard.drop_last()) {
            RemovalCourse::Again { .. } => heard.last().course(victim),
            ended => ended,
        }
    }
}

/// Every answer before `k` is a refusal that came in time.
pub open spec fn refused_until(heard: Seq<RemovalHeard>, k: int) -> bool {
    forall|j: int| 0 <= j < k ==> (#[trigger] heard[j]).goes_on()
}

/// A removal ends with the first answer that is no refusal in time, and as that answer has it: accepted
/// exactly where it is an acceptance, and given up, with its messages as the note, exactly where it is a
/// refusal and the time was over. Until then it is offered again; after that nothing changes any more.
pub proof fn removal_ends_as_it_was_answered(victim: usize, heard: Seq<RemovalHeard>, k: int)
    requires
        0 <= k <= heard.len(),
        refused_until(heard, k),
        k < heard.len() ==> !heard[k].goes_on(),
    ensures
        k == heard.len() ==> removal_run(victim, heard) is Again,
        k < heard.len() ==> {
            &&& removal_run(victim, heard) == heard[k].course(victim)
            &&& removal_run(victim, heard) is Done <==> heard[k].said is Accepted
            &&& removal_run(victim, heard) is GiveUp <==> heard[k].said is Refused && heard[k].elapsed_ms
                >= REMOVE_WITHIN_MS
            &&& removal_run(victim, heard) matches RemovalCourse::GiveUp { note, .. } ==> note == joined(
                heard[k].said->Refused_0,
                "; "@,
            )
        },
    decreases heard.len(),
{
    if heard.len() > 0 {
        let front = heard.drop_last();
        if k < front.len() {
            assert(front[k] == heard[k]);
            assert forall|j: int| 0 <= j < k implies (#[trigger] front[j]).goes_on() by {
                assert(heard[j].goes_on());
            }
            removal_ends_as_it_was_answered(victim, front, k);
        } else {
            let n = front.len() as int;
            assert forall|j: int| 0 <= j < n implies (#[trigger] front[j]).goes_on() by {
                assert(heard[j].goes_on());
            }
            removal_ends_as_it_was_answered(victim, front, n);
            if k == heard.len() {
                assert(heard[n].goes_on());
            }
        }
    }
}

/// The members one and two places after the leader, in a circle of `size`: the one that is removed and
/// the one that stays.
pub fn next_two(leader: usize, size: usize) -> (r: (usize, usize))
    requires
        size > 0,
        leader + 2 <= usize::MAX,
    ensures
        r.0 == (leader + 1) % size as int,
        r.1 == (leader + 2) % size as int,
{
    ((leader + 1) % size, (leader + 2) % size)
}

/// In a cluster of three or more the leader, the member that is removed and the one that stays are three.
pub proof fn removal_spares_the_leader_and_another(leader: int, size: int)
    requires
        size >= 3,
        0 <= leader < size,
    ensures
        (leader + 1) % size != leader,
        (leader + 2) % size != leader,
        (leader + 1) % size != (leader + 2) % size,
{
    if leader + 1 < size {
        vstd::arithmetic::div_mod::lemma_small_mod((leader + 1) as nat, size as nat);
    } else {
        vstd::arithmetic::div_mod::lemma_mod_self_0(size);
    }
    if leader + 2 < size {
        vstd::arithmetic::div_mod::lemma_small_mod((leader + 2) as nat, size as nat);
    } else {
        let over = leader + 2 - size;
        vstd::arithmetic::div_mod::lemma_mod_add_multiples_vanish(over, size);
        vstd::arithmetic::div_mod::lemma_small_mod(over as nat, size as nat);
    }
}

/// Whether the code of a refused write is one that a member without a quorum may answer: unavailable,
/// deadline exceeded, or none at all where the request never came back.
pub fn acceptable_refusal(code: Option<i64>) -> (r: bool)
    ensures
        r == (code is None || code == Some(14i64) || code == Some(4i64)),
{
    match code {
        None => true,
        Some(c) => c == 14 || c == 4,
    }
}

/// What a member that was left says of the cluster: the ids it lists, and the one it names as leader.
#[derive(Debug)]
pub struct Survivor {
    pub name: String,
    pub listed: Vec<u64>,
    pub leader: u64,
}

/// What the report says of a survivor that still knows a removed member; `shown` is its id in words.
pub open spec fn traces(s: Survivor, removed: u64, shown: Seq<char>) -> Seq<Seq<char>> {
    (if s.listed@.contains(removed) {
        seq![s.name@ + " still lists "@ + shown]
    } else {
        Seq::empty()
    }) + (if s.leader == removed {
        seq![s.name@ + " still names "@ + shown + " as leader"@]
    } else {
        Seq::empty()
    })
}

/// What the report says of every survivor that still knows a removed member.
pub open spec fn all_traces(survivors: Seq<Survivor>, removed: u64, shown: Seq<char>) -> Seq<Seq<char>>
    decreases survivors.len(),
{
    if survivors.len() == 0 {
        Seq::empty()
    } else {
        all_traces(survivors.drop_last(), removed, shown) + traces(survivors.last(), removed, shown)
    }
}

/// Whether a list of ids has one in it.
fn lists(ids: &Vec<u64>, id: u64) -> (r: bool)
    ensures
        r == ids@.contains(id),
{
    let mut i: usize = 0;
    while i < ids.len()
        invariant
            i <= ids@.len(),
            forall|k: int| 0 <= k < i ==> #[trigger] ids@[k] != id,
        decreases ids@.len() - i,
    {
        if ids[i] == id {
            assert(ids@[i as int] == id);
            return true;
        }
        i += 1;
    }
    false
}

/// Where a removed member is still to be seen among the survivors; `shown` is its id in words.
pub fn sightings(removed: u64, shown: &str, survivors: &Vec<Survivor>) -> (seen: Vec<String>)
    ensures
        texts(seen@) == all_traces(survivors@, removed, shown@),
{
    let mut seen: Vec<String> = Vec::new();
    let mut i: usize = 0;
    assert(texts(seen@) =~= all_traces(survivors@.take(0), removed, shown@));
    while i < survivors.len()
        invariant
            i <= survivors@.len(),
            texts(seen@) == all_traces(survivors@.take(i as int), removed, shown@),
        decreases survivors@.len() - i,
    {
        let s = &survivors[i];
        let ghost before = texts(seen@);
        assert(survivors@.take(i + 1).drop_last() =~= survivors@.take(i as int));
        assert(survivors@.take(i + 1).last() == *s);
        if lists(&s.listed, removed) {
            let mut one = s.name.clone();
            one.append(" still lists ");
            one.append(shown);
            put_text(&mut seen, one);
        }
        if s.leader == removed {
            let mut one = s.name.clone();
            one.append(" still names ");
            one.append(shown);
            one.append(" as leader");
            put_text(&mut seen, one);
        }
        assert(texts(seen@) =~= before + traces(*s, removed, shown@));
        i += 1;
    }
    assert(survivors@.take(i as int) =~= survivors@);
    seen
}

/// The id that a seed suggests.
pub open spec fn suggested(seed: u64) -> u64 {
    ((seed * 0x9e37_79b9_7f4a_7c15) % 0x1_0000_0000_0000_0000) as u64 | 1
}

/// The id `k` places further on, counted round.
pub open spec fn further(start: u64, k: int) -> u64 {
    ((start + k) % 0x1_0000_0000_0000_0000) as u64
}

/// The id is the first from the suggested one on that nobody has.
pub open spec fn is_bogus(seed: u64, ids: Seq<u64>, id: u64) -> bool {
    exists|k: int|
        0 <= k && id == #[trigger] further(suggested(seed), k) && !ids.contains(id) && forall|j: int|
            0 <= j < k ==> ids.contains(#[trigger] further(suggested(seed), j))
}

/// More different ids than there are members cannot all be taken.
proof fn lemma_some_id_is_free(start: u64, ids: Seq<u64>, k: int)
    requires
        0 <= k <= 0x1_0000_0000_0000_0000,
        forall|j: int| 0 <= j < k ==> ids.contains(#[trigger] further(start, j)),
    ensures
        k <= ids.len(),
{
    let tried = Seq::new(k as nat, |j: int| further(start, j));
    assert(tried.no_duplicates()) by {
        assert forall|i: int, j: int| 0 <= i < j < k implies tried[i] != tried[j] by {
            assert(further(start, i) == tried[i]);
            assert(further(start, j) == tried[j]);
            lemma_further_differ(start, i, j);
        }
    }
    tried.unique_seq_to_set();
    vstd::seq_lib::seq_to_set_is_finite(ids);
    assert(tried.to_set().subset_of(ids.to_set())) by {
        assert forall|x: u64| tried.to_set().contains(x) implies ids.to_set().contains(x) by {
            let j = choose|j: int| 0 <= j < k && tried[j] == x;
            assert(further(start, j) == x);
        }
    }
    vstd::set_lib::lemma_len_subset(tried.to_set(), ids.to_set());
    ids.lemma_cardinality_of_set();
}

proof fn lemma_further_differ(start: u64, i: int, j: int)
    requires
        0 <= i < j < 0x1_0000_0000_0000_0000,
    ensures
        further(start, i) != further(start, j),
{
    let m = 0x1_0000_0000_0000_0000int;
    assert((start + i) % m != (start + j) % m) by (nonlinear_arith)
        requires
            0 <= i < j < m,
            m == 0x1_0000_0000_0000_0000int,
    {
        let a = start as int + i;
        let b = start as int + j;
        if a % m == b % m {
            assert(b - a == (b / m - a / m) * m);
            assert(0 < b - a < m);
        }
    }
}

/// An id nobody has, derived from the seed so that a failing run repeats exactly.
pub fn bogus_id(seed: u64, ids: &Vec<u64>) -> (id: u64)
    ensures
        is_bogus(seed, ids@, id),
        !ids@.contains(id),
{
    let held: usize = ids.len();
    let mut id: u64 = seed.wrapping_mul(0x9e37_79b9_7f4a_7c15) | 1;
    let ghost mut k: int = 0;
    assert(id == further(suggested(seed), 0));
    loop
        invariant
            held == ids@.len(),
            0 <= k <= held,
            id == further(suggested(seed), k),
            forall|j: int| 0 <= j < k ==> ids@.contains(#[trigger] further(suggested(seed), j)),
        decreases held - k,
    {
        let mut taken = false;
        let mut i: usize = 0;
        while i < ids.len()
            invariant
                i <= ids@.len(),
                taken == exists|j: int| 0 <= j < i && #[trigger] ids@[j] == id,
            decreases ids@.len() - i,
        {
            if ids[i] == id {
                taken = true;
            }
            i += 1;
        }
        assert(taken == ids@.contains(id));
        if !taken {
            assert(is_bogus(seed, ids@, id));
            return id;
        }
        proof {
            assert forall|j: int| 0 <= j < k + 1 implies ids@.contains(
                #[trigger] further(suggested(seed), j),
            ) by {
                if j == k {
                    assert(further(suggested(seed), j) == id);
                }
            }
            lemma_next_is_further(suggested(seed), k);
            lemma_some_id_is_free(suggested(seed), ids@, k + 1);
        }
        id = id.wrapping_add(1);
        proof {
            k = k + 1;
        }
    }
}

proof fn lemma_next_is_further(start: u64, k: int)
    requires
        0 <= k,
    ensures
        further(start, k + 1) == (if further(start, k) == 0xffff_ffff_ffff_ffffu64 {
            0u64
        } else {
            (further(start, k) + 1) as u64
        }),
{
    let m = 0x1_0000_0000_0000_0000int;
    let a = start as int + k;
    assert((a + 1) % m == if a % m == m - 1 {
        0
    } else {
        a % m + 1
    }) by (nonlinear_arith)
        requires
            m == 0x1_0000_0000_0000_0000int,
            a >= 0,
    {
    }
}

/// The member list shrinks to two.
pub const THE_LIST_SHRINKS: Claims<5> = (
    "the member list after one of three was removed",
    [
        ("", "note", "", "", "{gone} was removed through m{leader+1}"),
        ("", "note", "", "", "{described}"),
        ("", "=", "len", "2", "the list according to the leader"),
        ("", "=", "from_survivor", "from_leader", "the list according to the other survivor"),
        (
            "",
            "? gone notof from_leader",
            "from_leader",
            "gone from the list",
            "the removed member's name",
        ),
    ],
);

/// The cluster keeps serving once a member is removed.
pub const THE_CLUSTER_KEEPS_SERVING: Claims<3> = (
    "ten writes through a cluster that has just lost a member",
    [
        ("", "note", "", "", "{described}"),
        (
            "",
            "? empty refused",
            "refused",
            "all ten acknowledged, through either survivor",
            "writes after the removal",
        ),
        ("", ">=", "last", "before+10", "the last revision"),
    ],
);

/// Nothing written before the removal is lost by it.
pub const NOTHING_IS_LOST: Claims<2> = (
    "the sixty keys written before a member was removed",
    [
        ("", "note", "", "", "{described}"),
        (
            "",
            "? empty wrong",
            "wrong",
            "all sixty present and correct on each",
            "the keys on both survivors",
        ),
    ],
);

/// The removed member is no longer counted anywhere.
pub const THE_REMOVED_MEMBER_IS_NOT_COUNTED: Claims<5> = (
    "every trace of the member that was removed",
    [
        ("", "note", "", "", "m{victim+1} was removed ({removed})"),
        ("", "note", "", "", "{described}"),
        ("", "!=", "removed_id", "0", "the removed member's id"),
        (
            "",
            "? empty sightings",
            "sightings",
            "gone from both",
            "the removed id in the survivors' lists and status",
        ),
        (
            "",
            "? !running",
            "running",
            "stopped, because a removed member has nothing left to serve",
            "the removed member's process",
        ),
    ],
);

/// Two of two is the quorum once the third is gone.
pub const THE_QUORUM_SIZE_CHANGES: Claims<4> = (
    "what one member out of two can decide",
    [
        ("", "note", "", "", "m{victim+1} was removed, then m{two+1} was killed, leaving m{alone+1}"),
        ("", "note", "", "", "{described}"),
        ("", "block", "refused", "", "what the last member answered"),
        (
            "",
            "? acceptable",
            "code",
            "14 (unavailable) or 4 (deadline exceeded), or no code at all when the request \
             simply never came back",
            "error.code",
        ),
    ],
);

/// Removing the leader triggers an election and the cluster recovers.
pub const REMOVING_THE_LEADER: Claims<5> = (
    "the cluster after its leader was removed",
    [
        ("", "note", "", "", "m{leader+1} was the leader that was removed"),
        ("", "note", "", "", "{described}"),
        (
            "",
            "? fresh in rest",
            "fresh+1",
            "one of the two that were left",
            "the member elected afterwards",
        ),
        ("", "=", "len", "2", "the member list afterwards"),
        ("", "=", "kept", "'written by the old leader", "the old leader's last write"),
    ],
);

/// Removing a member id that does not exist is an error.
pub const REMOVING_AN_ID_THAT_IS_NOT_THERE: Claims<4> = (
    "a removal addressed to an id the cluster has never had",
    [
        ("", "note", "", "", "the id offered was {bogus}"),
        ("", "note", "", "", "{described}"),
        ("", "block", "refused", "", "what the cluster answered"),
        ("", "=", "names", "[m1\nm2\nm3", "the member list after the refused removal"),
    ],
);

/// You cannot remove your way below one member.
pub const THE_LAST_MEMBER_CANNOT_BE_REMOVED: Claims<6> = (
    "a one-member cluster asked to remove its last member",
    [
        ("", "note", "", "", "m{leader+1} is the member left"),
        ("", "note", "", "", "{described}"),
        ("", "block", "refused", "", "what the last member answered"),
        ("", "=", "len", "1", "the member list after two removals"),
        ("", "=", "still_there", "alone", "the member list after the refused removal"),
        ("", "? serving", "error", "still serving writes", "the last member after refusing"),
    ],
);

/// What somebody stuck on this stage is told, one after the other.
pub const HINTS: [&'static str; 4] = [
    "POST /v3/cluster/member/remove takes the member id, not its name",
    "The quorum size changes with the membership, so removing a member can restore availability",
    "The removed member must stop being counted, and the rest must keep serving",
    "Removing a member that does not exist is an error, not a silent success",
];

/// The tests of this stage.
pub const TESTS: [TestRow; 8] = [
    ("the member list shrinks to two", "the_list_shrinks", true, true, 0, 60000, ""),
    (
        "the cluster keeps serving once a member is removed",
        "the_cluster_keeps_serving",
        true,
        true,
        0,
        60000,
        "",
    ),
    (
        "nothing written before the removal is lost by it",
        "nothing_is_lost",
        true,
        true,
        0,
        60000,
        "",
    ),
    (
        "the removed member is no longer counted anywhere",
        "the_removed_member_is_not_counted",
        true,
        true,
        0,
        60000,
        "",
    ),
    (
        "two of two is the quorum once the third is gone",
        "the_quorum_size_changes",
        true,
        true,
        0,
        60000,
        "",
    ),
    (
        "removing the leader triggers an election and the cluster recovers",
        "removing_the_leader",
        true,
        true,
        0,
        60000,
        "",
    ),
    (
        "removing a member id that does not exist is an error",
        "removing_an_id_that_is_not_there",
        true,
        true,
        0,
        60000,
        "",
    ),
    (
        "you cannot remove your way below one member",
        "the_last_member_cannot_be_removed",
        true,
        true,
        0,
        60000,
        "",
    ),
];

/// The texts of the example.
pub const EXAMPLE_TEXTS: TextRow = (
    "The ids a removal is addressed by",
    "the member list, one member's own id, and a write",
    "three ids, the same id twice, and a header",
    "`POST /v3/cluster/member/remove` takes `{\"ID\":\"<id>\"}` and answers with the list that \
     is left. The id is the decimal form of the 64-bit number in this list — `name` is a label \
     and `peerURLs` can be edited, so neither identifies anything. An example cannot run the \
     removal without shrinking the cluster every later example shares, so what it shows is the \
     lookup: find the id here, send it there. Note that the number is a JSON string, as every \
     64-bit field on this wire is.",
);

/// The steps of the example: whom to ask, the path, the key, the value and why.
pub const EXAMPLE_STEPS: [StepRow; 3] = [
    (0, "/v3/cluster/member/list", "", "", "every member, with the id that identifies it"),
    (2, "/v3/maintenance/status", "", "", "m3's own id, as it reports it"),
    (0, "/v3/kv/put", "ex49/k", "kept", "a write that must outlive any membership change"),
];

/// What is heard decides what is done next: an acceptance ends the removal, whatever the time; a refusal has
/// it offered again three tenths of a second later for twenty-five seconds, and given up from then on, with
/// what the members said as the note.
pub proof fn removal_goes_by_what_is_heard(victim: usize, messages: Seq<Seq<char>>, elapsed_ms: u64)
    ensures
        (RemovalHeard { said: RemovalSaid::Accepted, elapsed_ms }).course(victim) == RemovalCourse::Done,
        elapsed_ms < 25_000 ==> (RemovalHeard { said: RemovalSaid::Refused(messages), elapsed_ms }).course(victim)
            == (RemovalCourse::Again { ms: 300 }),
        elapsed_ms >= 25_000 ==> ((RemovalHeard { said: RemovalSaid::Refused(messages), elapsed_ms }).course(victim)
            matches RemovalCourse::GiveUp { message, note } && note == joined(messages, "; "@) && message == "m"@
            + nat_text((victim + 1) as nat) + " could not be removed within "@ + nat_text(elapsed_ms as nat)
            + " ms"@),
{
}

/// A refused removal is given up from the moment on that twenty-five seconds are over, and not before.
pub proof fn refused_removal_is_given_up_in_time(victim: usize, elapsed_ms: u64, refusal: Seq<char>, next: Removal)
    requires
        refused_removal(victim, elapsed_ms, refusal, next),
    ensures
        next is GiveUp <==> elapsed_ms >= 25_000,
        next is Again ==> next == Removal::Again(300),
        next matches Removal::GiveUp { note, .. } ==> note@ == refusal,
{
}

/// A removed member has left no trace exactly where no survivor lists it and none names it as leader.
pub proof fn no_trace_is_that_nobody_knows_it(survivors: Seq<Survivor>, removed: u64, shown: Seq<char>)
    ensures
        all_traces(survivors, removed, shown).len() == 0 <==> forall|i: int|
            0 <= i < survivors.len() ==> !(#[trigger] survivors[i]).listed@.contains(removed) && survivors[i].leader
                != removed,
    decreases survivors.len(),
{
    if survivors.len() > 0 {
        let front = survivors.drop_last();
        no_trace_is_that_nobody_knows_it(front, removed, shown);
        if all_traces(survivors, removed, shown).len() == 0 {
            assert forall|i: int| 0 <= i < survivors.len() implies !(#[trigger] survivors[i]).listed@.contains(
                removed,
            ) && survivors[i].leader != removed by {
                if i < front.len() {
                    assert(front[i] == survivors[i]);
                }
            }
        } else {
            assert(survivors[survivors.len() - 1] == survivors.last());
            if all_traces(front, removed, shown).len() != 0 {
                let i = choose|i: int|
                    0 <= i < front.len() && ((#[trigger] front[i]).listed@.contains(removed) || front[i].leader
                        == removed);
                assert(survivors[i] == front[i]);
            }
        }
    }
}

/// What a survivor says of a removed member: that it still lists it, that it still names it as leader, or
/// both, in this order.
pub proof fn traces_are_said_one_by_one(s: Survivor, removed: u64, shown: Seq<char>, before: Seq<Survivor>)
    ensures
        s.listed@.contains(removed) && s.leader != removed ==> traces(s, removed, shown) == seq![
            s.name@ + " still lists "@ + shown,
        ],
        !s.listed@.contains(removed) && s.leader == removed ==> traces(s, removed, shown) == seq![
            s.name@ + " still names "@ + shown + " as leader"@,
        ],
        s.listed@.contains(removed) && s.leader == removed ==> traces(s, removed, shown) == seq![
            s.name@ + " still lists "@ + shown,
            s.name@ + " still names "@ + shown + " as leader"@,
        ],
        !s.listed@.contains(removed) && s.leader != removed ==> traces(s, removed, shown).len() == 0,
        all_traces(before.push(s), removed, shown) == all_traces(before, removed, shown) + traces(s, removed, shown),
{
    assert(before.push(s).drop_last() =~= before);
    if s.listed@.contains(removed) && s.leader != removed {
        assert(traces(s, removed, shown) =~= seq![s.name@ + " still lists "@ + shown]);
    }
    if !s.listed@.contains(removed) && s.leader == removed {
        assert(traces(s, removed, shown) =~= seq![s.name@ + " still names "@ + shown + " as leader"@]);
    }
    if s.listed@.contains(removed) && s.leader == removed {
        assert(traces(s, removed, shown) =~= seq![
            s.name@ + " still lists "@ + shown,
            s.name@ + " still names "@ + shown + " as leader"@,
        ]);
    }
}

/// The id to try first is odd, and where somebody has an id the next one is tried, round to zero at the end;
/// the first that nobody has is offered.
pub proof fn bogus_id_is_the_first_that_is_free(seed: u64, ids: Seq<u64>, id: u64)
    requires
        is_bogus(seed, ids, id),
    ensures
        !ids.contains(id),
        suggested(seed) % 2 == 1,
        !ids.contains(suggested(seed)) ==> id == suggested(seed),
        further(suggested(seed), 0) == suggested(seed),
        forall|k: int| 0 <= k && suggested(seed) + k <= u64::MAX ==> #[trigger] further(suggested(seed), k)
            == suggested(seed) + k,
{
    let start = suggested(seed);
    let x = ((seed * 0x9e37_79b9_7f4a_7c15) % 0x1_0000_0000_0000_0000) as u64;
    assert((x | 1) % 2 == 1) by (bit_vector);
    let k = choose|k: int|
        0 <= k && id == #[trigger] further(start, k) && !ids.contains(id) && forall|j: int|
            0 <= j < k ==> ids.contains(#[trigger] further(start, j));
    assert(further(start, 0) == start);
    if !ids.contains(start) && k > 0 {
        assert(ids.contains(further(start, 0)));
    }
}

/// The worked examples of this stage.
pub fn examples() -> (examples: Vec<ExampleSpec>)
    ensures
        described(examples@) == seq![cluster_described(EXAMPLE_TEXTS, EXAMPLE_STEPS@)],
{
    one(cluster_example(EXAMPLE_TEXTS, EXAMPLE_STEPS))
}

/// What the rows say of this stage's place in the suite.
proof fn lemma_in_place()
    ensures
        rows_written(TESTS@),
{
    assert(rows_written(TESTS@)) by {
        reveal_strlit("placeholder");
        reveal_strlit("the member list shrinks to two");
        assert(TESTS@[0].0@.len() == 30);
        reveal_strlit("the cluster keeps serving once a member is removed");
        assert(TESTS@[1].0@.len() == 50);
        reveal_strlit("nothing written before the removal is lost by it");
        assert(TESTS@[2].0@.len() == 48);
        reveal_strlit("the removed member is no longer counted anywhere");
        assert(TESTS@[3].0@.len() == 48);
        reveal_strlit("two of two is the quorum once the third is gone");
        assert(TESTS@[4].0@.len() == 47);
        reveal_strlit("removing the leader triggers an election and the cluster recovers");
        assert(TESTS@[5].0@.len() == 65);
        reveal_strlit("removing a member id that does not exist is an error");
        assert(TESTS@[6].0@.len() == 52);
        reveal_strlit("you cannot remove your way below one member");
        assert(TESTS@[7].0@.len() == 43);
        assert forall|i: int| 0 <= i < 8 implies (#[trigger] TESTS@[i]).0@ != "placeholder"@ by {
            assert(i == 0 || i == 1 || i == 2 || i == 3 || i == 4 || i == 5 || i == 6 || i == 7);
        }
    }
}

/// What stage 49 holds.
pub open spec fn is_stage(s: Stage) -> bool {
    &&& s.number == 49
    &&& s.slug == "member_remove"
    &&& s.name == "Removing a member"
    &&& s.ext == true
    &&& s.ladder == Ladder::Cluster
    &&& s.hints == HINTS
    &&& s.tests@ == tests_of(TESTS@)
    &&& described(s.examples@) == seq![cluster_described(EXAMPLE_TEXTS, EXAMPLE_STEPS@)]
}

/// Stage 49.
pub fn stage() -> (s: Stage)
    ensures
        is_stage(s),
        s.in_place(),
{
    let s = Stage {
        number: 49,
        slug: "member_remove",
        name: "Removing a member",
        ext: true,
        ladder: Ladder::Cluster,
        hints: HINTS,
        examples: examples(),
        tests: tests(TESTS),
    };
    proof {
        reveal(Stage::in_place);
        lemma_in_place();
    }
    s
}

} // verus!
