//! What the drivers of a cluster decide: who leads, when to wait and when to give up, which faults to
//! put on which links, and whether every member holds what was acknowledged.
use vstd::prelude::*;
use crate::check::{
    is_int, is_text, is_that, same_bytes, text_fact, Check, Ruling, Truth, Verdict,
};
use crate::text::{decimal_reads_back, joined, lemma_joined_push, nat_text, push_nat, put_text, texts};

verus! {

/// The leader a group agrees on: every one of them names it, and it is one of them. Members are
/// counted from zero.
pub open spec fn agreed(group: Seq<usize>, named: Seq<Option<usize>>) -> Option<usize> {
    if named.len() > 0 && named[0] is Some && group.contains(named[0]->0) && forall|i: int|
        0 <= i < named.len() ==> #[trigger] named[i] == named[0] {
        named[0]
    } else {
        None
    }
}

/// The leader a group agrees on.
pub fn agreed_leader(group: &Vec<usize>, named: &Vec<Option<usize>>) -> (r: Option<usize>)
    ensures
        r == agreed(group@, named@),
{
    if named.len() == 0 {
        return None;
    }
    let leader: usize = match named[0] {
        Some(l) => l,
        None => {
            return None;
        },
    };
    let mut i: usize = 0;
    while i < named.len()
        invariant
            i <= named@.len(),
            named@.len() > 0,
            named@[0] == Some(leader),
            forall|k: int| 0 <= k < i ==> #[trigger] named@[k] == named@[0],
        decreases named@.len() - i,
    {
        let same = match named[i] {
            Some(l) => l == leader,
            None => false,
        };
        if !same {
            assert(named@[i as int] != named@[0]);
            return None;
        }
        i += 1;
    }
    let mut k: usize = 0;
    while k < group.len()
        invariant
            k <= group@.len(),
            named@.len() > 0,
            named@[0] == Some(leader),
            forall|j: int| 0 <= j < named@.len() ==> #[trigger] named@[j] == named@[0],
            forall|j: int| 0 <= j < k ==> #[trigger] group@[j] != leader,
        decreases group@.len() - k,
    {
        if group[k] == leader {
            assert(group@.contains(leader));
            return Some(leader);
        }
        k += 1;
    }
    None
}

/// A group agrees on a leader only where every one of its members named it, and it is one of them; so
/// a member that is dead or cut off is never the answer, and two answers are the same.
pub proof fn agreement_is_unanimous(group: Seq<usize>, named: Seq<Option<usize>>, leader: usize)
    ensures
        agreed(group, named) == Some(leader) <==> named.len() > 0 && group.contains(leader) && forall|i: int|
            0 <= i < named.len() ==> #[trigger] named[i] == Some(leader),
{
    if agreed(group, named) == Some(leader) {
        assert forall|i: int| 0 <= i < named.len() implies #[trigger] named[i] == Some(leader) by {
            assert(named[i] == named[0]);
        }
    }
    if named.len() > 0 && group.contains(leader) && forall|i: int|
        0 <= i < named.len() ==> #[trigger] named[i] == Some(leader) {
        assert(named[0] == Some(leader));
        assert forall|i: int| 0 <= i < named.len() implies #[trigger] named[i] == named[0] by {
            assert(named[i] == Some(leader));
        }
    }
}

/// What a driver that polls does next.
#[derive(Debug)]
pub enum Poll {
    /// Go on with the leader that was agreed on.
    Leader(usize),
    /// Ask again after so many milliseconds.
    Again(u64),
    /// Give up: what went wrong, and what to note.
    GiveUp { message: String, notes: Vec<String> },
}

/// The texts of some numbers, in square brackets.
pub open spec fn numbers_text(ns: Seq<usize>) -> Seq<char> {
    "["@ + joined(ns.map_values(|n: usize| nat_text((n + 1) as nat)), ", "@) + "]"@
}

/// The text of what one member named.
pub open spec fn named_text(n: Option<usize>) -> Seq<char> {
    match n {
        Some(l) => "Some("@ + nat_text((l + 1) as nat) + ")"@,
        None => "None"@,
    }
}

/// The texts of what some members named, in square brackets.
pub open spec fn all_named_text(named: Seq<Option<usize>>) -> Seq<char> {
    "["@ + joined(named.map_values(|n: Option<usize>| named_text(n)), ", "@) + "]"@
}

/// Appends the number of a member, counted from one.
fn push_member(s: &mut String, i: usize)
    ensures
        final(s)@ == old(s)@ + nat_text((i + 1) as nat),
{
    crate::text::push_wide(s, i as i128 + 1);
    assert(s@ =~= old(s)@ + nat_text((i + 1) as nat));
}

/// Members by their numbers, counted from one.
pub fn list_members(ns: &Vec<usize>) -> (s: String)
    ensures
        s@ == numbers_text(ns@),
{
    let mut s = String::from_str("[");
    let ghost head = s@;
    let ghost parts = ns@.map_values(|n: usize| nat_text((n + 1) as nat));
    let mut i: usize = 0;
    assert(parts.take(0) =~= Seq::empty());
    assert(head + joined(parts.take(0), ", "@) =~= head);
    while i < ns.len()
        invariant
            i <= ns@.len(),
            parts == ns@.map_values(|n: usize| nat_text((n + 1) as nat)),
            s@ == head + joined(parts.take(i as int), ", "@),
        decreases ns@.len() - i,
    {
        proof {
            lemma_joined_push(parts.take(i as int), parts[i as int], ", "@);
            assert(parts.take(i as int).push(parts[i as int]) =~= parts.take(i + 1));
        }
        if i > 0 {
            s.append(", ");
        }
        push_member(&mut s, ns[i]);
        assert(s@ =~= head + joined(parts.take(i + 1), ", "@));
        i += 1;
    }
    assert(parts.take(i as int) =~= parts);
    s.append("]");
    s
}

/// What some members named, member by member.
pub fn list_named(named: &Vec<Option<usize>>) -> (s: String)
    ensures
        s@ == all_named_text(named@),
{
    let mut s = String::from_str("[");
    let ghost head = s@;
    let ghost parts = named@.map_values(|n: Option<usize>| named_text(n));
    let mut i: usize = 0;
    assert(parts.take(0) =~= Seq::empty());
    assert(head + joined(parts.take(0), ", "@) =~= head);
    while i < named.len()
        invariant
            i <= named@.len(),
            parts == named@.map_values(|n: Option<usize>| named_text(n)),
            s@ == head + joined(parts.take(i as int), ", "@),
        decreases named@.len() - i,
    {
        proof {
            lemma_joined_push(parts.take(i as int), parts[i as int], ", "@);
            assert(parts.take(i as int).push(parts[i as int]) =~= parts.take(i + 1));
        }
        if i > 0 {
            s.append(", ");
        }
        match named[i] {
            Some(l) => {
                s.append("Some(");
                push_member(&mut s, l);
                s.append(")");
            },
            None => {
                s.append("None");
            },
        }
        assert(s@ =~= head + joined(parts.take(i + 1), ", "@));
        i += 1;
    }
    assert(parts.take(i as int) =~= parts);
    s.append("]");
    s
}

/// What a driver that waits for one side of a split to agree does next: it goes on as soon as they do,
/// and gives up once the time is over.
pub open spec fn side_poll(
    group: Seq<usize>,
    named: Seq<Option<usize>>,
    elapsed_ms: u64,
    within_ms: u64,
    pause_ms: u64,
    next: Poll,
) -> bool {
    match agreed(group, named) {
        Some(leader) => next == Poll::Leader(leader),
        None => if elapsed_ms >= within_ms {
            next matches Poll::GiveUp { message, notes } && message@ == "members "@ + numbers_text(group)
                + " did not agree on a leader among themselves within "@ + nat_text(within_ms as nat)
                + " ms"@ && texts(notes@) == seq!["they named "@ + all_named_text(named)]
        } else {
            next == Poll::Again(pause_ms)
        },
    }
}

/// What a driver that waits for one side of a split to agree does next.
pub fn poll_side(
    group: &Vec<usize>,
    named: &Vec<Option<usize>>,
    elapsed_ms: u64,
    within_ms: u64,
    pause_ms: u64,
) -> (next: Poll)
    ensures
        side_poll(group@, named@, elapsed_ms, within_ms, pause_ms, next),
{
    if let Some(leader) = agreed_leader(group, named) {
        return Poll::Leader(leader);
    }
    if elapsed_ms < within_ms {
        return Poll::Again(pause_ms);
    }
    let mut message = String::from_str("members ");
    message.append(list_members(group).as_str());
    message.append(" did not agree on a leader among themselves within ");
    push_nat(&mut message, within_ms);
    message.append(" ms");
    let mut note = String::from_str("they named ");
    note.append(list_named(named).as_str());
    let mut notes: Vec<String> = Vec::new();
    put_text(&mut notes, note);
    assert(texts(notes@) =~= seq!["they named "@ + all_named_text(named@)]);
    Poll::GiveUp { message, notes }
}

/// What a driver that waits for a leader that is itself still running does next.
pub open spec fn live_poll(
    alive: Seq<usize>,
    named: Seq<Option<usize>>,
    elapsed_ms: u64,
    within_ms: u64,
    next: Poll,
) -> bool {
    match agreed(alive, named) {
        Some(leader) => next == Poll::Leader(leader),
        None => if elapsed_ms >= within_ms {
            next matches Poll::GiveUp { message, notes } && message@
                == "no member that is still running was named leader by all of them within "@
                + nat_text(within_ms as nat) + " ms"@ && texts(notes@) == seq![
                "members "@ + numbers_text(alive) + " name leaders "@ + all_named_text(named),
            ]
        } else {
            next == Poll::Again(100)
        },
    }
}

/// What a driver that waits for a leader that is itself still running does next.
pub fn poll_live(alive: &Vec<usize>, named: &Vec<Option<usize>>, elapsed_ms: u64, within_ms: u64) -> (next:
    Poll)
    ensures
        live_poll(alive@, named@, elapsed_ms, within_ms, next),
{
    if let Some(leader) = agreed_leader(alive, named) {
        return Poll::Leader(leader);
    }
    if elapsed_ms < within_ms {
        return Poll::Again(100);
    }
    let mut message = String::from_str(
        "no member that is still running was named leader by all of them within ",
    );
    push_nat(&mut message, within_ms);
    message.append(" ms");
    let mut note = String::from_str("members ");
    note.append(list_members(alive).as_str());
    note.append(" name leaders ");
    note.append(list_named(named).as_str());
    let mut notes: Vec<String> = Vec::new();
    put_text(&mut notes, note);
    assert(texts(notes@) =~= seq![
        "members "@ + numbers_text(alive@) + " name leaders "@ + all_named_text(named@),
    ]);
    Poll::GiveUp { message, notes }
}

/// Every member but one, in order.
pub open spec fn all_but(size: nat, out: int) -> Seq<usize>
    decreases size,
{
    if size == 0 {
        Seq::empty()
    } else if size - 1 == out {
        all_but((size - 1) as nat, out)
    } else {
        all_but((size - 1) as nat, out).push((size - 1) as usize)
    }
}

/// Every member but one, in order.
pub fn others(size: usize, out: usize) -> (rest: Vec<usize>)
    ensures
        rest@ == all_but(size as nat, out as int),
{
    let mut rest: Vec<usize> = Vec::new();
    let mut i: usize = 0;
    while i < size
        invariant
            i <= size,
            rest@ == all_but(i as nat, out as int),
        decreases size - i,
    {
        if i != out {
            rest.push(i);
        }
        i += 1;
    }
    rest
}

/// The lowest-numbered member that is not the leader; zero where there is none.
pub open spec fn lowest_follower(leader: int, size: int) -> int {
    if leader == 0 && size > 1 {
        1
    } else {
        0
    }
}

/// The lowest-numbered member that is not the leader.
pub fn a_follower(leader: usize, size: usize) -> (i: usize)
    ensures
        i == lowest_follower(leader as int, size as int),
        size > 1 ==> i < size && i != leader,
        i > 0 ==> leader == 0,
{
    let mut i: usize = 0;
    while i < size
        invariant
            i <= size,
            i <= 1,
            i == 1 ==> leader == 0,
        decreases size - i,
    {
        if i != leader {
            return i;
        }
        i += 1;
    }
    0
}

/// What is wrong with a link between two members; shares are in hundredths.
#[derive(Clone, Copy, Debug, PartialEq, Eq, Structural)]
pub struct LinkFault {
    /// Nothing passes.
    pub cut: bool,
    /// How late everything arrives, in milliseconds.
    pub delay_ms: u64,
    /// How many of a hundred connections are refused.
    pub drop_connection: u8,
    /// How many of a hundred messages are sent twice.
    pub duplicate: u8,
    /// How many of a hundred messages are delivered one place late.
    pub reorder: u8,
}

impl LinkFault {
    /// Nothing is wrong.
    pub fn none() -> (f: LinkFault)
        ensures
            f == (LinkFault { cut: false, delay_ms: 0, drop_connection: 0, duplicate: 0, reorder: 0 }),
    {
        LinkFault { cut: false, delay_ms: 0, drop_connection: 0, duplicate: 0, reorder: 0 }
    }

    /// Nothing passes.
    pub fn cut() -> (f: LinkFault)
        ensures
            f == (LinkFault { cut: true, delay_ms: 0, drop_connection: 0, duplicate: 0, reorder: 0 }),
    {
        LinkFault { cut: true, ..LinkFault::none() }
    }

    /// Everything arrives late.
    pub fn late(ms: u64) -> (f: LinkFault)
        ensures
            f == (LinkFault {
                cut: false,
                delay_ms: ms,
                drop_connection: 0,
                duplicate: 0,
                reorder: 0,
            }),
    {
        LinkFault { delay_ms: ms, ..LinkFault::none() }
    }
}

/// One thing a driver does to the links of a cluster.
#[derive(Clone, Copy, Debug, PartialEq, Eq, Structural)]
pub enum LinkStep {
    /// Put a fault on the link between two members.
    Link { a: usize, b: usize, fault: LinkFault },
    /// Put a fault on every link.
    EveryLink { fault: LinkFault },
    /// Wait so many milliseconds.
    Sleep { ms: u64 },
    /// Take every fault off.
    Heal,
}

/// An acknowledged write: the key, the value, and the revision it was given.
#[derive(Debug)]
pub struct Written {
    pub key: String,
    pub value: String,
    pub revision: i64,
}

/// What a member answered when it was asked for a key.
#[derive(Debug)]
pub enum Held {
    /// The key is there.
    Value { value: String, mod_revision: i64 },
    /// The key is not there.
    Absent,
    /// There was no answer.
    Failed { error: String },
}

/// What a member answered for each of some writes.
#[derive(Debug)]
pub struct MemberRead {
    pub name: String,
    pub held: Vec<Held>,
}

/// How the report names what a member answered for a key.
pub open spec fn held_path(member: Seq<char>, key: Seq<char>, what: Seq<char>) -> Seq<char> {
    member + ".range("@ + key + ")"@ + what
}

/// How the report names what a member answered for a key.
fn name_held(member: &str, key: &str, what: &str) -> (s: String)
    ensures
        s@ == held_path(member@, key@, what@),
{
    let mut s = String::from_str(member);
    s.append(".range(");
    s.append(key);
    s.append(")");
    s.append(what);
    s
}

/// What the report says of one member's answer for one write: the value and the revision it was
/// acknowledged with, and neither an absent key nor a missing answer will do.
pub open spec fn held_rulings(member: Seq<char>, w: Written, held: Held) -> Seq<Ruling> {
    match held {
        Held::Value { value, mod_revision } => seq![
            is_text(held_path(member, w.key@, ".kvs[0].value"@), w.value@, value@),
            is_int(
                held_path(member, w.key@, ".kvs[0].mod_revision"@),
                w.revision as int,
                mod_revision as int,
            ),
        ],
        Held::Absent => seq![
            is_that(
                held_path(member, w.key@, ".kvs"@),
                "the acknowledged value, still there"@,
                false,
                Truth::Text("the key is absent"@),
            ),
        ],
        Held::Failed { error } => seq![
            is_that(held_path(member, w.key@, ""@), "an answer"@, false, Truth::Text(error@)),
        ],
    }
}

/// What the report says of one member's answers for the first `n` writes.
pub open spec fn member_rulings(read: MemberRead, written: Seq<Written>, n: int) -> Seq<Ruling>
    decreases n,
{
    if n <= 0 {
        Seq::empty()
    } else {
        member_rulings(read, written, n - 1) + held_rulings(read.name@, written[n - 1], read.held@[n - 1])
    }
}

/// What the report says of the first `n` members.
pub open spec fn members_rulings(reads: Seq<MemberRead>, written: Seq<Written>, n: int) -> Seq<Ruling>
    decreases n,
{
    if n <= 0 {
        Seq::empty()
    } else {
        members_rulings(reads, written, n - 1) + member_rulings(
            reads[n - 1],
            written,
            written.len() as int,
        )
    }
}

/// Every member was asked for every write.
pub open spec fn all_asked(reads: Seq<MemberRead>, written: Seq<Written>) -> bool {
    forall|i: int| 0 <= i < reads.len() ==> (#[trigger] reads[i]).held@.len() == written.len()
}

/// Demands that every member holds every acknowledged write, at the same revision.
pub fn check_every_member_holds(c: &mut Check, reads: &Vec<MemberRead>, written: &Vec<Written>)
    requires
        all_asked(reads@, written@),
    ensures
        final(c)@ == (Verdict {
            rulings: old(c)@.rulings + members_rulings(reads@, written@, reads@.len() as int),
            ..old(c)@
        }),
{
    let ghost start = c@;
    let mut i: usize = 0;
    assert(start.rulings + members_rulings(reads@, written@, 0) =~= start.rulings);
    while i < reads.len()
        invariant
            i <= reads@.len(),
            all_asked(reads@, written@),
            c@ == (Verdict {
                rulings: start.rulings + members_rulings(reads@, written@, i as int),
                ..start
            }),
        decreases reads@.len() - i,
    {
        let read = &reads[i];
        let ghost before = c@;
        let mut k: usize = 0;
        assert(before.rulings + member_rulings(*read, written@, 0) =~= before.rulings);
        while k < written.len()
            invariant
                k <= written@.len() == read.held@.len(),
                c@ == (Verdict {
                    rulings: before.rulings + member_rulings(*read, written@, k as int),
                    ..before
                }),
            decreases written@.len() - k,
        {
            let w = &written[k];
            let ghost so_far = c@.rulings;
            let member = read.name.as_str();
            let key = w.key.as_str();
            match &read.held[k] {
                Held::Value { value, mod_revision } => {
                    c.eq_text(
                        name_held(member, key, ".kvs[0].value").as_str(),
                        w.value.as_str(),
                        value.as_str(),
                    );
                    c.eq_int(
                        name_held(member, key, ".kvs[0].mod_revision").as_str(),
                        w.revision as i128,
                        *mod_revision as i128,
                    );
                },
                Held::Absent => {
                    c.that(
                        name_held(member, key, ".kvs").as_str(),
                        "the acknowledged value, still there",
                        false,
                        text_fact("the key is absent"),
                    );
                },
                Held::Failed { error } => {
                    c.that(
                        name_held(member, key, "").as_str(),
                        "an answer",
                        false,
                        text_fact(error.as_str()),
                    );
                },
            }
            proof {
                let group = held_rulings(read.name@, written@[k as int], read.held@[k as int]);
                assert(c@.rulings =~= so_far + group);
                assert(c@.rulings =~= before.rulings + member_rulings(*read, written@, k + 1));
            }
            k += 1;
        }
        assert(c@.rulings =~= start.rulings + members_rulings(reads@, written@, i + 1));
        i += 1;
    }
}

/// A member holds a write: the value is there, at the revision the write was acknowledged with.
pub open spec fn holds_write(w: Written, held: Held) -> bool {
    held matches Held::Value { value, mod_revision } && value@ == w.value@ && mod_revision == w.revision
}

proof fn lemma_member_rulings(read: MemberRead, written: Seq<Written>, n: int)
    requires
        0 <= n <= written.len(),
    ensures
        crate::check::all_hold(member_rulings(read, written, n)) <==> forall|k: int|
            0 <= k < n ==> holds_write(#[trigger] written[k], read.held@[k]),
    decreases n,
{
    if n > 0 {
        lemma_member_rulings(read, written, n - 1);
        let front = member_rulings(read, written, n - 1);
        let group = held_rulings(read.name@, written[n - 1], read.held@[n - 1]);
        lemma_all_hold_concat(front, group);
        assert(crate::check::all_hold(group) <==> holds_write(written[n - 1], read.held@[n - 1])) by {
            match read.held@[n - 1] {
                Held::Value { value, mod_revision } => {
                    assert(group[0].holds() == (value@ == written[n - 1].value@));
                    assert(group[1].holds() == (mod_revision == written[n - 1].revision));
                },
                _ => {
                    assert(!group[0].holds());
                },
            }
        }
    }
}

proof fn lemma_all_hold_concat(a: Seq<Ruling>, b: Seq<Ruling>)
    ensures
        crate::check::all_hold(a + b) <==> crate::check::all_hold(a) && crate::check::all_hold(b),
{
    let both = a + b;
    if crate::check::all_hold(both) {
        assert forall|i: int| 0 <= i < a.len() implies (#[trigger] a[i]).holds() by {
            assert(both[i] == a[i]);
        }
        assert forall|i: int| 0 <= i < b.len() implies (#[trigger] b[i]).holds() by {
            assert(both[a.len() + i] == b[i]);
        }
    }
    if crate::check::all_hold(a) && crate::check::all_hold(b) {
        assert forall|i: int| 0 <= i < both.len() implies (#[trigger] both[i]).holds() by {
            if i < a.len() {
                assert(both[i] == a[i]);
            } else {
                assert(both[i] == b[i - a.len()]);
            }
        }
    }
}

proof fn lemma_members_rulings(reads: Seq<MemberRead>, written: Seq<Written>, n: int)
    requires
        0 <= n <= reads.len(),
    ensures
        crate::check::all_hold(members_rulings(reads, written, n)) <==> forall|i: int, k: int|
            0 <= i < n && 0 <= k < written.len() ==> holds_write(
                #[trigger] written[k],
                (#[trigger] reads[i]).held@[k],
            ),
    decreases n,
{
    if n > 0 {
        lemma_members_rulings(reads, written, n - 1);
        lemma_member_rulings(reads[n - 1], written, written.len() as int);
        lemma_all_hold_concat(
            members_rulings(reads, written, n - 1),
            member_rulings(reads[n - 1], written, written.len() as int),
        );
    }
}

/// The demand is met exactly where no acknowledged write is lost: every member holds every one of them,
/// with the value and at the revision it was acknowledged with.
pub proof fn demand_is_that_nothing_is_lost(reads: Seq<MemberRead>, written: Seq<Written>)
    ensures
        crate::check::all_hold(members_rulings(reads, written, reads.len() as int)) <==> forall|i: int, k: int|
            0 <= i < reads.len() && 0 <= k < written.len() ==> holds_write(
                #[trigger] written[k],
                (#[trigger] reads[i]).held@[k],
            ),
{
    lemma_members_rulings(reads, written, reads.len() as int);
}

/// An acknowledged write that was read back: what was written, what a member then said it holds, where it
/// answered, and its answer in words.
#[derive(Debug)]
pub struct ReadBack {
    pub key: String,
    pub want: Vec<u8>,
    pub value: Option<Vec<u8>>,
    pub shown: String,
}

impl ReadBack {
    /// The member says what was written.
    pub open spec fn came_back(self) -> bool {
        self.value matches Some(v) && v@ == self.want@
    }

    /// How the report names what came back instead.
    pub open spec fn complaint(self, label: Seq<char>) -> Seq<char> {
        label + self.key@ + " -> "@ + self.shown@
    }
}

/// A complaint for every one of some writes that did not come back, in order.
pub open spec fn complaints(label: Seq<char>, reads: Seq<ReadBack>) -> Seq<Seq<char>>
    decreases reads.len(),
{
    if reads.len() == 0 {
        Seq::empty()
    } else if reads.last().came_back() {
        complaints(label, reads.drop_last())
    } else {
        complaints(label, reads.drop_last()).push(reads.last().complaint(label))
    }
}

/// A complaint, behind a label, for every one of some writes that did not come back.
pub fn lost_writes(label: &str, reads: &Vec<ReadBack>) -> (lost: Vec<String>)
    ensures
        texts(lost@) == complaints(label@, reads@),
{
    let mut lost: Vec<String> = Vec::new();
    let mut i: usize = 0;
    assert(texts(lost@) =~= complaints(label@, reads@.take(0)));
    while i < reads.len()
        invariant
            i <= reads@.len(),
            texts(lost@) == complaints(label@, reads@.take(i as int)),
        decreases reads@.len() - i,
    {
        let read = &reads[i];
        let ghost before = texts(lost@);
        assert(reads@.take(i + 1).drop_last() =~= reads@.take(i as int));
        assert(reads@.take(i + 1).last() == *read);
        let back = match &read.value {
            Some(v) => same_bytes(v.as_slice(), read.want.as_slice()),
            None => false,
        };
        if !back {
            let mut complaint = String::from_str(label);
            complaint.append(read.key.as_str());
            complaint.append(" -> ");
            complaint.append(read.shown.as_str());
            put_text(&mut lost, complaint);
        }
        i += 1;
    }
    assert(reads@.take(i as int) =~= reads@);
    lost
}

/// Nothing is complained of exactly where every write came back as it was written.
pub proof fn silence_is_that_everything_came_back(label: Seq<char>, reads: Seq<ReadBack>)
    ensures
        complaints(label, reads).len() == 0 <==> forall|i: int|
            0 <= i < reads.len() ==> (#[trigger] reads[i]).came_back(),
    decreases reads.len(),
{
    if reads.len() > 0 {
        let front = reads.drop_last();
        silence_is_that_everything_came_back(label, front);
        if reads.last().came_back() && complaints(label, front).len() == 0 {
            assert forall|i: int| 0 <= i < reads.len() implies (#[trigger] reads[i]).came_back() by {
                if i < front.len() {
                    assert(reads[i] == front[i]);
                }
            }
        }
        if forall|i: int| 0 <= i < reads.len() ==> (#[trigger] reads[i]).came_back() {
            assert(reads[reads.len() - 1].came_back());
            assert forall|i: int| 0 <= i < front.len() implies (#[trigger] front[i]).came_back() by {
                assert(front[i] == reads[i]);
            }
        }
    }
}

/// Whether the state of the cluster is to be attached to a check: only where it failed.
pub fn wants_state(c: &Check) -> (r: bool)
    ensures
        r == !crate::check::all_hold(c@.rulings),
{
    !c.ok()
}

/// Attaches what a reader of a failed check wants: who runs and who leads, and the faults in place.
pub fn attach_state(c: &mut Check, described: &str, faults: &str)
    ensures
        final(c)@ == if crate::check::all_hold(old(c)@.rulings) {
            old(c)@
        } else {
            Verdict { notes: old(c)@.notes.push(described@).push(faults@), ..old(c)@ }
        },
{
    if wants_state(c) {
        c.note(described);
        c.note(faults);
    }
}

/// What a driver that offers a write to one member after another does once all of them have refused it.
#[derive(Debug)]
pub enum Offer {
    /// Offer it again after so many milliseconds.
    Again(u64),
    /// Give up: what went wrong, and what to note.
    GiveUp { message: String, note: String },
}

/// What a driver that offers a write to one member after another does once all of them have refused it:
/// it gives up once the time is over, with the last refusal as its note.
pub open spec fn offered(key: Seq<char>, last: Seq<char>, elapsed_ms: u64, within_ms: u64, next: Offer) -> bool {
    if elapsed_ms >= within_ms {
        next matches Offer::GiveUp { message, note } && message@ == "no member accepted a write of "@ + key
            + " within "@ + nat_text(within_ms as nat) + " ms"@ && note@ == last
    } else {
        next == Offer::Again(200)
    }
}

/// What a driver does once every running member has refused a write; `last` is the last refusal.
pub fn put_patiently(key: &str, last: &str, elapsed_ms: u64, within_ms: u64) -> (next: Offer)
    ensures
        offered(key@, last@, elapsed_ms, within_ms, next),
{
    if elapsed_ms < within_ms {
        return Offer::Again(200);
    }
    let mut message = String::from_str("no member accepted a write of ");
    message.append(key);
    message.append(" within ");
    push_nat(&mut message, within_ms);
    message.append(" ms");
    Offer::GiveUp { message, note: String::from_str(last) }
}

/// A refusal, as it is noted.
pub fn refusal(member: &str, error: &str) -> (s: String)
    ensures
        s@ == member@ + ": "@ + error@,
{
    let mut s = String::from_str(member);
    s.append(": ");
    s.append(error);
    s
}

/// What is noted of an offer that no member was there to hear.
pub const NO_MEMBER_WAS_RUNNING: &'static str = "no member was running";

/// What a member makes of a write it is offered.
#[verifier::ext_equal]
pub enum Said {
    /// It took the write, at that revision.
    Acknowledged(i64),
    /// It did not, for that reason.
    Refused(Seq<char>),
}

/// What a member makes of a write it is offered.
#[derive(Debug)]
pub enum Answer {
    /// It took the write, at that revision.
    Acknowledged(i64),
    /// It did not, for that reason.
    Refused(String),
}

impl View for Answer {
    type V = Said;

    open spec fn view(&self) -> Said {
        match self {
            Answer::Acknowledged(revision) => Said::Acknowledged(*revision),
            Answer::Refused(error) => Said::Refused(error@),
        }
    }
}

/// What a driver that offers a write to one member after another does next.
#[verifier::ext_equal]
pub enum Course {
    Done(i64),
    NextMember { last: Seq<char> },
    Again { ms: u64, last: Seq<char> },
    GiveUp { message: Seq<char>, note: Seq<char> },
}

impl Course {
    /// Nobody is asked any more.
    pub open spec fn over(self) -> bool {
        self is Done || self is GiveUp
    }
}

/// What a driver that offers a write to one member after another does next.
#[derive(Debug)]
pub enum OfferStep {
    /// Nothing: the write was taken, at that revision.
    Done(i64),
    /// Offer it to the next member of this round; `last` is the last refusal.
    NextMember { last: String },
    /// Begin another round after so many milliseconds; `last` is the last refusal.
    Again { ms: u64, last: String },
    /// Give up: what went wrong, and what to note.
    GiveUp { message: String, note: String },
}

impl View for OfferStep {
    type V = Course;

    open spec fn view(&self) -> Course {
        match self {
            OfferStep::Done(revision) => Course::Done(*revision),
            OfferStep::NextMember { last } => Course::NextMember { last: last@ },
            OfferStep::Again { ms, last } => Course::Again { ms: *ms, last: last@ },
            OfferStep::GiveUp { message, note } => Course::GiveUp { message: message@, note: note@ },
        }
    }
}

/// What a driver hears: from which member, what it says, whether a member of this round is still to be
/// asked, and how long it has been offering. It hears nothing where a round has nobody in it.
#[verifier::ext_equal]
pub struct Heard {
    pub member: Seq<char>,
    pub said: Option<Said>,
    pub more_members: bool,
    pub elapsed_ms: u64,
}

impl Heard {
    /// A member took the write.
    pub open spec fn acknowledged(self) -> bool {
        self.said matches Some(Said::Acknowledged(_))
    }

    /// No member took the write, and the round is not over or there is still time.
    pub open spec fn goes_on(self, within_ms: u64) -> bool {
        !self.acknowledged() && (self.more_members || self.elapsed_ms < within_ms)
    }

    /// The last refusal, once this has been heard.
    pub open spec fn remembered(self, last: Seq<char>) -> Seq<char> {
        match self.said {
            Some(Said::Refused(error)) => self.member + ": "@ + error,
            _ => last,
        }
    }

    /// What the driver does about it: an acknowledgement ends the offer; a refusal sends it to the next
    /// member, and time is looked at only once the round is over.
    pub open spec fn course(self, key: Seq<char>, last: Seq<char>, within_ms: u64) -> Course {
        match self.said {
            Some(Said::Acknowledged(revision)) => Course::Done(revision),
            _ => if self.more_members {
                Course::NextMember { last: self.remembered(last) }
            } else if self.elapsed_ms >= within_ms {
                Course::GiveUp {
                    message: "no member accepted a write of "@ + key + " within "@ + nat_text(
                        within_ms as nat,
                    ) + " ms"@,
                    note: self.remembered(last),
                }
            } else {
                Course::Again { ms: 200, last: self.remembered(last) }
            },
        }
    }
}

/// What a driver does once a member has answered an offer of a write, or once a round had nobody in it.
pub fn offer_step(
    key: &str,
    last: &str,
    member: &str,
    answer: Option<Answer>,
    more_members: bool,
    elapsed_ms: u64,
    within_ms: u64,
) -> (next: OfferStep)
    ensures
        next@ == (Heard {
            member: member@,
            said: match answer {
                Some(a) => Some(a@),
                None => None,
            },
            more_members,
            elapsed_ms,
        }).course(key@, last@, within_ms),
{
    let last = match answer {
        Some(Answer::Acknowledged(revision)) => {
            return OfferStep::Done(revision);
        },
        Some(Answer::Refused(error)) => refusal(member, error.as_str()),
        None => String::from_str(last),
    };
    if more_members {
        return OfferStep::NextMember { last };
    }
    match put_patiently(key, last.as_str(), elapsed_ms, within_ms) {
        Offer::Again(ms) => OfferStep::Again { ms, last },
        Offer::GiveUp { message, note } => OfferStep::GiveUp { message, note },
    }
}

/// Where an offer stands once the driver has heard all this, one after the other.
pub open spec fn offer_run(key: Seq<char>, within_ms: u64, heard: Seq<Heard>) -> Course
    decreases heard.len(),
{
    if heard.len() == 0 {
        Course::NextMember { last: NO_MEMBER_WAS_RUNNING@ }
    } else {
        match offer_run(key, within_ms, heard.drop_last()) {
            Course::NextMember { last } => heard.last().course(key, last, within_ms),
            Course::Again { last, .. } => heard.last().course(key, last, within_ms),
            ended => ended,
        }
    }
}

/// The last refusal a driver has heard.
pub open spec fn last_refusal(heard: Seq<Heard>) -> Seq<char>
    decreases heard.len(),
{
    if heard.len() == 0 {
        NO_MEMBER_WAS_RUNNING@
    } else {
        heard.last().remembered(last_refusal(heard.drop_last()))
    }
}

/// None of these is an acknowledgement.
pub open spec fn all_refused(heard: Seq<Heard>) -> bool {
    forall|k: int| 0 <= k < heard.len() ==> !(#[trigger] heard[k]).acknowledged()
}

/// The offer ended with the acknowledgement at `k`, the first there is.
pub open spec fn taken_at(heard: Seq<Heard>, k: int, revision: i64) -> bool {
    0 <= k < heard.len() && heard[k].said == Some(Said::Acknowledged(revision)) && all_refused(
        heard.take(k),
    )
}

/// The offer ended with the round that was over at `k`, after the time was.
pub open spec fn given_up_at(within_ms: u64, heard: Seq<Heard>, k: int, note: Seq<char>) -> bool {
    0 <= k < heard.len() && !heard[k].more_members && heard[k].elapsed_ms >= within_ms && all_refused(
        heard.take(k + 1),
    ) && note == last_refusal(heard.take(k + 1))
}

/// The offer ended with the first acknowledgement there is, at its revision.
pub open spec fn taken(heard: Seq<Heard>, revision: i64) -> bool {
    exists|k: int| #[trigger] taken_at(heard, k, revision)
}

/// The offer ended with a round of refusals that was over after the time was.
pub open spec fn given_up(within_ms: u64, heard: Seq<Heard>, note: Seq<char>) -> bool {
    exists|k: int| #[trigger] given_up_at(within_ms, heard, k, note)
}

proof fn lemma_offer_open(key: Seq<char>, within_ms: u64, heard: Seq<Heard>)
    requires
        !offer_run(key, within_ms, heard).over(),
    ensures
        all_refused(heard),
        offer_run(key, within_ms, heard) matches Course::NextMember { last } ==> last == last_refusal(heard),
        offer_run(key, within_ms, heard) matches Course::Again { last, .. } ==> last == last_refusal(heard),
    decreases heard.len(),
{
    if heard.len() > 0 {
        let front = heard.drop_last();
        lemma_offer_open(key, within_ms, front);
        assert forall|k: int| 0 <= k < heard.len() implies !(#[trigger] heard[k]).acknowledged() by {
            if k < front.len() {
                assert(heard[k] == front[k]);
            }
        }
    }
}

/// An offer that ends well ends with the first acknowledgement there is, at its revision; one that is
/// given up heard refusals only, to the end of a round that was over after the time was, and the note
/// is the last of them, or that no member was running where there was none.
pub proof fn offer_ends_as_it_was_answered(key: Seq<char>, within_ms: u64, heard: Seq<Heard>)
    ensures
        offer_run(key, within_ms, heard) matches Course::Done(revision) ==> taken(heard, revision),
        offer_run(key, within_ms, heard) matches Course::GiveUp { message, note } ==> message
            == "no member accepted a write of "@ + key + " within "@ + nat_text(within_ms as nat) + " ms"@
            && given_up(within_ms, heard, note),
    decreases heard.len(),
{
    if heard.len() > 0 && offer_run(key, within_ms, heard).over() {
        let front = heard.drop_last();
        let n = front.len() as int;
        offer_ends_as_it_was_answered(key, within_ms, front);
        match offer_run(key, within_ms, front) {
            Course::Done(revision) => {
                let k = choose|k: int| #[trigger] taken_at(front, k, revision);
                assert(front.take(k) =~= heard.take(k));
                assert(taken_at(heard, k, revision));
            },
            Course::GiveUp { message, note } => {
                let k = choose|k: int| #[trigger] given_up_at(within_ms, front, k, note);
                assert(front.take(k + 1) =~= heard.take(k + 1));
                assert(given_up_at(within_ms, heard, k, note));
            },
            _ => {
                lemma_offer_open(key, within_ms, front);
                assert(heard.take(n) =~= front);
                assert(heard.take(n + 1) =~= heard);
                match heard.last().said {
                    Some(Said::Acknowledged(revision)) => {
                        assert(taken_at(heard, n, revision));
                    },
                    _ => {
                        assert forall|k: int| 0 <= k < heard.len() implies !(
                        #[trigger] heard[k]).acknowledged() by {
                            if k < n {
                                assert(heard[k] == front[k]);
                            }
                        }
                        assert(given_up_at(within_ms, heard, n, last_refusal(heard)));
                    },
                }
            },
        }
    }
}

/// Nothing heard before `k` ends the offer.
pub open spec fn open_until(within_ms: u64, heard: Seq<Heard>, k: int) -> bool {
    forall|j: int| 0 <= j < k ==> (#[trigger] heard[j]).goes_on(within_ms)
}

/// An offer goes on as long as nothing ends it, and the first thing heard that does ends it as it says: well
/// exactly where it is an acknowledgement, and given up exactly where a round is over after the time was.
pub proof fn offer_ends_where_something_ends_it(key: Seq<char>, within_ms: u64, heard: Seq<Heard>, k: int)
    requires
        0 <= k <= heard.len(),
        open_until(within_ms, heard, k),
        k < heard.len() ==> !heard[k].goes_on(within_ms),
    ensures
        k == heard.len() ==> !offer_run(key, within_ms, heard).over(),
        k < heard.len() ==> {
            &&& offer_run(key, within_ms, heard) == heard[k].course(
                key,
                last_refusal(heard.take(k)),
                within_ms,
            )
            &&& offer_run(key, within_ms, heard) is Done <==> heard[k].acknowledged()
            &&& offer_run(key, within_ms, heard) is GiveUp <==> !heard[k].acknowledged()
                && !heard[k].more_members && heard[k].elapsed_ms >= within_ms
        },
    decreases heard.len(),
{
    if heard.len() > 0 {
        let front = heard.drop_last();
        let n = front.len() as int;
        let m = if k < n {
            k
        } else {
            n
        };
        assert forall|j: int| 0 <= j < m implies (#[trigger] front[j]).goes_on(within_ms) by {
            assert(heard[j].goes_on(within_ms));
        }
        if k < n {
            assert(front[k] == heard[k]);
            assert(front.take(k) =~= heard.take(k));
        }
        offer_ends_where_something_ends_it(key, within_ms, front, m);
        if k >= n {
            lemma_offer_open(key, within_ms, front);
            assert(heard.take(n) =~= front);
            if k == heard.len() {
                assert(heard[n].goes_on(within_ms));
            }
        }
    }
}

/// Nobody is asked after an offer has ended: whatever is heard then changes nothing.
pub proof fn ended_offer_stays_ended(key: Seq<char>, within_ms: u64, heard: Seq<Heard>, more: Heard)
    requires
        offer_run(key, within_ms, heard).over(),
    ensures
        offer_run(key, within_ms, heard.push(more)) == offer_run(key, within_ms, heard),
{
    assert(heard.push(more).drop_last() =~= heard);
}

/// A round is made to its end, the first one too, however little time there is: as long as a member of
/// it is still to be asked, a refusal only moves the offer on.
pub proof fn round_is_made_to_its_end(key: Seq<char>, last: Seq<char>, heard: Heard, within_ms: u64)
    ensures
        !offer_run(key, within_ms, Seq::empty()).over(),
        heard.more_members && !heard.acknowledged() ==> heard.course(key, last, within_ms) is NextMember,
{
}

/// A number below a hundred in two digits; a larger one as it is.
pub open spec fn two_digits(n: nat) -> Seq<char> {
    if n < 10 {
        "0"@ + nat_text(n)
    } else {
        nat_text(n)
    }
}

/// Appends a number in two digits.
pub fn push_two_digits(s: &mut String, n: usize)
    ensures
        final(s)@ == old(s)@ + two_digits(n as nat),
{
    if n < 10 {
        s.append("0");
    }
    push_nat(s, n as u64);
    assert(s@ =~= old(s)@ + two_digits(n as nat));
}

/// The key of write `i`: its number plain, or in two digits.
pub open spec fn write_key(prefix: Seq<char>, i: nat, padded: bool) -> Seq<char> {
    prefix + "/k"@ + if padded {
        two_digits(i)
    } else {
        nat_text(i)
    }
}

/// The value of write `i`.
pub open spec fn write_value(i: nat) -> Seq<char> {
    "v"@ + nat_text(i)
}

/// A key and the value to put under it.
#[derive(Debug)]
pub struct Pair {
    pub key: String,
    pub value: String,
}

/// The first `n` writes of a run.
pub open spec fn writes(pairs: Seq<Pair>, prefix: Seq<char>, n: int, padded: bool) -> bool {
    pairs.len() == n && forall|i: int|
        0 <= i < n ==> (#[trigger] pairs[i]).key@ == write_key(prefix, i as nat, padded)
            && pairs[i].value@ == write_value(i as nat)
}

/// The keys and values a run of `n` writes puts, in order.
pub fn write_keys(prefix: &str, n: usize, padded: bool) -> (pairs: Vec<Pair>)
    ensures
        writes(pairs@, prefix@, n as int, padded),
{
    let mut pairs: Vec<Pair> = Vec::new();
    let mut i: usize = 0;
    while i < n
        invariant
            i <= n,
            writes(pairs@, prefix@, i as int, padded),
        decreases n - i,
    {
        let mut key = String::from_str(prefix);
        key.append("/k");
        if padded {
            push_two_digits(&mut key, i);
        } else {
            push_nat(&mut key, i as u64);
        }
        let mut value = String::from_str("v");
        push_nat(&mut value, i as u64);
        pairs.push(Pair { key, value });
        i += 1;
    }
    pairs
}

/// What was acknowledged of a write: its key, its value, and its revision.
#[verifier::ext_equal]
pub struct Acknowledged {
    pub key: Seq<char>,
    pub value: Seq<char>,
    pub revision: i64,
}

impl View for Written {
    type V = Acknowledged;

    open spec fn view(&self) -> Acknowledged {
        Acknowledged { key: self.key@, value: self.value@, revision: self.revision }
    }
}

/// What was acknowledged of some writes.
pub open spec fn acknowledged(written: Seq<Written>) -> Seq<Acknowledged> {
    written.map_values(|w: Written| w@)
}

/// The write that is next in a run, where one is left.
pub fn next_write(pairs: &Vec<Pair>, written: &Vec<Written>) -> (next: Option<usize>)
    ensures
        next == (if written@.len() < pairs@.len() {
            Some(written@.len() as usize)
        } else {
            None
        }),
{
    if written.len() < pairs.len() {
        Some(written.len())
    } else {
        None
    }
}

/// Takes what was answered to the next write of a run: its revision is put down behind the others, and
/// an error ends the run with what is written as it was.
pub fn write_step<E>(pairs: &Vec<Pair>, written: &mut Vec<Written>, answer: Result<i64, E>) -> (r: Result<(), E>)
    requires
        old(written)@.len() < pairs@.len(),
    ensures
        match answer {
            Ok(revision) => r is Ok && final(written)@.len() == old(written)@.len() + 1 && acknowledged(
                final(written)@,
            ) == acknowledged(old(written)@).push(
                Acknowledged {
                    key: pairs@[old(written)@.len() as int].key@,
                    value: pairs@[old(written)@.len() as int].value@,
                    revision,
                },
            ),
            Err(e) => r == Err::<(), E>(e) && final(written)@ == old(written)@,
        },
{
    match answer {
        Ok(revision) => {
            let i: usize = written.len();
            let ghost before = acknowledged(written@);
            written.push(
                Written { key: pairs[i].key.clone(), value: pairs[i].value.clone(), revision },
            );
            assert(acknowledged(written@) =~= before.push(
                Acknowledged { key: pairs@[i as int].key@, value: pairs@[i as int].value@, revision },
            ));
            Ok(())
        },
        Err(e) => Err(e),
    }
}

/// Where a run of writes stands: what is written, and the error it ended with, where it did.
#[verifier::ext_equal]
pub struct WriteRun<E> {
    pub written: Seq<Acknowledged>,
    pub stopped: Option<E>,
}

/// Where a run of writes stands once these answers have come, one to each write that was tried. No
/// answer is asked for once the run has ended.
pub open spec fn write_run<E>(pairs: Seq<Pair>, answers: Seq<Result<i64, E>>) -> WriteRun<E>
    decreases answers.len(),
{
    if answers.len() == 0 {
        WriteRun { written: Seq::empty(), stopped: None }
    } else {
        let run = write_run(pairs, answers.drop_last());
        let i = run.written.len() as int;
        if run.stopped is Some || i >= pairs.len() {
            run
        } else {
            match answers.last() {
                Ok(revision) => WriteRun {
                    written: run.written.push(
                        Acknowledged { key: pairs[i].key@, value: pairs[i].value@, revision },
                    ),
                    stopped: None,
                },
                Err(e) => WriteRun { stopped: Some(e), ..run },
            }
        }
    }
}

/// A run of writes holds the writes that were acknowledged, in order and each at its own revision, up
/// to the first that was not; the error is that one's, and no later write is tried. A run of no writes
/// ends at once with nothing.
pub proof fn run_holds_what_was_acknowledged<E>(pairs: Seq<Pair>, answers: Seq<Result<i64, E>>)
    ensures
        ({
            let run = write_run(pairs, answers);
            let n = run.written.len();
            &&& n <= pairs.len() && n <= answers.len()
            &&& forall|i: int|
                0 <= i < n ==> #[trigger] answers[i] is Ok && run.written[i] == (Acknowledged {
                    key: pairs[i].key@,
                    value: pairs[i].value@,
                    revision: answers[i]->Ok_0,
                })
            &&& match run.stopped {
                Some(e) => n < pairs.len() && n < answers.len() && answers[n as int] == Err::<i64, E>(e),
                None => n == pairs.len() || n == answers.len(),
            }
        }),
    decreases answers.len(),
{
    if answers.len() > 0 {
        let front = answers.drop_last();
        run_holds_what_was_acknowledged(pairs, front);
        let run = write_run(pairs, answers);
        let before = write_run(pairs, front);
        let n = before.written.len() as int;
        assert forall|i: int| 0 <= i < run.written.len() implies #[trigger] answers[i] is Ok
            && run.written[i] == (Acknowledged {
            key: pairs[i].key@,
            value: pairs[i].value@,
            revision: answers[i]->Ok_0,
        }) by {
            if i < n {
                assert(front[i] == answers[i]);
                assert(run.written[i] == before.written[i]);
            }
        }
        if before.stopped is Some {
            assert(front[n] == answers[n]);
        }
    }
}

/// A driver that polls one side of a partition goes on exactly where every member named one of the side,
/// whatever the time; it gives up exactly where they did not and the time is over, and asks again after the
/// given pause otherwise.
pub proof fn side_is_polled_until_it_agrees(
    group: Seq<usize>,
    named: Seq<Option<usize>>,
    elapsed_ms: u64,
    within_ms: u64,
    pause_ms: u64,
    next: Poll,
    leader: usize,
)
    requires
        side_poll(group, named, elapsed_ms, within_ms, pause_ms, next),
    ensures
        next == Poll::Leader(leader) <==> named.len() > 0 && group.contains(leader) && forall|i: int|
            0 <= i < named.len() ==> #[trigger] named[i] == Some(leader),
        next is Again ==> next == Poll::Again(pause_ms) && elapsed_ms < within_ms,
        next is GiveUp ==> elapsed_ms >= within_ms,
        agreed(group, named) is None && elapsed_ms < within_ms ==> next is Again,
        agreed(group, named) is None && elapsed_ms >= within_ms ==> next is GiveUp,
        agreed(group, named) is Some ==> next is Leader,
        next matches Poll::GiveUp { message, notes } ==> message@ == "members "@ + numbers_text(group)
            + " did not agree on a leader among themselves within "@ + nat_text(within_ms as nat) + " ms"@
            && texts(notes@) == seq!["they named "@ + all_named_text(named)],
{
    agreement_is_unanimous(group, named, leader);
}

/// A driver that polls every member still running goes on exactly where all of them named one that is itself
/// running; it gives up exactly where they did not and the time is over, and asks again after a tenth of a
/// second otherwise.
pub proof fn live_members_are_polled_until_they_agree(
    alive: Seq<usize>,
    named: Seq<Option<usize>>,
    elapsed_ms: u64,
    within_ms: u64,
    next: Poll,
    leader: usize,
)
    requires
        live_poll(alive, named, elapsed_ms, within_ms, next),
    ensures
        next == Poll::Leader(leader) <==> named.len() > 0 && alive.contains(leader) && forall|i: int|
            0 <= i < named.len() ==> #[trigger] named[i] == Some(leader),
        next is Again ==> next == Poll::Again(100) && elapsed_ms < within_ms,
        next is GiveUp ==> elapsed_ms >= within_ms,
        agreed(alive, named) is None && elapsed_ms < within_ms ==> next is Again,
        agreed(alive, named) is None && elapsed_ms >= within_ms ==> next is GiveUp,
        agreed(alive, named) is Some ==> next is Leader,
        next matches Poll::GiveUp { message, notes } ==> message@
            == "no member that is still running was named leader by all of them within "@ + nat_text(
            within_ms as nat,
        ) + " ms"@ && texts(notes@) == seq![
            "members "@ + numbers_text(alive) + " name leaders "@ + all_named_text(named),
        ],
{
    agreement_is_unanimous(alive, named, leader);
}

/// Members are counted from one in a message: member 0 is m1.
pub proof fn members_are_counted_from_one(l: usize)
    ensures
        named_text(Some(l)) == "Some("@ + nat_text((l + 1) as nat) + ")"@,
        named_text(None) == "None"@,
        numbers_text(seq![l]) == "["@ + nat_text((l + 1) as nat) + "]"@,
        numbers_text(Seq::empty()) == "["@ + "]"@,
        all_named_text(seq![Some(l)]) == "["@ + "Some("@ + nat_text((l + 1) as nat) + ")"@ + "]"@,
{
    let one = seq![l].map_values(|n: usize| nat_text((n + 1) as nat));
    assert(joined(one, ", "@) == nat_text((l + 1) as nat));
    let none = Seq::<usize>::empty().map_values(|n: usize| nat_text((n + 1) as nat));
    assert(joined(none, ", "@) =~= Seq::<char>::empty());
    assert(numbers_text(Seq::empty()) =~= "["@ + "]"@);
    let named = seq![Some(l)].map_values(|n: Option<usize>| named_text(n));
    assert(joined(named, ", "@) == named_text(Some(l)));
    assert(all_named_text(seq![Some(l)]) =~= "["@ + "Some("@ + nat_text((l + 1) as nat) + ")"@ + "]"@);
}

/// The rest of a cluster is every member but the one that is left out, in ascending order.
pub proof fn rest_is_everybody_else(size: nat, out: int, i: usize)
    requires
        size <= usize::MAX,
    ensures
        all_but(size, out).contains(i) <==> i < size && i != out,
        forall|j: int, k: int| 0 <= j < k < all_but(size, out).len() ==> all_but(size, out)[j] < all_but(size, out)[k],
        forall|k: int| 0 <= k < all_but(size, out).len() ==> #[trigger] all_but(size, out)[k] < size,
        all_but(size, out).len() == (if 0 <= out < size {
            size - 1
        } else {
            size as int
        }),
    decreases size,
{
    if size > 0 {
        rest_is_everybody_else((size - 1) as nat, out, i);
        let before = all_but((size - 1) as nat, out);
        let all = all_but(size, out);
        if size - 1 != out {
            assert(all.contains(i) <==> before.contains(i) || i == size - 1) by {
                if before.contains(i) {
                    let k = choose|k: int| 0 <= k < before.len() && before[k] == i;
                    assert(all[k] == i);
                }
                assert(all[before.len() as int] == size - 1);
                if all.contains(i) && i != size - 1 {
                    let k = choose|k: int| 0 <= k < all.len() && all[k] == i;
                    assert(before[k] == i);
                }
            }
        }
    }
}

/// A follower is the lowest member that does not lead, where there is one.
pub proof fn follower_is_the_lowest_other(leader: int, size: int, i: int)
    requires
        0 <= leader < size,
        size > 1,
    ensures
        0 <= lowest_follower(leader, size) < size,
        lowest_follower(leader, size) != leader,
        0 <= i < size && i != leader ==> lowest_follower(leader, size) <= i,
{
}

/// A member is ruled to hold a write exactly where it answers with the very value and at the very revision
/// that were acknowledged; one that lacks the key or does not answer is ruled to have lost it.
pub proof fn write_is_held_with_value_and_revision(member: Seq<char>, w: Written, held: Held)
    ensures
        crate::check::all_hold(held_rulings(member, w, held)) <==> (held matches Held::Value {
            value,
            mod_revision,
        } && value@ == w.value@ && mod_revision == w.revision),
        holds_write(w, held) <==> (held matches Held::Value { value, mod_revision } && value@ == w.value@
            && mod_revision == w.revision),
{
    let r = held_rulings(member, w, held);
    if crate::check::all_hold(r) {
        match held {
            Held::Value { .. } => {
                assert(r[0].holds() && r[1].holds());
            },
            _ => {
                assert(r[0].holds());
            },
        }
    }
}

/// Every write that did not come back as it was written is complained of, in order, and no other: by its key
/// and what came back instead.
pub proof fn lost_writes_are_complained_of_in_order(label: Seq<char>, reads: Seq<ReadBack>, r: ReadBack)
    ensures
        complaints(label, Seq::empty()).len() == 0,
        r.came_back() <==> r.value is Some && r.value->0@ == r.want@,
        r.came_back() ==> complaints(label, reads.push(r)) == complaints(label, reads),
        !r.came_back() ==> complaints(label, reads.push(r)) == complaints(label, reads).push(
            label + r.key@ + " -> "@ + r.shown@,
        ),
{
    assert(reads.push(r).drop_last() =~= reads);
}

/// What a driver does once a whole round has refused a write: it gives up from the moment on that the time is
/// over, and offers it again a fifth of a second later before.
pub proof fn round_of_refusals_is_made_again(key: Seq<char>, last: Seq<char>, elapsed_ms: u64, within_ms: u64, next: Offer)
    requires
        offered(key, last, elapsed_ms, within_ms, next),
    ensures
        next is GiveUp <==> elapsed_ms >= within_ms,
        next is Again ==> next == Offer::Again(200),
        next matches Offer::GiveUp { message, note } ==> note@ == last && message@
            == "no member accepted a write of "@ + key + " within "@ + nat_text(within_ms as nat) + " ms"@,
{
}

/// What is heard decides what is done next: an acknowledgement ends the offer at its revision, whatever the
/// time; a refusal goes to the next member of the round, or ends the round, and is remembered with who made
/// it; a round with nobody in it remembers what was said before.
pub proof fn offer_goes_by_what_is_heard(h: Heard, key: Seq<char>, last: Seq<char>, within_ms: u64)
    ensures
        h.said matches Some(Said::Acknowledged(revision)) ==> h.course(key, last, within_ms) == Course::Done(
            revision,
        ),
        h.said matches Some(Said::Refused(error)) ==> h.remembered(last) == h.member + ": "@ + error,
        h.said is None ==> h.remembered(last) == last,
        !(h.said matches Some(Said::Acknowledged(_))) && h.more_members ==> h.course(key, last, within_ms) == (
        (Course::NextMember { last: h.remembered(last) })),
        !(h.said matches Some(Said::Acknowledged(_))) && !h.more_members && h.elapsed_ms < within_ms ==> h.course(
            key,
            last,
            within_ms,
        ) == (Course::Again { ms: 200, last: h.remembered(last) }),
        !(h.said matches Some(Said::Acknowledged(_))) && !h.more_members && h.elapsed_ms >= within_ms ==> (h.course(
            key,
            last,
            within_ms,
        ) matches Course::GiveUp { message, note } && note == h.remembered(last) && message
            == "no member accepted a write of "@ + key + " within "@ + nat_text(within_ms as nat) + " ms"@),
        NO_MEMBER_WAS_RUNNING@ == "no member was running"@,
{
}

/// The keys of a run of writes are all different, and so are their values: both end in the number of the
/// write, the key in two digits where that is asked for.
pub proof fn writes_are_told_apart(prefix: Seq<char>, i: nat, j: nat, padded: bool)
    requires
        i <= i64::MAX,
        j <= i64::MAX,
    ensures
        i != j ==> write_value(i) != write_value(j),
        i != j && !padded ==> write_key(prefix, i, padded) != write_key(prefix, j, padded),
        write_value(i) == "v"@ + nat_text(i),
        write_key(prefix, i, false) == prefix + "/k"@ + nat_text(i),
        i < 10 ==> write_key(prefix, i, true) == prefix + "/k"@ + "0"@ + nat_text(i),
        10 <= i ==> write_key(prefix, i, true) == prefix + "/k"@ + nat_text(i),
{
    decimal_reads_back(i as i64);
    decimal_reads_back(j as i64);
    reveal_strlit("v");
    assert(write_value(i).skip(1) =~= nat_text(i));
    assert(write_value(j).skip(1) =~= nat_text(j));
    let n = (prefix + "/k"@).len() as int;
    assert(write_key(prefix, i, false).skip(n) =~= nat_text(i));
    assert(write_key(prefix, j, false).skip(n) =~= nat_text(j));
    if i < 10 {
        assert(write_key(prefix, i, true) =~= prefix + "/k"@ + "0"@ + nat_text(i));
    }
}

/// The revision of the last write; zero where there is none.
pub fn last_revision(written: &Vec<Written>) -> (r: i64)
    ensures
        r == (if written@.len() == 0 {
            0
        } else {
            written@.last().revision
        }),
{
    let n: usize = written.len();
    if n == 0 {
        0
    } else {
        written[n - 1].revision
    }
}

/// How many different numbers there are in a list.
pub fn distinct(ids: &Vec<u64>) -> (n: usize)
    ensures
        n == ids@.to_set().len(),
{
    let mut n: usize = 0;
    let ghost mut seen: Set<u64> = Set::empty();
    let mut i: usize = 0;
    while i < ids.len()
        invariant
            i <= ids@.len(),
            n <= i,
            seen.finite(),
            seen.len() == n,
            forall|x: u64| #[trigger] seen.contains(x) <==> exists|k: int| 0 <= k < i && ids@[k] == x,
        decreases ids@.len() - i,
    {
        let mut fresh = true;
        let mut k: usize = 0;
        while k < i
            invariant
                k <= i < ids@.len(),
                fresh == forall|j: int| 0 <= j < k ==> #[trigger] ids@[j] != ids@[i as int],
            decreases i - k,
        {
            if ids[k] == ids[i] {
                fresh = false;
            }
            k += 1;
        }
        let ghost was = seen;
        if fresh {
            n += 1;
        }
        proof {
            seen = seen.insert(ids@[i as int]);
            assert(fresh == !was.contains(ids@[i as int]));
            assert forall|x: u64| #[trigger] seen.contains(x) <==> exists|k: int|
                0 <= k < i + 1 && ids@[k] == x by {
                if was.contains(x) {
                    let k = choose|k: int| 0 <= k < i && ids@[k] == x;
                    assert(0 <= k < i + 1 && ids@[k] == x);
                }
                if x == ids@[i as int] {
                    assert(0 <= i < i + 1 && ids@[i as int] == x);
                }
            }
        }
        i += 1;
    }
    assert(seen =~= ids@.to_set());
    n
}

} // verus!
