//! Worked examples: what is sent, to whom, and what a reader should see in the answer.
use vstd::prelude::*;
use crate::etcd::{b64, b64_of, b64_text, coded, coded_bytes_read_back, decoded, end_of_prefix, prefix_end};

verus! {

/// One request to the store: a path, and the string fields of its JSON body.
#[verifier::ext_equal]
pub struct Request {
    pub path: Seq<char>,
    pub body: Seq<(Seq<char>, Seq<char>)>,
}

/// One request to the store: a path, and the string fields of its JSON body.
#[derive(Debug)]
pub struct Call {
    pub path: &'static str,
    pub body: Vec<(&'static str, String)>,
}

/// What the fields of a body hold.
pub open spec fn field_views(fields: Seq<(&'static str, String)>) -> Seq<(Seq<char>, Seq<char>)> {
    fields.map_values(|f: (&'static str, String)| (f.0@, f.1@))
}

impl View for Call {
    type V = Request;

    open spec fn view(&self) -> Request {
        Request { path: self.path@, body: field_views(self.body@) }
    }
}

/// What a list of calls asks for.
pub open spec fn requests(calls: Seq<Call>) -> Seq<Request> {
    calls.map_values(|c: Call| c@)
}

impl Call {
    /// A request with an empty body.
    pub fn new(path: &'static str) -> (c: Call)
        ensures
            c@ == (Request { path: path@, body: Seq::empty() }),
    {
        let c = Call { path, body: Vec::new() };
        assert(c@ =~= (Request { path: path@, body: Seq::empty() }));
        c
    }

    fn with_text(self, name: &'static str, value: String) -> (c: Call)
        ensures
            c@ == (Request { body: self@.body.push((name@, value@)), ..self@ }),
    {
        let mut body = self.body;
        body.push((name, value));
        let c = Call { path: self.path, body };
        assert(c@ =~= (Request { body: self@.body.push((name@, value@)), ..self@ }));
        c
    }

    /// The request with one field more, sent as it is.
    pub fn plain(self, name: &'static str, value: &str) -> (c: Call)
        ensures
            c@ == (Request { body: self@.body.push((name@, value@)), ..self@ }),
    {
        self.with_text(name, String::from_str(value))
    }

    /// The request with one field more, its bytes sent in base64.
    pub fn coded(self, name: &'static str, value: &str) -> (c: Call)
        ensures
            c@ == (Request { body: self@.body.push((name@, coded(value@))), ..self@ }),
    {
        self.with_text(name, b64_of(value))
    }

    /// The request over everything that `prefix` begins.
    pub fn over_prefix(self, prefix: &str) -> (c: Call)
        ensures
            c@ == (Request {
                body: self@.body.push(("key"@, coded(prefix@))).push(
                    (
                        "range_end"@,
                        b64_text(end_of_prefix(vstd::utf8::encode_utf8(prefix@))),
                    ),
                ),
                ..self@
            }),
    {
        let end = prefix_end(prefix.as_bytes());
        self.coded("key", prefix).with_text("range_end", b64(end.as_slice()))
    }
}

/// One step of a cluster example: whom to ask, what, and why.
#[verifier::ext_equal]
pub struct Visited {
    pub member: nat,
    pub request: Request,
    pub comment: Seq<char>,
}

/// One step of a cluster example: whom to ask, what, and why.
#[derive(Debug)]
pub struct Visit {
    pub member: usize,
    pub call: Call,
    pub comment: &'static str,
}

impl View for Visit {
    type V = Visited;

    open spec fn view(&self) -> Visited {
        Visited { member: self.member as nat, request: self.call@, comment: self.comment@ }
    }
}

/// What a list of steps does.
pub open spec fn visits(steps: Seq<Visit>) -> Seq<Visited> {
    steps.map_values(|s: Visit| s@)
}

/// Where an example plays.
#[verifier::ext_equal]
pub enum Scene {
    /// One node: what is done first, and the request the example is about.
    Node { setup: Seq<Request>, request: Request },
    /// A cluster of three.
    Cluster { steps: Seq<Visited> },
    /// A program that answers command lines.
    Prim { topic: Seq<char>, input: Seq<char> },
}

/// A worked example.
#[verifier::ext_equal]
pub struct Described {
    pub title: Seq<char>,
    pub scene: Scene,
    pub request: Seq<char>,
    pub response: Seq<char>,
    pub note: Seq<char>,
}

/// Where an example plays.
#[derive(Debug)]
pub enum Setting {
    Node { setup: Vec<Call>, call: Call },
    Cluster { steps: Vec<Visit> },
    Prim { topic: &'static str, input: &'static str },
}

impl View for Setting {
    type V = Scene;

    open spec fn view(&self) -> Scene {
        match self {
            Setting::Node { setup, call } => Scene::Node {
                setup: requests(setup@),
                request: call@,
            },
            Setting::Cluster { steps } => Scene::Cluster { steps: visits(steps@) },
            Setting::Prim { topic, input } => Scene::Prim { topic: topic@, input: input@ },
        }
    }
}

/// A worked example: what it shows, where it plays, what is sent in words, what comes back in
/// words, and what is easy to miss.
#[derive(Debug)]
pub struct ExampleSpec {
    pub title: &'static str,
    pub setting: Setting,
    pub request: &'static str,
    pub response: &'static str,
    pub note: &'static str,
}

impl View for ExampleSpec {
    type V = Described;

    open spec fn view(&self) -> Described {
        Described {
            title: self.title@,
            scene: self.setting@,
            request: self.request@,
            response: self.response@,
            note: self.note@,
        }
    }
}

/// What a list of examples describes.
pub open spec fn described(examples: Seq<ExampleSpec>) -> Seq<Described> {
    examples.map_values(|e: ExampleSpec| e@)
}

/// No examples.
pub fn none() -> (examples: Vec<ExampleSpec>)
    ensures
        described(examples@) == Seq::<Described>::empty(),
{
    let examples: Vec<ExampleSpec> = Vec::new();
    assert(described(examples@) =~= Seq::<Described>::empty());
    examples
}

/// A program example in a row: title, topic, the command lines, and the three texts.
pub type PrimRow = (
    &'static str,
    &'static str,
    &'static str,
    &'static str,
    &'static str,
    &'static str,
);

/// What a row describes.
pub open spec fn prim_described(row: PrimRow) -> Described {
    Described {
        title: row.0@,
        scene: Scene::Prim { topic: row.1@, input: row.2@ },
        request: row.3@,
        response: row.4@,
        note: row.5@,
    }
}

/// The examples that some rows describe.
pub fn prim_examples<const N: usize>(rows: [PrimRow; N]) -> (examples: Vec<ExampleSpec>)
    ensures
        described(examples@) == rows@.map_values(|row: PrimRow| prim_described(row)),
{
    let ghost all = rows@.map_values(|row: PrimRow| prim_described(row));
    let mut examples: Vec<ExampleSpec> = Vec::new();
    let mut i: usize = 0;
    assert(described(examples@) =~= all.take(0));
    while i < N
        invariant
            i <= N,
            rows@.len() == N,
            all == rows@.map_values(|row: PrimRow| prim_described(row)),
            described(examples@) == all.take(i as int),
        decreases N - i,
    {
        let ghost before = described(examples@);
        let row = rows[i];
        let example = ExampleSpec {
            title: row.0,
            setting: Setting::Prim { topic: row.1, input: row.2 },
            request: row.3,
            response: row.4,
            note: row.5,
        };
        assert(example@ == prim_described(rows@[i as int]));
        examples.push(example);
        assert(described(examples@) =~= before.push(example@));
        assert(described(examples@) =~= all.take(i + 1));
        i += 1;
    }
    assert(all.take(i as int) =~= all);
    examples
}

/// A step in a row: the member, the path, the key and the value, either of them left out where it is
/// empty, and the comment.
pub type StepRow = (usize, &'static str, &'static str, &'static str, &'static str);

/// The body that names a key and a value, either of them left out where it is empty.
pub open spec fn pair_body(key: Seq<char>, value: Seq<char>) -> Seq<(Seq<char>, Seq<char>)> {
    let with_key = if key.len() == 0 {
        Seq::empty()
    } else {
        seq![("key"@, coded(key))]
    };
    if value.len() == 0 {
        with_key
    } else {
        with_key.push(("value"@, coded(value)))
    }
}

/// What a row does.
pub open spec fn step_visited(row: StepRow) -> Visited {
    Visited {
        member: row.0 as nat,
        request: Request { path: row.1@, body: pair_body(row.2@, row.3@) },
        comment: row.4@,
    }
}

/// The step that a row does.
fn step(row: StepRow) -> (v: Visit)
    ensures
        v@ == step_visited(row),
{
    let mut call = Call::new(row.1);
    if row.2.unicode_len() > 0 {
        call = call.coded("key", row.2);
    }
    if row.3.unicode_len() > 0 {
        call = call.coded("value", row.3);
    }
    assert(call@.body =~= pair_body(row.2@, row.3@));
    Visit { member: row.0, call, comment: row.4 }
}

/// The texts of an example in a row: title, request, response and note.
pub type TextRow = (&'static str, &'static str, &'static str, &'static str);

/// What a cluster example that does what some rows do describes.
pub open spec fn cluster_described(texts: TextRow, rows: Seq<StepRow>) -> Described {
    Described {
        title: texts.0@,
        scene: Scene::Cluster { steps: rows.map_values(|row: StepRow| step_visited(row)) },
        request: texts.1@,
        response: texts.2@,
        note: texts.3@,
    }
}

/// What a node example describes.
pub open spec fn node_described(texts: TextRow, setup: Seq<Request>, request: Request) -> Described {
    Described {
        title: texts.0@,
        scene: Scene::Node { setup, request },
        request: texts.1@,
        response: texts.2@,
        note: texts.3@,
    }
}

/// A cluster example that does what some rows do.
pub fn cluster_example<const N: usize>(texts: TextRow, rows: [StepRow; N]) -> (e: ExampleSpec)
    ensures
        e@ == cluster_described(texts, rows@),
{
    let ghost all = rows@.map_values(|row: StepRow| step_visited(row));
    let mut steps: Vec<Visit> = Vec::new();
    let mut i: usize = 0;
    assert(visits(steps@) =~= all.take(0));
    while i < N
        invariant
            i <= N,
            rows@.len() == N,
            all == rows@.map_values(|row: StepRow| step_visited(row)),
            visits(steps@) == all.take(i as int),
        decreases N - i,
    {
        let ghost before = visits(steps@);
        let visit = step(rows[i]);
        steps.push(visit);
        assert(visits(steps@) =~= before.push(visit@));
        assert(visits(steps@) =~= all.take(i + 1));
        i += 1;
    }
    assert(all.take(i as int) =~= all);
    ExampleSpec {
        title: texts.0,
        setting: Setting::Cluster { steps },
        request: texts.1,
        response: texts.2,
        note: texts.3,
    }
}

/// A node example: what is done first, the request it is about, and its texts.
pub fn node_example_after(texts: TextRow, setup: Vec<Call>, call: Call) -> (e: ExampleSpec)
    ensures
        e@ == node_described(texts, requests(setup@), call@),
{
    ExampleSpec {
        title: texts.0,
        setting: Setting::Node { setup, call },
        request: texts.1,
        response: texts.2,
        note: texts.3,
    }
}

/// A node example that needs nothing done first.
pub fn node_example(texts: TextRow, call: Call) -> (e: ExampleSpec)
    ensures
        e@ == node_described(texts, Seq::empty(), call@),
{
    let setup: Vec<Call> = Vec::new();
    assert(requests(setup@) =~= Seq::<Request>::empty());
    node_example_after(texts, setup, call)
}

/// The request for everything that a prefix begins.
pub open spec fn over_prefix_request(prefix: Seq<char>) -> Request {
    Request {
        path: "/v3/kv/range"@,
        body: seq![
            ("key"@, coded(prefix)),
            ("range_end"@, b64_text(end_of_prefix(vstd::utf8::encode_utf8(prefix)))),
        ],
    }
}

/// The request that puts a value under a key.
pub open spec fn put_request(key: Seq<char>, value: Seq<char>) -> Request {
    Request {
        path: "/v3/kv/put"@,
        body: seq![("key"@, coded(key)), ("value"@, coded(value))],
    }
}

/// The request that puts a value under a key.
pub fn put_call(key: &str, value: &str) -> (c: Call)
    ensures
        c@ == put_request(key@, value@),
{
    let c = Call::new("/v3/kv/put").coded("key", key).coded("value", value);
    assert(c@.body =~= put_request(key@, value@).body);
    c
}

/// One example.
pub fn one(e: ExampleSpec) -> (examples: Vec<ExampleSpec>)
    ensures
        described(examples@) == seq![e@],
{
    let mut examples: Vec<ExampleSpec> = Vec::new();
    examples.push(e);
    assert(described(examples@) =~= seq![e@]);
    examples
}

/// Two examples.
pub fn two(first: ExampleSpec, second: ExampleSpec) -> (examples: Vec<ExampleSpec>)
    ensures
        described(examples@) == seq![first@, second@],
{
    let mut examples: Vec<ExampleSpec> = Vec::new();
    examples.push(first);
    examples.push(second);
    assert(described(examples@) =~= seq![first@, second@]);
    examples
}

/// What is asked for by calls put one behind the other.
pub fn put_request_call(calls: &mut Vec<Call>, call: Call)
    ensures
        requests(final(calls)@) == requests(old(calls)@).push(call@),
{
    let ghost before = calls@;
    calls.push(call);
    assert(requests(calls@) =~= requests(before).push(call@));
}

/// A write names its key and its value, both in base64, the key first; what was left empty is left out.
pub proof fn writes_name_their_key_and_value(key: Seq<char>, value: Seq<char>)
    ensures
        put_request(key, value).path == "/v3/kv/put"@,
        put_request(key, value).body == seq![("key"@, coded(key)), ("value"@, coded(value))],
        decoded(put_request(key, value).body[0].1) == vstd::utf8::encode_utf8(key),
        decoded(put_request(key, value).body[1].1) == vstd::utf8::encode_utf8(value),
        key.len() > 0 && value.len() > 0 ==> pair_body(key, value) == put_request(key, value).body,
        key.len() > 0 && value.len() == 0 ==> pair_body(key, value) == seq![("key"@, coded(key))],
        key.len() == 0 && value.len() > 0 ==> pair_body(key, value) == seq![("value"@, coded(value))],
        key.len() == 0 && value.len() == 0 ==> pair_body(key, value).len() == 0,
{
    coded_bytes_read_back(vstd::utf8::encode_utf8(key));
    coded_bytes_read_back(vstd::utf8::encode_utf8(value));
    if key.len() > 0 && value.len() > 0 {
        assert(pair_body(key, value) =~= put_request(key, value).body);
    }
}

/// A read over a prefix starts at the prefix and ends where its range does.
pub proof fn prefix_reads_cover_the_prefix(prefix: Seq<char>)
    ensures
        over_prefix_request(prefix).path == "/v3/kv/range"@,
        over_prefix_request(prefix).body.len() == 2,
        over_prefix_request(prefix).body[0].0 == "key"@,
        over_prefix_request(prefix).body[1].0 == "range_end"@,
        decoded(over_prefix_request(prefix).body[0].1) == vstd::utf8::encode_utf8(prefix),
        decoded(over_prefix_request(prefix).body[1].1) == end_of_prefix(vstd::utf8::encode_utf8(prefix)),
{
    coded_bytes_read_back(vstd::utf8::encode_utf8(prefix));
    coded_bytes_read_back(end_of_prefix(vstd::utf8::encode_utf8(prefix)));
}

/// An example keeps its texts in their places and its steps in order.
pub proof fn examples_keep_their_texts(row: PrimRow, texts: TextRow, steps: Seq<StepRow>, i: int)
    ensures
        prim_described(row).title == row.0@,
        prim_described(row).scene == (Scene::Prim { topic: row.1@, input: row.2@ }),
        prim_described(row).request == row.3@,
        prim_described(row).response == row.4@,
        prim_described(row).note == row.5@,
        cluster_described(texts, steps).title == texts.0@,
        cluster_described(texts, steps).request == texts.1@,
        cluster_described(texts, steps).response == texts.2@,
        cluster_described(texts, steps).note == texts.3@,
        cluster_described(texts, steps).scene matches Scene::Cluster { steps: visited } && visited.len() == steps.len()
            && (0 <= i < steps.len() ==> visited[i].member == steps[i].0 && visited[i].request.path == steps[i].1@
            && visited[i].request.body == pair_body(steps[i].2@, steps[i].3@) && visited[i].comment == steps[i].4@),
{
}

/// An example on one node is about its request, after what is done first.
pub proof fn node_examples_are_about_their_request(texts: TextRow, setup: Seq<Request>, request: Request)
    ensures
        node_described(texts, setup, request).title == texts.0@,
        node_described(texts, setup, request).request == texts.1@,
        node_described(texts, setup, request).response == texts.2@,
        node_described(texts, setup, request).note == texts.3@,
        node_described(texts, setup, request).scene == (Scene::Node { setup, request }),
{
}

} // verus!
