//! The tracker of a media player: discovery and selection of an endpoint, and
//! the polling that turns its samples into events. It performs no I/O itself:
//! each input says what the outside world answered, and each reply says what
//! to tell the consumer and what to ask of the outside world next.
use vstd::prelude::*;

use crate::parser::option_view;
use crate::timestamp::Timestamp;

verus! {

/// How long the tracker waits between two polls of the same session.
pub const POLL_INTERVAL_MS: u64 = 100;

/// A player that discovery found.
#[derive(Debug, Clone)]
pub struct Endpoint {
    pub bus_name: String,
    pub unique_name: String,
    pub identity: String,
}

/// What an `Endpoint` holds, as plain sequences.
pub struct EndpointSpec {
    pub bus_name: Seq<char>,
    pub unique_name: Seq<char>,
    pub identity: Seq<char>,
}

impl View for Endpoint {
    type V = EndpointSpec;

    open spec fn view(&self) -> EndpointSpec {
        EndpointSpec {
            bus_name: self.bus_name@,
            unique_name: self.unique_name@,
            identity: self.identity@,
        }
    }
}

impl Endpoint {
    /// An endpoint with the given names.
    pub fn new(bus_name: &str, unique_name: &str, identity: &str) -> (r: Endpoint)
        ensures
            r.bus_name@ == bus_name@,
            r.unique_name@ == unique_name@,
            r.identity@ == identity@,
    {
        Endpoint {
            bus_name: bus_name.to_owned(),
            unique_name: unique_name.to_owned(),
            identity: identity.to_owned(),
        }
    }
}

/// What one poll of the selected endpoint read: the title of the track, if it
/// has one, and the playback position.
#[derive(Debug, Clone)]
pub struct Sample {
    pub title: Option<String>,
    pub position: Timestamp,
}

/// The inputs of the tracker, handled one at a time.
#[derive(Debug)]
pub enum Event {
    /// The consumer asks for the endpoints that can be seen now.
    Players,
    /// What discovery answered: the endpoints, or why it failed.
    Found(Result<Vec<Endpoint>, String>),
    /// The consumer picks the endpoint at this index.
    Select(usize),
    /// What the queries of a poll answered, for the session that asked for
    /// them; `None` where either query failed.
    Poll(u64, Option<Sample>),
}

/// What the tracker tells its consumer.
#[derive(Debug)]
pub enum Output {
    EndpointsFetched(Vec<Endpoint>),
    DiscoveryFailed(String),
    TrackChanged(Option<String>),
    PositionTick(Timestamp),
    Reset,
}

/// What an `Output` says, as plain values.
pub enum Notice {
    EndpointsFetched(Seq<EndpointSpec>),
    DiscoveryFailed(Seq<char>),
    TrackChanged(Option<Seq<char>>),
    PositionTick(Timestamp),
    Reset,
}

impl View for Output {
    type V = Notice;

    open spec fn view(&self) -> Notice {
        match self {
            Output::EndpointsFetched(v) => Notice::EndpointsFetched(
                v@.map_values(|e: Endpoint| e@),
            ),
            Output::DiscoveryFailed(s) => Notice::DiscoveryFailed(s@),
            Output::TrackChanged(t) => Notice::TrackChanged(option_view(*t)),
            Output::PositionTick(p) => Notice::PositionTick(*p),
            Output::Reset => Notice::Reset,
        }
    }
}

/// What the tracker asks of the outside world next.
#[derive(Clone, Copy, Debug, PartialEq, Eq, Structural)]
pub enum Command {
    /// Nothing: wait for the next input.
    Nothing,
    /// Enumerate the endpoints and hand back `Event::Found`.
    Discover,
    /// After `delay_ms` milliseconds, read the title and position of the
    /// endpoint at `index` and hand back `Event::Poll` with `session`.
    Query { session: u64, index: usize, delay_ms: u64 },
}

/// The answer to one input.
#[derive(Debug)]
pub struct Reply {
    pub outputs: Vec<Output>,
    pub command: Command,
}

/// The tracker. `selected` is the endpoint being polled, if any; `cached` is
/// `None` until the first poll of a session, then the last title read; each
/// selection opens a new `session`, and polls of older ones are dropped.
#[derive(Debug)]
pub struct Warden {
    pub selected: Option<usize>,
    pub cached: Option<Option<String>>,
    pub session: u64,
}

/// What a `Warden` holds, as plain values.
pub struct TrackState {
    pub selected: Option<usize>,
    pub cached: Option<Option<Seq<char>>>,
    pub session: u64,
}

impl View for Warden {
    type V = TrackState;

    open spec fn view(&self) -> TrackState {
        TrackState {
            selected: self.selected,
            cached: match self.cached {
                Some(t) => Some(option_view(t)),
                None => None,
            },
            session: self.session,
        }
    }
}

/// The session that follows `s`.
pub open spec fn next_session(s: u64) -> u64 {
    if s == u64::MAX {
        0
    } else {
        (s + 1) as u64
    }
}

/// The tracker in state `s` handles `e`: the state after it, what the consumer
/// is told, in order, and what is asked of the outside world.
pub open spec fn step(s: TrackState, e: Event) -> (TrackState, Seq<Notice>, Command) {
    match e {
        Event::Players => (s, Seq::empty(), Command::Discover),
        Event::Found(Ok(list)) => (
            s,
            seq![Notice::EndpointsFetched(list@.map_values(|x: Endpoint| x@))],
            Command::Nothing,
        ),
        Event::Found(Err(why)) => (s, seq![Notice::DiscoveryFailed(why@)], Command::Nothing),
        Event::Select(i) => {
            let n = next_session(s.session);
            (
                TrackState { selected: Some(i), cached: None, session: n },
                Seq::empty(),
                Command::Query { session: n, index: i, delay_ms: 0 },
            )
        },
        Event::Poll(token, sample) => {
            if s.selected is Some && token == s.session {
                match sample {
                    None => (
                        TrackState { selected: None, cached: None, session: s.session },
                        seq![Notice::Reset],
                        Command::Nothing,
                    ),
                    Some(x) => {
                        let t = option_view(x.title);
                        let told = if s.cached != Some(t) {
                            seq![Notice::TrackChanged(t)]
                        } else {
                            Seq::empty()
                        };
                        (
                            TrackState { selected: s.selected, cached: Some(t), session: s.session },
                            told.push(Notice::PositionTick(x.position)),
                            Command::Query {
                                session: token,
                                index: s.selected->0,
                                delay_ms: POLL_INTERVAL_MS,
                            },
                        )
                    },
                }
            } else {
                (s, Seq::empty(), Command::Nothing)
            }
        },
    }
}

/// The views of a sequence of outputs.
pub open spec fn notices(v: Seq<Output>) -> Seq<Notice> {
    v.map_values(|o: Output| o@)
}

/// The tracker in state `s` handles the inputs `es` in order: the state after
/// the last, everything the consumer was told, and each command asked.
pub open spec fn run(s: TrackState, es: Seq<Event>) -> (TrackState, Seq<Notice>, Seq<Command>)
    decreases es.len(),
{
    if es.len() == 0 {
        (s, Seq::empty(), Seq::empty())
    } else {
        let (t, told, asked) = run(s, es.drop_last());
        let (u, more, next) = step(t, es.last());
        (u, told + more, asked.push(next))
    }
}

/// Whether a notice comes from polling the selected endpoint.
pub open spec fn from_polling(n: Notice) -> bool {
    n is TrackChanged || n is PositionTick || n is Reset
}

/// After a selection, two polls in a row that read the same title tell the
/// consumer of the track once, on the first poll, and of the position on each.
pub proof fn lemma_same_title_told_once(s: TrackState, i: usize, a: Sample, b: Sample)
    requires
        option_view(a.title) == option_view(b.title),
    ensures
        ({
            let (s1, o1, c1) = step(s, Event::Select(i));
            let (s2, o2, c2) = step(s1, Event::Poll(s1.session, Some(a)));
            let (s3, o3, c3) = step(s2, Event::Poll(s2.session, Some(b)));
            &&& o1 == Seq::<Notice>::empty()
            &&& c1 == Command::Query { session: s1.session, index: i, delay_ms: 0 }
            &&& o2 == seq![
                Notice::TrackChanged(option_view(a.title)),
                Notice::PositionTick(a.position),
            ]
            &&& c2 == Command::Query { session: s1.session, index: i, delay_ms: POLL_INTERVAL_MS }
            &&& s2.session == s1.session
            &&& o3 == seq![Notice::PositionTick(b.position)]
            &&& c3 == Command::Query { session: s1.session, index: i, delay_ms: POLL_INTERVAL_MS }
        }),
{
    let (s1, o1, c1) = step(s, Event::Select(i));
    let (s2, o2, c2) = step(s1, Event::Poll(s1.session, Some(a)));
    let (s3, o3, c3) = step(s2, Event::Poll(s2.session, Some(b)));
    assert(o2 =~= seq![
        Notice::TrackChanged(option_view(a.title)),
        Notice::PositionTick(a.position),
    ]);
    assert(o3 =~= seq![Notice::PositionTick(b.position)]);
}

/// After a selection, a poll whose queries failed drops the selection and
/// tells the consumer of one reset; after that, until the next selection,
/// nothing the consumer is told comes from polling, and no poll is asked.
pub proof fn lemma_failed_poll_resets(s: TrackState, i: usize, later: Seq<Event>)
    requires
        forall|k: int| 0 <= k < later.len() ==> !((#[trigger] later[k]) is Select),
    ensures
        ({
            let (s1, o1, c1) = step(s, Event::Select(i));
            let (s2, o2, c2) = step(s1, Event::Poll(s1.session, None));
            let (s3, o3, c3) = run(s2, later);
            &&& s2.selected is None
            &&& o2 == seq![Notice::Reset]
            &&& c2 == Command::Nothing
            &&& s3.selected is None
            &&& forall|k: int| 0 <= k < o3.len() ==> !from_polling(#[trigger] o3[k])
            &&& forall|k: int| 0 <= k < c3.len() ==> !((#[trigger] c3[k]) is Query)
        }),
{
    let (s1, o1, c1) = step(s, Event::Select(i));
    let (s2, o2, c2) = step(s1, Event::Poll(s1.session, None));
    lemma_idle_stays_quiet(s2, later);
}

/// Without a selection, inputs other than a selection keep it that way, tell
/// nothing that comes from polling, and ask for no poll.
pub proof fn lemma_idle_stays_quiet(s: TrackState, es: Seq<Event>)
    requires
        s.selected is None,
        forall|k: int| 0 <= k < es.len() ==> !((#[trigger] es[k]) is Select),
    ensures
        ({
            let (t, told, asked) = run(s, es);
            &&& t.selected is None
            &&& forall|k: int| 0 <= k < told.len() ==> !from_polling(#[trigger] told[k])
            &&& forall|k: int| 0 <= k < asked.len() ==> !((#[trigger] asked[k]) is Query)
        }),
    decreases es.len(),
{
    if es.len() > 0 {
        let front = es.drop_last();
        assert forall|k: int| 0 <= k < front.len() implies !((#[trigger] front[k]) is Select) by {
            assert(front[k] == es[k]);
        }
        lemma_idle_stays_quiet(s, front);
        let (t, told, asked) = run(s, front);
        let (u, more, next) = step(t, es.last());
        assert(!(es[es.len() - 1] is Select));
        assert forall|k: int| 0 <= k < more.len() implies !from_polling(#[trigger] more[k]) by {}
        let all = told + more;
        assert forall|k: int| 0 <= k < all.len() implies !from_polling(#[trigger] all[k]) by {
            if k < told.len() {
                assert(all[k] == told[k]);
            } else {
                assert(all[k] == more[k - told.len()]);
            }
        }
        assert forall|k: int| 0 <= k < asked.push(next).len() implies !((#[trigger] asked.push(
            next,
        )[k]) is Query) by {
            if k < asked.len() {
                assert(asked.push(next)[k] == asked[k]);
            }
        }
    }
}

/// Whether two optional titles are equal.
fn same_title(a: &Option<String>, b: &Option<String>) -> (r: bool)
    ensures
        r == (option_view(*a) == option_view(*b)),
{
    match (a, b) {
        (Some(x), Some(y)) => *x == *y,
        (None, None) => true,
        _ => false,
    }
}

/// A copy of an optional title.
fn copy_title(a: &Option<String>) -> (r: Option<String>)
    ensures
        option_view(r) == option_view(*a),
{
    match a {
        Some(x) => Some(x.clone()),
        None => None,
    }
}

impl Warden {
    /// A tracker with no endpoint selected.
    pub fn new() -> (r: Warden)
        ensures
            r@ == (TrackState { selected: None, cached: None, session: 0 }),
    {
        Warden { selected: None, cached: None, session: 0 }
    }

    /// Handles one input.
    pub fn update(&mut self, event: Event) -> (r: Reply)
        ensures
            final(self)@ == step(old(self)@, event).0,
            notices(r.outputs@) == step(old(self)@, event).1,
            r.command == step(old(self)@, event).2,
    {
        let ghost e = event;
        let ghost before = self@;
        match event {
            Event::Players => {
                let r = Reply { outputs: Vec::new(), command: Command::Discover };
                assert(notices(r.outputs@) =~= Seq::<Notice>::empty());
                r
            },
            Event::Found(Ok(list)) => {
                let mut outputs: Vec<Output> = Vec::new();
                outputs.push(Output::EndpointsFetched(list));
                assert(notices(outputs@) =~= step(before, e).1);
                Reply { outputs, command: Command::Nothing }
            },
            Event::Found(Err(why)) => {
                let mut outputs: Vec<Output> = Vec::new();
                outputs.push(Output::DiscoveryFailed(why));
                assert(notices(outputs@) =~= step(before, e).1);
                Reply { outputs, command: Command::Nothing }
            },
            Event::Select(i) => {
                let n = if self.session == u64::MAX {
                    0
                } else {
                    self.session + 1
                };
                self.selected = Some(i);
                self.cached = None;
                self.session = n;
                let r = Reply {
                    outputs: Vec::new(),
                    command: Command::Query { session: n, index: i, delay_ms: 0 },
                };
                assert(notices(r.outputs@) =~= Seq::<Notice>::empty());
                r
            },
            Event::Poll(token, sample) => {
                let mut outputs: Vec<Output> = Vec::new();
                let index = match self.selected {
                    Some(index) => index,
                    None => {
                        assert(notices(outputs@) =~= Seq::<Notice>::empty());
                        return Reply { outputs, command: Command::Nothing };
                    },
                };
                if token != self.session {
                    assert(notices(outputs@) =~= Seq::<Notice>::empty());
                    return Reply { outputs, command: Command::Nothing };
                }
                match sample {
                    None => {
                        self.selected = None;
                        self.cached = None;
                        outputs.push(Output::Reset);
                        assert(notices(outputs@) =~= step(before, e).1);
                        Reply { outputs, command: Command::Nothing }
                    },
                    Some(x) => {
                        let changed = match &self.cached {
                            Some(c) => !same_title(c, &x.title),
                            None => true,
                        };
                        if changed {
                            outputs.push(Output::TrackChanged(copy_title(&x.title)));
                        }
                        let ghost told = notices(outputs@);
                        outputs.push(Output::PositionTick(x.position));
                        assert(notices(outputs@) =~= told.push(Notice::PositionTick(x.position)));
                        assert(notices(outputs@) =~= step(before, e).1);
                        self.cached = Some(x.title);
                        Reply {
                            outputs,
                            command: Command::Query { session: token, index, delay_ms: POLL_INTERVAL_MS },
                        }
                    },
                }
            },
        }
    }
}

} // verus!
