use vstd::prelude::*;

use crate::round::Round;
use vstd::arithmetic::div_mod::{lemma_add_mod_noop_right, lemma_small_mod};

verus! {

/// The feeds to poll and the pause after each fetch attempt.
///
/// A configuration is fixed once it is built: the fetch loop that owns it
/// never adds or removes a feed.
pub struct Configuration {
    /// Seconds to wait after each fetch attempt before the next one.
    pub fetch_interval_seconds: u64,
    /// `(identifier, contract address)` of each feed, in polling order.
    pub contracts: Vec<(String, String)>,
}

impl Configuration {
    /// The loop over this configuration before its first event: waiting,
    /// with the cursor on the first feed.
    pub open spec fn first_state(&self) -> LoopState {
        LoopState {
            interval: self.fetch_interval_seconds as nat,
            feeds: feeds_view(self.contracts@),
            cursor: 0,
            phase: Phase::Waiting,
        }
    }
}

/// The feeds of a configuration as pairs of character sequences.
pub open spec fn feeds_view(contracts: Seq<(String, String)>) -> Seq<(Seq<char>, Seq<char>)> {
    contracts.map_values(|f: (String, String)| (f.0@, f.1@))
}

/// Where the fetch loop stands between two events.
#[derive(Debug, Clone, Copy, PartialEq, Eq, Structural)]
pub enum Phase {
    /// Waiting for the next tick of the interval timer, or for cancellation.
    Waiting,
    /// A contract read is in flight for the feed under the cursor.
    Fetching,
    /// Cancellation was seen and acknowledged; the loop has exited.
    Finished,
}

/// What the driver of the loop observed.
#[derive(Debug, PartialEq, Eq)]
pub enum Event {
    /// The interval timer fired.
    Tick,
    /// Cancellation was requested.
    Cancelled,
    /// The contract read for the feed under the cursor returned a round.
    Fetched(Round),
    /// The contract read for the feed under the cursor failed.
    FetchFailed,
}

/// What the driver of the loop must do next.
#[derive(Debug, PartialEq, Eq)]
pub enum Action {
    /// Nothing: keep waiting for the timer or for cancellation.
    Idle,
    /// Read the contract of the feed at this index.
    Fetch(usize),
    /// Hand this round to the sink.
    Deliver(Round),
    /// Record that the read of the feed at this index failed.
    ReportFailure(usize),
    /// Acknowledge cancellation; the loop has exited.
    Acknowledge,
}

/// The state of a fetch loop, as mathematical values.
pub struct LoopState {
    pub interval: nat,
    pub feeds: Seq<(Seq<char>, Seq<char>)>,
    pub cursor: nat,
    pub phase: Phase,
}

impl LoopState {
    /// The cursor points at a feed, or at 0 when there is none; a read is
    /// in flight only when there is a feed to read.
    pub open spec fn wf(self) -> bool {
        &&& if self.feeds.len() == 0 {
            self.cursor == 0
        } else {
            self.cursor < self.feeds.len()
        }
        &&& self.phase == Phase::Fetching ==> self.feeds.len() > 0
    }

    /// The same loop in another phase.
    pub open spec fn with_phase(self, phase: Phase) -> LoopState {
        LoopState { phase, ..self }
    }

    /// The loop waiting, with the cursor moved to the next feed in
    /// registry order (back to the first after the last).
    pub open spec fn advanced(self) -> LoopState {
        LoopState {
            cursor: (self.cursor + 1) % self.feeds.len(),
            phase: Phase::Waiting,
            ..self
        }
    }
}

/// How the loop answers one event.
///
/// While waiting, a tick starts the read of the feed under the cursor (or
/// does nothing when there is no feed). A read's outcome is delivered or
/// reported, and the cursor moves on either way: one feed's failure never
/// ends the cycle. Cancellation is acknowledged at once; a result that
/// arrives after it is dropped. Once finished, the loop does nothing.
pub open spec fn next(s: LoopState, e: Event) -> (LoopState, Action) {
    match s.phase {
        Phase::Finished => (s, Action::Idle),
        Phase::Waiting => match e {
            Event::Tick => if s.feeds.len() == 0 {
                (s, Action::Idle)
            } else {
                (s.with_phase(Phase::Fetching), Action::Fetch(s.cursor as usize))
            },
            Event::Cancelled => (s.with_phase(Phase::Finished), Action::Acknowledge),
            _ => (s, Action::Idle),
        },
        Phase::Fetching => match e {
            Event::Fetched(r) => (s.advanced(), Action::Deliver(r)),
            Event::FetchFailed => (s.advanced(), Action::ReportFailure(s.cursor as usize)),
            Event::Cancelled => (s.with_phase(Phase::Finished), Action::Acknowledge),
            Event::Tick => (s, Action::Idle),
        },
    }
}

/// The state reached and the actions taken when the events come in order.
pub open spec fn run(s: LoopState, events: Seq<Event>) -> (LoopState, Seq<Action>)
    decreases events.len(),
{
    if events.len() == 0 {
        (s, Seq::empty())
    } else {
        let first = next(s, events[0]);
        let rest = run(first.0, events.drop_first());
        (rest.0, seq![first.1] + rest.1)
    }
}

/// The outcome of one contract read.
pub open spec fn is_outcome(e: Event) -> bool {
    e is Fetched || e is FetchFailed
}

/// The events of steady polling: a tick before each read outcome.
pub open spec fn polled(outcomes: Seq<Event>) -> Seq<Event>
    decreases outcomes.len(),
{
    if outcomes.len() == 0 {
        Seq::empty()
    } else {
        seq![Event::Tick, outcomes[0]] + polled(outcomes.drop_first())
    }
}

/// In the actions of steady polling, what the `i`-th tick did.
pub open spec fn on_tick(acts: Seq<Action>, i: int) -> Action {
    acts[2 * i]
}

/// In the actions of steady polling, what followed the `i`-th read.
pub open spec fn after_read(acts: Seq<Action>, i: int) -> Action {
    acts[2 * i + 1]
}

/// The action that follows the outcome of the read of feed `index`.
pub open spec fn settled(outcome: Event, index: nat) -> Action {
    match outcome {
        Event::Fetched(r) => Action::Deliver(r),
        _ => Action::ReportFailure(index as usize),
    }
}

/// The first tick and read of steady polling, then the rest.
proof fn lemma_polling_unfold(s: LoopState, outcomes: Seq<Event>)
    requires
        s.phase == Phase::Waiting,
        s.feeds.len() > 0,
        outcomes.len() > 0,
        is_outcome(outcomes[0]),
    ensures
        ({
            let s2 = s.advanced();
            let tail = run(s2, polled(outcomes.drop_first()));
            run(s, polled(outcomes)) == (
                tail.0,
                seq![Action::Fetch(s.cursor as usize), settled(outcomes[0], s.cursor)] + tail.1,
            )
        }),
{
    let o = outcomes[0];
    let rest = outcomes.drop_first();
    let evs = polled(outcomes);
    assert(evs =~= seq![Event::Tick, o] + polled(rest));
    assert(evs[0] == Event::Tick);
    let s1 = s.with_phase(Phase::Fetching);
    assert(next(s, Event::Tick) == (s1, Action::Fetch(s.cursor as usize)));
    let evs1 = evs.drop_first();
    assert(evs1 =~= seq![o] + polled(rest));
    assert(evs1[0] == o);
    let s2 = s1.advanced();
    assert(next(s1, o) == (s2, settled(o, s.cursor)));
    assert(evs1.drop_first() =~= polled(rest));
    let tail = run(s2, polled(rest));
    assert(run(s1, evs1) == (tail.0, seq![settled(o, s.cursor)] + tail.1));
    assert(run(s, evs).1 =~= seq![Action::Fetch(s.cursor as usize), settled(o, s.cursor)]
        + tail.1);
}

/// Steady polling from any waiting state, over any number of cycles: the
/// k-th tick fetches the feed k places after the cursor (wrapping round to
/// the first feed after the last), and what follows each read is decided by
/// its outcome alone: a round read is delivered, unchanged, and a failed
/// read is reported for that same feed.
pub proof fn lemma_polling(s: LoopState, outcomes: Seq<Event>)
    requires
        s.phase == Phase::Waiting,
        s.feeds.len() > 0,
        s.cursor < s.feeds.len(),
        forall|i: int| 0 <= i < outcomes.len() ==> is_outcome(#[trigger] outcomes[i]),
    ensures
        ({
            let n = s.feeds.len() as int;
            let (t, acts) = run(s, polled(outcomes));
            &&& t == LoopState {
                cursor: (s.cursor + outcomes.len()) % s.feeds.len(),
                ..s
            }
            &&& acts.len() == 2 * outcomes.len()
            &&& forall|i: int|
                0 <= i < outcomes.len() ==> #[trigger] on_tick(acts, i) == Action::Fetch(
                    ((s.cursor + i) % n) as usize,
                )
            &&& forall|i: int|
                0 <= i < outcomes.len() ==> #[trigger] after_read(acts, i) == settled(
                    outcomes[i],
                    ((s.cursor + i) % n) as nat,
                )
        }),
    decreases outcomes.len(),
{
    let n = s.feeds.len() as int;
    if outcomes.len() == 0 {
        lemma_small_mod(s.cursor, s.feeds.len());
        assert(polled(outcomes) =~= Seq::<Event>::empty());
    } else {
        let o = outcomes[0];
        let rest = outcomes.drop_first();
        assert(is_outcome(o));
        let s2 = s.advanced();
        assert forall|i: int| 0 <= i < rest.len() implies is_outcome(#[trigger] rest[i]) by {
            assert(rest[i] == outcomes[i + 1]);
        }
        lemma_polling_unfold(s, outcomes);
        lemma_polling(s2, rest);
        let tail = run(s2, polled(rest));
        let acts = run(s, polled(outcomes)).1;
        lemma_small_mod(s.cursor, s.feeds.len());
        lemma_add_mod_noop_right(rest.len() as int, (s.cursor + 1) as int, n);
        assert(((s2.cursor + rest.len()) as int % n) == (s.cursor + outcomes.len()) as int % n);
        assert forall|i: int| 0 <= i < outcomes.len() implies #[trigger] on_tick(acts, i) == Action::Fetch(
            ((s.cursor + i) % n) as usize,
        ) by {
            if i > 0 {
                lemma_add_mod_noop_right(i - 1, (s.cursor + 1) as int, n);
                assert(on_tick(acts, i) == on_tick(tail.1, i - 1));
            }
        }
        assert forall|i: int| 0 <= i < outcomes.len() implies #[trigger] after_read(acts, i) == settled(
            outcomes[i],
            ((s.cursor + i) % n) as nat,
        ) by {
            if i > 0 {
                lemma_add_mod_noop_right(i - 1, (s.cursor + 1) as int, n);
                assert(after_read(acts, i) == after_read(tail.1, i - 1));
                assert(outcomes[i] == rest[i - 1]);
            }
        }
    }
}

/// The rounds handed to the sink, in order.
pub open spec fn delivered(acts: Seq<Action>) -> Seq<Round>
    decreases acts.len(),
{
    if acts.len() == 0 {
        Seq::empty()
    } else {
        match acts[0] {
            Action::Deliver(r) => seq![r] + delivered(acts.drop_first()),
            _ => delivered(acts.drop_first()),
        }
    }
}

/// How many failed reads were reported.
pub open spec fn reported(acts: Seq<Action>) -> nat
    decreases acts.len(),
{
    if acts.len() == 0 {
        0
    } else {
        (if acts[0] is ReportFailure {
            1nat
        } else {
            0nat
        }) + reported(acts.drop_first())
    }
}

/// The rounds that reads returned, in order.
pub open spec fn rounds_read(outcomes: Seq<Event>) -> Seq<Round>
    decreases outcomes.len(),
{
    if outcomes.len() == 0 {
        Seq::empty()
    } else {
        match outcomes[0] {
            Event::Fetched(r) => seq![r] + rounds_read(outcomes.drop_first()),
            _ => rounds_read(outcomes.drop_first()),
        }
    }
}

/// How many reads failed.
pub open spec fn failed_reads(outcomes: Seq<Event>) -> nat
    decreases outcomes.len(),
{
    if outcomes.len() == 0 {
        0
    } else {
        (if outcomes[0] is FetchFailed {
            1nat
        } else {
            0nat
        }) + failed_reads(outcomes.drop_first())
    }
}

/// Under steady polling, whatever the outcomes, the sink receives exactly
/// the rounds that the reads returned, in the order they were read, and
/// exactly as many failures are reported as reads failed.
pub proof fn lemma_sink_receives_exactly_the_rounds_read(s: LoopState, outcomes: Seq<Event>)
    requires
        s.phase == Phase::Waiting,
        s.feeds.len() > 0,
        s.cursor < s.feeds.len(),
        forall|i: int| 0 <= i < outcomes.len() ==> is_outcome(#[trigger] outcomes[i]),
    ensures
        delivered(run(s, polled(outcomes)).1) == rounds_read(outcomes),
        reported(run(s, polled(outcomes)).1) == failed_reads(outcomes),
    decreases outcomes.len(),
{
    if outcomes.len() == 0 {
        assert(polled(outcomes) =~= Seq::<Event>::empty());
    } else {
        let o = outcomes[0];
        let rest = outcomes.drop_first();
        assert(is_outcome(o));
        let s2 = s.advanced();
        assert forall|i: int| 0 <= i < rest.len() implies is_outcome(#[trigger] rest[i]) by {
            assert(rest[i] == outcomes[i + 1]);
        }
        lemma_polling_unfold(s, outcomes);
        vstd::arithmetic::div_mod::lemma_mod_bound((s.cursor + 1) as int, s.feeds.len() as int);
        lemma_sink_receives_exactly_the_rounds_read(s2, rest);
        let tail = run(s2, polled(rest)).1;
        let acts = run(s, polled(outcomes)).1;
        let a = seq![settled(o, s.cursor)] + tail;
        assert(acts.drop_first() =~= a);
        assert(a.drop_first() =~= tail);
        assert(acts[0] is Fetch);
        assert(delivered(acts) == delivered(a));
        assert(reported(acts) == reported(a));
        match o {
            Event::Fetched(r) => {
                assert(a[0] == Action::Deliver(r));
                assert(delivered(a) == seq![r] + delivered(tail));
            },
            _ => {
                assert(a[0] is ReportFailure);
            },
        }
    }
}

/// One full cycle visits every feed once, in registry order: from the first
/// feed, N ticks, each followed by the outcome of its read, issue exactly N
/// fetches, of feeds 0, 1, ..., N - 1, and bring the loop back to the first
/// feed, waiting.
pub proof fn lemma_cycle_fetches_each_feed_once(s: LoopState, outcomes: Seq<Event>)
    requires
        s.phase == Phase::Waiting,
        s.cursor == 0,
        s.feeds.len() > 0,
        outcomes.len() == s.feeds.len(),
        forall|i: int| 0 <= i < outcomes.len() ==> is_outcome(#[trigger] outcomes[i]),
    ensures
        ({
            let (t, acts) = run(s, polled(outcomes));
            &&& t == s
            &&& acts.len() == 2 * s.feeds.len()
            &&& forall|i: int|
                0 <= i < s.feeds.len() ==> #[trigger] on_tick(acts, i) == Action::Fetch(i as usize)
            &&& forall|i: int| 0 <= i < s.feeds.len() ==> !(#[trigger] after_read(acts, i) is Fetch)
        }),
{
    let n = s.feeds.len() as int;
    lemma_polling(s, outcomes);
    let acts = run(s, polled(outcomes)).1;
    assert((s.cursor + outcomes.len()) as int % n == 0) by {
        vstd::arithmetic::div_mod::lemma_mod_self_0(n);
    }
    assert forall|i: int| 0 <= i < n implies #[trigger] on_tick(acts, i) == Action::Fetch(
        i as usize,
    ) by {
        lemma_small_mod(i as nat, n as nat);
    }
    assert forall|i: int| 0 <= i < n implies !(#[trigger] after_read(acts, i) is Fetch) by {
        assert(is_outcome(outcomes[i]));
    }
}

/// A failed read does not end the cycle: after the failure of feed i is
/// reported, the next tick reads feed i + 1.
pub proof fn lemma_failure_moves_on(s: LoopState)
    requires
        s.phase == Phase::Fetching,
        s.cursor + 1 < s.feeds.len(),
    ensures
        run(s, seq![Event::FetchFailed, Event::Tick]) == (
            LoopState { cursor: s.cursor + 1, ..s },
            seq![Action::ReportFailure(s.cursor as usize), Action::Fetch((s.cursor + 1) as usize)],
        ),
{
    lemma_small_mod(s.cursor + 1, s.feeds.len());
    let evs = seq![Event::FetchFailed, Event::Tick];
    let s1 = s.advanced();
    assert(evs.drop_first() =~= seq![Event::Tick]);
    assert(evs.drop_first().drop_first() =~= Seq::<Event>::empty());
    let s2 = s1.with_phase(Phase::Fetching);
    assert(next(s1, Event::Tick) == (s2, Action::Fetch(s1.cursor as usize)));
    assert(run(s2, evs.drop_first().drop_first()) == (s2, Seq::<Action>::empty()));
    let r1 = run(s1, evs.drop_first());
    assert(r1.1 =~= seq![Action::Fetch((s.cursor + 1) as usize)]);
    assert(run(s, evs).1 =~= seq![Action::ReportFailure(s.cursor as usize)] + r1.1);
}

/// A finished loop stays finished and does nothing, whatever comes.
proof fn lemma_finished_is_idle(s: LoopState, events: Seq<Event>)
    requires
        s.phase == Phase::Finished,
    ensures
        run(s, events).0 == s,
        run(s, events).1.len() == events.len(),
        forall|i: int| 0 <= i < events.len() ==> #[trigger] run(s, events).1[i] == Action::Idle,
    decreases events.len(),
{
    if events.len() > 0 {
        lemma_finished_is_idle(s, events.drop_first());
        let rest = run(s, events.drop_first()).1;
        assert forall|i: int| 0 <= i < events.len() implies #[trigger] run(s, events).1[i]
            == Action::Idle by {
            if i > 0 {
                assert(run(s, events).1[i] == rest[i - 1]);
            }
        }
    }
}

/// Cancellation ends delivery for good: a running loop acknowledges it at
/// once, and afterwards no event makes it deliver (or do anything else).
pub proof fn lemma_quiet_after_cancel(s: LoopState, later: Seq<Event>)
    requires
        s.phase != Phase::Finished,
    ensures
        next(s, Event::Cancelled) == (s.with_phase(Phase::Finished), Action::Acknowledge),
        forall|i: int|
            0 <= i < later.len() ==> !(#[trigger] run(s.with_phase(Phase::Finished), later).1[i] is Deliver),
{
    lemma_finished_is_idle(s.with_phase(Phase::Finished), later);
}

/// The fetch loop: walks the feeds of its configuration in order, one read
/// per tick, until it is cancelled.
///
/// The loop decides; its driver acts. The driver hands each event to
/// [`FetchLoop::step`] and performs the action that comes back.
pub struct FetchLoop {
    configuration: Configuration,
    cursor: usize,
    phase: Phase,
}

impl View for FetchLoop {
    type V = LoopState;

    closed spec fn view(&self) -> LoopState {
        LoopState {
            interval: self.configuration.fetch_interval_seconds as nat,
            feeds: feeds_view(self.configuration.contracts@),
            cursor: self.cursor as nat,
            phase: self.phase,
        }
    }
}

impl FetchLoop {
    pub open spec fn wf(&self) -> bool {
        self@.wf()
    }

    /// A loop over `configuration`, waiting before its first feed.
    pub fn new(configuration: Configuration) -> (l: FetchLoop)
        ensures
            l.wf(),
            l@ == configuration.first_state(),
    {
        FetchLoop { configuration, cursor: 0, phase: Phase::Waiting }
    }

    /// Seconds to wait after each fetch attempt.
    pub fn fetch_interval_seconds(&self) -> (r: u64)
        ensures
            r as nat == self@.interval,
    {
        self.configuration.fetch_interval_seconds
    }

    /// How many feeds the loop polls.
    pub fn feed_count(&self) -> (r: usize)
        ensures
            r as nat == self@.feeds.len(),
    {
        self.configuration.contracts.len()
    }

    /// Identifier and contract address of the feed at `index`.
    pub fn feed(&self, index: usize) -> (f: (&String, &String))
        requires
            index < self@.feeds.len(),
        ensures
            f.0@ == self@.feeds[index as int].0,
            f.1@ == self@.feeds[index as int].1,
    {
        let entry = &self.configuration.contracts[index];
        (&entry.0, &entry.1)
    }

    /// Moves the cursor to the next feed and waits.
    fn advance(&mut self)
        requires
            old(self).wf(),
            old(self)@.feeds.len() > 0,
        ensures
            final(self)@ == old(self)@.advanced(),
            final(self).wf(),
    {
        let n = self.configuration.contracts.len();
        proof {
            vstd::arithmetic::div_mod::lemma_mod_self_0(n as int);
            if self.cursor + 1 < n {
                lemma_small_mod((self.cursor + 1) as nat, n as nat);
            }
        }
        if self.cursor + 1 < n {
            self.cursor = self.cursor + 1;
        } else {
            self.cursor = 0;
        }
        self.phase = Phase::Waiting;
    }

    /// Answers one event: the state moves as [`next`] says, and the action
    /// that [`next`] gives is returned for the driver to perform.
    pub fn step(&mut self, event: Event) -> (action: Action)
        requires
            old(self).wf(),
        ensures
            final(self).wf(),
            (final(self)@, action) == next(old(self)@, event),
    {
        match self.phase {
            Phase::Finished => Action::Idle,
            Phase::Waiting => match event {
                Event::Tick => {
                    if self.configuration.contracts.len() == 0 {
                        Action::Idle
                    } else {
                        self.phase = Phase::Fetching;
                        Action::Fetch(self.cursor)
                    }
                },
                Event::Cancelled => {
                    self.phase = Phase::Finished;
                    Action::Acknowledge
                },
                _ => Action::Idle,
            },
            Phase::Fetching => match event {
                Event::Fetched(round) => {
                    self.advance();
                    Action::Deliver(round)
                },
                Event::FetchFailed => {
                    let index = self.cursor;
                    self.advance();
                    Action::ReportFailure(index)
                },
                Event::Cancelled => {
                    self.phase = Phase::Finished;
                    Action::Acknowledge
                },
                Event::Tick => Action::Idle,
            },
        }
    }
}

} // verus!
