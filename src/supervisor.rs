use vstd::prelude::*;

verus! {

/// Why the service stopped.
#[derive(Clone, Copy, Debug, PartialEq, Eq, Structural)]
pub enum ShutdownReason {
    /// Accepting a new connection failed.
    AcceptFailed,
    /// The countdown ran out.
    Expired,
    /// The countdown itself failed before running out.
    CountdownFailed,
}

/// What the supervisory loop observed in one round of its race.
#[derive(Clone, Copy, Debug, PartialEq, Eq, Structural)]
pub enum Event {
    /// A new connection was accepted.
    Accepted,
    /// Accepting failed.
    AcceptFailed,
    /// The countdown ran out.
    Expired,
    /// The countdown failed.
    CountdownFailed,
}

/// What the supervisory loop does in answer to an event.
#[derive(Clone, Copy, Debug, PartialEq, Eq, Structural)]
pub enum Action {
    /// Start a handler for the new connection and keep accepting.
    SpawnHandler,
    /// Stop serving, for this reason.
    Stop(ShutdownReason),
}

/// The state of the supervisory loop.
#[derive(Clone, Copy, Debug, PartialEq, Eq, Structural)]
pub enum SupervisorState {
    /// Accepting connections and watching the countdown.
    Running,
    /// Stopped for good.
    ShuttingDown(ShutdownReason),
}

/// One round of the loop: the state after `e` and the action taken.
pub open spec fn transition(s: SupervisorState, e: Event) -> (SupervisorState, Action) {
    match s {
        SupervisorState::ShuttingDown(r) => (s, Action::Stop(r)),
        SupervisorState::Running => match e {
            Event::Accepted => (s, Action::SpawnHandler),
            Event::AcceptFailed => (
                SupervisorState::ShuttingDown(ShutdownReason::AcceptFailed),
                Action::Stop(ShutdownReason::AcceptFailed),
            ),
            Event::Expired => (
                SupervisorState::ShuttingDown(ShutdownReason::Expired),
                Action::Stop(ShutdownReason::Expired),
            ),
            Event::CountdownFailed => (
                SupervisorState::ShuttingDown(ShutdownReason::CountdownFailed),
                Action::Stop(ShutdownReason::CountdownFailed),
            ),
        },
    }
}

/// The state after a run of events.
pub open spec fn run_events(s: SupervisorState, events: Seq<Event>) -> SupervisorState
    decreases events.len(),
{
    if events.len() == 0 {
        s
    } else {
        transition(run_events(s, events.drop_last()), events.last()).0
    }
}

/// The supervisory loop's decisions: it races accepting against the
/// countdown and stops for good on the first accept failure, expiration or
/// countdown failure.
pub struct Supervisor {
    state: SupervisorState,
}

impl View for Supervisor {
    type V = SupervisorState;

    closed spec fn view(&self) -> SupervisorState {
        self.state
    }
}

impl Supervisor {
    /// A loop that is running.
    pub fn new() -> (r: Supervisor)
        ensures
            r@ == SupervisorState::Running,
    {
        Supervisor { state: SupervisorState::Running }
    }

    /// The current state.
    pub fn state(&self) -> (r: SupervisorState)
        ensures
            r == self@,
    {
        self.state
    }

    /// Whether the loop still serves.
    pub fn is_running(&self) -> (r: bool)
        ensures
            r == (self@ == SupervisorState::Running),
    {
        match self.state {
            SupervisorState::Running => true,
            SupervisorState::ShuttingDown(_) => false,
        }
    }

    /// Takes the event that won this round and says what to do.
    pub fn step(&mut self, e: Event) -> (r: Action)
        ensures
            (final(self)@, r) == transition(old(self)@, e),
    {
        match self.state {
            SupervisorState::ShuttingDown(reason) => Action::Stop(reason),
            SupervisorState::Running => match e {
                Event::Accepted => Action::SpawnHandler,
                Event::AcceptFailed => {
                    self.state = SupervisorState::ShuttingDown(ShutdownReason::AcceptFailed);
                    Action::Stop(ShutdownReason::AcceptFailed)
                },
                Event::Expired => {
                    self.state = SupervisorState::ShuttingDown(ShutdownReason::Expired);
                    Action::Stop(ShutdownReason::Expired)
                },
                Event::CountdownFailed => {
                    self.state = SupervisorState::ShuttingDown(ShutdownReason::CountdownFailed);
                    Action::Stop(ShutdownReason::CountdownFailed)
                },
            },
        }
    }
}

/// Once stopped, the loop stays stopped for the same reason whatever comes
/// after, and starts no further handler.
pub proof fn lemma_shutdown_is_final(r: ShutdownReason, events: Seq<Event>)
    ensures
        run_events(SupervisorState::ShuttingDown(r), events) == SupervisorState::ShuttingDown(r),
        forall|i: int|
            0 <= i < events.len() ==> #[trigger] transition(
                run_events(SupervisorState::ShuttingDown(r), events.take(i)),
                events[i],
            ).1 == Action::Stop(r),
    decreases events.len(),
{
    if events.len() > 0 {
        lemma_shutdown_is_final(r, events.drop_last());
    }
    assert forall|i: int| 0 <= i < events.len() implies #[trigger] transition(
        run_events(SupervisorState::ShuttingDown(r), events.take(i)),
        events[i],
    ).1 == Action::Stop(r) by {
        lemma_shutdown_is_final(r, events.take(i));
    }
}

/// A failure to accept ends the service: the loop stops with that reason,
/// and no event after it starts a handler.
pub proof fn lemma_accept_failure_ends_service(events: Seq<Event>)
    ensures
        transition(SupervisorState::Running, Event::AcceptFailed) == (
            SupervisorState::ShuttingDown(ShutdownReason::AcceptFailed),
            Action::Stop(ShutdownReason::AcceptFailed),
        ),
        run_events(SupervisorState::Running, seq![Event::AcceptFailed] + events)
            == SupervisorState::ShuttingDown(ShutdownReason::AcceptFailed),
        forall|i: int|
            0 <= i < events.len() ==> #[trigger] transition(
                run_events(SupervisorState::Running, seq![Event::AcceptFailed] + events.take(i)),
                events[i],
            ).1 == Action::Stop(ShutdownReason::AcceptFailed),
{
    let down = SupervisorState::ShuttingDown(ShutdownReason::AcceptFailed);
    lemma_run_after_first(SupervisorState::Running, Event::AcceptFailed, events);
    lemma_shutdown_is_final(ShutdownReason::AcceptFailed, events);
    assert forall|i: int| 0 <= i < events.len() implies #[trigger] transition(
        run_events(SupervisorState::Running, seq![Event::AcceptFailed] + events.take(i)),
        events[i],
    ).1 == Action::Stop(ShutdownReason::AcceptFailed) by {
        lemma_run_after_first(SupervisorState::Running, Event::AcceptFailed, events.take(i));
        lemma_shutdown_is_final(ShutdownReason::AcceptFailed, events.take(i));
    }
}

/// Running `e` then `events` is running `events` from the state after `e`.
proof fn lemma_run_after_first(s: SupervisorState, e: Event, events: Seq<Event>)
    ensures
        run_events(s, seq![e] + events) == run_events(transition(s, e).0, events),
    decreases events.len(),
{
    let all = seq![e] + events;
    if events.len() == 0 {
        assert(all.drop_last() =~= Seq::<Event>::empty());
    } else {
        assert(all.drop_last() =~= seq![e] + events.drop_last());
        lemma_run_after_first(s, e, events.drop_last());
    }
}

} // verus!
