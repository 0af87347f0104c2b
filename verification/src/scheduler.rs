//! Periodic activities: what runs, how often, and when it stops.

use vstd::prelude::*;
use crate::errors::Error;

verus! {

/// A span of time: whole seconds and the nanoseconds beyond them.
#[derive(Copy, Clone, Debug, PartialEq, Eq, Structural)]
pub struct Interval {
    pub secs: u64,
    pub nanos: u32,
}

impl Interval {
    /// No time at all.
    pub fn zero() -> (i: Interval)
        ensures
            i == (Interval { secs: 0, nanos: 0 }),
    {
        Interval { secs: 0, nanos: 0 }
    }

    /// A span of whole seconds.
    pub fn from_secs(secs: u64) -> (i: Interval)
        ensures
            i == (Interval { secs, nanos: 0 }),
    {
        Interval { secs, nanos: 0 }
    }

    /// A span of milliseconds.
    pub fn from_millis(millis: u64) -> (i: Interval)
        ensures
            i.secs == millis / 1000,
            i.nanos == (millis % 1000) * 1_000_000,
            i.spec_millis() == millis,
    {
        Interval { secs: millis / 1000, nanos: ((millis % 1000) as u32) * 1_000_000 }
    }

    /// The span in milliseconds, rounded down.
    pub open spec fn spec_millis(self) -> int {
        self.secs * 1000 + self.nanos / 1_000_000
    }
}

/// A unit of work that is run again and again.
pub trait Runnable {
    fn run(&self) -> (r: Result<(), Error>);
}

/// Where a periodic activity stands.
#[derive(Copy, Clone, Debug, PartialEq, Eq, Structural)]
pub enum ScheduleState {
    /// Not started yet.
    Idle,
    /// The timer is armed.
    Waiting,
    /// The unit of work is running.
    Running,
    /// Over, for good.
    Stopped,
}

/// What happens to a periodic activity.
#[derive(Debug)]
pub enum ScheduleEvent {
    /// The activity is started.
    Started,
    /// The timer went off.
    TimerFired,
    /// The timer broke.
    TimerFailed(Error),
    /// The unit of work returned success.
    RunSucceeded,
    /// The unit of work returned an error.
    RunFailed(Error),
    /// The activity's handle was dropped or cancelled.
    Cancelled,
}

/// What the driver of a periodic activity is to do next.
#[derive(Debug)]
pub enum ScheduleAction {
    /// Arm the timer for this span.
    ArmTimer(Interval),
    /// Run the unit of work.
    Run,
    /// Stop: the activity is over, with this result.
    Stop(Result<(), Error>),
    /// Nothing.
    Nothing,
}

/// The transition of a periodic activity: the state after an event, and
/// what to do.
///
/// An activity waits, runs, and waits again. It stops when its timer
/// breaks, when its unit of work fails, or when it is cancelled; a unit of
/// work that is running then is left to finish, and its end changes
/// nothing. Nothing restarts an activity that has stopped. An event that
/// does not fit the state is passed over.
pub open spec fn spec_step(state: ScheduleState, interval: Interval, event: ScheduleEvent) -> (
    ScheduleState,
    ScheduleAction,
) {
    match (state, event) {
        (ScheduleState::Stopped, _) => (ScheduleState::Stopped, ScheduleAction::Nothing),
        (_, ScheduleEvent::Cancelled) => (ScheduleState::Stopped, ScheduleAction::Stop(Ok(()))),
        (ScheduleState::Idle, ScheduleEvent::Started) => (
            ScheduleState::Waiting,
            ScheduleAction::ArmTimer(interval),
        ),
        (ScheduleState::Waiting, ScheduleEvent::TimerFired) => (ScheduleState::Running, ScheduleAction::Run),
        (ScheduleState::Waiting, ScheduleEvent::TimerFailed(err)) => (
            ScheduleState::Stopped,
            ScheduleAction::Stop(Err(err)),
        ),
        (ScheduleState::Running, ScheduleEvent::RunSucceeded) => (
            ScheduleState::Waiting,
            ScheduleAction::ArmTimer(interval),
        ),
        (ScheduleState::Running, ScheduleEvent::RunFailed(err)) => (
            ScheduleState::Stopped,
            ScheduleAction::Stop(Err(err)),
        ),
        (state, _) => (state, ScheduleAction::Nothing),
    }
}

/// One periodic activity: its interval and where it stands. Activities
/// are independent of each other; each has a schedule of its own.
#[derive(Debug)]
pub struct Schedule {
    interval: Interval,
    state: ScheduleState,
}

impl Schedule {
    pub closed spec fn spec_interval(&self) -> Interval {
        self.interval
    }

    pub closed spec fn spec_state(&self) -> ScheduleState {
        self.state
    }

    /// A schedule that has not started.
    pub fn new(interval: Interval) -> (s: Schedule)
        ensures
            s.spec_interval() == interval,
            s.spec_state() == ScheduleState::Idle,
    {
        Schedule { interval, state: ScheduleState::Idle }
    }

    pub fn interval(&self) -> (interval: Interval)
        ensures
            interval == self.spec_interval(),
    {
        self.interval
    }

    pub fn state(&self) -> (state: ScheduleState)
        ensures
            state == self.spec_state(),
    {
        self.state
    }

    /// Takes an event and says what to do next.
    pub fn on(&mut self, event: ScheduleEvent) -> (action: ScheduleAction)
        ensures
            (final(self).spec_state(), action) == spec_step(
                old(self).spec_state(),
                old(self).spec_interval(),
                event,
            ),
            final(self).spec_interval() == old(self).spec_interval(),
    {
        let (state, action) = match (self.state, event) {
            (ScheduleState::Stopped, _) => (ScheduleState::Stopped, ScheduleAction::Nothing),
            (_, ScheduleEvent::Cancelled) => (ScheduleState::Stopped, ScheduleAction::Stop(Ok(()))),
            (ScheduleState::Idle, ScheduleEvent::Started) => (
                ScheduleState::Waiting,
                ScheduleAction::ArmTimer(self.interval),
            ),
            (ScheduleState::Waiting, ScheduleEvent::TimerFired) => (ScheduleState::Running, ScheduleAction::Run),
            (ScheduleState::Waiting, ScheduleEvent::TimerFailed(err)) => (
                ScheduleState::Stopped,
                ScheduleAction::Stop(Err(err)),
            ),
            (ScheduleState::Running, ScheduleEvent::RunSucceeded) => (
                ScheduleState::Waiting,
                ScheduleAction::ArmTimer(self.interval),
            ),
            (ScheduleState::Running, ScheduleEvent::RunFailed(err)) => (
                ScheduleState::Stopped,
                ScheduleAction::Stop(Err(err)),
            ),
            (state, _) => (state, ScheduleAction::Nothing),
        };
        self.state = state;
        action
    }
}

/// The event that the end of a unit of work is.
pub fn run_event(result: Result<(), Error>) -> (event: ScheduleEvent)
    ensures
        event == match result {
            Ok(_) => ScheduleEvent::RunSucceeded,
            Err(err) => ScheduleEvent::RunFailed(err),
        },
{
    match result {
        Ok(_) => ScheduleEvent::RunSucceeded,
        Err(err) => ScheduleEvent::RunFailed(err),
    }
}

/// The state after a run of events.
pub open spec fn state_after(state: ScheduleState, interval: Interval, events: Seq<ScheduleEvent>) -> ScheduleState
    decreases events.len(),
{
    if events.len() == 0 {
        state
    } else {
        state_after(spec_step(state, interval, events[0]).0, interval, events.drop_first())
    }
}

/// What a run of events has the driver do, one action for each event.
pub open spec fn actions_of(state: ScheduleState, interval: Interval, events: Seq<ScheduleEvent>) -> Seq<
    ScheduleAction,
>
    decreases events.len(),
{
    if events.len() == 0 {
        Seq::empty()
    } else {
        seq![spec_step(state, interval, events[0]).1] + actions_of(
            spec_step(state, interval, events[0]).0,
            interval,
            events.drop_first(),
        )
    }
}

/// How often the actions have the unit of work run.
pub open spec fn runs(actions: Seq<ScheduleAction>) -> nat
    decreases actions.len(),
{
    if actions.len() == 0 {
        0
    } else if actions[0] is Run {
        1 + runs(actions.drop_first())
    } else {
        runs(actions.drop_first())
    }
}

/// How often the actions arm the timer.
pub open spec fn arms(actions: Seq<ScheduleAction>) -> nat
    decreases actions.len(),
{
    if actions.len() == 0 {
        0
    } else if actions[0] is ArmTimer {
        1 + arms(actions.drop_first())
    } else {
        arms(actions.drop_first())
    }
}

/// An activity that has stopped stays stopped and asks for nothing,
/// whatever happens.
pub proof fn lemma_stopped_is_final(interval: Interval, events: Seq<ScheduleEvent>)
    ensures
        state_after(ScheduleState::Stopped, interval, events) == ScheduleState::Stopped,
        actions_of(ScheduleState::Stopped, interval, events).len() == events.len(),
        forall|i: int|
            0 <= i < events.len() ==> #[trigger] actions_of(ScheduleState::Stopped, interval, events)[i]
                == ScheduleAction::Nothing,
        runs(actions_of(ScheduleState::Stopped, interval, events)) == 0,
        arms(actions_of(ScheduleState::Stopped, interval, events)) == 0,
    decreases events.len(),
{
    if events.len() > 0 {
        lemma_stopped_is_final(interval, events.drop_first());
        let all = actions_of(ScheduleState::Stopped, interval, events);
        assert(all.drop_first() =~= actions_of(ScheduleState::Stopped, interval, events.drop_first()));
    }
}

/// A unit of work is not started while it is running: only a timer that
/// goes off while the activity waits has it run.
pub proof fn lemma_run_only_from_waiting(state: ScheduleState, interval: Interval, event: ScheduleEvent)
    ensures
        spec_step(state, interval, event).1 is Run ==> state == ScheduleState::Waiting && event is TimerFired,
        spec_step(state, interval, event).1 is ArmTimer ==> state != ScheduleState::Waiting,
{
}

/// A failed run stops the activity: after it the unit of work has run
/// exactly once and the timer is never armed again, whatever follows.
pub proof fn lemma_failed_run_stops(interval: Interval, err: Error, later: Seq<ScheduleEvent>)
    ensures
        state_after(
            ScheduleState::Idle,
            interval,
            seq![ScheduleEvent::Started, ScheduleEvent::TimerFired, ScheduleEvent::RunFailed(err)] + later,
        ) == ScheduleState::Stopped,
        runs(
            actions_of(
                ScheduleState::Idle,
                interval,
                seq![ScheduleEvent::Started, ScheduleEvent::TimerFired, ScheduleEvent::RunFailed(err)] + later,
            ),
        ) == 1,
        arms(
            actions_of(
                ScheduleState::Idle,
                interval,
                seq![ScheduleEvent::Started, ScheduleEvent::TimerFired, ScheduleEvent::RunFailed(err)] + later,
            ),
        ) == 1,
{
    let e0 = seq![ScheduleEvent::Started, ScheduleEvent::TimerFired, ScheduleEvent::RunFailed(err)] + later;
    let e1 = e0.drop_first();
    let e2 = e1.drop_first();
    let e3 = e2.drop_first();
    assert(e3 =~= later);
    assert(e0[0] == ScheduleEvent::Started);
    assert(e1[0] == ScheduleEvent::TimerFired);
    assert(e2[0] == ScheduleEvent::RunFailed(err));
    lemma_stopped_is_final(interval, later);
    let a3 = actions_of(ScheduleState::Stopped, interval, e3);
    let a2 = actions_of(ScheduleState::Running, interval, e2);
    let a1 = actions_of(ScheduleState::Waiting, interval, e1);
    let a0 = actions_of(ScheduleState::Idle, interval, e0);
    assert(a2.drop_first() =~= a3);
    assert(a1.drop_first() =~= a2);
    assert(a0.drop_first() =~= a1);
    assert(state_after(ScheduleState::Running, interval, e2) == ScheduleState::Stopped);
    assert(state_after(ScheduleState::Waiting, interval, e1) == ScheduleState::Stopped);
    assert(a2[0] == ScheduleAction::Stop(Err(err)));
    assert(a1[0] == ScheduleAction::Run);
    assert(a0[0] == ScheduleAction::ArmTimer(interval));
    assert(runs(a2) == 0 && arms(a2) == 0);
    assert(runs(a1) == 1 && arms(a1) == 0);
    assert(runs(a0) == 1 && arms(a0) == 1);
}

} // verus!
