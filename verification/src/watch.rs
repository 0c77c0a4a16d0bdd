use crate::config::{Obs, ObsView};
use crate::decision::{
    decide, decision, DecisionOutcome, DecisionView, PathResolutionError, SpawnRequest,
    SpawnRequestView,
};
use crate::platform::Platform;
use crate::table::Snapshot;
use vstd::prelude::*;

verus! {

/// Milliseconds to sleep when a look at the table called for nothing, or a
/// spawn failed: the pace of the watch in its steady state.
pub const LONG_INTERVAL_MS: u64 = 5000;

/// Milliseconds to sleep after a spawn that succeeded, so that the new
/// process is in the table at the next look and is not started twice.
pub const SETTLE_DELAY_MS: u64 = 1000;

/// Where the watch stands in its cycle: what its driver is busy with.
#[derive(Clone, Copy, Debug, PartialEq, Eq)]
pub enum WatchState {
    /// The driver looks at the process table.
    Polling,
    /// The decision was to spawn, and the driver carries it out.
    Deciding,
    /// The driver sleeps the settle delay.
    SleepingShort,
    /// The driver sleeps the long interval.
    SleepingLong,
}

/// What the driver reports when it has done what it was told.
#[derive(Clone, Debug, PartialEq, Eq)]
pub enum WatchEvent {
    /// The table was refreshed and looked at.
    Observed(Snapshot),
    /// The target was started.
    SpawnSucceeded,
    /// The target could not be started.
    SpawnFailed,
    /// The sleep is over.
    Woke,
}

/// What the driver is told to do next.
#[derive(Clone, Debug, PartialEq, Eq)]
pub enum WatchAction {
    /// Refresh the process table and look at it.
    Poll,
    /// Start the target.
    Spawn(SpawnRequest),
    /// Sleep for so many milliseconds.
    Sleep(u64),
}

/// A `WatchAction` with its texts as character sequences.
pub enum WatchActionView {
    Poll,
    Spawn(SpawnRequestView),
    Sleep(u64),
}

impl View for WatchAction {
    type V = WatchActionView;

    open spec fn view(&self) -> WatchActionView {
        match self {
            WatchAction::Poll => WatchActionView::Poll,
            WatchAction::Spawn(request) => WatchActionView::Spawn(request@),
            WatchAction::Sleep(millis) => WatchActionView::Sleep(*millis),
        }
    }
}

/// One step of the watch: the state it enters and what the driver is to do
/// there.
#[derive(Clone, Debug, PartialEq, Eq)]
pub struct Transition {
    pub next: WatchState,
    pub action: WatchAction,
}

/// A `Transition` with its texts as character sequences.
pub struct TransitionView {
    pub next: WatchState,
    pub action: WatchActionView,
}

impl View for Transition {
    type V = TransitionView;

    open spec fn view(&self) -> TransitionView {
        TransitionView { next: self.next, action: self.action@ }
    }
}

/// Why the watch cannot go on.
#[derive(Clone, Copy, Debug, PartialEq, Eq)]
pub enum WatchError {
    /// The target has to be started from its path, and the path has no
    /// parent. The configuration is at fault, so the next look would fail
    /// alike.
    PathResolution,
    /// The driver reported something that the state does not await.
    UnexpectedEvent,
}

/// Whether the watch, in `state`, awaits `event`.
pub open spec fn awaits(state: WatchState, event: WatchEvent) -> bool {
    match state {
        WatchState::Polling => event is Observed,
        WatchState::Deciding => event is SpawnSucceeded || event is SpawnFailed,
        WatchState::SleepingShort | WatchState::SleepingLong => event is Woke,
    }
}

/// Whether `event` is a report that the driver can make of `action`.
pub open spec fn reports(event: WatchEvent, action: WatchActionView) -> bool {
    match action {
        WatchActionView::Poll => event is Observed,
        WatchActionView::Spawn(_) => event is SpawnSucceeded || event is SpawnFailed,
        WatchActionView::Sleep(_) => event is Woke,
    }
}

/// The step that follows a look at the table.
pub open spec fn after_look(
    platform: Platform,
    config: ObsView,
    seen: Snapshot,
) -> Result<TransitionView, WatchError> {
    match decision(platform, config, seen.trigger@, seen.target@) {
        Ok(DecisionView::Spawned(request)) => Ok(
            TransitionView { next: WatchState::Deciding, action: WatchActionView::Spawn(request) },
        ),
        Ok(_) => Ok(
            TransitionView {
                next: WatchState::SleepingLong,
                action: WatchActionView::Sleep(LONG_INTERVAL_MS),
            },
        ),
        Err(_) => Err(WatchError::PathResolution),
    }
}

/// The step that `event` brings about in `state`. A look at the table leads
/// to a spawn where the decision asks for one, and into the long sleep where
/// it asks for nothing. A spawn that succeeded leads into the short sleep,
/// one that failed into the long sleep. Waking leads to the next look.
pub open spec fn step_of(
    platform: Platform,
    config: ObsView,
    state: WatchState,
    event: WatchEvent,
) -> Result<TransitionView, WatchError> {
    match (state, event) {
        (WatchState::Polling, WatchEvent::Observed(seen)) => after_look(platform, config, seen),
        (WatchState::Deciding, WatchEvent::SpawnSucceeded) => Ok(
            TransitionView {
                next: WatchState::SleepingShort,
                action: WatchActionView::Sleep(SETTLE_DELAY_MS),
            },
        ),
        (WatchState::Deciding, WatchEvent::SpawnFailed) => Ok(
            TransitionView {
                next: WatchState::SleepingLong,
                action: WatchActionView::Sleep(LONG_INTERVAL_MS),
            },
        ),
        (WatchState::SleepingShort, WatchEvent::Woke) | (
            WatchState::SleepingLong,
            WatchEvent::Woke,
        ) => Ok(TransitionView { next: WatchState::Polling, action: WatchActionView::Poll }),
        _ => Err(WatchError::UnexpectedEvent),
    }
}

/// How the watch begins: with a look at the table.
pub fn start() -> (first: Transition)
    ensures
        first.next == WatchState::Polling,
        first.action == WatchAction::Poll,
{
    Transition { next: WatchState::Polling, action: WatchAction::Poll }
}

/// Takes the watch one step on: from the state it is in and the driver's
/// report to the state it enters and the driver's next task.
///
/// It fails on a report that the state does not await, and on a look at the
/// table that asks for the target to be started from a path without parent.
pub fn step(platform: Platform, config: &Obs, state: WatchState, event: WatchEvent) -> (r: Result<
    Transition,
    WatchError,
>)
    ensures
        match r {
            Ok(transition) => step_of(platform, config@, state, event) == Ok::<
                TransitionView,
                WatchError,
            >(transition@),
            Err(e) => step_of(platform, config@, state, event) == Err::<
                TransitionView,
                WatchError,
            >(e),
        },
        r == Err::<Transition, WatchError>(WatchError::UnexpectedEvent) <==> !awaits(
            state,
            event,
        ),
{
    match state {
        WatchState::Polling => match event {
            WatchEvent::Observed(seen) => match decide(
                platform,
                config,
                &seen.trigger,
                &seen.target,
            ) {
                Ok(DecisionOutcome::Spawned(request)) => Ok(
                    Transition { next: WatchState::Deciding, action: WatchAction::Spawn(request) },
                ),
                Ok(_) => Ok(
                    Transition {
                        next: WatchState::SleepingLong,
                        action: WatchAction::Sleep(LONG_INTERVAL_MS),
                    },
                ),
                Err(_) => Err(WatchError::PathResolution),
            },
            _ => Err(WatchError::UnexpectedEvent),
        },
        WatchState::Deciding => match event {
            WatchEvent::SpawnSucceeded => Ok(
                Transition {
                    next: WatchState::SleepingShort,
                    action: WatchAction::Sleep(SETTLE_DELAY_MS),
                },
            ),
            WatchEvent::SpawnFailed => Ok(
                Transition {
                    next: WatchState::SleepingLong,
                    action: WatchAction::Sleep(LONG_INTERVAL_MS),
                },
            ),
            _ => Err(WatchError::UnexpectedEvent),
        },
        WatchState::SleepingShort | WatchState::SleepingLong => match event {
            WatchEvent::Woke => Ok(
                Transition { next: WatchState::Polling, action: WatchAction::Poll },
            ),
            _ => Err(WatchError::UnexpectedEvent),
        },
    }
}

/// A target that is found active is left alone: the look leads straight into
/// the long sleep, and no spawn is ordered.
pub proof fn lemma_active_target_is_left_alone(platform: Platform, config: ObsView, seen: Snapshot)
    requires
        decision(platform, config, seen.trigger@, seen.target@) == Ok::<
            DecisionView,
            PathResolutionError,
        >(DecisionView::TargetActive),
    ensures
        step_of(platform, config, WatchState::Polling, WatchEvent::Observed(seen)) == Ok::<
            TransitionView,
            WatchError,
        >(
            TransitionView {
                next: WatchState::SleepingLong,
                action: WatchActionView::Sleep(LONG_INTERVAL_MS),
            },
        ),
{
}

/// Without the trigger no spawn is ordered, whatever the table shows of the
/// target.
pub proof fn lemma_absent_trigger_orders_nothing(
    platform: Platform,
    config: ObsView,
    seen: Snapshot,
)
    requires
        seen.trigger@.len() == 0,
    ensures
        step_of(platform, config, WatchState::Polling, WatchEvent::Observed(seen)) == Ok::<
            TransitionView,
            WatchError,
        >(
            TransitionView {
                next: WatchState::SleepingLong,
                action: WatchActionView::Sleep(LONG_INTERVAL_MS),
            },
        ),
{
}

/// The watch has no last state. Whatever the driver can report of the task
/// that a step hands out, the state that the step enters awaits; and a
/// report that a state awaits is refused for one reason only, a target path
/// without parent.
pub proof fn lemma_cycle_goes_on(
    platform: Platform,
    config: ObsView,
    state: WatchState,
    event: WatchEvent,
    report: WatchEvent,
)
    ensures
        step_of(platform, config, state, event) matches Ok(transition) ==> (reports(
            report,
            transition.action,
        ) ==> awaits(transition.next, report)),
        awaits(state, event) ==> step_of(platform, config, state, event) is Ok || step_of(
            platform,
            config,
            state,
            event,
        ) == Err::<TransitionView, WatchError>(WatchError::PathResolution),
        !awaits(state, event) ==> step_of(platform, config, state, event) == Err::<
            TransitionView,
            WatchError,
        >(WatchError::UnexpectedEvent),
{
}

/// Between a spawn and the next look at the table the watch sleeps, and so
/// it does after a look that ordered nothing: a look is only ever ordered
/// on waking.
pub proof fn lemma_look_follows_sleep(
    platform: Platform,
    config: ObsView,
    state: WatchState,
    event: WatchEvent,
)
    requires
        step_of(platform, config, state, event) matches Ok(transition) && transition.action
            == WatchActionView::Poll,
    ensures
        state == WatchState::SleepingShort || state == WatchState::SleepingLong,
        event is Woke,
{
}

} // verus!
