//! The guard that lets one process at a time work on the store: a marker
//! file that is created when the process starts and removed when it ends.
//!
//! The files are touched elsewhere. Here is what to do next: each step
//! takes what has just happened and says what to do about it.

use vstd::prelude::*;

verus! {

/// Where the guard stands.
#[derive(Debug, Clone, Copy, PartialEq, Eq, Structural)]
pub enum LockState {
    /// Nothing was done yet.
    Idle,
    /// A marker that may be left over is being removed.
    Clearing,
    /// The marker is being created.
    Creating,
    /// The marker is there and it is ours.
    Held,
    /// The guard is over: the marker was never ours, or it was given back.
    Done,
}

/// What has just happened.
#[derive(Debug, Clone, Copy, PartialEq, Eq, Structural)]
pub enum LockEvent {
    /// The process starts.
    Start,
    /// The removal of a left-over marker was tried, with whatever result.
    Cleared,
    /// The marker was created.
    Created,
    /// The marker was not created because it is there already.
    AlreadyExists,
    /// The marker was not created for another reason.
    CreateFailed,
    /// The process is about to end, in whatever way.
    Exit,
}

/// What to do next.
#[derive(Debug, Clone, Copy, PartialEq, Eq, Structural)]
pub enum LockAction {
    /// Remove the marker, and do not mind if that fails.
    RemoveMarker,
    /// Create the marker if and only if it is not there, in one step.
    CreateIfAbsent,
    /// Create the marker, in place of one that may be there.
    CreateAnyway,
    /// Go on with the work: the store is ours.
    Proceed,
    /// Give up: another process holds the store, or one crashed.
    RefuseBusy,
    /// Give up: the marker could not be created.
    RefuseFailed,
    /// Nothing.
    Nothing,
}

/// The state after `event`, and what to do about it. `force` is set where
/// the user has asked to override a marker that is there.
pub open spec fn lock_step(force: bool, state: LockState, event: LockEvent) -> (
    LockState,
    LockAction,
) {
    match (state, event) {
        (LockState::Idle, LockEvent::Start) => if force {
            (LockState::Clearing, LockAction::RemoveMarker)
        } else {
            (LockState::Creating, LockAction::CreateIfAbsent)
        },
        (LockState::Clearing, LockEvent::Cleared) => (
            LockState::Creating,
            LockAction::CreateAnyway,
        ),
        (LockState::Creating, LockEvent::Created) => (LockState::Held, LockAction::Proceed),
        (LockState::Creating, LockEvent::AlreadyExists) => (
            LockState::Done,
            LockAction::RefuseBusy,
        ),
        (LockState::Creating, LockEvent::CreateFailed) => (
            LockState::Done,
            LockAction::RefuseFailed,
        ),
        (LockState::Held, LockEvent::Exit) => (LockState::Done, LockAction::RemoveMarker),
        _ => (state, LockAction::Nothing),
    }
}

/// The guard of one process.
#[derive(Debug, Clone, Copy, PartialEq, Eq, Structural)]
pub struct InstanceLock {
    pub force: bool,
    pub state: LockState,
}

impl InstanceLock {
    /// A guard that has done nothing yet.
    pub fn new(force: bool) -> (lock: InstanceLock)
        ensures
            lock.force == force,
            lock.state == LockState::Idle,
    {
        InstanceLock { force, state: LockState::Idle }
    }

    /// Whether the marker is there and ours.
    pub fn is_held(&self) -> (held: bool)
        ensures
            held == (self.state == LockState::Held),
    {
        self.state == LockState::Held
    }

    /// Takes note of `event` and says what to do next.
    pub fn step(&mut self, event: LockEvent) -> (action: LockAction)
        ensures
            final(self).force == old(self).force,
            (final(self).state, action) == lock_step(old(self).force, old(self).state, event),
    {
        let (state, action) = match (self.state, event) {
            (LockState::Idle, LockEvent::Start) => {
                if self.force {
                    (LockState::Clearing, LockAction::RemoveMarker)
                } else {
                    (LockState::Creating, LockAction::CreateIfAbsent)
                }
            },
            (LockState::Clearing, LockEvent::Cleared) => (
                LockState::Creating,
                LockAction::CreateAnyway,
            ),
            (LockState::Creating, LockEvent::Created) => (LockState::Held, LockAction::Proceed),
            (LockState::Creating, LockEvent::AlreadyExists) => (
                LockState::Done,
                LockAction::RefuseBusy,
            ),
            (LockState::Creating, LockEvent::CreateFailed) => (
                LockState::Done,
                LockAction::RefuseFailed,
            ),
            (LockState::Held, LockEvent::Exit) => (LockState::Done, LockAction::RemoveMarker),
            _ => (self.state, LockAction::Nothing),
        };
        self.state = state;
        action
    }
}

/// The state after a run of events, from `state` on.
pub open spec fn lock_run(force: bool, state: LockState, events: Seq<LockEvent>) -> LockState
    decreases events.len(),
{
    if events.len() == 0 {
        state
    } else {
        lock_step(force, lock_run(force, state, events.drop_last()), events.last()).0
    }
}

/// Work goes on only while the marker is held: the one step that says
/// `Proceed` is the one that takes the marker.
pub proof fn proceed_means_held(force: bool, state: LockState, event: LockEvent)
    ensures
        lock_step(force, state, event).1 == LockAction::Proceed <==> (state == LockState::Creating
            && event == LockEvent::Created),
        lock_step(force, state, event).1 == LockAction::Proceed ==> lock_step(
            force,
            state,
            event,
        ).0 == LockState::Held,
{
}

/// A marker that is held is given back on exit, whatever came before, and
/// the guard is over then.
pub proof fn exit_gives_the_marker_back(force: bool)
    ensures
        lock_step(force, LockState::Held, LockEvent::Exit) == (
            LockState::Done,
            LockAction::RemoveMarker,
        ),
        forall|event: LockEvent|
            event != LockEvent::Exit ==> (#[trigger] lock_step(force, LockState::Held, event)).0
                == LockState::Held,
{
}

/// Without `force` a marker that is there is never touched: from the
/// start on, no step removes or replaces the marker unless it is ours.
pub proof fn marker_is_respected_without_force(events: Seq<LockEvent>, event: LockEvent)
    ensures
        lock_run(false, LockState::Idle, events) != LockState::Clearing,
        lock_step(false, lock_run(false, LockState::Idle, events), event).1
            != LockAction::CreateAnyway,
        lock_run(false, LockState::Idle, events) != LockState::Held ==> lock_step(
            false,
            lock_run(false, LockState::Idle, events),
            event,
        ).1 != LockAction::RemoveMarker,
    decreases events.len(),
{
    if events.len() > 0 {
        marker_is_respected_without_force(events.drop_last(), events.last());
    }
}

/// Once the guard is over it stays over and asks for nothing more.
pub proof fn done_is_final(force: bool, events: Seq<LockEvent>)
    ensures
        lock_run(force, LockState::Done, events) == LockState::Done,
    decreases events.len(),
{
    if events.len() > 0 {
        done_is_final(force, events.drop_last());
    }
}

} // verus!
