//! The life of one worker: it builds its renderer, serves requests one at
//! a time, and leaves when nobody asks any more.

use vstd::prelude::*;
use crate::channel::Arrival;
use crate::extent::Extent;
use crate::mappool::PoolError;

verus! {

/// Where a worker stands in its life.
#[derive(Clone, Copy, Debug, PartialEq, Eq, Structural)]
pub enum WorkerState {
    /// The renderer is not built yet.
    Init,
    /// The renderer is built and the worker waits for requests.
    Running,
    /// The worker has left; it never comes back.
    Exit,
}

/// What a worker may meet.
#[derive(Clone, Copy, Debug, PartialEq, Eq, Structural)]
pub enum WorkerEvent {
    /// The renderer was built.
    Constructed,
    /// The renderer could not be built.
    ConstructionFailed,
    /// An extent arrived on the request channel.
    Request,
    /// Every sender of the request channel is gone.
    Disconnected,
    /// No request arrived within the idle timeout.
    IdleTimeout,
}

/// What a worker does next.
#[derive(Clone, Copy, Debug, PartialEq, Eq, Structural)]
pub enum WorkerAction {
    /// Build the renderer.
    Construct,
    /// Wait for a request or for the idle timeout.
    Wait,
    /// Render the extent, send the image back, then wait again.
    Render,
    /// Release the renderer, free the slot and tell the reaper.
    Release,
    /// Nothing: the worker is gone.
    Halt,
}

/// The state a worker is in after `event`.
pub open spec fn next_state(state: WorkerState, event: WorkerEvent) -> WorkerState {
    match (state, event) {
        (WorkerState::Init, WorkerEvent::Constructed) => WorkerState::Running,
        (WorkerState::Init, WorkerEvent::ConstructionFailed) => WorkerState::Exit,
        (WorkerState::Init, _) => WorkerState::Init,
        (WorkerState::Running, WorkerEvent::Disconnected) => WorkerState::Exit,
        (WorkerState::Running, WorkerEvent::IdleTimeout) => WorkerState::Exit,
        (WorkerState::Running, _) => WorkerState::Running,
        (WorkerState::Exit, _) => WorkerState::Exit,
    }
}

/// What a worker in `state` does on `event`.
pub open spec fn next_action(state: WorkerState, event: WorkerEvent) -> WorkerAction {
    match (state, event) {
        (WorkerState::Init, WorkerEvent::Constructed) => WorkerAction::Wait,
        (WorkerState::Init, WorkerEvent::ConstructionFailed) => WorkerAction::Release,
        (WorkerState::Init, _) => WorkerAction::Construct,
        (WorkerState::Running, WorkerEvent::Request) => WorkerAction::Render,
        (WorkerState::Running, WorkerEvent::Disconnected) => WorkerAction::Release,
        (WorkerState::Running, WorkerEvent::IdleTimeout) => WorkerAction::Release,
        (WorkerState::Running, _) => WorkerAction::Wait,
        (WorkerState::Exit, _) => WorkerAction::Halt,
    }
}

/// One step of a worker: the state it moves to and what it does.
pub fn worker_step(state: WorkerState, event: WorkerEvent) -> (step: (WorkerState, WorkerAction))
    ensures
        step.0 == next_state(state, event),
        step.1 == next_action(state, event),
{
    match state {
        WorkerState::Init => match event {
            WorkerEvent::Constructed => (WorkerState::Running, WorkerAction::Wait),
            WorkerEvent::ConstructionFailed => (WorkerState::Exit, WorkerAction::Release),
            _ => (WorkerState::Init, WorkerAction::Construct),
        },
        WorkerState::Running => match event {
            WorkerEvent::Request => (WorkerState::Running, WorkerAction::Render),
            WorkerEvent::Disconnected => (WorkerState::Exit, WorkerAction::Release),
            WorkerEvent::IdleTimeout => (WorkerState::Exit, WorkerAction::Release),
            _ => (WorkerState::Running, WorkerAction::Wait),
        },
        WorkerState::Exit => (WorkerState::Exit, WorkerAction::Halt),
    }
}

/// What a worker's wait for an extent ended with, as an event: a request
/// with its extent, or the reason why none came.
pub fn arrival_event(arrival: Arrival<Extent>) -> (next: (WorkerEvent, Option<Extent>))
    ensures
        next == match arrival {
            Arrival::Message(extent) => (WorkerEvent::Request, Some(extent)),
            Arrival::Timeout => (WorkerEvent::IdleTimeout, None),
            Arrival::Disconnected => (WorkerEvent::Disconnected, None),
        },
{
    match arrival {
        Arrival::Message(extent) => (WorkerEvent::Request, Some(extent)),
        Arrival::Timeout => (WorkerEvent::IdleTimeout, None),
        Arrival::Disconnected => (WorkerEvent::Disconnected, None),
    }
}

/// What the caller of a render gets: the image where the request was handed
/// over and a reply came, else the news that the worker has left.
pub fn render_result(sent: bool, reply: Option<Vec<u8>>) -> (res: Result<Vec<u8>, PoolError>)
    ensures
        sent && reply is Some ==> res == Ok::<Vec<u8>, PoolError>(reply->Some_0),
        !sent || reply is None ==> res == Err::<Vec<u8>, PoolError>(PoolError::WorkerUnavailable),
{
    if !sent {
        return Err(PoolError::WorkerUnavailable);
    }
    match reply {
        Some(image) => Ok(image),
        None => Err(PoolError::WorkerUnavailable),
    }
}

/// A worker never returns to `Init`, and one that has left stays away.
pub proof fn law_no_way_back(state: WorkerState, event: WorkerEvent)
    ensures
        state != WorkerState::Init ==> next_state(state, event) != WorkerState::Init,
        state == WorkerState::Exit ==> next_state(state, event) == WorkerState::Exit
            && next_action(state, event) == WorkerAction::Halt,
{
}

/// A worker gives up its slot exactly when it moves to `Exit`, and renders
/// only while it runs.
pub proof fn law_release_on_exit(state: WorkerState, event: WorkerEvent)
    ensures
        next_action(state, event) == WorkerAction::Release <==> state != WorkerState::Exit
            && next_state(state, event) == WorkerState::Exit,
        next_action(state, event) == WorkerAction::Render ==> state == WorkerState::Running
            && next_state(state, event) == WorkerState::Running,
{
}

} // verus!
