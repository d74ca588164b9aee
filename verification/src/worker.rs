//! One worker of the pool: the cycle its thread goes through, as a state
//! machine from state and event to next state and action.

use vstd::prelude::*;

verus! {

/// Where a worker's thread stands in its loop.
#[derive(Clone, Copy, Debug, PartialEq, Eq, Structural)]
pub enum WorkerState {
    /// Waiting for exclusive access to the consuming end of the job queue.
    WaitingForLock,
    /// Holding the consuming end and waiting for a job to arrive on it.
    WaitingForJob,
    /// Running a job, with the consuming end released.
    Executing,
    /// The thread has left its loop for good.
    Stopped,
}

/// What a worker's thread can report after it did what it was told.
#[derive(Clone, Copy, Debug, PartialEq, Eq, Structural)]
pub enum WorkerEvent {
    /// The consuming end was handed to this worker.
    LockAcquired,
    /// The lock around the consuming end was found poisoned.
    LockPoisoned,
    /// A job came off the queue.
    JobReceived,
    /// The queue was closed while the worker waited on it.
    QueueClosed,
    /// The job ran to its end.
    JobCompleted,
    /// The job faulted.
    JobPanicked,
}

/// What a worker's thread does next.
#[derive(Clone, Copy, Debug, PartialEq, Eq, Structural)]
pub enum WorkerAction {
    /// Block until the consuming end of the queue is free, and take it.
    AcquireLock,
    /// Block, holding the consuming end, until a job is available.
    AwaitJob,
    /// Release the consuming end and run the job to completion.
    RunJob,
    /// Leave the loop.
    Halt,
}

/// The state that follows `state` on `event`, or `None` where `state` does
/// not wait for `event`.
pub open spec fn transition(state: WorkerState, event: WorkerEvent) -> Option<WorkerState> {
    match (state, event) {
        (WorkerState::WaitingForLock, WorkerEvent::LockAcquired) => Some(WorkerState::WaitingForJob),
        (WorkerState::WaitingForLock, WorkerEvent::LockPoisoned) => Some(WorkerState::Stopped),
        (WorkerState::WaitingForJob, WorkerEvent::JobReceived) => Some(WorkerState::Executing),
        (WorkerState::WaitingForJob, WorkerEvent::QueueClosed) => Some(WorkerState::Stopped),
        (WorkerState::Executing, WorkerEvent::JobCompleted) => Some(WorkerState::WaitingForLock),
        (WorkerState::Executing, WorkerEvent::JobPanicked) => Some(WorkerState::Stopped),
        _ => None,
    }
}

/// What a worker in `state` does next.
pub open spec fn action_in(state: WorkerState) -> WorkerAction {
    match state {
        WorkerState::WaitingForLock => WorkerAction::AcquireLock,
        WorkerState::WaitingForJob => WorkerAction::AwaitJob,
        WorkerState::Executing => WorkerAction::RunJob,
        WorkerState::Stopped => WorkerAction::Halt,
    }
}

/// Whether `event` reports a failure: a poisoned lock, a closed queue, a job
/// that faulted.
pub open spec fn is_failure(event: WorkerEvent) -> bool {
    event == WorkerEvent::LockPoisoned || event == WorkerEvent::QueueClosed || event
        == WorkerEvent::JobPanicked
}

/// A worker that has stopped takes no event: it never runs again.
pub proof fn law_stopped_worker_stays_stopped(event: WorkerEvent)
    ensures
        transition(WorkerState::Stopped, event) is None,
{
}

/// A worker stops on a failure and on nothing else, and every state but the
/// last has a failure that ends it.
pub proof fn law_worker_stops_on_failure_only(state: WorkerState, event: WorkerEvent)
    ensures
        transition(state, event) == Some(WorkerState::Stopped) ==> is_failure(event) && state
            != WorkerState::Stopped,
        state != WorkerState::Stopped ==> exists|failure: WorkerEvent|
            is_failure(failure) && #[trigger] transition(state, failure) == Some(WorkerState::Stopped),
{
    match state {
        WorkerState::WaitingForLock => {
            assert(transition(state, WorkerEvent::LockPoisoned) == Some(WorkerState::Stopped));
        },
        WorkerState::WaitingForJob => {
            assert(transition(state, WorkerEvent::QueueClosed) == Some(WorkerState::Stopped));
        },
        WorkerState::Executing => {
            assert(transition(state, WorkerEvent::JobPanicked) == Some(WorkerState::Stopped));
        },
        WorkerState::Stopped => {},
    }
}

/// Without a failure a worker goes round one cycle and no other way: it
/// takes the lock, then a job, then runs it, and waits for the lock again.
pub proof fn law_worker_cycle(state: WorkerState, event: WorkerEvent)
    requires
        !is_failure(event),
    ensures
        transition(state, event) is Some <==> (state, event) == (
            WorkerState::WaitingForLock,
            WorkerEvent::LockAcquired,
        ) || (state, event) == (WorkerState::WaitingForJob, WorkerEvent::JobReceived) || (state, event)
            == (WorkerState::Executing, WorkerEvent::JobCompleted),
        transition(WorkerState::WaitingForLock, WorkerEvent::LockAcquired) == Some(
            WorkerState::WaitingForJob,
        ),
        transition(WorkerState::WaitingForJob, WorkerEvent::JobReceived) == Some(
            WorkerState::Executing,
        ),
        transition(WorkerState::Executing, WorkerEvent::JobCompleted) == Some(
            WorkerState::WaitingForLock,
        ),
{
}

/// A worker: its number in the pool and the state of its thread.
#[derive(Clone, Copy, Debug)]
pub struct Worker {
    id: usize,
    state: WorkerState,
}

impl Worker {
    /// The worker's number in its pool.
    pub closed spec fn spec_id(&self) -> usize {
        self.id
    }

    /// The state of the worker's thread.
    pub closed spec fn spec_state(&self) -> WorkerState {
        self.state
    }

    /// A worker whose thread has just started: it waits for the lock.
    pub fn new(id: usize) -> (worker: Worker)
        ensures
            worker.id() == id,
            worker.state() == WorkerState::WaitingForLock,
    {
        Worker { id, state: WorkerState::WaitingForLock }
    }

    #[verifier::when_used_as_spec(spec_id)]
    pub fn id(&self) -> (id: usize)
        ensures
            id == self.spec_id(),
    {
        self.id
    }

    #[verifier::when_used_as_spec(spec_state)]
    pub fn state(&self) -> (state: WorkerState)
        ensures
            state == self.spec_state(),
    {
        self.state
    }

    /// What the worker's thread has to do now.
    pub fn next_action(&self) -> (action: WorkerAction)
        ensures
            action == action_in(self.state()),
    {
        match self.state {
            WorkerState::WaitingForLock => WorkerAction::AcquireLock,
            WorkerState::WaitingForJob => WorkerAction::AwaitJob,
            WorkerState::Executing => WorkerAction::RunJob,
            WorkerState::Stopped => WorkerAction::Halt,
        }
    }

    /// Takes `event` in. Where the worker's state waits for it, the worker
    /// moves on and the action to perform next is returned; otherwise the
    /// worker stays as it is and `None` is returned.
    pub fn step(&mut self, event: WorkerEvent) -> (action: Option<WorkerAction>)
        ensures
            final(self).id() == old(self).id(),
            match transition(old(self).state(), event) {
                Some(next) => final(self).state() == next && action == Some(action_in(next)),
                None => final(self).state() == old(self).state() && action is None,
            },
    {
        let next = match (self.state, event) {
            (WorkerState::WaitingForLock, WorkerEvent::LockAcquired) => WorkerState::WaitingForJob,
            (WorkerState::WaitingForLock, WorkerEvent::LockPoisoned) => WorkerState::Stopped,
            (WorkerState::WaitingForJob, WorkerEvent::JobReceived) => WorkerState::Executing,
            (WorkerState::WaitingForJob, WorkerEvent::QueueClosed) => WorkerState::Stopped,
            (WorkerState::Executing, WorkerEvent::JobCompleted) => WorkerState::WaitingForLock,
            (WorkerState::Executing, WorkerEvent::JobPanicked) => WorkerState::Stopped,
            _ => {
                return None;
            },
        };
        self.state = next;
        Some(self.next_action())
    }
}

} // verus!
