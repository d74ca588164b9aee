use web_server::{Worker, WorkerAction, WorkerEvent, WorkerState};

const EVENTS: [WorkerEvent; 6] = [
    WorkerEvent::LockAcquired,
    WorkerEvent::LockPoisoned,
    WorkerEvent::JobReceived,
    WorkerEvent::QueueClosed,
    WorkerEvent::JobCompleted,
    WorkerEvent::JobPanicked,
];

fn worker_in(state: WorkerState) -> Worker {
    let mut worker = Worker::new(0);
    match state {
        WorkerState::WaitingForLock => {}
        WorkerState::WaitingForJob => {
            worker.step(WorkerEvent::LockAcquired);
        }
        WorkerState::Executing => {
            worker.step(WorkerEvent::LockAcquired);
            worker.step(WorkerEvent::JobReceived);
        }
        WorkerState::Stopped => {
            worker.step(WorkerEvent::LockPoisoned);
        }
    }
    assert_eq!(worker.state(), state);
    worker
}

#[test]
fn worker_starts_waiting_for_the_lock() {
    let worker = Worker::new(5);
    assert_eq!(worker.id(), 5);
    assert_eq!(worker.state(), WorkerState::WaitingForLock);
    assert_eq!(worker.next_action(), WorkerAction::AcquireLock);
}

#[test]
fn worker_goes_round_its_cycle() {
    let mut worker = Worker::new(2);
    assert_eq!(worker.step(WorkerEvent::LockAcquired), Some(WorkerAction::AwaitJob));
    assert_eq!(worker.state(), WorkerState::WaitingForJob);
    assert_eq!(worker.step(WorkerEvent::JobReceived), Some(WorkerAction::RunJob));
    assert_eq!(worker.state(), WorkerState::Executing);
    assert_eq!(worker.step(WorkerEvent::JobCompleted), Some(WorkerAction::AcquireLock));
    assert_eq!(worker.state(), WorkerState::WaitingForLock);
    assert_eq!(worker.step(WorkerEvent::LockAcquired), Some(WorkerAction::AwaitJob));
    assert_eq!(worker.id(), 2);
}

#[test]
fn poisoned_lock_stops_a_waiting_worker() {
    let mut worker = worker_in(WorkerState::WaitingForLock);
    assert_eq!(worker.step(WorkerEvent::LockPoisoned), Some(WorkerAction::Halt));
    assert_eq!(worker.state(), WorkerState::Stopped);
}

#[test]
fn closed_queue_stops_the_worker_that_waits_on_it() {
    let mut worker = worker_in(WorkerState::WaitingForJob);
    assert_eq!(worker.step(WorkerEvent::QueueClosed), Some(WorkerAction::Halt));
    assert_eq!(worker.state(), WorkerState::Stopped);
}

#[test]
fn panicking_job_stops_its_worker() {
    let mut worker = worker_in(WorkerState::Executing);
    assert_eq!(worker.step(WorkerEvent::JobPanicked), Some(WorkerAction::Halt));
    assert_eq!(worker.state(), WorkerState::Stopped);
}

#[test]
fn stopped_worker_takes_no_event() {
    for event in EVENTS {
        let mut worker = worker_in(WorkerState::Stopped);
        assert_eq!(worker.step(event), None);
        assert_eq!(worker.state(), WorkerState::Stopped);
        assert_eq!(worker.next_action(), WorkerAction::Halt);
    }
}

#[test]
fn events_out_of_turn_leave_the_worker_alone() {
    let expected: [(WorkerState, [bool; 6]); 3] = [
        (WorkerState::WaitingForLock, [true, true, false, false, false, false]),
        (WorkerState::WaitingForJob, [false, false, true, true, false, false]),
        (WorkerState::Executing, [false, false, false, false, true, true]),
    ];
    for (state, accepted) in expected {
        for (event, accept) in EVENTS.iter().zip(accepted) {
            let mut worker = worker_in(state);
            let action = worker.step(*event);
            assert_eq!(action.is_some(), accept);
            if !accept {
                assert_eq!(worker.state(), state);
            }
        }
    }
}

#[test]
fn next_action_follows_the_state() {
    assert_eq!(worker_in(WorkerState::WaitingForLock).next_action(), WorkerAction::AcquireLock);
    assert_eq!(worker_in(WorkerState::WaitingForJob).next_action(), WorkerAction::AwaitJob);
    assert_eq!(worker_in(WorkerState::Executing).next_action(), WorkerAction::RunJob);
    assert_eq!(worker_in(WorkerState::Stopped).next_action(), WorkerAction::Halt);
}
