use std::cell::{Cell, RefCell};
use std::rc::Rc;
use web_server::{ThreadPool, WorkerState};

type Task = Box<dyn FnOnce()>;

fn state_of<J>(pool: &ThreadPool<J>, id: usize) -> WorkerState {
    pool.worker(id).expect("the pool has this worker").state()
}

fn count_in<J>(pool: &ThreadPool<J>, size: usize, state: WorkerState) -> usize {
    (0..size).filter(|id| state_of(pool, *id) == state).count()
}

/// Lets worker `id` take the lock and the oldest job, if it can have both.
fn start_job<J>(pool: &mut ThreadPool<J>, id: usize) -> Option<J> {
    pool.acquire(id);
    pool.receive(id)
}

/// Runs every job that waits, the workers taking turns, each job being run as
/// soon as it is handed out. Returns how many jobs were run.
fn run_to_idle(pool: &mut ThreadPool<Task>, size: usize) -> usize {
    let mut ran: usize = 0;
    while pool.pending() > 0 {
        let before: usize = ran;
        for id in 0..size {
            if let Some(task) = start_job(pool, id) {
                task();
                assert!(pool.complete(id));
                ran += 1;
            }
        }
        assert!(ran > before, "no live worker took a job");
    }
    ran
}

#[test]
fn new_pool_has_every_worker_waiting_for_the_lock() {
    for size in 1usize..=8 {
        let pool: ThreadPool<u32> = ThreadPool::new(size);
        for id in 0..size {
            let worker = pool.worker(id).expect("the pool has this worker");
            assert_eq!(worker.id(), id);
            assert_eq!(worker.state(), WorkerState::WaitingForLock);
        }
        assert!(pool.worker(size).is_none());
        assert_eq!(pool.live_workers(), size);
        assert_eq!(pool.pending(), 0);
        assert_eq!(pool.lock_holder(), None);
    }
}

#[test]
fn new_pool_accepts_jobs_at_once() {
    let mut pool: ThreadPool<u32> = ThreadPool::new(1);
    pool.execute(11);
    assert_eq!(pool.pending(), 1);
}

#[test]
fn all_workers_run_at_once_before_any_job_completes() {
    for size in 1usize..=8 {
        let mut pool: ThreadPool<usize> = ThreadPool::new(size);
        for marker in 0..size {
            pool.execute(marker);
        }
        let mut started: Vec<usize> = Vec::new();
        for id in 0..size {
            assert!(pool.acquire(id));
            let job = pool.receive(id).expect("a job waits");
            started.push(job);
        }
        assert_eq!(count_in(&pool, size, WorkerState::Executing), size);
        assert_eq!(pool.pending(), 0);
        assert_eq!(started, (0..size).collect::<Vec<usize>>());
        for id in 0..size {
            assert!(pool.complete(id));
        }
        assert_eq!(count_in(&pool, size, WorkerState::WaitingForLock), size);
    }
}

#[test]
fn execute_returns_before_the_job_has_run() {
    let ran = Rc::new(Cell::new(false));
    let flag = Rc::clone(&ran);
    let mut pool: ThreadPool<Task> = ThreadPool::new(2);
    pool.execute(Box::new(move || flag.set(true)));
    assert!(!ran.get());
    assert_eq!(pool.pending(), 1);
    assert_eq!(state_of(&pool, 0), WorkerState::WaitingForLock);
    assert_eq!(state_of(&pool, 1), WorkerState::WaitingForLock);
    assert_eq!(pool.lock_holder(), None);

    let task = start_job(&mut pool, 0).expect("a job waits");
    assert!(!ran.get());
    task();
    assert!(ran.get());
}

#[test]
fn execute_moves_no_worker() {
    let mut pool: ThreadPool<u32> = ThreadPool::new(3);
    pool.execute(1);
    assert!(pool.acquire(0));
    assert_eq!(pool.receive(0), Some(1));
    assert!(pool.acquire(1));
    pool.execute(2);
    pool.execute(3);
    assert_eq!(state_of(&pool, 0), WorkerState::Executing);
    assert_eq!(state_of(&pool, 1), WorkerState::WaitingForJob);
    assert_eq!(state_of(&pool, 2), WorkerState::WaitingForLock);
    assert_eq!(pool.lock_holder(), Some(1));
    assert_eq!(pool.pending(), 2);
}

#[test]
fn every_marker_is_recorded_exactly_once() {
    let jobs: usize = 25;
    let size: usize = 3;
    let log: Rc<RefCell<Vec<usize>>> = Rc::new(RefCell::new(Vec::new()));
    let mut pool: ThreadPool<Task> = ThreadPool::new(size);
    for marker in 0..jobs {
        let sink = Rc::clone(&log);
        pool.execute(Box::new(move || sink.borrow_mut().push(marker)));
    }

    // The workers overlap: a worker finishes its job only after the next one
    // has started its own, so jobs end in another order than they began.
    let mut running: Vec<Option<Task>> = Vec::new();
    for _ in 0..size {
        running.push(None);
    }
    let mut turn: usize = 0;
    while pool.pending() > 0 || running.iter().any(|slot| slot.is_some()) {
        let id: usize = turn % size;
        let next: usize = (turn + 2) % size;
        if running[id].is_none() {
            running[id] = start_job(&mut pool, id);
        }
        if let Some(task) = running[next].take() {
            task();
            assert!(pool.complete(next));
        }
        turn += 1;
    }

    let mut recorded: Vec<usize> = log.borrow().clone();
    assert_eq!(recorded.len(), jobs);
    recorded.sort();
    assert_eq!(recorded, (0..jobs).collect::<Vec<usize>>());
}

#[test]
fn recorded_order_need_not_be_submission_order() {
    let log: Rc<RefCell<Vec<u32>>> = Rc::new(RefCell::new(Vec::new()));
    let mut pool: ThreadPool<Task> = ThreadPool::new(2);
    for marker in 0u32..2 {
        let sink = Rc::clone(&log);
        pool.execute(Box::new(move || sink.borrow_mut().push(marker)));
    }
    let first = start_job(&mut pool, 0).expect("a job waits");
    let second = start_job(&mut pool, 1).expect("a job waits");
    second();
    assert!(pool.complete(1));
    first();
    assert!(pool.complete(0));
    assert_eq!(*log.borrow(), vec![1, 0]);
}

#[test]
fn jobs_are_handed_out_in_submission_order() {
    let mut pool: ThreadPool<u32> = ThreadPool::new(2);
    for marker in [30u32, 10, 20, 10, 40] {
        pool.execute(marker);
    }
    let mut handed_out: Vec<u32> = Vec::new();
    for id in [1usize, 0, 0, 1, 0] {
        let job = start_job(&mut pool, id).expect("a job waits");
        handed_out.push(job);
        assert!(pool.complete(id));
    }
    assert_eq!(handed_out, vec![30, 10, 20, 10, 40]);
    assert_eq!(pool.pending(), 0);
    assert!(pool.acquire(0));
    assert_eq!(pool.receive(0), None);
}

#[test]
fn counter_equals_the_number_of_jobs() {
    for size in 1usize..=8 {
        for jobs in 0usize..=20 {
            let counter = Rc::new(Cell::new(0usize));
            let mut pool: ThreadPool<Task> = ThreadPool::new(size);
            for _ in 0..jobs {
                let counter = Rc::clone(&counter);
                pool.execute(Box::new(move || counter.set(counter.get() + 1)));
            }
            assert_eq!(pool.pending(), jobs);
            assert_eq!(run_to_idle(&mut pool, size), jobs);
            assert_eq!(counter.get(), jobs);
            assert_eq!(pool.pending(), 0);
            assert_eq!(count_in(&pool, size, WorkerState::Executing), 0);
            assert_eq!(pool.live_workers(), size);
        }
    }
}

#[test]
fn two_workers_run_four_jobs_in_two_rounds() {
    let log: Rc<RefCell<Vec<usize>>> = Rc::new(RefCell::new(Vec::new()));
    let mut pool: ThreadPool<Task> = ThreadPool::new(2);
    for index in 0usize..4 {
        let sink = Rc::clone(&log);
        pool.execute(Box::new(move || sink.borrow_mut().push(index)));
    }

    let mut rounds: usize = 0;
    while pool.pending() > 0 {
        // Both workers start a job before either has finished: the two jobs
        // of a round overlap.
        let first = start_job(&mut pool, 0).expect("a job waits");
        let second = start_job(&mut pool, 1).expect("a job waits");
        assert_eq!(count_in(&pool, 2, WorkerState::Executing), 2);
        // No third job can start while both workers are busy.
        assert!(!pool.acquire(0));
        assert!(!pool.acquire(1));
        first();
        second();
        assert!(pool.complete(0));
        assert!(pool.complete(1));
        rounds += 1;
    }
    assert_eq!(rounds, 2);
    assert_eq!(*log.borrow(), vec![0, 1, 2, 3]);
}

#[test]
fn faulted_worker_is_lost_for_good() {
    let size: usize = 4;
    let mut pool: ThreadPool<u32> = ThreadPool::new(size);
    pool.execute(0);
    assert_eq!(start_job(&mut pool, 2), Some(0));
    assert!(pool.fault(2));
    assert_eq!(state_of(&pool, 2), WorkerState::Stopped);
    assert_eq!(pool.live_workers(), size - 1);

    // Submission still succeeds.
    for marker in 1u32..=8 {
        pool.execute(marker);
    }
    assert_eq!(pool.pending(), 8);

    // The lost worker takes nothing any more, whatever it is told.
    assert!(!pool.acquire(2));
    assert_eq!(pool.receive(2), None);
    assert!(!pool.complete(2));
    assert!(!pool.fault(2));
    assert_eq!(state_of(&pool, 2), WorkerState::Stopped);

    // At most three jobs run at once from now on, round after round.
    let mut handed_out: Vec<u32> = Vec::new();
    while pool.pending() > 0 {
        for id in 0..size {
            if let Some(job) = start_job(&mut pool, id) {
                handed_out.push(job);
            }
        }
        assert!(count_in(&pool, size, WorkerState::Executing) <= size - 1);
        for id in 0..size {
            pool.complete(id);
        }
        assert_eq!(state_of(&pool, 2), WorkerState::Stopped);
        assert_eq!(pool.live_workers(), size - 1);
    }
    assert_eq!(handed_out, vec![1, 2, 3, 4, 5, 6, 7, 8]);
}

#[test]
fn throughput_drops_to_the_live_workers() {
    let size: usize = 4;
    let mut pool: ThreadPool<u32> = ThreadPool::new(size);
    for marker in 0u32..5 {
        pool.execute(marker);
    }
    assert_eq!(start_job(&mut pool, 0), Some(0));
    assert!(pool.fault(0));
    for id in 0..size {
        start_job(&mut pool, id);
    }
    assert_eq!(count_in(&pool, size, WorkerState::Executing), 3);
    assert_eq!(count_in(&pool, size, WorkerState::Stopped), 1);
    assert_eq!(pool.pending(), 1);
}

#[test]
fn pool_that_lost_every_worker_has_none_to_take_a_job() {
    let mut pool: ThreadPool<u32> = ThreadPool::new(2);
    pool.execute(1);
    pool.execute(2);
    for id in 0usize..2 {
        assert!(start_job(&mut pool, id).is_some());
        assert!(pool.fault(id));
    }
    assert_eq!(pool.live_workers(), 0);
    assert_eq!(count_in(&pool, 2, WorkerState::Stopped), 2);
}

#[test]
fn only_one_worker_holds_the_consuming_end() {
    let mut pool: ThreadPool<u32> = ThreadPool::new(3);
    assert!(pool.acquire(1));
    assert_eq!(pool.lock_holder(), Some(1));
    assert!(!pool.acquire(0));
    assert!(!pool.acquire(1));
    assert!(!pool.acquire(2));
    assert_eq!(state_of(&pool, 0), WorkerState::WaitingForLock);
    assert_eq!(state_of(&pool, 1), WorkerState::WaitingForJob);
    assert_eq!(state_of(&pool, 2), WorkerState::WaitingForLock);
    assert_eq!(pool.lock_holder(), Some(1));
}

#[test]
fn holder_keeps_the_lock_while_no_job_waits() {
    let mut pool: ThreadPool<u32> = ThreadPool::new(2);
    assert!(pool.acquire(0));
    assert_eq!(pool.receive(0), None);
    assert_eq!(state_of(&pool, 0), WorkerState::WaitingForJob);
    assert_eq!(pool.lock_holder(), Some(0));
    assert!(!pool.acquire(1));

    pool.execute(9);
    assert_eq!(pool.receive(1), None);
    assert_eq!(pool.receive(0), Some(9));
    assert_eq!(pool.lock_holder(), None);
    assert!(pool.acquire(1));
}

#[test]
fn receive_needs_the_lock() {
    let mut pool: ThreadPool<u32> = ThreadPool::new(2);
    pool.execute(5);
    assert_eq!(pool.receive(0), None);
    assert_eq!(pool.receive(1), None);
    assert_eq!(pool.pending(), 1);
    assert_eq!(state_of(&pool, 0), WorkerState::WaitingForLock);
}

#[test]
fn complete_and_fault_need_a_running_job() {
    let mut pool: ThreadPool<u32> = ThreadPool::new(1);
    assert!(!pool.complete(0));
    assert!(!pool.fault(0));
    assert!(pool.acquire(0));
    assert!(!pool.complete(0));
    assert!(!pool.fault(0));
    assert_eq!(state_of(&pool, 0), WorkerState::WaitingForJob);
    assert_eq!(pool.live_workers(), 1);
    pool.execute(3);
    assert_eq!(pool.receive(0), Some(3));
    assert!(pool.complete(0));
    assert!(!pool.complete(0));
    assert_eq!(state_of(&pool, 0), WorkerState::WaitingForLock);
}

#[test]
fn unknown_worker_changes_nothing() {
    let mut pool: ThreadPool<u32> = ThreadPool::new(2);
    pool.execute(1);
    for id in [2usize, 3, usize::MAX] {
        assert!(!pool.acquire(id));
        assert_eq!(pool.receive(id), None);
        assert!(!pool.complete(id));
        assert!(!pool.fault(id));
        assert!(pool.worker(id).is_none());
    }
    assert_eq!(pool.pending(), 1);
    assert_eq!(pool.lock_holder(), None);
    assert_eq!(pool.live_workers(), 2);
}

#[test]
fn worker_competes_for_the_lock_again_after_its_job() {
    let mut pool: ThreadPool<u32> = ThreadPool::new(1);
    for marker in 0u32..3 {
        pool.execute(marker);
    }
    for marker in 0u32..3 {
        assert!(pool.acquire(0));
        assert_eq!(pool.receive(0), Some(marker));
        assert_eq!(pool.lock_holder(), None);
        assert!(!pool.acquire(0));
        assert!(pool.complete(0));
    }
    assert_eq!(pool.pending(), 0);
}
