//! The pool as a mathematical state machine: the states it can be in, the
//! steps that lead from one to the next, and what holds of every state that
//! the steps can reach.

use vstd::prelude::*;
use crate::count::{
    count_where, lemma_count_all, lemma_count_none, lemma_count_push, lemma_count_update,
};
use crate::worker::WorkerState;

verus! {

/// How far a submitted job has come. Jobs are numbered in the order of their
/// submission, and so are the workers of a pool, both from zero.
pub enum Progress {
    /// On the queue.
    Queued,
    /// Taken off the queue by `worker`, which is running it.
    Running { worker: int },
    /// Run to its end.
    Completed,
    /// Faulted, and took `worker` down with it.
    Abandoned { worker: int },
}

/// The state of a pool.
#[verifier::ext_equal]
pub struct PoolModel<J> {
    /// The state of each worker.
    pub workers: Seq<WorkerState>,
    /// The worker that holds the consuming end of the queue, if one does.
    pub holder: Option<int>,
    /// For each worker, the number of the job that it took last.
    pub claims: Seq<int>,
    /// The jobs that wait, the oldest first.
    pub queue: Seq<J>,
    /// Every job ever submitted, in the order of submission.
    pub jobs: Seq<J>,
    /// How far each submitted job has come.
    pub progress: Seq<Progress>,
}

/// One step of a pool.
pub enum Step<J> {
    /// A producer submits `job`.
    Submit { job: J },
    /// `worker` takes hold of the consuming end of the queue.
    Acquire { worker: int },
    /// `worker`, holding the consuming end, takes the oldest job and lets go.
    Receive { worker: int },
    /// The job that `worker` runs comes to its end.
    Complete { worker: int },
    /// The job that `worker` runs faults.
    Fault { worker: int },
}

/// The workers that count as live.
pub open spec fn is_live() -> spec_fn(WorkerState) -> bool {
    |state: WorkerState| state != WorkerState::Stopped
}

/// The workers that run a job.
pub open spec fn is_executing() -> spec_fn(WorkerState) -> bool {
    |state: WorkerState| state == WorkerState::Executing
}

/// The jobs that have run to their end.
pub open spec fn is_completed() -> spec_fn(Progress) -> bool {
    |progress: Progress| progress is Completed
}

impl<J> PoolModel<J> {
    /// A new pool of `size` workers: every worker waits for the lock, and no
    /// job was submitted yet.
    pub open spec fn init(size: nat) -> Self {
        PoolModel {
            workers: Seq::new(size, |w: int| WorkerState::WaitingForLock),
            holder: None,
            claims: Seq::new(size, |w: int| 0int),
            queue: Seq::empty(),
            jobs: Seq::empty(),
            progress: Seq::empty(),
        }
    }

    /// The number of workers.
    pub open spec fn size(self) -> nat {
        self.workers.len()
    }

    /// Whether `w` is the number of a worker.
    pub open spec fn has_worker(self, w: int) -> bool {
        0 <= w < self.workers.len()
    }

    /// The number of jobs taken off the queue so far, which is also the
    /// number of the oldest job that waits.
    pub open spec fn claimed(self) -> int {
        self.jobs.len() - self.queue.len()
    }

    /// The number of workers whose thread still runs.
    pub open spec fn live(self) -> nat {
        count_where(self.workers, is_live())
    }

    /// The number of workers that run a job.
    pub open spec fn executing(self) -> nat {
        count_where(self.workers, is_executing())
    }

    /// The number of jobs that have run to their end.
    pub open spec fn completed(self) -> nat {
        count_where(self.progress, is_completed())
    }

    /// The number of workers whose thread has left its loop.
    pub open spec fn lost(self) -> int {
        self.workers.len() - self.live()
    }

    /// Whether nothing is left to do: no job waits and none is running.
    pub open spec fn idle(self) -> bool {
        &&& self.queue.len() == 0
        &&& forall|w: int| 0 <= w < self.workers.len() ==> #[trigger] self.workers[w]
            != WorkerState::Executing
    }

    /// Whether a job can be submitted: some worker is left to take it.
    pub open spec fn can_submit(self) -> bool {
        self.live() > 0
    }

    /// The pool after `job` was submitted: the job waits at the back of the
    /// queue, and no worker has moved.
    pub open spec fn submit(self, job: J) -> Self {
        PoolModel {
            queue: self.queue.push(job),
            jobs: self.jobs.push(job),
            progress: self.progress.push(Progress::Queued),
            ..self
        }
    }

    /// Whether worker `w` can take hold of the consuming end: it waits for
    /// it, and nobody holds it.
    pub open spec fn can_acquire(self, w: int) -> bool {
        &&& self.has_worker(w)
        &&& self.workers[w] == WorkerState::WaitingForLock
        &&& self.holder is None
    }

    /// The pool after worker `w` took hold of the consuming end.
    pub open spec fn acquire(self, w: int) -> Self {
        PoolModel { workers: self.workers.update(w, WorkerState::WaitingForJob), holder: Some(w), ..self }
    }

    /// Whether worker `w` can take a job: it holds the consuming end, and a
    /// job waits.
    pub open spec fn can_receive(self, w: int) -> bool {
        &&& self.has_worker(w)
        &&& self.workers[w] == WorkerState::WaitingForJob
        &&& self.queue.len() > 0
    }

    /// The pool after worker `w` took the oldest waiting job and let go of
    /// the consuming end.
    pub open spec fn receive(self, w: int) -> Self {
        PoolModel {
            workers: self.workers.update(w, WorkerState::Executing),
            holder: None,
            claims: self.claims.update(w, self.claimed()),
            queue: self.queue.drop_first(),
            jobs: self.jobs,
            progress: self.progress.update(self.claimed(), Progress::Running { worker: w }),
        }
    }

    /// Whether worker `w` runs a job.
    pub open spec fn can_finish(self, w: int) -> bool {
        &&& self.has_worker(w)
        &&& self.workers[w] == WorkerState::Executing
    }

    /// The pool after the job of worker `w` ran to its end: the worker waits
    /// for the lock again.
    pub open spec fn complete(self, w: int) -> Self {
        PoolModel {
            workers: self.workers.update(w, WorkerState::WaitingForLock),
            progress: self.progress.update(self.claims[w], Progress::Completed),
            ..self
        }
    }

    /// The pool after the job of worker `w` faulted: the worker is gone.
    pub open spec fn fault(self, w: int) -> Self {
        PoolModel {
            workers: self.workers.update(w, WorkerState::Stopped),
            progress: self.progress.update(self.claims[w], Progress::Abandoned { worker: w }),
            ..self
        }
    }

    /// Whether `step` can be taken.
    pub open spec fn enabled(self, step: Step<J>) -> bool {
        match step {
            Step::Submit { job } => self.can_submit(),
            Step::Acquire { worker } => self.can_acquire(worker),
            Step::Receive { worker } => self.can_receive(worker),
            Step::Complete { worker } => self.can_finish(worker),
            Step::Fault { worker } => self.can_finish(worker),
        }
    }

    /// The pool after `step`.
    pub open spec fn apply(self, step: Step<J>) -> Self {
        match step {
            Step::Submit { job } => self.submit(job),
            Step::Acquire { worker } => self.acquire(worker),
            Step::Receive { worker } => self.receive(worker),
            Step::Complete { worker } => self.complete(worker),
            Step::Fault { worker } => self.fault(worker),
        }
    }

    /// What ties worker `w` to the job it took last.
    pub open spec fn worker_consistent(self, w: int) -> bool {
        match self.workers[w] {
            WorkerState::Executing => {
                &&& 0 <= self.claims[w] < self.claimed()
                &&& self.progress[self.claims[w]] == Progress::Running { worker: w }
            },
            WorkerState::Stopped => {
                &&& 0 <= self.claims[w] < self.claimed()
                &&& self.progress[self.claims[w]] == Progress::Abandoned { worker: w }
            },
            WorkerState::WaitingForJob => self.holder == Some(w),
            WorkerState::WaitingForLock => true,
        }
    }

    /// What ties job `t` to the worker that took it.
    pub open spec fn job_consistent(self, t: int) -> bool {
        match self.progress[t] {
            Progress::Queued => t >= self.claimed(),
            Progress::Running { worker } => {
                &&& t < self.claimed()
                &&& self.has_worker(worker)
                &&& self.workers[worker] == WorkerState::Executing
                &&& self.claims[worker] == t
            },
            Progress::Completed => t < self.claimed(),
            Progress::Abandoned { worker } => {
                &&& t < self.claimed()
                &&& self.has_worker(worker)
                &&& self.workers[worker] == WorkerState::Stopped
                &&& self.claims[worker] == t
            },
        }
    }

    /// What holds of a pool at all times.
    ///
    /// There is a worker. The queue holds the jobs that nobody has taken, in
    /// the order of their submission. At most one worker holds the consuming
    /// end, and it is the one that waits for a job. A worker that executes
    /// runs exactly one job, which no other worker runs; a worker that has
    /// stopped has abandoned exactly one. Every job submitted is accounted
    /// for: it waits, or is running, or has run to its end, or was abandoned
    /// by the worker that it took down.
    pub open spec fn inv(self) -> bool {
        &&& self.workers.len() > 0
        &&& self.claims.len() == self.workers.len()
        &&& self.progress.len() == self.jobs.len()
        &&& self.queue.len() <= self.jobs.len()
        &&& self.queue =~= self.jobs.skip(self.claimed())
        &&& (self.holder matches Some(h) ==> self.has_worker(h) && self.workers[h]
            == WorkerState::WaitingForJob)
        &&& forall|w: int| 0 <= w < self.workers.len() ==> #[trigger] self.worker_consistent(w)
        &&& forall|t: int| 0 <= t < self.progress.len() ==> #[trigger] self.job_consistent(t)
        &&& self.jobs.len() == self.queue.len() + self.executing() + self.completed() + self.lost()
    }

    /// A new pool is consistent.
    pub proof fn lemma_init_inv(size: nat)
        requires
            size > 0,
        ensures
            Self::init(size).inv(),
    {
        let m = Self::init(size);
        assert(m.queue =~= m.jobs.skip(m.claimed()));
        lemma_count_all(m.workers, is_live());
        lemma_count_none(m.workers, is_executing());
    }

    /// Every step leaves a consistent pool consistent.
    pub proof fn lemma_step_inv(self, step: Step<J>)
        requires
            self.inv(),
            self.enabled(step),
        ensures
            self.apply(step).inv(),
    {
        let next = self.apply(step);
        match step {
            Step::Submit { job } => {
                lemma_count_push(self.progress, is_completed(), Progress::Queued);
                assert(next.queue =~= next.jobs.skip(next.claimed()));
                assert forall|w: int| 0 <= w < next.workers.len() implies #[trigger] next.worker_consistent(w) by {
                    assert(self.worker_consistent(w));
                }
                assert forall|t: int| 0 <= t < next.progress.len() implies #[trigger] next.job_consistent(t) by {
                    if t < self.progress.len() {
                        assert(self.job_consistent(t));
                    }
                }
            },
            Step::Acquire { worker } => {
                lemma_count_update(self.workers, is_live(), worker, WorkerState::WaitingForJob);
                lemma_count_update(self.workers, is_executing(), worker, WorkerState::WaitingForJob);
                assert forall|w: int| 0 <= w < next.workers.len() implies #[trigger] next.worker_consistent(w) by {
                    assert(self.worker_consistent(w));
                }
                assert forall|t: int| 0 <= t < next.progress.len() implies #[trigger] next.job_consistent(t) by {
                    assert(self.job_consistent(t));
                }
            },
            Step::Receive { worker } => {
                lemma_count_update(self.workers, is_live(), worker, WorkerState::Executing);
                lemma_count_update(self.workers, is_executing(), worker, WorkerState::Executing);
                lemma_count_update(
                    self.progress,
                    is_completed(),
                    self.claimed(),
                    Progress::Running { worker },
                );
                assert(next.queue =~= next.jobs.skip(next.claimed()));
                assert(self.job_consistent(self.claimed()));
                assert forall|w: int| 0 <= w < next.workers.len() implies #[trigger] next.worker_consistent(w) by {
                    assert(self.worker_consistent(w));
                    assert(self.worker_consistent(worker));
                }
                assert forall|t: int| 0 <= t < next.progress.len() implies #[trigger] next.job_consistent(t) by {
                    assert(self.job_consistent(t));
                }
            },
            Step::Complete { worker } => {
                assert(self.worker_consistent(worker));
                lemma_count_update(self.workers, is_live(), worker, WorkerState::WaitingForLock);
                lemma_count_update(self.workers, is_executing(), worker, WorkerState::WaitingForLock);
                lemma_count_update(self.progress, is_completed(), self.claims[worker], Progress::Completed);
                assert forall|w: int| 0 <= w < next.workers.len() implies #[trigger] next.worker_consistent(w) by {
                    assert(self.worker_consistent(w));
                }
                assert forall|t: int| 0 <= t < next.progress.len() implies #[trigger] next.job_consistent(t) by {
                    assert(self.job_consistent(t));
                }
            },
            Step::Fault { worker } => {
                assert(self.worker_consistent(worker));
                lemma_count_update(self.workers, is_live(), worker, WorkerState::Stopped);
                lemma_count_update(self.workers, is_executing(), worker, WorkerState::Stopped);
                lemma_count_update(
                    self.progress,
                    is_completed(),
                    self.claims[worker],
                    Progress::Abandoned { worker },
                );
                assert forall|w: int| 0 <= w < next.workers.len() implies #[trigger] next.worker_consistent(w) by {
                    assert(self.worker_consistent(w));
                }
                assert forall|t: int| 0 <= t < next.progress.len() implies #[trigger] next.job_consistent(t) by {
                    assert(self.job_consistent(t));
                }
            },
        }
    }
}

} // verus!
