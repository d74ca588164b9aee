//! The pool itself: a fixed set of workers and the queue of jobs that they
//! share.

use vstd::prelude::*;
use std::collections::VecDeque;
use crate::count::{lemma_count_all, lemma_count_bounded, lemma_count_update};
use crate::model::{is_live, PoolModel, Progress, Step};
use crate::worker::{Worker, WorkerEvent, WorkerState};

verus! {

/// A pool of workers that take jobs of type `J` off one queue, each job
/// going to exactly one worker, the oldest first.
///
/// The pool keeps the books: which jobs wait, which worker holds the
/// consuming end of the queue, what each worker is doing. A driver gives each
/// worker a thread, which calls [`ThreadPool::acquire`],
/// [`ThreadPool::receive`] and, once it has run the job it was handed,
/// [`ThreadPool::complete`].
pub struct ThreadPool<J> {
    workers: Vec<Worker>,
    queue: VecDeque<J>,
    holder: Option<usize>,
    live: usize,
    claims: Ghost<Seq<int>>,
    jobs: Ghost<Seq<J>>,
    progress: Ghost<Seq<Progress>>,
}

impl<J> View for ThreadPool<J> {
    type V = PoolModel<J>;

    closed spec fn view(&self) -> PoolModel<J> {
        PoolModel {
            workers: Seq::new(self.workers@.len(), |w: int| self.workers@[w].state()),
            holder: match self.holder {
                Some(h) => Some(h as int),
                None => None,
            },
            claims: self.claims@,
            queue: self.queue@,
            jobs: self.jobs@,
            progress: self.progress@,
        }
    }
}

impl<J> ThreadPool<J> {
    /// Whether the pool's books are in order.
    pub closed spec fn wf(&self) -> bool {
        &&& self@.inv()
        &&& self.live == self@.live()
        &&& forall|w: int| 0 <= w < self.workers@.len() ==> (#[trigger] self.workers@[w]).id() == w
    }

    /// A pool whose books are in order is in a consistent state.
    pub proof fn lemma_wf_is_consistent(&self)
        requires
            self.wf(),
        ensures
            self@.inv(),
    {
    }

    /// Creates a pool of `size` workers, numbered from zero, each waiting for
    /// the lock. No job is queued yet.
    pub fn new(size: usize) -> (pool: ThreadPool<J>)
        requires
            size > 0,
        ensures
            pool.wf(),
            pool@ == PoolModel::<J>::init(size as nat),
    {
        let mut workers: Vec<Worker> = Vec::with_capacity(size);
        for id in 0..size
            invariant
                workers@.len() == id,
                forall|w: int| 0 <= w < id ==> (#[trigger] workers@[w]).id() == w,
                forall|w: int| 0 <= w < id ==> (#[trigger] workers@[w]).state() == WorkerState::WaitingForLock,
        {
            workers.push(Worker::new(id));
        }
        let pool = ThreadPool {
            workers,
            queue: VecDeque::new(),
            holder: None,
            live: size,
            claims: Ghost(Seq::new(size as nat, |w: int| 0int)),
            jobs: Ghost(Seq::empty()),
            progress: Ghost(Seq::empty()),
        };
        proof {
            assert(pool@ =~= PoolModel::<J>::init(size as nat));
            PoolModel::<J>::lemma_init_inv(size as nat);
            lemma_count_all(pool@.workers, is_live());
        }
        pool
    }

    /// Submits `job`: puts it at the back of the queue and returns, without
    /// waiting for a worker to take it.
    pub fn execute(&mut self, job: J)
        requires
            old(self).wf(),
            old(self)@.can_submit(),
        ensures
            final(self).wf(),
            final(self)@ == old(self)@.submit(job),
    {
        let ghost submitted = job;
        self.queue.push_back(job);
        self.jobs = Ghost(self.jobs@.push(submitted));
        self.progress = Ghost(self.progress@.push(Progress::Queued));
        proof {
            assert(self@ =~= old(self)@.submit(submitted));
            old(self)@.lemma_step_inv(Step::Submit { job: submitted });
        }
    }

    /// Worker `id` asks for the consuming end of the queue. It gets it, and
    /// `true` is returned, if it waits for it and no worker holds it;
    /// otherwise nothing changes.
    pub fn acquire(&mut self, id: usize) -> (granted: bool)
        requires
            old(self).wf(),
        ensures
            final(self).wf(),
            granted == old(self)@.can_acquire(id as int),
            final(self)@ == if granted { old(self)@.acquire(id as int) } else { old(self)@ },
    {
        if id >= self.workers.len() || self.holder.is_some() {
            return false;
        }
        let mut worker = self.workers[id];
        match worker.step(WorkerEvent::LockAcquired) {
            Some(_) => {
                self.workers.set(id, worker);
                self.holder = Some(id);
                proof {
                    assert(self@ =~= old(self)@.acquire(id as int));
                    old(self)@.lemma_step_inv(Step::Acquire { worker: id as int });
                    lemma_count_update(old(self)@.workers, is_live(), id as int, WorkerState::WaitingForJob);
                }
                true
            },
            None => false,
        }
    }

    /// Worker `id` asks for a job. If it holds the consuming end and a job
    /// waits, it is handed the oldest one and lets go of the consuming end;
    /// otherwise nothing changes and `None` is returned.
    pub fn receive(&mut self, id: usize) -> (job: Option<J>)
        requires
            old(self).wf(),
        ensures
            final(self).wf(),
            job == if old(self)@.can_receive(id as int) { Some(old(self)@.queue[0]) } else { None },
            final(self)@ == if old(self)@.can_receive(id as int) {
                old(self)@.receive(id as int)
            } else {
                old(self)@
            },
    {
        if id >= self.workers.len() || self.queue.len() == 0 {
            return None;
        }
        let mut worker = self.workers[id];
        match worker.step(WorkerEvent::JobReceived) {
            Some(_) => {
                let job = self.queue.pop_front();
                self.workers.set(id, worker);
                self.holder = None;
                self.claims = Ghost(self.claims@.update(id as int, old(self)@.claimed()));
                self.progress = Ghost(
                    self.progress@.update(old(self)@.claimed(), Progress::Running { worker: id as int }),
                );
                proof {
                    assert(self@ =~= old(self)@.receive(id as int));
                    old(self)@.lemma_step_inv(Step::Receive { worker: id as int });
                    lemma_count_update(old(self)@.workers, is_live(), id as int, WorkerState::Executing);
                }
                job
            },
            None => None,
        }
    }

    /// Worker `id` reports that its job ran to its end. If it was running
    /// one, it goes back to waiting for the lock and `true` is returned;
    /// otherwise nothing changes.
    pub fn complete(&mut self, id: usize) -> (done: bool)
        requires
            old(self).wf(),
        ensures
            final(self).wf(),
            done == old(self)@.can_finish(id as int),
            final(self)@ == if done { old(self)@.complete(id as int) } else { old(self)@ },
    {
        if id >= self.workers.len() {
            return false;
        }
        let mut worker = self.workers[id];
        match worker.step(WorkerEvent::JobCompleted) {
            Some(_) => {
                self.workers.set(id, worker);
                self.progress = Ghost(self.progress@.update(self.claims@[id as int], Progress::Completed));
                proof {
                    assert(self@ =~= old(self)@.complete(id as int));
                    old(self)@.lemma_step_inv(Step::Complete { worker: id as int });
                    lemma_count_update(old(self)@.workers, is_live(), id as int, WorkerState::WaitingForLock);
                }
                true
            },
            None => false,
        }
    }

    /// Worker `id` reports that its job faulted. If it was running one, the
    /// worker is lost for good and `true` is returned; otherwise nothing
    /// changes.
    pub fn fault(&mut self, id: usize) -> (lost: bool)
        requires
            old(self).wf(),
        ensures
            final(self).wf(),
            lost == old(self)@.can_finish(id as int),
            final(self)@ == if lost { old(self)@.fault(id as int) } else { old(self)@ },
    {
        if id >= self.workers.len() {
            return false;
        }
        let mut worker = self.workers[id];
        match worker.step(WorkerEvent::JobPanicked) {
            Some(_) => {
                proof {
                    lemma_count_update(self@.workers, is_live(), id as int, WorkerState::Stopped);
                    lemma_count_bounded(self@.workers.update(id as int, WorkerState::Stopped), is_live());
                }
                self.workers.set(id, worker);
                self.live = self.live - 1;
                self.progress = Ghost(
                    self.progress@.update(self.claims@[id as int], Progress::Abandoned { worker: id as int }),
                );
                proof {
                    assert(self@ =~= old(self)@.fault(id as int));
                    old(self)@.lemma_step_inv(Step::Fault { worker: id as int });
                }
                true
            },
            None => false,
        }
    }

    /// The number of workers whose thread still runs.
    pub fn live_workers(&self) -> (n: usize)
        requires
            self.wf(),
        ensures
            n == self@.live(),
    {
        self.live
    }

    /// The number of jobs that wait.
    pub fn pending(&self) -> (n: usize)
        ensures
            n == self@.queue.len(),
    {
        self.queue.len()
    }

    /// The worker that holds the consuming end of the queue, if one does.
    pub fn lock_holder(&self) -> (holder: Option<usize>)
        ensures
            match holder {
                Some(h) => self@.holder == Some(h as int),
                None => self@.holder is None,
            },
    {
        self.holder
    }

    /// Worker `id` as it stands, or `None` where the pool has no such worker.
    pub fn worker(&self, id: usize) -> (worker: Option<Worker>)
        requires
            self.wf(),
        ensures
            match worker {
                Some(w) => self@.has_worker(id as int) && w.id() == id && w.state()
                    == self@.workers[id as int],
                None => !self@.has_worker(id as int),
            },
    {
        if id < self.workers.len() {
            Some(self.workers[id])
        } else {
            None
        }
    }
}

} // verus!
