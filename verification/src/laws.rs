//! What the pool guarantees, whatever its producers and workers do: each law
//! is stated over the model's steps and proved from them.

use vstd::prelude::*;
use crate::count::{
    lemma_count_all, lemma_count_bounded, lemma_count_monotone, lemma_count_none, lemma_count_push,
    lemma_count_update,
};
use crate::model::{is_completed, is_executing, is_live, PoolModel, Progress, Step};
use crate::worker::{transition, WorkerEvent, WorkerState};

verus! {

/// Whether a job that stood at `before` may later stand at `after`: a job
/// leaves the queue once, for one worker, and ends there.
pub open spec fn follows(before: Progress, after: Progress) -> bool {
    match before {
        Progress::Queued => true,
        Progress::Running { worker } => {
            ||| after == before
            ||| after is Completed
            ||| after == Progress::Abandoned { worker }
        },
        Progress::Completed => after is Completed,
        Progress::Abandoned { worker } => after == before,
    }
}

/// What the worker that `step` names is told, and `None` for a submission,
/// which tells no worker anything.
pub open spec fn event_of<J>(step: Step<J>) -> Option<(int, WorkerEvent)> {
    match step {
        Step::Submit { job } => None,
        Step::Acquire { worker } => Some((worker, WorkerEvent::LockAcquired)),
        Step::Receive { worker } => Some((worker, WorkerEvent::JobReceived)),
        Step::Complete { worker } => Some((worker, WorkerEvent::JobCompleted)),
        Step::Fault { worker } => Some((worker, WorkerEvent::JobPanicked)),
    }
}

impl<J> PoolModel<J> {
    /// The pool after `steps`, taken one after the other.
    pub open spec fn run(self, steps: Seq<Step<J>>) -> Self
        decreases steps.len(),
    {
        if steps.len() == 0 {
            self
        } else {
            self.run(steps.drop_last()).apply(steps.last())
        }
    }

    /// Whether `steps` can be taken one after the other: each is enabled
    /// where the ones before it have led.
    pub open spec fn admits(self, steps: Seq<Step<J>>) -> bool
        decreases steps.len(),
    {
        steps.len() == 0 || (self.admits(steps.drop_last()) && self.run(steps.drop_last()).enabled(
            steps.last(),
        ))
    }

    /// The jobs that `steps` hand to workers, in the order in which they are
    /// handed out.
    pub open spec fn handed_out(self, steps: Seq<Step<J>>) -> Seq<J>
        decreases steps.len(),
    {
        if steps.len() == 0 {
            Seq::empty()
        } else {
            let earlier = self.handed_out(steps.drop_last());
            match steps.last() {
                Step::Receive { worker } => earlier.push(self.run(steps.drop_last()).queue[0]),
                _ => earlier,
            }
        }
    }

    /// The jobs that `steps` submit, in the order in which they are
    /// submitted.
    pub open spec fn submitted(steps: Seq<Step<J>>) -> Seq<J>
        decreases steps.len(),
    {
        if steps.len() == 0 {
            Seq::empty()
        } else {
            let earlier = Self::submitted(steps.drop_last());
            match steps.last() {
                Step::Submit { job } => earlier.push(job),
                _ => earlier,
            }
        }
    }

    /// Every state that a pool reaches by steps it admits is consistent.
    pub proof fn law_steps_keep_consistency(self, steps: Seq<Step<J>>)
        requires
            self.inv(),
            self.admits(steps),
        ensures
            self.run(steps).inv(),
        decreases steps.len(),
    {
        if steps.len() > 0 {
            self.law_steps_keep_consistency(steps.drop_last());
            self.run(steps.drop_last()).lemma_step_inv(steps.last());
        }
    }

    /// Every state that a new pool can reach is consistent.
    pub proof fn law_reachable_states_are_consistent(size: nat, steps: Seq<Step<J>>)
        requires
            size > 0,
            Self::init(size).admits(steps),
        ensures
            Self::init(size).run(steps).inv(),
    {
        Self::lemma_init_inv(size);
        Self::init(size).law_steps_keep_consistency(steps);
    }

    /// The workers of a new pool are all live, so that it takes submissions.
    pub proof fn law_new_pool_takes_jobs(size: nat)
        requires
            size > 0,
        ensures
            Self::init(size).live() == size,
            Self::init(size).can_submit(),
    {
        lemma_count_all(Self::init(size).workers, is_live());
    }

    /// Submitting a job only queues it: the job waits at the back of the
    /// queue, no worker has moved, and nothing has run. The submission is
    /// over before any part of the job is.
    pub proof fn law_submission_only_queues(self, job: J)
        ensures
            self.submit(job).workers == self.workers,
            self.submit(job).holder == self.holder,
            self.submit(job).queue.last() == job,
            self.submit(job).queue.len() == self.queue.len() + 1,
            self.submit(job).progress.last() == Progress::Queued,
            self.submit(job).progress.take(self.progress.len() as int) == self.progress,
            self.submit(job).executing() == self.executing(),
            self.submit(job).completed() == self.completed(),
    {
        assert(self.submit(job).progress.take(self.progress.len() as int) =~= self.progress);
        lemma_count_push(self.progress, is_completed(), Progress::Queued);
    }

    /// A step never takes a job back: each job submitted so far is still the
    /// same job, and it stands where it stood or further on. A job that left
    /// the queue does not return to it, a job that a worker runs stays with
    /// that worker, and a job that ended has ended.
    pub proof fn law_step_advances_jobs(self, step: Step<J>)
        requires
            self.inv(),
            self.enabled(step),
        ensures
            self.jobs.is_prefix_of(self.apply(step).jobs),
            forall|t: int|
                0 <= t < self.jobs.len() ==> follows(
                    self.progress[t],
                    #[trigger] self.apply(step).progress[t],
                ),
    {
        let next = self.apply(step);
        assert(self.jobs =~= next.jobs.subrange(0, self.jobs.len() as int));
        assert forall|t: int| 0 <= t < self.jobs.len() implies follows(
            self.progress[t],
            #[trigger] next.progress[t],
        ) by {
            assert(self.job_consistent(t));
            match step {
                Step::Submit { job } => {},
                Step::Acquire { worker } => {},
                Step::Receive { worker } => {
                    assert(self.job_consistent(self.claimed()));
                },
                Step::Complete { worker } => {
                    assert(self.worker_consistent(worker));
                },
                Step::Fault { worker } => {
                    assert(self.worker_consistent(worker));
                },
            }
        }
    }

    /// However many steps are taken, no job is taken back. In particular no
    /// job runs twice: once it is past the queue it is never handed out
    /// again.
    pub proof fn law_jobs_never_go_back(self, steps: Seq<Step<J>>)
        requires
            self.inv(),
            self.admits(steps),
        ensures
            self.jobs.is_prefix_of(self.run(steps).jobs),
            forall|t: int|
                0 <= t < self.jobs.len() ==> follows(
                    self.progress[t],
                    #[trigger] self.run(steps).progress[t],
                ),
        decreases steps.len(),
    {
        let end = self.run(steps);
        if steps.len() > 0 {
            let before = self.run(steps.drop_last());
            self.law_jobs_never_go_back(steps.drop_last());
            self.law_steps_keep_consistency(steps.drop_last());
            before.law_step_advances_jobs(steps.last());
            assert(self.jobs =~= end.jobs.subrange(0, self.jobs.len() as int)) by {
                assert(self.jobs =~= before.jobs.subrange(0, self.jobs.len() as int));
                assert(before.jobs =~= end.jobs.subrange(0, before.jobs.len() as int));
            }
            assert forall|t: int| 0 <= t < self.jobs.len() implies follows(
                self.progress[t],
                #[trigger] end.progress[t],
            ) by {
                assert(follows(self.progress[t], before.progress[t]));
                assert(follows(before.progress[t], end.progress[t]));
            }
        } else {
            assert(self.jobs =~= end.jobs.subrange(0, self.jobs.len() as int));
        }
    }

    /// Jobs leave the queue in the order of their submission, each exactly
    /// once: what the workers were handed, in the order in which they were
    /// handed it, is the sequence of the jobs submitted, up to the first one
    /// that still waits.
    pub proof fn law_jobs_leave_in_order(self, steps: Seq<Step<J>>)
        requires
            self.inv(),
            self.admits(steps),
        ensures
            self.run(steps).jobs.take(self.run(steps).claimed()) == self.jobs.take(self.claimed())
                + self.handed_out(steps),
        decreases steps.len(),
    {
        let end = self.run(steps);
        if steps.len() == 0 {
            assert(self.jobs.take(self.claimed()) + self.handed_out(steps) =~= self.jobs.take(
                self.claimed(),
            ));
        } else {
            let before = self.run(steps.drop_last());
            self.law_jobs_leave_in_order(steps.drop_last());
            self.law_steps_keep_consistency(steps.drop_last());
            before.lemma_step_inv(steps.last());
            match steps.last() {
                Step::Receive { worker } => {
                    assert(before.queue[0] == before.jobs[before.claimed()]);
                    assert(end.jobs.take(end.claimed()) =~= before.jobs.take(before.claimed()).push(
                        before.queue[0],
                    ));
                    assert(self.jobs.take(self.claimed()) + self.handed_out(steps) =~= (
                    self.jobs.take(self.claimed()) + self.handed_out(steps.drop_last())).push(
                        before.queue[0],
                    ));
                },
                Step::Submit { job } => {
                    assert(end.jobs.take(end.claimed()) =~= before.jobs.take(before.claimed()));
                },
                _ => {
                    assert(end.jobs.take(end.claimed()) =~= before.jobs.take(before.claimed()));
                },
            }
        }
    }

    /// From a new pool on, the jobs handed out are the jobs submitted, in
    /// order and without repetition, up to the first one that still waits.
    pub proof fn law_each_job_is_handed_out_once(size: nat, steps: Seq<Step<J>>)
        requires
            size > 0,
            Self::init(size).admits(steps),
        ensures
            Self::init(size).handed_out(steps) == Self::init(size).run(steps).jobs.take(
                Self::init(size).run(steps).claimed(),
            ),
    {
        let start = Self::init(size);
        Self::lemma_init_inv(size);
        start.law_jobs_leave_in_order(steps);
        assert(start.jobs.take(start.claimed()) + start.handed_out(steps) =~= start.handed_out(steps));
    }

    /// The pool's record of jobs is the record of the submissions: no step
    /// adds a job but a submission, and none takes one away.
    pub proof fn law_jobs_are_the_submissions(self, steps: Seq<Step<J>>)
        ensures
            self.run(steps).jobs == self.jobs + Self::submitted(steps),
        decreases steps.len(),
    {
        if steps.len() == 0 {
            assert(self.run(steps).jobs =~= self.jobs + Self::submitted(steps));
        } else {
            self.law_jobs_are_the_submissions(steps.drop_last());
            assert(self.run(steps).jobs =~= self.jobs + Self::submitted(steps));
        }
    }

    /// Without a fault among the steps, the pool keeps all its live workers.
    pub proof fn law_no_fault_no_loss(self, steps: Seq<Step<J>>)
        requires
            self.inv(),
            self.admits(steps),
            forall|i: int| 0 <= i < steps.len() ==> !((#[trigger] steps[i]) is Fault),
        ensures
            self.run(steps).live() == self.live(),
        decreases steps.len(),
    {
        if steps.len() > 0 {
            let earlier = steps.drop_last();
            assert forall|i: int| 0 <= i < earlier.len() implies !((#[trigger] earlier[i]) is Fault) by {
                assert(earlier[i] == steps[i]);
            }
            self.law_no_fault_no_loss(earlier);
            self.law_steps_keep_consistency(earlier);
            assert(!(steps[steps.len() - 1] is Fault));
            self.run(earlier).law_only_faults_cost_workers(steps.last());
        }
    }

    /// When a new pool has come to rest, whatever its size and whatever the
    /// steps that led there, the jobs handed to its workers are the jobs
    /// submitted to it: every one of them, each once, in the order of
    /// submission. If none of them faulted, all of them ran to their end, so
    /// that as many jobs have completed as were submitted.
    pub proof fn law_pool_at_rest_has_run_every_submission(size: nat, steps: Seq<Step<J>>)
        requires
            size > 0,
            Self::init(size).admits(steps),
            Self::init(size).run(steps).idle(),
        ensures
            Self::init(size).handed_out(steps) == Self::submitted(steps),
            (forall|i: int| 0 <= i < steps.len() ==> !((#[trigger] steps[i]) is Fault)) ==> {
                &&& Self::init(size).run(steps).completed() == Self::submitted(steps).len()
                &&& forall|t: int|
                    0 <= t < Self::submitted(steps).len() ==> (#[trigger] Self::init(size).run(
                        steps,
                    ).progress[t]) is Completed
            },
    {
        let start = Self::init(size);
        let end = start.run(steps);
        Self::law_reachable_states_are_consistent(size, steps);
        Self::law_each_job_is_handed_out_once(size, steps);
        start.law_jobs_are_the_submissions(steps);
        assert(end.jobs =~= Self::submitted(steps));
        assert(end.jobs.take(end.claimed()) =~= end.jobs);
        end.law_idle_pool_has_run_every_job();
        if forall|i: int| 0 <= i < steps.len() ==> !((#[trigger] steps[i]) is Fault) {
            Self::lemma_init_inv(size);
            start.law_no_fault_no_loss(steps);
            start.law_lost_workers_stay_lost(steps);
            Self::law_new_pool_takes_jobs(size);
        }
    }

    /// When nothing waits and nothing runs, every job submitted has ended,
    /// and the jobs that ran to their end are all the jobs but one for each
    /// worker lost. With no worker lost, every job ran to its end, exactly
    /// once: their number is the number of jobs submitted.
    pub proof fn law_idle_pool_has_run_every_job(self)
        requires
            self.inv(),
            self.idle(),
        ensures
            forall|t: int|
                0 <= t < self.jobs.len() ==> (#[trigger] self.progress[t]) is Completed
                    || self.progress[t] is Abandoned,
            self.completed() + self.lost() == self.jobs.len(),
            self.live() == self.size() ==> self.completed() == self.jobs.len(),
            self.live() == self.size() ==> forall|t: int|
                0 <= t < self.jobs.len() ==> (#[trigger] self.progress[t]) is Completed,
    {
        lemma_count_none(self.workers, is_executing());
        assert forall|t: int| 0 <= t < self.jobs.len() implies (#[trigger] self.progress[t]) is Completed
            || self.progress[t] is Abandoned by {
            assert(self.job_consistent(t));
        }
        if self.live() == self.size() {
            lemma_count_all(self.progress, is_completed());
        }
    }

    /// No more jobs run at once than workers are live, and no more workers
    /// are live than the pool was made with.
    pub proof fn law_capacity_is_bounded(self)
        ensures
            self.executing() <= self.live() <= self.size(),
    {
        lemma_count_monotone(self.workers, is_executing(), is_live());
        lemma_count_bounded(self.workers, is_live());
    }

    /// A fault costs the pool exactly one worker, and no other step changes
    /// the number of live workers. A worker that has stopped stays stopped.
    pub proof fn law_only_faults_cost_workers(self, step: Step<J>)
        requires
            self.inv(),
            self.enabled(step),
        ensures
            self.apply(step).size() == self.size(),
            self.apply(step).live() == if step is Fault { self.live() - 1 } else { self.live() as int },
            forall|w: int|
                0 <= w < self.size() && self.workers[w] == WorkerState::Stopped
                    ==> #[trigger] self.apply(step).workers[w] == WorkerState::Stopped,
    {
        match step {
            Step::Submit { job } => {},
            Step::Acquire { worker } => {
                lemma_count_update(self.workers, is_live(), worker, WorkerState::WaitingForJob);
            },
            Step::Receive { worker } => {
                lemma_count_update(self.workers, is_live(), worker, WorkerState::Executing);
            },
            Step::Complete { worker } => {
                lemma_count_update(self.workers, is_live(), worker, WorkerState::WaitingForLock);
            },
            Step::Fault { worker } => {
                lemma_count_update(self.workers, is_live(), worker, WorkerState::Stopped);
            },
        }
    }

    /// Lost capacity never comes back: whatever steps are taken, the pool
    /// keeps its size, no stopped worker starts again, and the number of live
    /// workers does not grow.
    pub proof fn law_lost_workers_stay_lost(self, steps: Seq<Step<J>>)
        requires
            self.inv(),
            self.admits(steps),
        ensures
            self.run(steps).size() == self.size(),
            self.run(steps).live() <= self.live(),
            forall|w: int|
                0 <= w < self.size() && self.workers[w] == WorkerState::Stopped
                    ==> #[trigger] self.run(steps).workers[w] == WorkerState::Stopped,
        decreases steps.len(),
    {
        if steps.len() > 0 {
            let before = self.run(steps.drop_last());
            self.law_lost_workers_stay_lost(steps.drop_last());
            self.law_steps_keep_consistency(steps.drop_last());
            before.law_only_faults_cost_workers(steps.last());
            assert forall|w: int|
                0 <= w < self.size() && self.workers[w] == WorkerState::Stopped
                    implies #[trigger] self.run(steps).workers[w] == WorkerState::Stopped by {
                assert(before.workers[w] == WorkerState::Stopped);
            }
        }
    }

    /// A pool without workers could never do anything: it takes no
    /// submission, and no step of a worker is possible.
    pub proof fn law_pool_without_workers_is_stuck(self, step: Step<J>)
        requires
            self.size() == 0,
        ensures
            !self.enabled(step),
    {
    }

    /// A job that waits does not wait in vain: as long as some live worker
    /// is not busy, the worker that holds the consuming end can take the job,
    /// or, where none holds it, some worker can take hold of it.
    pub proof fn law_waiting_job_can_be_taken(self)
        requires
            self.inv(),
            self.queue.len() > 0,
            self.executing() < self.live(),
        ensures
            match self.holder {
                Some(h) => self.can_receive(h),
                None => exists|w: int| self.can_acquire(w),
            },
    {
        if forall|w: int| 0 <= w < self.workers.len() && is_live()(#[trigger] self.workers[w])
            ==> is_executing()(self.workers[w]) {
            lemma_count_monotone(self.workers, is_live(), is_executing());
        } else {
            let w = choose|w: int| 0 <= w < self.workers.len() && is_live()(#[trigger] self.workers[w])
                && !is_executing()(self.workers[w]);
            match self.holder {
                Some(h) => {
                    assert(self.can_receive(h));
                },
                None => {
                    assert(self.worker_consistent(w));
                    assert(self.can_acquire(w));
                },
            }
        }
    }

    /// Taking `step` and then `rest` is running the two as one sequence.
    pub proof fn lemma_run_after_step(self, step: Step<J>, rest: Seq<Step<J>>)
        ensures
            self.run(seq![step] + rest) == self.apply(step).run(rest),
            self.admits(seq![step] + rest) == (self.enabled(step) && self.apply(step).admits(rest)),
        decreases rest.len(),
    {
        let all = seq![step] + rest;
        if rest.len() == 0 {
            assert(all.drop_last() =~= Seq::<Step<J>>::empty());
            assert(self.run(all.drop_last()) == self);
            assert(self.admits(all.drop_last()));
        } else {
            assert(all.drop_last() =~= seq![step] + rest.drop_last());
            self.lemma_run_after_step(step, rest.drop_last());
        }
    }

    /// A pool with a live worker can finish everything: there are steps of
    /// its workers alone, with no fault among them, after which no job waits
    /// and none runs.
    pub proof fn law_live_pool_can_finish(self) -> (steps: Seq<Step<J>>)
        requires
            self.inv(),
            self.live() > 0,
        ensures
            self.admits(steps),
            self.run(steps).idle(),
            self.run(steps).jobs == self.jobs,
            self.run(steps).live() == self.live(),
            forall|i: int|
                0 <= i < steps.len() ==> (#[trigger] steps[i]) is Acquire || steps[i] is Receive
                    || steps[i] is Complete,
        decreases 2 * self.queue.len() + self.executing(), if self.holder is None { 1nat } else { 0nat },
    {
        if self.executing() == 0 && self.queue.len() == 0 {
            lemma_count_none(self.workers, is_executing());
            assert(self.run(Seq::<Step<J>>::empty()) == self);
            Seq::empty()
        } else {
            let step = if self.executing() > 0 {
                lemma_count_none(self.workers, is_executing());
                let w = choose|w: int|
                    0 <= w < self.workers.len() && is_executing()(#[trigger] self.workers[w]);
                lemma_count_update(self.workers, is_executing(), w, WorkerState::WaitingForLock);
                Step::Complete { worker: w }
            } else {
                self.law_waiting_job_can_be_taken();
                match self.holder {
                    Some(h) => {
                        lemma_count_update(self.workers, is_executing(), h, WorkerState::Executing);
                        Step::Receive { worker: h }
                    },
                    None => {
                        let w = choose|w: int| self.can_acquire(w);
                        lemma_count_update(self.workers, is_executing(), w, WorkerState::WaitingForJob);
                        Step::Acquire { worker: w }
                    },
                }
            };
            self.lemma_step_inv(step);
            self.law_only_faults_cost_workers(step);
            let rest = self.apply(step).law_live_pool_can_finish();
            self.lemma_run_after_step(step, rest);
            seq![step] + rest
        }
    }

    /// The consuming end of the queue is never in two hands: at most one
    /// worker waits for a job.
    pub proof fn law_one_worker_holds_the_queue(self, v: int, w: int)
        requires
            self.inv(),
            self.has_worker(v),
            self.has_worker(w),
            self.workers[v] == WorkerState::WaitingForJob,
            self.workers[w] == WorkerState::WaitingForJob,
        ensures
            v == w,
            self.holder == Some(w),
    {
        assert(self.worker_consistent(v));
        assert(self.worker_consistent(w));
    }

    /// A job runs on one worker, and a worker runs one job at a time.
    pub proof fn law_one_job_per_worker(self, s: int, t: int)
        requires
            self.inv(),
            0 <= s < self.jobs.len(),
            0 <= t < self.jobs.len(),
            self.progress[s] is Running,
            self.progress[t] is Running,
        ensures
            s != t ==> self.progress[s]->Running_worker != self.progress[t]->Running_worker,
    {
        assert(self.job_consistent(s));
        assert(self.job_consistent(t));
    }

    /// Every step but a submission moves the one worker it names, by the
    /// transition that the worker's own state machine prescribes, and leaves
    /// the others where they were; a submission moves none.
    pub proof fn law_steps_follow_the_worker_cycle(self, step: Step<J>)
        requires
            self.inv(),
            self.enabled(step),
        ensures
            match event_of(step) {
                Some((w, event)) => {
                    &&& self.has_worker(w)
                    &&& transition(self.workers[w], event) is Some
                    &&& self.apply(step).workers == self.workers.update(
                        w,
                        transition(self.workers[w], event).unwrap(),
                    )
                },
                None => self.apply(step).workers == self.workers,
            },
    {
    }

    /// A pool can be filled: a new pool admits steps after which as many jobs
    /// as it has workers run at once, job `w` on worker `w`, before any of
    /// them has ended.
    pub proof fn law_every_worker_can_be_busy(batch: Seq<J>) -> (steps: Seq<Step<J>>)
        requires
            batch.len() > 0,
        ensures
            Self::init(batch.len()).admits(steps),
            forall|i: int|
                0 <= i < steps.len() ==> !((#[trigger] steps[i]) is Complete) && !(steps[i] is Fault),
            ({
                let full = Self::init(batch.len()).run(steps);
                &&& full.jobs == batch
                &&& full.queue.len() == 0
                &&& full.executing() == batch.len()
                &&& full.completed() == 0
                &&& forall|w: int|
                    0 <= w < batch.len() ==> {
                        &&& #[trigger] full.workers[w] == WorkerState::Executing
                        &&& full.progress[w] == Progress::Running { worker: w }
                    }
            }),
    {
        let steps = Self::lemma_fill(batch, batch.len());
        let full = Self::init(batch.len()).run(steps);
        lemma_count_all(full.workers, is_executing());
        lemma_count_none(full.progress, is_completed());
        steps
    }

    /// Taking `steps` and then `step` is running the two as one sequence.
    pub proof fn lemma_run_then_step(self, steps: Seq<Step<J>>, step: Step<J>)
        ensures
            self.run(steps.push(step)) == self.run(steps).apply(step),
            self.admits(steps.push(step)) == (self.admits(steps) && self.run(steps).enabled(step)),
    {
        assert(steps.push(step).drop_last() =~= steps);
    }

    /// The steps that submit `batch` to a new pool, and where they lead.
    proof fn lemma_submissions(size: nat, batch: Seq<J>) -> (steps: Seq<Step<J>>)
        requires
            size > 0,
        ensures
            Self::init(size).admits(steps),
            forall|i: int| 0 <= i < steps.len() ==> (#[trigger] steps[i]) is Submit,
            Self::init(size).run(steps).inv(),
            Self::init(size).run(steps) == (PoolModel {
                queue: batch,
                jobs: batch,
                progress: Seq::new(batch.len(), |t: int| Progress::Queued),
                ..Self::init(size)
            }),
        decreases batch.len(),
    {
        let start = Self::init(size);
        Self::lemma_init_inv(size);
        if batch.len() == 0 {
            let steps = Seq::<Step<J>>::empty();
            assert(start.run(steps) =~= (PoolModel {
                queue: batch,
                jobs: batch,
                progress: Seq::new(batch.len(), |t: int| Progress::Queued),
                ..start
            }));
            steps
        } else {
            let earlier = Self::lemma_submissions(size, batch.drop_last());
            let step = Step::Submit { job: batch.last() };
            let before = start.run(earlier);
            lemma_count_all(before.workers, is_live());
            before.lemma_step_inv(step);
            start.lemma_run_then_step(earlier, step);
            assert(batch.drop_last().push(batch.last()) =~= batch);
            assert(before.apply(step) =~= (PoolModel {
                queue: batch,
                jobs: batch,
                progress: Seq::new(batch.len(), |t: int| Progress::Queued),
                ..start
            }));
            earlier.push(step)
        }
    }

    /// The steps by which a batch of as many jobs as the pool has workers is
    /// submitted to a new pool and the first `k` workers take one each, and
    /// where they lead.
    proof fn lemma_fill(batch: Seq<J>, k: nat) -> (steps: Seq<Step<J>>)
        requires
            0 < batch.len(),
            k <= batch.len(),
        ensures
            Self::init(batch.len()).admits(steps),
            forall|i: int|
                0 <= i < steps.len() ==> !((#[trigger] steps[i]) is Complete) && !(steps[i] is Fault),
            ({
                let reached = Self::init(batch.len()).run(steps);
                &&& reached.inv()
                &&& reached.holder is None
                &&& reached.workers.len() == batch.len()
                &&& reached.jobs == batch
                &&& reached.queue.len() == batch.len() - k
                &&& forall|w: int|
                    0 <= w < batch.len() ==> #[trigger] reached.workers[w] == if w < k {
                        WorkerState::Executing
                    } else {
                        WorkerState::WaitingForLock
                    }
                &&& forall|t: int|
                    0 <= t < batch.len() ==> #[trigger] reached.progress[t] == if t < k {
                        Progress::Running { worker: t }
                    } else {
                        Progress::Queued
                    }
            }),
        decreases k,
    {
        let start = Self::init(batch.len());
        if k == 0 {
            Self::lemma_submissions(batch.len(), batch)
        } else {
            let earlier = Self::lemma_fill(batch, (k - 1) as nat);
            let take_lock = Step::Acquire { worker: k - 1 };
            let take_job = Step::Receive { worker: k - 1 };
            let before = start.run(earlier);
            before.lemma_step_inv(take_lock);
            before.apply(take_lock).lemma_step_inv(take_job);
            start.lemma_run_then_step(earlier, take_lock);
            start.lemma_run_then_step(earlier.push(take_lock), take_job);
            earlier.push(take_lock).push(take_job)
        }
    }
}

} // verus!
