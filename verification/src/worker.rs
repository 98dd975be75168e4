//! The worker-pool coordination protocol.
//!
//! A fixed set of workers pulls jobs from a shared bounded queue, sends one
//! result per job through a bounded result channel to a single sink, and is
//! shut down by exactly one terminate message per worker. This module models
//! that protocol as a state machine over the message counts: every transition
//! a thread can take is an operation here, and the drain/join protocol is run
//! to completion with its guarantees proved. The threads, channels and joins
//! that realize the protocol live outside the verified library and follow
//! these transitions step by step. A worker's receive may carry a bounded
//! timeout as a liveness safeguard against an improperly torn-down pool;
//! that safeguard never fires under the protocol modeled here, which always
//! releases every worker with a terminate message.

use vstd::prelude::*;

verus! {

/// A message on the shared job queue: either one unit of work or the request
/// that the receiving worker exit. One `Terminate` releases exactly one
/// worker, so a full drain sends one per worker.
pub enum Message<T> {
    NewJob(T),
    Terminate,
}

/// The coordination state of a pool: how many job and terminate messages sit
/// in the bounded job queue, what each worker is doing, how many results sit
/// in the bounded result channel, and how many the sink has observed.
pub ghost struct PoolView {
    /// Number of worker threads; fixed for the pool's lifetime.
    pub worker_count: nat,
    /// Capacity of the shared job queue.
    pub queue_capacity: nat,
    /// Capacity of the result channel.
    pub channel_capacity: nat,
    /// Job messages waiting in the job queue.
    pub queued_jobs: nat,
    /// Terminate messages waiting in the job queue.
    pub queued_terminates: nat,
    /// Workers currently executing a job.
    pub running: nat,
    /// Workers that have taken a terminate message and exited.
    pub exited: nat,
    /// Results sitting in the result channel.
    pub in_channel: nat,
    /// Results the sink has consumed.
    pub observed: nat,
    /// Jobs accepted by `submit` so far.
    pub submitted: nat,
}

impl PoolView {
    /// Workers blocked on the job queue, waiting for a message.
    pub open spec fn idle(self) -> int {
        self.worker_count - self.running - self.exited
    }

    /// Messages currently in the job queue.
    pub open spec fn queue_len(self) -> int {
        self.queued_jobs + self.queued_terminates as int
    }

    /// The protocol invariant: workers are idle, running or exited; both
    /// buffers respect their capacities; and every submitted job is in
    /// exactly one place — queued, running, its result in the channel, or
    /// its result observed by the sink. The last clause is the conservation
    /// law behind the drain guarantee: nothing is dropped, nothing is
    /// duplicated.
    pub open spec fn wf(self) -> bool {
        &&& self.worker_count >= 1
        &&& self.queue_capacity >= 1
        &&& self.channel_capacity >= 1
        &&& self.running + self.exited <= self.worker_count
        &&& self.queue_len() <= self.queue_capacity
        &&& self.in_channel <= self.channel_capacity
        &&& self.submitted == self.queued_jobs + self.running + self.in_channel + self.observed
    }

    /// An active pool: no worker has exited and no terminate message has
    /// been sent yet. `construct` yields an active pool and every transition
    /// other than the drain protocol keeps it active.
    pub open spec fn active(self) -> bool {
        &&& self.wf()
        &&& self.exited == 0
        &&& self.queued_terminates == 0
    }
}

/// The pool's coordination state, advanced one thread step at a time.
pub struct PoolProtocol {
    worker_count: usize,
    queue_capacity: usize,
    channel_capacity: usize,
    queued_jobs: usize,
    queued_terminates: usize,
    running: usize,
    exited: usize,
    in_channel: usize,
    observed: usize,
    submitted: usize,
}

impl View for PoolProtocol {
    type V = PoolView;

    closed spec fn view(&self) -> PoolView {
        PoolView {
            worker_count: self.worker_count as nat,
            queue_capacity: self.queue_capacity as nat,
            channel_capacity: self.channel_capacity as nat,
            queued_jobs: self.queued_jobs as nat,
            queued_terminates: self.queued_terminates as nat,
            running: self.running as nat,
            exited: self.exited as nat,
            in_channel: self.in_channel as nat,
            observed: self.observed as nat,
            submitted: self.submitted as nat,
        }
    }
}

impl PoolProtocol {
    /// A pool of `worker_count` workers over a job queue of capacity
    /// `job_queue_capacity` and a result channel of capacity
    /// `channel_capacity`; all workers start idle and nothing is queued.
    pub fn construct(worker_count: usize, job_queue_capacity: usize, channel_capacity: usize) -> (r:
        Self)
        requires
            worker_count >= 1,
            job_queue_capacity >= 1,
            channel_capacity >= 1,
        ensures
            r@.active(),
            r@.worker_count == worker_count,
            r@.queue_capacity == job_queue_capacity,
            r@.channel_capacity == channel_capacity,
            r@.queued_jobs == 0,
            r@.running == 0,
            r@.in_channel == 0,
            r@.observed == 0,
            r@.submitted == 0,
    {
        PoolProtocol {
            worker_count,
            queue_capacity: job_queue_capacity,
            channel_capacity,
            queued_jobs: 0,
            queued_terminates: 0,
            running: 0,
            exited: 0,
            in_channel: 0,
            observed: 0,
            submitted: 0,
        }
    }

    /// A pool with the default queue sizing: the job queue holds twice the
    /// worker count, allowing modest look-ahead without unbounded growth.
    pub fn new(worker_count: usize, channel_capacity: usize) -> (r: Self)
        requires
            1 <= worker_count <= usize::MAX / 2,
            channel_capacity >= 1,
        ensures
            r@.active(),
            r@.worker_count == worker_count,
            r@.queue_capacity == 2 * worker_count,
            r@.channel_capacity == channel_capacity,
            r@.queued_jobs == 0,
            r@.running == 0,
            r@.in_channel == 0,
            r@.observed == 0,
            r@.submitted == 0,
    {
        Self::construct(worker_count, worker_count * 2, channel_capacity)
    }

    /// The submitting thread offers one job. The job is accepted exactly
    /// when the bounded job queue has room; when the queue is full the offer
    /// is refused and the state is unchanged — the submitter is blocked and
    /// must let a worker take a message first. This is the backpressure
    /// bound: a pool never holds more than `queue_capacity` waiting jobs.
    pub fn submit(&mut self) -> (accepted: bool)
        requires
            old(self)@.wf(),
            old(self)@.submitted < usize::MAX,
        ensures
            final(self)@.wf(),
            accepted == (old(self)@.queue_len() < old(self)@.queue_capacity),
            accepted ==> final(self)@ == (PoolView {
                queued_jobs: old(self)@.queued_jobs + 1,
                submitted: old(self)@.submitted + 1,
                ..old(self)@
            }),
            !accepted ==> final(self)@ == old(self)@,
    {
        if self.queued_jobs < self.queue_capacity - self.queued_terminates {
            self.queued_jobs = self.queued_jobs + 1;
            self.submitted = self.submitted + 1;
            true
        } else {
            false
        }
    }

    /// An idle worker takes a job message off the queue and starts running
    /// it.
    pub fn worker_take_job(&mut self)
        requires
            old(self)@.wf(),
            old(self)@.idle() >= 1,
            old(self)@.queued_jobs >= 1,
        ensures
            final(self)@.wf(),
            final(self)@ == (PoolView {
                queued_jobs: (old(self)@.queued_jobs - 1) as nat,
                running: old(self)@.running + 1,
                ..old(self)@
            }),
    {
        self.queued_jobs = self.queued_jobs - 1;
        self.running = self.running + 1;
    }

    /// A running worker finishes its job and sends the result into the
    /// result channel, becoming idle again. The send is possible exactly
    /// when the bounded channel has room; a worker with a result for a full
    /// channel is blocked, which transitively blocks the queue and the
    /// submitter.
    pub fn worker_send_result(&mut self)
        requires
            old(self)@.wf(),
            old(self)@.running >= 1,
            old(self)@.in_channel < old(self)@.channel_capacity,
        ensures
            final(self)@.wf(),
            final(self)@ == (PoolView {
                running: (old(self)@.running - 1) as nat,
                in_channel: old(self)@.in_channel + 1,
                ..old(self)@
            }),
    {
        self.running = self.running - 1;
        self.in_channel = self.in_channel + 1;
    }

    /// The sink consumes one result from the result channel.
    pub fn sink_receive(&mut self)
        requires
            old(self)@.wf(),
            old(self)@.in_channel >= 1,
        ensures
            final(self)@.wf(),
            final(self)@ == (PoolView {
                in_channel: (old(self)@.in_channel - 1) as nat,
                observed: old(self)@.observed + 1,
                ..old(self)@
            }),
    {
        self.in_channel = self.in_channel - 1;
        self.observed = self.observed + 1;
    }

    /// The draining thread sends one terminate message; accepted exactly
    /// when the job queue has room.
    pub fn send_terminate(&mut self) -> (accepted: bool)
        requires
            old(self)@.wf(),
            old(self)@.queued_terminates < usize::MAX,
        ensures
            final(self)@.wf(),
            accepted == (old(self)@.queue_len() < old(self)@.queue_capacity),
            accepted ==> final(self)@ == (PoolView {
                queued_terminates: old(self)@.queued_terminates + 1,
                ..old(self)@
            }),
            !accepted ==> final(self)@ == old(self)@,
    {
        if self.queued_terminates < self.queue_capacity - self.queued_jobs {
            self.queued_terminates = self.queued_terminates + 1;
            true
        } else {
            false
        }
    }

    /// An idle worker takes a terminate message and exits. One terminate
    /// message releases exactly one worker.
    pub fn worker_take_terminate(&mut self)
        requires
            old(self)@.wf(),
            old(self)@.idle() >= 1,
            old(self)@.queued_terminates >= 1,
        ensures
            final(self)@.wf(),
            final(self)@ == (PoolView {
                queued_terminates: (old(self)@.queued_terminates - 1) as nat,
                exited: old(self)@.exited + 1,
                ..old(self)@
            }),
    {
        self.queued_terminates = self.queued_terminates - 1;
        self.exited = self.exited + 1;
    }

    /// The drain/join protocol, run to completion on an active pool: let the
    /// workers and the sink finish every queued and running job, then send
    /// exactly one terminate message per worker and join each exiting
    /// worker.
    ///
    /// The postcondition is the drain guarantee: when the call returns,
    /// every worker has exited and the sink has observed exactly one result
    /// per submitted job — also when nothing was ever submitted, in which
    /// case the protocol still runs to completion and observes nothing.
    /// Termination of the two loops is proved, so the modeled protocol
    /// cannot deadlock.
    pub fn drain_and_join(&mut self)
        requires
            old(self)@.active(),
        ensures
            final(self)@.wf(),
            final(self)@.worker_count == old(self)@.worker_count,
            final(self)@.queue_capacity == old(self)@.queue_capacity,
            final(self)@.channel_capacity == old(self)@.channel_capacity,
            final(self)@.submitted == old(self)@.submitted,
            final(self)@.exited == final(self)@.worker_count,
            final(self)@.queued_jobs == 0,
            final(self)@.running == 0,
            final(self)@.in_channel == 0,
            final(self)@.queued_terminates == 0,
            final(self)@.observed == final(self)@.submitted,
    {
        // Every submitted job still in flight moves forward one stage per
        // iteration until all results have reached the sink.
        while self.queued_jobs > 0 || self.running > 0 || self.in_channel > 0
            invariant
                self@.active(),
                self@.worker_count == old(self)@.worker_count,
                self@.queue_capacity == old(self)@.queue_capacity,
                self@.channel_capacity == old(self)@.channel_capacity,
                self@.submitted == old(self)@.submitted,
            decreases 3 * self@.queued_jobs + 2 * self@.running + self@.in_channel,
        {
            if self.in_channel > 0 {
                self.sink_receive();
            } else if self.running > 0 {
                self.worker_send_result();
            } else {
                self.worker_take_job();
            }
        }
        // All work is done; release the workers, one terminate message each.
        while self.exited < self.worker_count
            invariant
                self@.wf(),
                self@.worker_count == old(self)@.worker_count,
                self@.queue_capacity == old(self)@.queue_capacity,
                self@.channel_capacity == old(self)@.channel_capacity,
                self@.submitted == old(self)@.submitted,
                self@.queued_jobs == 0,
                self@.running == 0,
                self@.in_channel == 0,
                self@.observed == self@.submitted,
                self@.queued_terminates <= self@.worker_count - self@.exited,
            decreases 2 * (self@.worker_count - self@.exited) - self@.queued_terminates,
        {
            if self.queued_terminates > 0 {
                self.worker_take_terminate();
            } else {
                let accepted = self.send_terminate();
                proof {
                    assert(accepted);
                }
            }
        }
        // A worker that exits leaves no terminate message behind, and the
        // loop sends none beyond the workers still to release.
        proof {
            assert(self@.queued_terminates == 0);
        }
    }
}

/// The memory bound behind the backpressure design: in any consistent pool
/// state, the number of submitted batches not yet observed by the sink —
/// everything resident in the pipeline — is at most the job-queue capacity
/// plus the worker count plus the result-channel capacity, independent of
/// how much input was submitted over time.
pub proof fn lemma_resident_bound(v: PoolView)
    requires
        v.wf(),
    ensures
        v.submitted - v.observed <= v.queue_capacity + v.worker_count + v.channel_capacity,
{
}

} // verus!
