//! The worker pool's coordination logic: a shared first-in queue of jobs
//! with a closable producing side. The threads themselves live outside the
//! library; every decision they make — take the front job, wait, or exit —
//! and the drain-on-shutdown law are stated and proved here.
use vstd::prelude::*;

verus! {

/// What a worker does after consulting the queue: run the job it was handed,
/// exit because the queue is closed and empty, or wait for more work.
#[derive(PartialEq, Eq, Structural, Clone, Copy, Debug)]
pub enum WorkerDecision {
    Run,
    Exit,
    Wait,
}

/// The job queue shared by the submitting side and all workers: the jobs not
/// yet picked up, in submission order, and whether the producing side has
/// been closed.
pub struct JobQueue<J> {
    jobs: Vec<J>,
    closed: bool,
}

/// The decision a worker facing this queue state must take.
pub open spec fn spec_decision(pending_len: int, closed: bool) -> WorkerDecision {
    if pending_len > 0 {
        WorkerDecision::Run
    } else if closed {
        WorkerDecision::Exit
    } else {
        WorkerDecision::Wait
    }
}

impl<J> JobQueue<J> {
    /// The jobs submitted and not yet taken, oldest first.
    pub closed spec fn pending(&self) -> Seq<J> {
        self.jobs@
    }

    /// Whether the producing side has been closed.
    pub closed spec fn is_closed(&self) -> bool {
        self.closed
    }

    /// An open, empty queue.
    pub fn new() -> (r: Self)
        ensures
            r.pending() == Seq::<J>::empty(),
            !r.is_closed(),
    {
        JobQueue { jobs: Vec::new(), closed: false }
    }

    /// Enqueues a job. The system never submits after shutdown, so a closed
    /// queue is ruled out rather than handled.
    pub fn submit(&mut self, job: J)
        requires
            !old(self).is_closed(),
        ensures
            final(self).pending() == old(self).pending().push(job),
            !final(self).is_closed(),
    {
        self.jobs.push(job);
    }

    /// Closes the producing side; pending jobs stay to be drained.
    pub fn close(&mut self)
        ensures
            final(self).pending() == old(self).pending(),
            final(self).is_closed(),
    {
        self.closed = true;
    }

    /// Whether the producing side has been closed.
    pub fn closed(&self) -> (r: bool)
        ensures
            r == self.is_closed(),
    {
        self.closed
    }

    /// Removes and returns the oldest pending job, if any. No two takers can
    /// receive the same job: taking requires exclusive access and removes
    /// the job from the queue.
    pub fn take(&mut self) -> (r: Option<J>)
        ensures
            old(self).pending().len() > 0 ==> (r matches Some(j) && j == old(self).pending()[0]
                && final(self).pending() == old(self).pending().drop_first()),
            old(self).pending().len() == 0 ==> r is None && *final(self) == *old(self),
            final(self).is_closed() == old(self).is_closed(),
    {
        if self.jobs.len() > 0 {
            Some(self.jobs.remove(0))
        } else {
            None
        }
    }

    /// What a worker consulting this queue does next: run a job while any is
    /// pending, exit once the queue is closed and drained, wait otherwise.
    pub fn decision(&self) -> (r: WorkerDecision)
        ensures
            r == spec_decision(self.pending().len() as int, self.is_closed()),
    {
        if self.jobs.len() > 0 {
            WorkerDecision::Run
        } else if self.closed {
            WorkerDecision::Exit
        } else {
            WorkerDecision::Wait
        }
    }

    /// The drain a shutdown performs: closes the queue and takes jobs until
    /// none remain. Every job ever submitted and not yet run is returned,
    /// exactly once and in submission order, and the queue ends closed and
    /// empty — so workers that consult it next all exit, and no job is
    /// abandoned.
    pub fn shutdown(&mut self) -> (r: Vec<J>)
        ensures
            r@ == old(self).pending(),
            final(self).pending().len() == 0,
            final(self).is_closed(),
    {
        self.close();
        let mut out: Vec<J> = Vec::new();
        loop
            invariant
                self.is_closed(),
                out@ + self.pending() == old(self).pending(),
            decreases self.pending().len(),
        {
            match self.take() {
                Some(j) => {
                    out.push(j);
                    proof {
                        assert(out@ + self.pending() =~= old(self).pending());
                    }
                },
                None => {
                    proof {
                        assert(out@ =~= old(self).pending());
                    }
                    return out;
                },
            }
        }
    }
}

} // verus!
