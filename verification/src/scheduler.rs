//! The ingestion orchestrator's scheduling rules: one task per file, at most
//! `parallel_files` tasks holding a permit at any instant, a permit released
//! on every exit path.

use vstd::prelude::*;

verus! {

/// An ingestion request: the files of the batch and the identifier that
/// scopes it.
#[derive(Debug, PartialEq)]
pub struct IngestionRequest {
    pub files: Vec<String>,
    pub ingestion_id: String,
}

impl IngestionRequest {
    /// Builds a request.
    pub fn new(files: Vec<String>, ingestion_id: String) -> (r: Self)
        ensures
            r.files == files,
            r.ingestion_id == ingestion_id,
    {
        Self { files, ingestion_id }
    }
}

/// The process-wide permit budget: a counting semaphore's state.
#[derive(Debug, Clone, PartialEq)]
pub struct PermitBudget {
    pub capacity: usize,
    pub in_flight: usize,
}

impl PermitBudget {
    /// The budget never over-commits.
    pub open spec fn wf(self) -> bool {
        self.in_flight <= self.capacity
    }

    /// A fresh budget with no permit out.
    pub fn new(capacity: usize) -> (r: Self)
        ensures
            r.capacity == capacity,
            r.in_flight == 0,
            r.wf(),
    {
        PermitBudget { capacity, in_flight: 0 }
    }

    /// Takes a permit when one is free; never exceeds the capacity.
    pub fn try_acquire(&mut self) -> (r: bool)
        requires
            old(self).wf(),
        ensures
            final(self).wf(),
            final(self).capacity == old(self).capacity,
            r == (old(self).in_flight < old(self).capacity),
            r ==> final(self).in_flight == old(self).in_flight + 1,
            !r ==> final(self).in_flight == old(self).in_flight,
    {
        if self.in_flight < self.capacity {
            self.in_flight = self.in_flight + 1;
            true
        } else {
            false
        }
    }

    /// Returns a permit; callers release on success and failure alike.
    pub fn release(&mut self)
        requires
            old(self).wf(),
            old(self).in_flight > 0,
        ensures
            final(self).wf(),
            final(self).capacity == old(self).capacity,
            final(self).in_flight == old(self).in_flight - 1,
    {
        self.in_flight = self.in_flight - 1;
    }
}

/// What the orchestrator does next: start a file task, wait for one to
/// finish, or report the batch done.
#[derive(Debug, PartialEq)]
pub enum IngestAction {
    Start(String),
    Wait,
    Done,
}

/// The orchestrator's state: the files not yet started and the tasks in
/// flight, bounded by the permit capacity.
#[derive(Debug, PartialEq)]
pub struct IngestScheduler {
    pub pending: Vec<String>,
    pub running: usize,
    pub capacity: usize,
}

impl IngestScheduler {
    /// At no instant are more tasks running than the capacity allows.
    pub open spec fn wf(self) -> bool {
        self.running <= self.capacity
    }

    /// A batch over `files` under the permit budget `parallel_files`.
    pub fn new(files: Vec<String>, parallel_files: usize) -> (r: Self)
        ensures
            r.pending == files,
            r.running == 0,
            r.capacity == parallel_files,
            r.wf(),
    {
        IngestScheduler { pending: files, running: 0, capacity: parallel_files }
    }

    /// Decides the next step: start the next file while a permit is free,
    /// wait while work is outstanding, report done when nothing is left.
    pub fn next_action(&mut self) -> (r: IngestAction)
        requires
            old(self).wf(),
        ensures
            final(self).wf(),
            final(self).capacity == old(self).capacity,
            r matches IngestAction::Start(f) ==> old(self).pending@.len() > 0 && old(self).running
                < old(self).capacity && f@ == old(self).pending@[0]@ && final(self).pending@
                == old(self).pending@.drop_first() && final(self).running == old(self).running + 1,
            r is Wait ==> (old(self).pending@.len() == 0 || old(self).running == old(
                self,
            ).capacity) && (old(self).running > 0 || old(self).pending@.len() > 0) && *final(self)
                == *old(self),
            r is Done ==> old(self).running == 0 && old(self).pending@.len() == 0 && *final(self)
                == *old(self),
    {
        if self.pending.len() > 0 && self.running < self.capacity {
            let file = self.pending.remove(0);
            self.running = self.running + 1;
            IngestAction::Start(file)
        } else if self.running > 0 || self.pending.len() > 0 {
            IngestAction::Wait
        } else {
            IngestAction::Done
        }
    }

    /// Records one finished task, releasing its permit.
    pub fn task_finished(&mut self)
        requires
            old(self).wf(),
            old(self).running > 0,
        ensures
            final(self).wf(),
            final(self).capacity == old(self).capacity,
            final(self).pending == old(self).pending,
            final(self).running == old(self).running - 1,
    {
        self.running = self.running - 1;
    }
}

} // verus!
