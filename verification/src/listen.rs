//! The bounded runner behind the `listen` combinator.
//!
//! [`Listen`] is the bookkeeping core of a future that drains a stream of
//! per-connection tasks, running at most a configured number of them at a
//! time and swallowing each task's own failure.  The unverified event
//! loop owns the actual task futures; it consults this state machine to
//! decide when another task may start and when the whole runner is
//! finished.

use vstd::prelude::*;

verus! {

/// A structure returned by `ListenExt::listen`.
///
/// Stands for a future that resolves once the incoming stream has been
/// closed and all connections (tasks) have been processed.
pub struct Listen {
    /// Cap on concurrently running per-connection tasks.
    pub limit: usize,
    /// Number of tasks currently in flight.
    pub in_flight: usize,
    /// Whether the upstream stream has reached end-of-stream.
    pub source_done: bool,
}

impl Listen {
    /// Structural invariant: the tasks in flight never exceed the cap.
    pub open spec fn wf(self) -> bool {
        self.in_flight <= self.limit
    }

    /// Is there room to start another task, and is upstream still open?
    pub open spec fn spec_can_spawn(self) -> bool {
        &&& !self.source_done
        &&& self.in_flight < self.limit
    }

    /// The runner completes exactly when the upstream stream is exhausted
    /// and every in-flight task has finished.
    pub open spec fn spec_complete(self) -> bool {
        &&& self.source_done
        &&& self.in_flight == 0
    }

    /// The state after one in-flight task finishes.  The task's own
    /// success or failure plays no part in it.
    pub open spec fn spec_after_complete(self) -> Listen {
        Listen { in_flight: (self.in_flight - 1) as usize, ..self }
    }

    /// May another per-connection task be started right now?
    pub fn can_spawn(&self) -> (b: bool)
        ensures
            b == self.spec_can_spawn(),
    {
        !self.source_done && self.in_flight < self.limit
    }

    /// Record that one task was started from a freshly yielded item.
    pub fn on_spawn(&mut self)
        requires
            old(self).spec_can_spawn(),
        ensures
            *final(self) == (Listen {
                in_flight: (old(self).in_flight + 1) as usize,
                limit: old(self).limit,
                source_done: old(self).source_done,
            }),
            old(self).wf() ==> final(self).wf(),
    {
        self.in_flight = self.in_flight + 1;
    }

    /// Record that one in-flight task finished.  `failed` tells whether
    /// the task's own future ended in an error; the runner swallows the
    /// failure, so the new state does not depend on it.
    pub fn on_task_complete(&mut self, failed: bool)
        requires
            old(self).in_flight > 0,
        ensures
            *final(self) == old(self).spec_after_complete(),
            old(self).wf() ==> final(self).wf(),
    {
        let _ = failed;
        self.in_flight = self.in_flight - 1;
    }

    /// Record end-of-stream on the upstream source.  In-flight tasks are
    /// left to finish on their own.
    pub fn on_source_end(&mut self)
        ensures
            *final(self) == (Listen {
                limit: old(self).limit,
                in_flight: old(self).in_flight,
                source_done: true,
            }),
    {
        self.source_done = true;
    }

    /// Has the runner's own future resolved?
    pub fn is_complete(&self) -> (b: bool)
        ensures
            b == self.spec_complete(),
    {
        self.source_done && self.in_flight == 0
    }
}

/// Create the runner state with the given concurrency cap.
pub fn new(limit: usize) -> (l: Listen)
    ensures
        l == (Listen { limit: limit, in_flight: 0usize, source_done: false }),
        l.wf(),
{
    Listen { limit: limit, in_flight: 0, source_done: false }
}

/// The concurrency cap holds in every well-formed state, and a finishing
/// task frees its slot at once: immediately after the completion step,
/// another task may start as long as upstream is still open.
pub proof fn lemma_bounded_and_slot_freed(l: Listen)
    requires
        l.wf(),
        l.in_flight > 0,
    ensures
        l.in_flight <= l.limit,
        l.spec_after_complete().wf(),
        !l.source_done ==> l.spec_after_complete().spec_can_spawn(),
{
}

/// A task failure never ends the runner: the completion step ignores the
/// failure flag altogether, and the runner resolves exactly when the
/// upstream stream has ended and the finishing task was the last one in
/// flight.
pub proof fn lemma_failure_never_terminates(l: Listen)
    requires
        l.in_flight > 0,
    ensures
        l.spec_after_complete().spec_complete() <==> (l.source_done && l.in_flight == 1),
        l.spec_after_complete().spec_complete() ==> l.source_done,
{
}

} // verus!
