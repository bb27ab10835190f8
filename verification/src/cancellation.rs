//! Cooperative cancellation flags shared between the command root, the
//! compiler extractor, and the sketch work pool.

use std::sync::Arc;
use std::sync::atomic::{AtomicBool, Ordering};

use vstd::prelude::*;

use crate::error::{CliError, SketchError};

verus! {

/// Process-wide cancellation shared by signal handling and command execution.
///
/// The flag only ever moves from "running" to "requested". Which of the two
/// a reader observes depends on other threads, so readers promise only what
/// holds for either answer.
#[derive(Clone, Debug)]
pub struct ApplicationCancellation {
    requested: Arc<AtomicBool>,
}

/// Shares the flag (`Arc::clone`): the new handle points at the same flag.
#[verifier::external_body]
fn share_flag(flag: &Arc<AtomicBool>) -> (r: Arc<AtomicBool>)
    ensures
        r == *flag,
{
    Arc::clone(flag)
}

impl ApplicationCancellation {
    /// The shared flag of this source.
    pub closed spec fn spec_flag(&self) -> Arc<AtomicBool> {
        self.requested
    }

    /// Creates an unrequested cancellation source.
    pub fn new() -> (c: Self) {
        ApplicationCancellation { requested: Arc::new(AtomicBool::new(false)) }
    }

    /// Returns the shared flag observed by synchronous compiler extraction.
    pub fn flag(&self) -> (r: Arc<AtomicBool>)
        ensures
            r == self.spec_flag(),
    {
        share_flag(&self.requested)
    }

    /// Another handle on the same flag: a request through either is seen by
    /// both.
    pub(crate) fn share(&self) -> (c: Self)
        ensures
            c.spec_flag() == self.spec_flag(),
    {
        ApplicationCancellation { requested: share_flag(&self.requested) }
    }

    /// Requests cancellation for every holder of this source.
    pub fn request(&self) {
        self.requested.store(true, Ordering::Release);
    }

    /// Reports whether cancellation has been requested.
    pub fn is_requested(&self) -> bool {
        self.requested.load(Ordering::Acquire)
    }

    /// Stops a synchronous command boundary after cancellation was requested.
    pub fn checkpoint(&self) -> (r: Result<(), CliError>)
        ensures
            r matches Err(e) ==> e is OperationCanceled,
    {
        if self.requested.load(Ordering::Acquire) {
            Err(CliError::OperationCanceled)
        } else {
            Ok(())
        }
    }
}

/// Cloneable view of the root command's cancellation state used by compiler
/// extraction.
#[derive(Clone, Debug)]
pub struct CompilerCancellation {
    cancelled: Arc<AtomicBool>,
}

impl CompilerCancellation {
    /// Observes the exact flag owned by the root command lifecycle.
    pub fn from_flag(cancelled: Arc<AtomicBool>) -> (c: Self)
        ensures
            c.flag() == cancelled,
    {
        CompilerCancellation { cancelled }
    }

    /// The shared flag this view observes.
    pub closed spec fn flag(&self) -> Arc<AtomicBool> {
        self.cancelled
    }

    /// Reports whether cancellation has been requested.
    pub fn requested(&self) -> bool {
        self.cancelled.load(Ordering::Acquire)
    }
}

/// Cancellation signal handed to one job of the sketch work pool.
#[derive(Clone)]
pub struct CancellationProbe {
    cancelled: Arc<AtomicBool>,
}

/// Number of work items between two cancellation observations.
pub const CHECKPOINT_INTERVAL: usize = 1024;

impl CancellationProbe {
    /// Creates an uncancelled probe.
    pub fn new() -> (p: Self) {
        CancellationProbe { cancelled: Arc::new(AtomicBool::new(false)) }
    }

    /// Reports whether the job was cancelled.
    pub fn is_cancelled(&self) -> bool {
        self.cancelled.load(Ordering::Acquire)
    }

    /// Fails once the job was cancelled.
    pub fn checkpoint(&self) -> (r: Result<(), SketchError>)
        ensures
            r matches Err(e) ==> e is OperationCancelled,
    {
        if self.is_cancelled() {
            Err(SketchError::OperationCancelled)
        } else {
            Ok(())
        }
    }

    /// Observes cancellation only at every `CHECKPOINT_INTERVAL`-th index.
    pub fn checkpoint_at(&self, index: usize) -> (r: Result<(), SketchError>)
        ensures
            index % CHECKPOINT_INTERVAL != 0 ==> r is Ok,
            r matches Err(e) ==> e is OperationCancelled,
    {
        if index % CHECKPOINT_INTERVAL == 0 {
            self.checkpoint()?;
        }
        Ok(())
    }

    /// Cancels the job.
    pub fn cancel(&self) {
        self.cancelled.store(true, Ordering::Release);
    }
}

/// Cancels a probe unless the owning operation completed first.
pub struct CancellationGuard {
    probe: CancellationProbe,
    armed: bool,
}

impl CancellationGuard {
    /// Arms a guard over `probe`.
    pub fn new(probe: CancellationProbe) -> (g: Self)
        ensures
            g.is_armed(),
    {
        CancellationGuard { probe, armed: true }
    }

    /// Whether dropping the guard will cancel its probe.
    pub closed spec fn is_armed(&self) -> bool {
        self.armed
    }

    /// Marks the operation complete, so that dropping the guard no longer
    /// cancels.
    pub fn complete(&mut self)
        ensures
            !final(self).is_armed(),
    {
        self.armed = false;
    }

    /// Cancels the probe if the guard is still armed, then disarms it; this
    /// is what dropping the guard does.
    pub fn release(&mut self)
        ensures
            !final(self).is_armed(),
    {
        if self.armed {
            self.probe.cancel();
        }
        self.armed = false;
    }
}


/// The admission capacity of the sketch work pool: the operations that may
/// run at once plus those that may wait for a turn; more than a `usize`
/// holds is refused.
pub fn admission_capacity(max_in_flight_operations: usize, max_pending_operations: usize) -> (r: Result<usize, SketchError>)
    ensures
        max_in_flight_operations + max_pending_operations <= usize::MAX ==> r == Ok::<usize, SketchError>(
            (max_in_flight_operations + max_pending_operations) as usize,
        ),
        max_in_flight_operations + max_pending_operations > usize::MAX ==> (r matches Err(e) && e is WorkCapacityOverflow),
{
    match max_in_flight_operations.checked_add(max_pending_operations) {
        Some(capacity) => Ok(capacity),
        None => Err(SketchError::WorkCapacityOverflow),
    }
}

} // verus!
