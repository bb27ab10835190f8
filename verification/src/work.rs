//! CPU work-pool configuration of the sketch domain: which Rayon pool runs
//! the work, and the two independent admission budgets (operations running
//! at once, and admitted operations waiting for a turn).

use std::sync::Arc;

use vstd::prelude::*;

use crate::cancellation::admission_capacity;
use crate::error::SketchError;

verus! {

/// A Rayon thread pool.
#[verifier::external_type_specification]
#[verifier::external_body]
pub struct ExThreadPool(rayon::ThreadPool);

/// An asynchronous counting semaphore.
#[verifier::external_type_specification]
#[verifier::external_body]
pub struct ExSemaphore(async_lock::Semaphore);

/// Rayon worker-pool ownership policy.
#[derive(Clone, Debug)]
pub enum WorkerPool {
    /// A pool of the library's own with Rayon's platform default worker count.
    RuntimeDefault,
    /// A pool of the library's own with this many workers (at least one).
    Dedicated { worker_threads: usize },
    /// An application-owned pool, so that both contract domains can share
    /// one worker set.
    Shared { pool: Arc<rayon::ThreadPool> },
}

/// CPU work-pool configuration.
#[derive(Clone, Debug)]
pub struct WorkOptions {
    /// Which pool runs the work.
    pub pool: WorkerPool,
    /// Most root operations running on the pool at once (at least one).
    pub max_in_flight_operations: usize,
    /// Most admitted root operations waiting for a running slot.
    pub max_pending_operations: usize,
}

impl WorkOptions {
    /// The counts are positive where the configuration demands it.
    pub open spec fn well_formed(&self) -> bool {
        &&& self.max_in_flight_operations > 0
        &&& self.pool matches WorkerPool::Dedicated { worker_threads } ==> worker_threads > 0
    }
}

impl Default for WorkOptions {
    /// The platform default pool, one running operation, and no waiting.
    fn default() -> (o: Self)
        ensures
            o.pool is RuntimeDefault,
            o.max_in_flight_operations == 1,
            o.max_pending_operations == 0,
    {
        WorkOptions { pool: WorkerPool::RuntimeDefault, max_in_flight_operations: 1, max_pending_operations: 0 }
    }
}

/// Builds a pool with Rayon's default worker count
/// (`rayon::ThreadPoolBuilder::new().build()`); the error is rendered.
/// Whether the host can start the workers is not stated.
#[verifier::external_body]
fn build_default_pool() -> (r: Result<rayon::ThreadPool, String>) {
    rayon::ThreadPoolBuilder::new().build().map_err(|source| source.to_string())
}

/// Builds a pool of `worker_threads` workers
/// (`rayon::ThreadPoolBuilder::new().num_threads(n).build()`); the error is
/// rendered. Whether the host can start the workers is not stated.
#[verifier::external_body]
fn build_dedicated_pool(worker_threads: usize) -> (r: Result<rayon::ThreadPool, String>) {
    rayon::ThreadPoolBuilder::new().num_threads(worker_threads).build().map_err(|source| source.to_string())
}

/// A semaphore of `permits` permits (`async_lock::Semaphore::new`), shared.
#[verifier::external_body]
fn semaphore(permits: usize) -> Arc<async_lock::Semaphore> {
    Arc::new(async_lock::Semaphore::new(permits))
}

/// The pool that runs sketch work, with its admission and running
/// semaphores and the permits each was made with.
pub struct AsyncWorkPool {
    pub pool: Arc<rayon::ThreadPool>,
    pub admitted: Arc<async_lock::Semaphore>,
    pub running: Arc<async_lock::Semaphore>,
    pub admitted_capacity: usize,
    pub running_capacity: usize,
}

impl AsyncWorkPool {
    /// Builds or adopts the configured pool; admission holds the running
    /// operations plus the waiting ones, and a total beyond `usize` is
    /// refused before any pool is built. A pool that cannot be built is a
    /// worker failure.
    pub fn new(options: WorkOptions) -> (r: Result<Self, SketchError>)
        requires
            options.well_formed(),
        ensures
            r matches Ok(p) ==> p.admitted_capacity == options.max_in_flight_operations
                + options.max_pending_operations && p.running_capacity == options.max_in_flight_operations,
            options.max_in_flight_operations + options.max_pending_operations > usize::MAX ==> (r matches Err(e)
                && e is WorkCapacityOverflow),
            r matches Err(e) ==> e is WorkCapacityOverflow || e is WorkerFailed,
    {
        let WorkOptions { pool, max_in_flight_operations, max_pending_operations } = options;
        let admitted_capacity = admission_capacity(max_in_flight_operations, max_pending_operations)?;
        let pool = match pool {
            WorkerPool::RuntimeDefault => match build_default_pool() {
                Ok(built) => Arc::new(built),
                Err(message) => return Err(SketchError::WorkerFailed { message }),
            },
            WorkerPool::Dedicated { worker_threads } => match build_dedicated_pool(worker_threads) {
                Ok(built) => Arc::new(built),
                Err(message) => return Err(SketchError::WorkerFailed { message }),
            },
            WorkerPool::Shared { pool } => pool,
        };
        Ok(
            AsyncWorkPool {
                pool,
                admitted: semaphore(admitted_capacity),
                running: semaphore(max_in_flight_operations),
                admitted_capacity,
                running_capacity: max_in_flight_operations,
            },
        )
    }
}

/// Why submitted work produced no result.
#[derive(Clone, Copy, Debug, PartialEq, Eq, Structural)]
pub enum AsyncWorkError {
    /// Admission was full.
    QueueFull,
    /// The worker was dropped before it reported.
    WorkerDropped,
}

impl AsyncWorkError {
    /// The sketch-domain error for a work failure.
    pub fn into_sketch_error(self) -> (e: SketchError)
        ensures
            self is QueueFull ==> e is QueueFull,
            self is WorkerDropped ==> (e matches SketchError::WorkerFailed { message } && message@
                == "background work did not complete"@),
    {
        match self {
            AsyncWorkError::QueueFull => SketchError::QueueFull,
            AsyncWorkError::WorkerDropped => {
                proof {
                    reveal_strlit("background work did not complete");
                }
                SketchError::WorkerFailed { message: "background work did not complete".to_owned() }
            },
        }
    }
}

} // verus!
