use std::sync::Arc;

use conkit::error::SketchError;
use conkit::work::{AsyncWorkError, AsyncWorkPool, WorkOptions, WorkerPool};

#[test]
fn default_options_build_pool() {
    AsyncWorkPool::new(WorkOptions::default()).ok().expect("pool should build");
}

#[test]
fn dedicated_pool_builds_independently_from_operation_budgets() {
    let options = WorkOptions {
        pool: WorkerPool::Dedicated { worker_threads: 2 },
        max_in_flight_operations: 1,
        max_pending_operations: 3,
    };

    let pool = AsyncWorkPool::new(options).ok().expect("pool should build");
    assert_eq!(pool.pool.current_num_threads(), 2);
    assert!(pool.running.try_acquire_arc().is_some());
}

#[test]
fn work_pool_admits_running_plus_pending_operations() {
    let defaults = WorkOptions::default();
    assert!(matches!(defaults.pool, WorkerPool::RuntimeDefault));
    assert_eq!(defaults.max_in_flight_operations, 1);
    assert_eq!(defaults.max_pending_operations, 0);

    let pool = AsyncWorkPool::new(WorkOptions {
        pool: WorkerPool::Dedicated { worker_threads: 2 },
        max_in_flight_operations: 2,
        max_pending_operations: 8,
    })
    .ok()
    .expect("pool builds");
    assert_eq!(pool.admitted_capacity, 10);
    assert_eq!(pool.running_capacity, 2);

    let shared = AsyncWorkPool::new(WorkOptions {
        pool: WorkerPool::Shared { pool: pool.pool.clone() },
        max_in_flight_operations: 1,
        max_pending_operations: 0,
    })
    .ok()
    .expect("shared pool");
    assert!(Arc::ptr_eq(&shared.pool, &pool.pool));

    let overflow = AsyncWorkPool::new(WorkOptions {
        pool: WorkerPool::Dedicated { worker_threads: 1 },
        max_in_flight_operations: usize::MAX,
        max_pending_operations: 1,
    });
    assert!(matches!(overflow, Err(SketchError::WorkCapacityOverflow)));

    assert!(matches!(AsyncWorkError::QueueFull.into_sketch_error(), SketchError::QueueFull));
    assert!(matches!(
        AsyncWorkError::WorkerDropped.into_sketch_error(),
        SketchError::WorkerFailed { ref message } if message == "background work did not complete"
    ));
}
