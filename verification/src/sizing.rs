//! Worker-pool sizing and the soft capacity of the job queue.

use vstd::prelude::*;

verus! {

/// Number of queued jobs per worker thread at which the backpressure signal
/// `is_full` turns on.
pub const QUEUE_SOFT_CAPACITY_PER_THREAD: usize = 20;

/// Pool size for a machine with `available` hardware threads: a rounded-up
/// eighth of them is reserved for the host runtime, the rest work jobs, and
/// the pool never shrinks below one thread.
pub open spec fn pool_size_of(available: int) -> int {
    let reserved = available / 8 + if available % 8 == 0 { 0int } else { 1int };
    if available - reserved >= 1 {
        available - reserved
    } else {
        1
    }
}

/// Worker-thread count for the given available hardware parallelism.
pub fn thread_poll_size_for_available_parallelism(available: usize) -> (pool_size: usize)
    ensures
        pool_size == pool_size_of(available as int),
        available >= 1 ==> 1 <= pool_size <= available,
{
    let reserved: usize = available / 8 + if available % 8 == 0 { 0 } else { 1 };
    let remaining = available - reserved;
    if remaining >= 1 {
        remaining
    } else {
        1
    }
}

/// The advisory capacity of a dispatcher's queue: the per-thread allowance
/// times the number of worker threads.
pub fn soft_capacity_for_pool(pool_size: usize) -> (soft_capacity: usize)
    requires
        QUEUE_SOFT_CAPACITY_PER_THREAD * pool_size <= usize::MAX,
    ensures
        soft_capacity == QUEUE_SOFT_CAPACITY_PER_THREAD * pool_size,
{
    QUEUE_SOFT_CAPACITY_PER_THREAD * pool_size
}

} // verus!
