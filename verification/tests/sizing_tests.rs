use compute_job::sizing::soft_capacity_for_pool;
use compute_job::sizing::thread_poll_size_for_available_parallelism;

#[test]
fn pool_size() {
    assert_eq!(thread_poll_size_for_available_parallelism(1), 1);
    assert_eq!(thread_poll_size_for_available_parallelism(2), 1);
    assert_eq!(thread_poll_size_for_available_parallelism(3), 2);
    assert_eq!(thread_poll_size_for_available_parallelism(4), 3);
    assert_eq!(thread_poll_size_for_available_parallelism(31), 27);
    assert_eq!(thread_poll_size_for_available_parallelism(32), 28);
}

#[test]
fn pool_size_more_scales() {
    assert_eq!(thread_poll_size_for_available_parallelism(5), 4);
    assert_eq!(thread_poll_size_for_available_parallelism(8), 7);
    assert_eq!(thread_poll_size_for_available_parallelism(9), 7);
    assert_eq!(thread_poll_size_for_available_parallelism(16), 14);
    assert_eq!(thread_poll_size_for_available_parallelism(17), 14);
}

#[test]
fn pool_size_stays_within_parallelism() {
    for available in 1..200usize {
        let pool = thread_poll_size_for_available_parallelism(available);
        assert!(pool >= 1);
        assert!(pool <= available);
    }
}

#[test]
fn soft_capacity_is_per_thread_allowance_times_pool() {
    assert_eq!(soft_capacity_for_pool(1), 20);
    assert_eq!(soft_capacity_for_pool(7), 140);
    assert_eq!(soft_capacity_for_pool(28), 560);
}
