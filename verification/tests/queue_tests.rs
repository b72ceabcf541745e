use compute_job::priority::effective_level;
use compute_job::priority::Priority;
use compute_job::queue::AgeingPriorityQueue;

#[test]
fn level_index_counts_the_ladder() {
    let levels = [
        Priority::P0,
        Priority::P1,
        Priority::P2,
        Priority::P3,
        Priority::P4,
        Priority::P5,
        Priority::P6,
        Priority::P7,
        Priority::P8,
    ];
    for (i, p) in levels.iter().enumerate() {
        assert_eq!(p.level_index(), i as u64);
    }
}

#[test]
fn effective_level_gains_one_level_per_quantum() {
    assert_eq!(effective_level(&Priority::P2, 0, 0), 2);
    assert_eq!(effective_level(&Priority::P2, 0, 99), 2);
    assert_eq!(effective_level(&Priority::P2, 0, 100), 3);
    assert_eq!(effective_level(&Priority::P2, 0, 250), 4);
    assert_eq!(effective_level(&Priority::P2, 40, 250), 4);
}

#[test]
fn effective_level_caps_at_top() {
    assert_eq!(effective_level(&Priority::P0, 0, 10_000), 8);
    assert_eq!(effective_level(&Priority::P8, 0, 10_000), 8);
    assert_eq!(effective_level(&Priority::P7, 0, 100), 8);
}

#[test]
fn effective_level_ignores_future_stamps() {
    assert_eq!(effective_level(&Priority::P3, 500, 100), 3);
}

#[test]
fn empty_queue_yields_nothing() {
    let mut queue: AgeingPriorityQueue<u64> = AgeingPriorityQueue::soft_bounded(4);
    assert_eq!(queue.queued_count(), 0);
    assert_eq!(queue.recv(0), None);
    assert_eq!(queue.queued_count(), 0);
}

#[test]
fn highest_priority_leaves_first() {
    let mut queue: AgeingPriorityQueue<&str> = AgeingPriorityQueue::soft_bounded(10);
    queue.send(Priority::P1, "low", 0);
    queue.send(Priority::P8, "high", 0);
    queue.send(Priority::P4, "mid", 0);
    assert_eq!(queue.recv(0), Some("high"));
    assert_eq!(queue.recv(0), Some("mid"));
    assert_eq!(queue.recv(0), Some("low"));
    assert_eq!(queue.recv(0), None);
}

#[test]
fn equal_priorities_leave_in_submission_order() {
    let mut queue: AgeingPriorityQueue<u64> = AgeingPriorityQueue::soft_bounded(10);
    queue.send(Priority::P4, 1, 0);
    queue.send(Priority::P4, 2, 0);
    queue.send(Priority::P4, 3, 5);
    assert_eq!(queue.recv(5), Some(1));
    assert_eq!(queue.recv(5), Some(2));
    assert_eq!(queue.recv(5), Some(3));
}

#[test]
fn waiting_entry_overtakes_fresh_urgent_work() {
    let mut queue: AgeingPriorityQueue<&str> = AgeingPriorityQueue::soft_bounded(10);
    // The lowest level needs 8 quanta of 100 ticks to reach the top.
    queue.send(Priority::P0, "patient", 0);
    queue.send(Priority::P8, "urgent", 800);
    assert_eq!(queue.recv(800), Some("patient"));
    assert_eq!(queue.recv(800), Some("urgent"));
}

#[test]
fn fresh_urgent_work_still_wins_before_the_bound() {
    let mut queue: AgeingPriorityQueue<&str> = AgeingPriorityQueue::soft_bounded(10);
    queue.send(Priority::P0, "patient", 0);
    queue.send(Priority::P8, "urgent", 799);
    assert_eq!(queue.recv(799), Some("urgent"));
    assert_eq!(queue.recv(799), Some("patient"));
}

#[test]
fn backpressure_turns_on_at_the_soft_capacity() {
    let mut queue: AgeingPriorityQueue<u64> = AgeingPriorityQueue::soft_bounded(2);
    assert!(!queue.is_full());
    queue.send(Priority::P4, 1, 0);
    assert!(!queue.is_full());
    queue.send(Priority::P4, 2, 0);
    assert!(queue.is_full());
    queue.send(Priority::P4, 3, 0);
    assert!(queue.is_full());
    assert_eq!(queue.recv(0), Some(1));
    assert_eq!(queue.recv(0), Some(2));
    assert!(!queue.is_full());
}

#[test]
fn senders_are_never_rejected_above_capacity() {
    let mut queue: AgeingPriorityQueue<u64> = AgeingPriorityQueue::soft_bounded(1);
    for item in 0..50u64 {
        queue.send(Priority::P2, item, item);
        assert!(queue.is_full() == (queue.queued_count() >= 1));
    }
    assert_eq!(queue.queued_count(), 50);
}

#[test]
fn every_entry_leaves_exactly_once() {
    let mut queue: AgeingPriorityQueue<u64> = AgeingPriorityQueue::soft_bounded(3);
    let sent: Vec<u64> = (0..25).collect();
    for &item in &sent {
        // A mix of priorities and stamps.
        let priority = match item % 3 {
            0 => Priority::P1,
            1 => Priority::P5,
            _ => Priority::P8,
        };
        queue.send(priority, item, item);
    }
    let mut received = Vec::new();
    while let Some(item) = queue.recv(30) {
        received.push(item);
    }
    assert_eq!(queue.queued_count(), 0);
    received.sort();
    assert_eq!(received, sent);
}

#[test]
fn zero_capacity_queue_reports_full_yet_accepts() {
    let mut queue: AgeingPriorityQueue<u64> = AgeingPriorityQueue::soft_bounded(0);
    assert!(queue.is_full());
    queue.send(Priority::P0, 9, 0);
    assert_eq!(queue.queued_count(), 1);
    assert_eq!(queue.recv(0), Some(9));
}
