use cause::fail_cache::is_capacity;
use cause::ip::{parse_ip, IpAddr};
use cause::tracker::FailureTracker;

const MS: u128 = 1_000_000;
const SEC: u128 = 1_000_000_000;

fn ip(s: &str) -> IpAddr {
    parse_ip(s).unwrap()
}

fn tracker(max_fails: u32, window: u128) -> FailureTracker {
    FailureTracker::new(max_fails, window, window, 100_000)
}

#[test]
fn tests_test_failure_tracker_blocks_after_threshold() {
    let mut tracker = tracker(3, 60 * SEC);
    let addr = ip("127.0.0.1");
    tracker.record(addr, false);
    tracker.record(addr, false);
    tracker.record(addr, false);
    assert!(tracker.is_blocked(addr));
}

#[test]
fn tests_test_failure_tracker_clears_on_success() {
    let mut tracker = tracker(3, 60 * SEC);
    let addr = ip("127.0.0.1");
    tracker.record(addr, false);
    tracker.record(addr, false);
    tracker.record(addr, true);
    assert!(!tracker.is_blocked(addr));
}

#[test]
fn tests_test_failure_tracker_success_only_clears_own_ip() {
    let mut tracker = tracker(3, 60 * SEC);
    let addr_a = ip("10.0.0.1");
    let addr_b = ip("10.0.0.2");
    tracker.record(addr_a, false);
    tracker.record(addr_a, false);
    tracker.record(addr_a, false);
    assert!(tracker.is_blocked(addr_a));
    tracker.record(addr_b, true);
    assert!(tracker.is_blocked(addr_a));
}

#[test]
fn tests_test_failure_tracker_prune_removes_stale() {
    let mut tracker = tracker(3, 50 * MS);
    let addr = ip("127.0.0.1");
    tracker.record_at(addr, false, 0);
    tracker.record_at(addr, false, 0);
    tracker.record_at(addr, false, 0);
    assert!(tracker.is_blocked_at(addr, 0));
    tracker.prune_at(100 * MS);
    assert!(!tracker.is_blocked_at(addr, 100 * MS));
}

#[test]
fn tests_test_failure_tracker_prune_keeps_fresh() {
    let mut tracker = tracker(3, 60 * SEC);
    let addr = ip("127.0.0.1");
    tracker.record(addr, false);
    tracker.record(addr, false);
    tracker.record(addr, false);
    assert!(tracker.is_blocked(addr));
    tracker.prune();
    assert!(tracker.is_blocked(addr));
}

#[test]
fn tests_test_failure_tracker_refresh_extends_block() {
    let mut tracker = tracker(3, 200 * MS);
    let addr = ip("127.0.0.1");
    tracker.record_at(addr, false, 0);
    tracker.record_at(addr, false, 0);
    tracker.record_at(addr, false, 0);
    assert!(tracker.is_blocked_at(addr, 0));
    assert!(tracker.is_blocked_at(addr, 150 * MS));
    tracker.refresh_block_at(addr, 150 * MS);
    assert!(tracker.is_blocked_at(addr, 150 * MS));
    assert!(tracker.is_blocked_at(addr, (150 + 50) * MS));
    assert!(!tracker.is_blocked_at(addr, (150 + 50 + 160) * MS));
}

#[test]
fn auth_test_failure_tracker_blocks_after_threshold() {
    let mut tracker = FailureTracker::new(3, 60 * SEC, 60 * SEC, 100_000);
    let addr = ip("127.0.0.1");
    tracker.record(addr, false);
    tracker.record(addr, false);
    tracker.record(addr, false);
    assert!(tracker.is_blocked(addr));
}

#[test]
fn auth_test_failure_tracker_clears_on_success() {
    let mut tracker = FailureTracker::new(3, 60 * SEC, 60 * SEC, 100_000);
    let addr = ip("127.0.0.1");
    tracker.record(addr, false);
    tracker.record(addr, false);
    tracker.record(addr, true);
    assert!(!tracker.is_blocked(addr));
}

#[test]
fn auth_test_failure_tracker_success_only_clears_own_ip() {
    let mut tracker = FailureTracker::new(3, 60 * SEC, 60 * SEC, 100_000);
    let addr_a = ip("10.0.0.1");
    let addr_b = ip("10.0.0.2");
    tracker.record(addr_a, false);
    tracker.record(addr_a, false);
    tracker.record(addr_a, false);
    assert!(tracker.is_blocked(addr_a));
    tracker.record(addr_b, true);
    assert!(tracker.is_blocked(addr_a));
}

#[test]
fn auth_test_failure_tracker_prune_removes_stale() {
    let mut tracker = FailureTracker::new(3, 50 * MS, 50 * MS, 100_000);
    let addr = ip("127.0.0.1");
    tracker.record_at(addr, false, 0);
    tracker.record_at(addr, false, 0);
    tracker.record_at(addr, false, 0);
    assert!(tracker.is_blocked_at(addr, 0));
    tracker.prune_at(100 * MS);
    assert!(!tracker.is_blocked_at(addr, 100 * MS));
}

#[test]
fn auth_test_failure_tracker_prune_keeps_fresh() {
    let mut tracker = FailureTracker::new(3, 60 * SEC, 60 * SEC, 100_000);
    let addr = ip("127.0.0.1");
    tracker.record(addr, false);
    tracker.record(addr, false);
    tracker.record(addr, false);
    assert!(tracker.is_blocked(addr));
    tracker.prune();
    assert!(tracker.is_blocked(addr));
}

#[test]
fn test_failure_tracker_eviction_never_evicts_blocked() {
    let mut tracker = FailureTracker::new(3, 60 * SEC, 60 * SEC, 2);
    let blocked = ip("10.0.0.1");
    tracker.record(blocked, false);
    tracker.record(blocked, false);
    tracker.record(blocked, false);
    assert!(tracker.is_blocked(blocked));
    for i in 0..100u8 {
        tracker.record(ip(&format!("10.0.1.{}", i)), false);
    }
    assert!(tracker.is_blocked(blocked));
}

#[test]
fn test_failure_tracker_eviction_at_capacity_evicts_non_blocked() {
    let mut tracker = FailureTracker::new(3, 60 * SEC, 60 * SEC, 2);
    let a = ip("10.0.0.1");
    let b = ip("10.0.0.2");
    let c = ip("10.0.0.3");
    tracker.record(a, false);
    tracker.record(b, false);
    tracker.record(c, false);
    tracker.record(c, false);
    tracker.record(c, false);
    assert!(tracker.is_blocked(c));
    assert!(!tracker.has_recent_failures(a));
}

#[test]
fn auth_test_failure_tracker_refresh_extends_block() {
    let mut tracker = FailureTracker::new(3, 200 * MS, 200 * MS, 100_000);
    let addr = ip("127.0.0.1");
    tracker.record_at(addr, false, 0);
    tracker.record_at(addr, false, 0);
    tracker.record_at(addr, false, 0);
    assert!(tracker.is_blocked_at(addr, 0));
    assert!(tracker.is_blocked_at(addr, 150 * MS));
    tracker.refresh_block_at(addr, 150 * MS);
    assert!(tracker.is_blocked_at(addr, 150 * MS));
    assert!(tracker.is_blocked_at(addr, (150 + 50) * MS));
    assert!(!tracker.is_blocked_at(addr, (150 + 50 + 160) * MS));
}

#[test]
fn test_success_does_not_clear_active_block() {
    let mut tracker = FailureTracker::new(3, 60 * SEC, 60 * SEC, 100_000);
    let addr = ip("127.0.0.1");
    tracker.record(addr, false);
    tracker.record(addr, false);
    tracker.record(addr, false);
    assert!(tracker.is_blocked(addr));
    tracker.record(addr, true);
    assert!(tracker.is_blocked(addr));
}

#[test]
fn test_lazy_block_expiry_via_record_after_window() {
    let mut tracker = FailureTracker::new(3, 50 * MS, 50 * MS, 100_000);
    let addr = ip("127.0.0.1");
    tracker.record_at(addr, false, 0);
    tracker.record_at(addr, false, 0);
    tracker.record_at(addr, false, 0);
    assert!(tracker.is_blocked_at(addr, 0));
    assert!(!tracker.is_blocked_at(addr, 60 * MS));
    tracker.record_at(addr, false, 60 * MS);
    assert!(!tracker.is_blocked_at(addr, 60 * MS));
}

#[test]
fn test_failure_tracker_has_recent_failures() {
    let mut tracker = FailureTracker::new(3, 60 * SEC, 60 * SEC, 100_000);
    let addr = ip("10.0.0.1");
    assert!(!tracker.has_recent_failures(addr));
    tracker.record(addr, false);
    assert!(tracker.has_recent_failures(addr));
    tracker.record(addr, true);
    assert!(!tracker.has_recent_failures(addr));
}

#[test]
fn test_failure_tracker_blocks_ipv6_slash_64_rotation() {
    let mut tracker = FailureTracker::new(3, 60 * SEC, 60 * SEC, 100_000);
    tracker.record(ip("2001:db8:1:2::1"), false);
    tracker.record(ip("2001:db8:1:2::2"), false);
    tracker.record(ip("2001:db8:1:2::3"), false);
    assert!(tracker.is_blocked(ip("2001:db8:1:2::4")));
    assert!(!tracker.is_blocked(ip("2001:db8:1:3::1")));
}

#[test]
fn fewer_failures_than_the_threshold_do_not_block() {
    let mut tracker = tracker(3, 60 * SEC);
    let addr = ip("10.0.0.1");
    tracker.record_at(addr, false, 0);
    tracker.record_at(addr, false, 1);
    assert!(!tracker.is_blocked_at(addr, 1));
    assert!(tracker.has_recent_failures_at(addr, 1));
    tracker.record_at(addr, false, 2);
    assert!(tracker.is_blocked_at(addr, 2));
}

#[test]
fn threshold_of_one_blocks_at_once() {
    let mut tracker = tracker(1, 60 * SEC);
    let addr = ip("10.0.0.1");
    tracker.record_at(addr, false, 5);
    assert!(tracker.is_blocked_at(addr, 5));
}

#[test]
fn window_is_fixed_and_starts_with_the_first_failure() {
    let mut tracker = FailureTracker::new(3, 100, 1000, 10);
    let addr = ip("10.0.0.1");
    tracker.record_at(addr, false, 0);
    tracker.record_at(addr, false, 90);
    // The window of the first failure is over: the count starts anew.
    tracker.record_at(addr, false, 101);
    assert!(!tracker.is_blocked_at(addr, 101));
    tracker.record_at(addr, false, 150);
    assert!(!tracker.is_blocked_at(addr, 150));
    tracker.record_at(addr, false, 201);
    assert!(tracker.is_blocked_at(addr, 201));
}

#[test]
fn window_and_block_last_to_their_last_moment() {
    let mut tracker = FailureTracker::new(2, 100, 50, 10);
    let addr = ip("10.0.0.1");
    tracker.record_at(addr, false, 0);
    assert!(tracker.has_recent_failures_at(addr, 100));
    assert!(!tracker.has_recent_failures_at(addr, 101));
    tracker.record_at(addr, false, 100);
    assert!(tracker.is_blocked_at(addr, 150));
    assert!(!tracker.is_blocked_at(addr, 151));
}

#[test]
fn eviction_takes_the_least_recent_failure() {
    let mut tracker = FailureTracker::new(5, 60 * SEC, 60 * SEC, 2);
    let (a, b, c) = (ip("10.0.0.1"), ip("10.0.0.2"), ip("10.0.0.3"));
    tracker.record_at(a, false, 0);
    tracker.record_at(b, false, 1);
    tracker.record_at(a, false, 2);
    tracker.record_at(c, false, 3);
    assert!(tracker.has_recent_failures_at(a, 3));
    assert!(!tracker.has_recent_failures_at(b, 3));
    assert!(tracker.has_recent_failures_at(c, 3));
}

#[test]
fn looking_does_not_make_a_failure_more_recent() {
    let mut tracker = FailureTracker::new(5, 60 * SEC, 60 * SEC, 2);
    let (a, b, c) = (ip("10.0.0.1"), ip("10.0.0.2"), ip("10.0.0.3"));
    tracker.record_at(a, false, 0);
    tracker.record_at(b, false, 1);
    assert!(tracker.has_recent_failures_at(a, 2));
    tracker.record_at(c, false, 3);
    assert!(!tracker.has_recent_failures_at(a, 3));
}

#[test]
fn prune_drops_failures_whose_window_is_over_and_keeps_others() {
    let mut tracker = FailureTracker::new(3, 100, 100, 2);
    let (a, b, c) = (ip("10.0.0.1"), ip("10.0.0.2"), ip("10.0.0.3"));
    tracker.record_at(a, false, 0);
    tracker.record_at(b, false, 50);
    tracker.prune_at(120);
    assert!(tracker.has_recent_failures_at(b, 120));
    // There is room for one more without an eviction.
    tracker.record_at(c, false, 120);
    assert!(tracker.has_recent_failures_at(b, 120));
    assert!(tracker.has_recent_failures_at(c, 120));
}

#[test]
fn prune_drops_blocks_of_both_families() {
    let mut tracker = FailureTracker::new(1, 100, 100, 2);
    let (v4, v6) = (ip("10.0.0.1"), ip("2001:db8::1"));
    tracker.record_at(v4, false, 0);
    tracker.record_at(v6, false, 50);
    tracker.prune_at(120);
    assert!(!tracker.is_blocked_at(v4, 0));
    assert!(tracker.is_blocked_at(v6, 120));
}

#[test]
fn refresh_does_not_block_anybody_else() {
    let mut tracker = FailureTracker::new(3, 100, 100, 2);
    let addr = ip("10.0.0.1");
    tracker.refresh_block_at(addr, 0);
    assert!(!tracker.is_blocked_at(addr, 0));
    tracker.record_at(addr, false, 0);
    tracker.refresh_block_at(addr, 1);
    assert!(!tracker.is_blocked_at(addr, 1));
}

#[test]
fn refresh_drops_a_block_that_is_over() {
    let mut tracker = FailureTracker::new(1, 100, 100, 2);
    let addr = ip("10.0.0.1");
    tracker.record_at(addr, false, 0);
    tracker.refresh_block_at(addr, 101);
    assert!(!tracker.is_blocked_at(addr, 101));
    assert!(!tracker.is_blocked_at(addr, 0));
}

#[test]
fn clock_does_not_run_backwards() {
    let tracker = tracker(3, SEC);
    let first = tracker.now();
    let second = tracker.now();
    assert!(first <= second);
    assert!(second < 3600 * SEC);
}

#[test]
fn failure_after_a_block_is_the_first_of_a_new_window() {
    let mut tracker = FailureTracker::new(3, 50 * MS, 50 * MS, 100_000);
    let addr = ip("127.0.0.1");
    for _ in 0..3 {
        tracker.record_at(addr, false, 0);
    }
    assert!(tracker.is_blocked_at(addr, 50 * MS));
    tracker.record_at(addr, false, 60 * MS);
    assert!(!tracker.is_blocked_at(addr, 60 * MS));
    assert!(tracker.has_recent_failures_at(addr, 60 * MS));
    assert!(tracker.has_recent_failures_at(addr, 110 * MS));
    assert!(!tracker.has_recent_failures_at(addr, 111 * MS));
    tracker.record_at(addr, false, 70 * MS);
    assert!(!tracker.is_blocked_at(addr, 70 * MS));
    tracker.record_at(addr, false, 80 * MS);
    assert!(tracker.is_blocked_at(addr, 80 * MS));
}

#[test]
fn success_after_a_block_leaves_a_clean_record() {
    let mut tracker = FailureTracker::new(1, 50, 50, 10);
    let addr = ip("127.0.0.1");
    tracker.record_at(addr, false, 0);
    tracker.record_at(addr, true, 51);
    assert!(!tracker.is_blocked_at(addr, 51));
    assert!(!tracker.has_recent_failures_at(addr, 51));
}

#[test]
fn threshold_of_one_blocks_again_after_a_block() {
    let mut tracker = FailureTracker::new(1, 50, 50, 10);
    let addr = ip("127.0.0.1");
    tracker.record_at(addr, false, 0);
    tracker.record_at(addr, false, 51);
    assert!(tracker.is_blocked_at(addr, 51));
}

#[test]
fn pruning_first_changes_no_later_answer() {
    let addr = ip("127.0.0.1");
    let run = |prune: bool| {
        let mut tracker = FailureTracker::new(3, 50, 50, 10);
        for _ in 0..3 {
            tracker.record_at(addr, false, 0);
        }
        if prune {
            tracker.prune_at(60);
        }
        tracker.record_at(addr, false, 60);
        (tracker.is_blocked_at(addr, 60), tracker.has_recent_failures_at(addr, 60))
    };
    assert_eq!(run(true), (false, true));
    assert_eq!(run(false), (false, true));
}

#[test]
fn eviction_makes_room_for_a_client_whose_block_is_over() {
    let mut tracker = FailureTracker::new(2, 100, 50, 2);
    let (a, b, c) = (ip("10.0.0.1"), ip("10.0.0.2"), ip("10.0.0.3"));
    tracker.record_at(c, false, 0);
    tracker.record_at(c, false, 0);
    tracker.record_at(a, false, 10);
    tracker.record_at(b, false, 20);
    tracker.record_at(c, false, 60);
    assert!(!tracker.has_recent_failures_at(a, 60));
    assert!(tracker.has_recent_failures_at(b, 60));
    assert!(tracker.has_recent_failures_at(c, 60));
    assert!(!tracker.is_blocked_at(c, 60));
}

#[test]
fn clock_is_not_before_what_was_recorded() {
    let mut tracker = tracker(3, SEC);
    let addr = ip("10.0.0.1");
    let far = 1_000_000 * SEC;
    tracker.record_at(addr, false, far);
    assert!(tracker.now() >= far);
    assert!(tracker.has_recent_failures(addr));
    tracker.prune_at(far + 5);
    assert!(tracker.now() >= far + 5);
}

#[test]
fn prune_by_the_clock_drops_what_is_over() {
    let mut tracker = FailureTracker::new(1, 100, 100, 10);
    let (old, new) = (ip("10.0.0.1"), ip("10.0.0.2"));
    let far = 1_000_000 * SEC;
    tracker.record_at(old, false, 0);
    tracker.record_at(new, false, far);
    tracker.prune();
    // The older block is gone for good.
    assert!(!tracker.is_blocked_at(old, 0));
}

#[test]
fn capacity_is_bounded_by_what_can_be_allocated() {
    assert!(!is_capacity(0));
    assert!(is_capacity(1));
    assert!(is_capacity(100_000));
    assert!(is_capacity(50_000_000));
    assert!(!is_capacity(usize::MAX));
    assert!(!is_capacity(usize::MAX / 16));
}
