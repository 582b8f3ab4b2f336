use slimcode::app::quota::{eviction_order, quota_target, StoreFile};

fn f(size: u64, mtime: u128, active: bool) -> StoreFile {
    StoreFile { size, mtime, active }
}

#[test]
fn no_eviction_within_the_quota() {
    assert_eq!(quota_target(100, 100), None);
    assert_eq!(quota_target(0, 0), None);
    assert_eq!(quota_target(101, 100), Some(50));
    assert_eq!(quota_target(10, 7), Some(3));
}

#[test]
fn eviction_goes_oldest_first_and_skips_the_active_session() {
    let files = vec![f(10, 30, false), f(10, 10, false), f(10, 20, true), f(10, 5, false)];
    assert_eq!(eviction_order(&files), vec![3, 1, 0]);
}

#[test]
fn equal_times_keep_their_listing_order() {
    let files = vec![f(1, 7, false), f(1, 3, false), f(1, 7, false), f(1, 3, false)];
    assert_eq!(eviction_order(&files), vec![1, 3, 0, 2]);
    assert!(eviction_order(&[]).is_empty());
    assert!(eviction_order(&[f(5, 1, true)]).is_empty());
}
