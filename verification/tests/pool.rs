use predictions::error::ServiceError;
use predictions::pool::Pool;

#[test]
fn new_pool_has_no_connections() {
    let pool = Pool::new(20);
    assert_eq!(pool.capacity(), 20);
    assert_eq!(pool.leased_count(), 0);
    assert_eq!(pool.idle_count(), 0);
}

#[test]
fn first_lease_is_fresh_and_numbered_from_zero() {
    let mut pool = Pool::new(2);
    let first = pool.acquire().unwrap();
    assert_eq!(first.id(), 0);
    assert!(first.is_fresh());
    let second = pool.acquire().unwrap();
    assert_eq!(second.id(), 1);
    assert!(second.is_fresh());
    assert_eq!(pool.leased_count(), 2);
    assert!(pool.is_leased(0));
    assert!(pool.is_leased(1));
}

#[test]
fn acquire_beyond_capacity_is_pool_exhausted() {
    let mut pool = Pool::new(2);
    let _first = pool.acquire().unwrap();
    let _second = pool.acquire().unwrap();
    let third = pool.acquire();
    assert_eq!(third.unwrap_err(), ServiceError::PoolExhausted);
    assert_eq!(pool.leased_count(), 2);
    assert_eq!(pool.idle_count(), 0);
}

#[test]
fn pool_of_capacity_zero_never_leases() {
    let mut pool = Pool::new(0);
    assert_eq!(pool.acquire().unwrap_err(), ServiceError::PoolExhausted);
    assert_eq!(pool.leased_count(), 0);
}

#[test]
fn released_connection_is_reused_by_next_lease() {
    let mut pool = Pool::new(3);
    let handle = pool.acquire().unwrap();
    let id = handle.id();
    assert!(pool.release(handle));
    assert_eq!(pool.leased_count(), 0);
    assert_eq!(pool.idle_count(), 1);
    assert!(pool.is_idle(id));
    let again = pool.acquire().unwrap();
    assert_eq!(again.id(), id);
    assert!(!again.is_fresh());
    assert_eq!(pool.idle_count(), 0);
    assert_eq!(pool.leased_count(), 1);
}

#[test]
fn lease_count_returns_to_baseline_after_release() {
    let mut pool = Pool::new(4);
    let kept = pool.acquire().unwrap();
    let baseline = pool.leased_count();
    let handle = pool.acquire().unwrap();
    assert_eq!(pool.leased_count(), baseline + 1);
    assert!(pool.release(handle));
    assert_eq!(pool.leased_count(), baseline);
    assert!(pool.is_leased(kept.id()));
}

#[test]
fn most_recently_released_connection_is_leased_first() {
    let mut pool = Pool::new(3);
    let a = pool.acquire().unwrap();
    let b = pool.acquire().unwrap();
    let c = pool.acquire().unwrap();
    assert!(pool.release(b));
    assert!(pool.release(a));
    assert!(pool.release(c));
    assert_eq!(pool.acquire().unwrap().id(), 2);
    assert_eq!(pool.acquire().unwrap().id(), 0);
    assert_eq!(pool.acquire().unwrap().id(), 1);
}

#[test]
fn discarded_connection_is_never_leased_again() {
    let mut pool = Pool::new(2);
    let broken = pool.acquire().unwrap();
    let broken_id = broken.id();
    assert!(pool.discard(broken));
    assert_eq!(pool.leased_count(), 0);
    assert_eq!(pool.idle_count(), 0);
    assert!(!pool.is_idle(broken_id));
    assert!(!pool.is_leased(broken_id));
    for _ in 0..10 {
        let first = pool.acquire().unwrap();
        let second = pool.acquire().unwrap();
        assert_ne!(first.id(), broken_id);
        assert_ne!(second.id(), broken_id);
        assert!(pool.release(first));
        assert!(pool.discard(second));
    }
}

#[test]
fn discard_frees_room_for_a_fresh_connection() {
    let mut pool = Pool::new(1);
    let broken = pool.acquire().unwrap();
    assert_eq!(pool.acquire().unwrap_err(), ServiceError::PoolExhausted);
    assert!(pool.discard(broken));
    let next = pool.acquire().unwrap();
    assert_eq!(next.id(), 1);
    assert!(next.is_fresh());
}

#[test]
fn release_of_a_foreign_lease_changes_nothing() {
    let mut ours = Pool::new(2);
    let mut theirs = Pool::new(2);
    let _zero = theirs.acquire().unwrap();
    let foreign = theirs.acquire().unwrap();
    let held = ours.acquire().unwrap();
    assert_eq!(foreign.id(), 1);
    assert!(!ours.release(foreign));
    assert_eq!(ours.leased_count(), 1);
    assert_eq!(ours.idle_count(), 0);
    assert!(ours.is_leased(held.id()));
}

#[test]
fn discard_of_a_foreign_lease_changes_nothing() {
    let mut ours = Pool::new(2);
    let mut theirs = Pool::new(2);
    let _zero = theirs.acquire().unwrap();
    let foreign = theirs.acquire().unwrap();
    let _held = ours.acquire().unwrap();
    assert!(!ours.discard(foreign));
    assert_eq!(ours.leased_count(), 1);
}

#[test]
fn as_many_leases_as_capacity_are_all_distinct() {
    let mut pool = Pool::new(20);
    let mut ids = Vec::new();
    for _ in 0..20 {
        let handle = pool.acquire().unwrap();
        assert!(!ids.contains(&handle.id()));
        ids.push(handle.id());
    }
    assert_eq!(pool.leased_count(), 20);
    assert_eq!(pool.acquire().unwrap_err(), ServiceError::PoolExhausted);
}

#[test]
fn leases_never_outnumber_capacity() {
    let mut pool = Pool::new(3);
    let mut held = Vec::new();
    for round in 0..50u32 {
        match pool.acquire() {
            Ok(handle) => held.push(handle),
            Err(error) => assert_eq!(error, ServiceError::PoolExhausted),
        }
        if round % 3 == 2 {
            let handle = held.remove(0);
            if round % 2 == 0 {
                assert!(pool.release(handle));
            } else {
                assert!(pool.discard(handle));
            }
        }
        assert!(pool.leased_count() <= pool.capacity());
        assert!(pool.leased_count() + pool.idle_count() <= pool.capacity());
        assert_eq!(pool.leased_count(), held.len());
    }
}

#[test]
fn established_pool_holds_all_its_connections_idle() {
    let mut pool = Pool::establish(3, 3).unwrap();
    assert_eq!(pool.capacity(), 3);
    assert_eq!(pool.idle_count(), 3);
    assert_eq!(pool.leased_count(), 0);
    assert!(pool.is_idle(0) && pool.is_idle(1) && pool.is_idle(2));
    assert!(!pool.is_idle(3));
    for expected in [2u64, 1, 0] {
        let handle = pool.acquire().unwrap();
        assert_eq!(handle.id(), expected);
        assert!(!handle.is_fresh());
    }
    assert_eq!(pool.acquire().unwrap_err(), ServiceError::PoolExhausted);
}

#[test]
fn pool_does_not_start_short_of_connections() {
    assert_eq!(Pool::establish(3, 2).unwrap_err(), ServiceError::StartupFailure);
    assert_eq!(Pool::establish(20, 0).unwrap_err(), ServiceError::StartupFailure);
    assert_eq!(Pool::establish(2, 3).unwrap_err(), ServiceError::StartupFailure);
    assert!(Pool::establish(3, 2).unwrap_err().is_fatal());
    assert!(Pool::establish(0, 0).is_ok());
    assert!(Pool::establish(20, 20).is_ok());
}

#[test]
fn established_pool_replaces_a_discarded_connection_by_a_fresh_one() {
    let mut pool = Pool::establish(2, 2).unwrap();
    let broken = pool.acquire().unwrap();
    assert_eq!(broken.id(), 1);
    assert!(pool.discard(broken));
    let kept = pool.acquire().unwrap();
    assert_eq!(kept.id(), 0);
    let fresh = pool.acquire().unwrap();
    assert_eq!(fresh.id(), 2);
    assert!(fresh.is_fresh());
    assert_eq!(pool.acquire().unwrap_err(), ServiceError::PoolExhausted);
}
