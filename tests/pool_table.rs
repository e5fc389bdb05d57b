use vigor_policer::bucket::Bucket;
use vigor_policer::flow_key::FlowKey;
use vigor_policer::pool::OsPool;
use vigor_policer::table::OsMap;

fn key(n: u32) -> FlowKey {
    FlowKey { src_addr: n, dst_addr: 7, src_port: 1000, dst_port: 80 }
}

#[test]
fn pool_allocates_first_free_until_full() {
    let mut p = OsPool::new(2);
    assert_eq!(p.allocate(5), Some(0));
    assert_eq!(p.allocate(6), Some(1));
    assert_eq!(p.allocate(7), None);
    assert_eq!(p.stamp(0), Some(5));
    assert_eq!(p.stamp(1), Some(6));
}

#[test]
fn pool_refresh_restamps() {
    let mut p = OsPool::new(1);
    let i = p.allocate(1).unwrap();
    p.refresh(i, 42);
    assert_eq!(p.stamp(i), Some(42));
}

#[test]
fn pool_expires_only_the_oldest() {
    let mut p = OsPool::new(3);
    p.allocate(30);
    p.allocate(10);
    p.allocate(20);
    assert_eq!(p.expire_if_older_than(25), Some(1));
    assert_eq!(p.stamp(1), None);
    assert_eq!(p.stamp(2), Some(20));
    assert_eq!(p.expire_if_older_than(25), Some(2));
    assert_eq!(p.expire_if_older_than(25), None);
    assert_eq!(p.stamp(0), Some(30));
    assert_eq!(p.allocate(40), Some(1));
}

#[test]
fn pool_expiry_with_ties_takes_lowest_index() {
    let mut p = OsPool::new(3);
    p.allocate(9);
    p.allocate(5);
    p.allocate(5);
    assert_eq!(p.expire_if_older_than(6), Some(1));
}

#[test]
fn pool_expiry_below_every_stamp_is_a_no_op() {
    let mut p = OsPool::new(2);
    p.allocate(10);
    p.allocate(11);
    assert_eq!(p.expire_if_older_than(10), None);
    assert_eq!(p.stamp(0), Some(10));
    assert_eq!(p.stamp(1), Some(11));
    let mut empty = OsPool::new(2);
    assert_eq!(empty.expire_if_older_than(i64::MAX), None);
}

#[test]
fn table_insert_lookup_remove() {
    let mut t = OsMap::new(2);
    assert!(t.insert(key(1), 0));
    assert!(t.insert(key(2), 1));
    assert_eq!(t.len(), 2);
    assert_eq!(t.lookup(&key(1)), Some(0));
    assert_eq!(t.lookup(&key(2)), Some(1));
    assert_eq!(t.lookup(&key(3)), None);
    t.remove(&key(1));
    assert_eq!(t.lookup(&key(1)), None);
    assert_eq!(t.lookup(&key(2)), Some(1));
    assert_eq!(t.len(), 1);
    t.remove(&key(9));
    assert_eq!(t.len(), 1);
}

#[test]
fn table_refuses_duplicates_and_overflow() {
    let mut t = OsMap::new(1);
    assert!(t.insert(key(1), 0));
    assert!(!t.insert(key(1), 0));
    assert!(!t.insert(key(2), 0));
    assert_eq!(t.len(), 1);
    assert_eq!(t.capacity(), 1);
}

#[test]
fn bucket_refills_up_to_burst_then_charges() {
    let mut b = Bucket { tokens: 2, last_refill: 10 };
    assert!(b.take(5, 14, 1, 10));
    assert_eq!(b, Bucket { tokens: 1, last_refill: 14 });
    let mut idle = Bucket { tokens: 0, last_refill: 0 };
    assert!(idle.take(0, i64::MAX, u64::MAX, 10));
    assert_eq!(idle.tokens, 10);
}

#[test]
fn bucket_denies_without_spending() {
    let mut b = Bucket { tokens: 3, last_refill: 0 };
    assert!(!b.take(4, 0, 1, 10));
    assert_eq!(b.tokens, 3);
}

#[test]
fn bucket_ignores_a_clock_that_went_back() {
    let mut b = Bucket { tokens: 3, last_refill: 100 };
    assert!(!b.take(4, 50, 1, 10));
    assert_eq!(b.tokens, 3);
}

#[test]
fn bucket_cost_above_burst_never_passes() {
    let mut b = Bucket { tokens: 10, last_refill: 0 };
    assert!(!b.take(11, 1_000_000, 5, 10));
    assert_eq!(b.tokens, 10);
}
