use bytes::Bytes;
use mini_redis::db::{delivered, Db, Wait};
use mini_redis::time::Duration;
use tokio::sync::broadcast::error::TryRecvError;

fn value(text: &str) -> Bytes {
    Bytes::copy_from_slice(text.as_bytes())
}

#[test]
fn new_database_is_empty() {
    let db = Db::new();
    assert_eq!(db.get("foo"), None);
    assert_eq!(db.next_expiration(), None);
    assert!(!db.is_shutdown());
    assert_eq!(db.publish("news", value("hi")), 0);
}

#[test]
fn get_after_set() {
    let mut db = Db::new();
    assert!(!db.set("foo".to_string(), value("bar"), None, 0));
    assert_eq!(db.get("foo"), Some(value("bar")));
    assert_eq!(db.get("baz"), None);
    assert_eq!(db.get("Foo"), None);
    assert!(!db.set("other".to_string(), value("x"), None, 5));
    assert_eq!(db.get("foo"), Some(value("bar")));
    assert_eq!(db.purge_expired_keys(1_000_000), None);
    assert_eq!(db.get("foo"), Some(value("bar")));
}

#[test]
fn set_replaces_the_value() {
    let mut db = Db::new();
    db.set("foo".to_string(), value("one"), None, 0);
    db.set("foo".to_string(), value("two"), None, 1);
    assert_eq!(db.get("foo"), Some(value("two")));
}

#[test]
fn set_with_time_to_live_sets_a_deadline() {
    let mut db = Db::new();
    let ttl = Some(Duration::from_millis(50));
    assert!(db.set("tmp".to_string(), value("x"), ttl, 1_000));
    assert_eq!(db.next_expiration(), Some(50_001_000));
    assert_eq!(db.get("tmp"), Some(value("x")));
    assert_eq!(db.purge_expired_keys(50_000_999), Some(50_001_000));
    assert_eq!(db.get("tmp"), Some(value("x")));
    assert_eq!(db.purge_expired_keys(50_001_000), None);
    assert_eq!(db.get("tmp"), None);
    assert_eq!(db.next_expiration(), None);
}

#[test]
fn value_has_expired_after_its_time() {
    let mut db = Db::new();
    let start = 7_000_000_000;
    db.set("tmp".to_string(), value("x"), Some(Duration::from_millis(50)), start);
    let later = start + 100 * 1_000_000;
    assert_eq!(db.purge_expired_keys(later), None);
    assert_eq!(db.get("tmp"), None);
}

#[test]
fn zero_time_to_live_expires_at_once() {
    let mut db = Db::new();
    assert!(db.set("k".to_string(), value("v"), Some(Duration::from_millis(0)), 42));
    assert_eq!(db.next_expiration(), Some(42));
    assert_eq!(db.purge_expired_keys(42), None);
    assert_eq!(db.get("k"), None);
}

#[test]
fn worker_is_woken_only_for_an_earlier_deadline() {
    let mut db = Db::new();
    assert!(db.set("a".to_string(), value("1"), Some(Duration::from_secs(10)), 0));
    assert!(!db.set("b".to_string(), value("2"), Some(Duration::from_secs(20)), 0));
    assert!(!db.set("c".to_string(), value("3"), Some(Duration::from_secs(10)), 0));
    assert!(db.set("d".to_string(), value("4"), Some(Duration::from_secs(5)), 0));
    assert!(!db.set("e".to_string(), value("5"), None, 0));
    assert_eq!(db.next_expiration(), Some(5_000_000_000));
}

#[test]
fn set_cancels_the_previous_deadline() {
    let mut db = Db::new();
    db.set("k".to_string(), value("old"), Some(Duration::from_secs(1)), 0);
    assert_eq!(db.next_expiration(), Some(1_000_000_000));
    db.set("k".to_string(), value("new"), None, 10);
    assert_eq!(db.next_expiration(), None);
    assert_eq!(db.purge_expired_keys(5_000_000_000), None);
    assert_eq!(db.get("k"), Some(value("new")));
    db.set("k".to_string(), value("newer"), Some(Duration::from_secs(3)), 0);
    db.set("k".to_string(), value("newest"), Some(Duration::from_secs(9)), 0);
    assert_eq!(db.next_expiration(), Some(9_000_000_000));
    assert_eq!(db.purge_expired_keys(3_000_000_000), Some(9_000_000_000));
    assert_eq!(db.get("k"), Some(value("newest")));
}

#[test]
fn purge_removes_what_has_expired_and_tells_the_next_deadline() {
    let mut db = Db::new();
    db.set("a".to_string(), value("1"), Some(Duration::from_secs(3)), 0);
    db.set("b".to_string(), value("2"), Some(Duration::from_secs(1)), 0);
    db.set("c".to_string(), value("3"), Some(Duration::from_secs(2)), 0);
    db.set("d".to_string(), value("4"), Some(Duration::from_secs(2)), 0);
    db.set("e".to_string(), value("5"), None, 0);
    assert_eq!(db.purge_expired_keys(0), Some(1_000_000_000));
    assert_eq!(db.purge_expired_keys(2_000_000_000), Some(3_000_000_000));
    assert_eq!(db.get("a"), Some(value("1")));
    assert_eq!(db.get("b"), None);
    assert_eq!(db.get("c"), None);
    assert_eq!(db.get("d"), None);
    assert_eq!(db.get("e"), Some(value("5")));
    assert_eq!(db.purge_expired_keys(u128::MAX), None);
    assert_eq!(db.get("a"), None);
    assert_eq!(db.get("e"), Some(value("5")));
}

#[test]
fn worker_turns() {
    let mut db = Db::new();
    assert_eq!(db.purge_expired_tasks(0), Wait::Notified);
    db.set("a".to_string(), value("1"), Some(Duration::from_secs(1)), 0);
    assert_eq!(db.purge_expired_tasks(10), Wait::Until(1_000_000_000));
    assert_eq!(db.purge_expired_tasks(1_000_000_000), Wait::Notified);
    assert_eq!(db.get("a"), None);
    db.set("b".to_string(), value("2"), Some(Duration::from_secs(1)), 0);
    assert!(!db.drop_handle(3));
    assert!(!db.is_shutdown());
    assert!(db.drop_handle(2));
    assert!(db.is_shutdown());
    assert_eq!(db.purge_expired_tasks(5_000_000_000), Wait::Exit);
    assert_eq!(db.purge_expired_keys(5_000_000_000), None);
    assert_eq!(db.get("b"), Some(value("2")));
}

#[test]
fn publish_without_channel_reaches_nobody() {
    let mut db = Db::new();
    assert_eq!(db.publish("news", value("hi")), 0);
    let _rx = db.subscribe("other".to_string());
    assert_eq!(db.publish("news", value("hi")), 0);
    assert_eq!(delivered(None), 0);
    assert_eq!(delivered(Some(3)), 3);
}

#[test]
fn publish_reaches_each_subscriber() {
    let mut db = Db::new();
    let mut first = db.subscribe("news".to_string());
    assert_eq!(db.publish("news", value("one")), 1);
    let mut second = db.subscribe("news".to_string());
    assert_eq!(db.publish("news", value("two")), 2);
    assert_eq!(first.try_recv(), Ok(value("one")));
    assert_eq!(first.try_recv(), Ok(value("two")));
    assert_eq!(first.try_recv(), Err(TryRecvError::Empty));
    assert_eq!(second.try_recv(), Ok(value("two")));
    assert_eq!(second.try_recv(), Err(TryRecvError::Empty));
}

#[test]
fn publish_to_a_channel_that_everyone_left_reaches_nobody() {
    let mut db = Db::new();
    let rx = db.subscribe("news".to_string());
    drop(rx);
    assert_eq!(db.publish("news", value("hi")), 0);
}

#[test]
fn messages_come_in_the_order_published() {
    let mut db = Db::new();
    let mut rx = db.subscribe("c".to_string());
    for i in 0..10u8 {
        assert_eq!(db.publish("c", Bytes::copy_from_slice(&[i])), 1);
    }
    for i in 0..10u8 {
        assert_eq!(rx.try_recv(), Ok(Bytes::copy_from_slice(&[i])));
    }
}

#[test]
fn a_subscriber_that_lags_is_told_and_goes_on_with_the_newest() {
    let mut db = Db::new();
    let mut rx = db.subscribe("c".to_string());
    for i in 0..1030u32 {
        db.publish("c", Bytes::copy_from_slice(&i.to_be_bytes()));
    }
    assert_eq!(rx.try_recv(), Err(TryRecvError::Lagged(6)));
    assert_eq!(rx.try_recv(), Ok(Bytes::copy_from_slice(&6u32.to_be_bytes())));
    assert_eq!(rx.try_recv(), Ok(Bytes::copy_from_slice(&7u32.to_be_bytes())));
}

#[test]
fn channels_and_keys_are_apart() {
    let mut db = Db::new();
    let mut rx = db.subscribe("foo".to_string());
    db.set("foo".to_string(), value("bar"), None, 0);
    assert_eq!(rx.try_recv(), Err(TryRecvError::Empty));
    assert_eq!(db.publish("foo", value("msg")), 1);
    assert_eq!(db.get("foo"), Some(value("bar")));
}
