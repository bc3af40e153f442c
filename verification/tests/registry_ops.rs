//! Tests of the connection registry.

use pubhouse::registry::Registry;

#[test]
fn register_twice_keeps_one_entry() {
    let mut reg = Registry::new();
    reg.register(1);
    reg.register(1);
    assert!(reg.contains(1));
    let c = reg.lookup(1).unwrap();
    assert_eq!(c.id, 1);
    assert_eq!(c.pub_id, None);
    assert_eq!(c.table_id, None);
}

#[test]
fn register_resets_cached_membership() {
    let mut reg = Registry::new();
    reg.register(1);
    reg.update_membership(1, Some(100), Some(30));
    reg.register(1);
    let c = reg.lookup(1).unwrap();
    assert_eq!(c.pub_id, None);
    assert_eq!(c.table_id, None);
}

#[test]
fn deregister_is_idempotent() {
    let mut reg = Registry::new();
    reg.register(1);
    reg.deregister(1);
    assert!(!reg.contains(1));
    reg.deregister(1);
    assert!(!reg.contains(1));
}

#[test]
fn update_membership_of_absent_id_is_a_no_op() {
    let mut reg = Registry::new();
    reg.register(1);
    reg.update_membership(2, Some(100), None);
    assert!(!reg.contains(2));
    let c = reg.lookup(1).unwrap();
    assert_eq!(c.pub_id, None);
}

#[test]
fn room_queries_filter_on_the_cache() {
    let mut reg = Registry::new();
    reg.register(1);
    reg.register(2);
    reg.register(3);
    reg.update_membership(1, Some(100), Some(30));
    reg.update_membership(2, Some(100), None);
    reg.update_membership(3, Some(200), Some(40));
    assert_eq!(reg.get_clients_in_pub(100), vec![1, 2]);
    assert_eq!(reg.get_clients_in_pub(200), vec![3]);
    assert_eq!(reg.get_clients_in_pub(999), Vec::<u128>::new());
    assert_eq!(reg.get_clients_in_table(30), vec![1]);
    assert_eq!(reg.get_clients_in_table(40), vec![3]);
}
