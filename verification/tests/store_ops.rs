//! Tests of the durable store operations.

use pubhouse::error::MyError;
use pubhouse::store::Store;
use pubhouse::types::{Person, Pub, PubTable};

#[test]
fn add_person_is_upsert() {
    let mut store = Store::new();
    Person::add_person(&mut store, 1, 10);
    Person::add_person(&mut store, 1, 99);
    let p = Person::load_from_db(&store, 1).unwrap();
    assert_eq!(p.id, 1);
    assert_eq!(p.name, None);
    assert_eq!(p.pub_id, None);
    assert_eq!(p.table_id, None);
    assert_eq!(p.last_updated, 10);
}

#[test]
fn load_missing_person_is_not_found() {
    let store = Store::new();
    assert_eq!(Person::load_from_db(&store, 7), Err(MyError::NotFound));
}

#[test]
fn set_name_updates_the_record() {
    let mut store = Store::new();
    Person::add_person(&mut store, 1, 10);
    Person::set_name(&mut store, 1, "Alice".to_string(), 20);
    let p = Person::load_from_db(&store, 1).unwrap();
    assert_eq!(p.name, Some("Alice".to_string()));
    assert_eq!(p.last_updated, 20);
}

#[test]
fn update_last_touches_only_activity() {
    let mut store = Store::new();
    Person::add_person(&mut store, 1, 10);
    let pb = Pub { id: 100, name: "The Anchor".to_string() };
    pb.add_pub(&mut store).unwrap();
    Person::set_pub(&mut store, 1, 100, 11).unwrap();
    Person::update_last(&mut store, 1, 50);
    let p = Person::load_from_db(&store, 1).unwrap();
    assert_eq!(p.pub_id, Some(100));
    assert_eq!(p.table_id, None);
    assert_eq!(p.last_updated, 50);
}

#[test]
fn add_pub_rejects_duplicate_id() {
    let mut store = Store::new();
    let pb = Pub { id: 100, name: "The Anchor".to_string() };
    pb.add_pub(&mut store).unwrap();
    let again = Pub { id: 100, name: "The Crown".to_string() };
    assert_eq!(again.add_pub(&mut store), Err(MyError::Duplicate));
    let listed = Pub::get_pubs(&store);
    assert_eq!(listed.len(), 1);
    assert_eq!(listed[0].name, "The Anchor");
}

#[test]
fn get_pubs_derives_member_lists() {
    let mut store = Store::new();
    Pub { id: 100, name: "The Anchor".to_string() }.add_pub(&mut store).unwrap();
    Pub { id: 200, name: "The Crown".to_string() }.add_pub(&mut store).unwrap();
    Person::add_person(&mut store, 1, 10);
    Person::add_person(&mut store, 2, 10);
    Person::add_person(&mut store, 3, 10);
    Person::set_pub(&mut store, 1, 100, 11).unwrap();
    Person::set_pub(&mut store, 2, 200, 12).unwrap();
    Person::set_pub(&mut store, 3, 100, 13).unwrap();
    let listed = Pub::get_pubs(&store);
    assert_eq!(listed.len(), 2);
    assert_eq!(listed[0].id, 100);
    assert_eq!(listed[0].persons, vec![1, 3]);
    assert_eq!(listed[1].id, 200);
    assert_eq!(listed[1].persons, vec![2]);
}

#[test]
fn delete_pub_with_member_is_a_no_op() {
    let mut store = Store::new();
    Pub { id: 100, name: "The Anchor".to_string() }.add_pub(&mut store).unwrap();
    Person::add_person(&mut store, 1, 10);
    Person::set_pub(&mut store, 1, 100, 11).unwrap();
    Pub::delete_pub(&mut store, 100);
    let listed = Pub::get_pubs(&store);
    assert_eq!(listed.len(), 1);
    assert_eq!(listed[0].id, 100);
}

#[test]
fn delete_pub_without_members_removes_it() {
    let mut store = Store::new();
    Pub { id: 100, name: "The Anchor".to_string() }.add_pub(&mut store).unwrap();
    Pub::delete_pub(&mut store, 100);
    assert!(Pub::get_pubs(&store).is_empty());
}

#[test]
fn delete_pub_takes_its_empty_tables_along() {
    let mut store = Store::new();
    Pub { id: 100, name: "The Anchor".to_string() }.add_pub(&mut store).unwrap();
    PubTable { id: 30, name: "corner".to_string(), pub_id: 100 }.add_table(&mut store).unwrap();
    Pub::delete_pub(&mut store, 100);
    assert!(Pub::get_pubs(&store).is_empty());
    assert!(PubTable::get_tables(&store, 100).is_empty());
}

#[test]
fn add_table_needs_an_existing_pub() {
    let mut store = Store::new();
    let t = PubTable { id: 30, name: "corner".to_string(), pub_id: 999 };
    assert_eq!(t.add_table(&mut store), Err(MyError::NotFound));
}

#[test]
fn add_table_rejects_duplicate_id() {
    let mut store = Store::new();
    Pub { id: 100, name: "The Anchor".to_string() }.add_pub(&mut store).unwrap();
    PubTable { id: 30, name: "corner".to_string(), pub_id: 100 }.add_table(&mut store).unwrap();
    let again = PubTable { id: 30, name: "window".to_string(), pub_id: 100 };
    assert_eq!(again.add_table(&mut store), Err(MyError::Duplicate));
}

#[test]
fn delete_table_reports_missing_tables() {
    let mut store = Store::new();
    assert_eq!(PubTable::delete_table(&mut store, 30), Err(MyError::NotFound));
}

#[test]
fn delete_table_with_member_stays_and_reports_parent() {
    let mut store = Store::new();
    Pub { id: 100, name: "The Anchor".to_string() }.add_pub(&mut store).unwrap();
    PubTable { id: 30, name: "corner".to_string(), pub_id: 100 }.add_table(&mut store).unwrap();
    Person::add_person(&mut store, 1, 10);
    Person::set_pub(&mut store, 1, 100, 11).unwrap();
    Person::set_table(&mut store, 1, 30, 12).unwrap();
    assert_eq!(PubTable::delete_table(&mut store, 30), Ok(100));
    assert_eq!(PubTable::get_tables(&store, 100).len(), 1);
}

#[test]
fn delete_table_without_members_removes_it() {
    let mut store = Store::new();
    Pub { id: 100, name: "The Anchor".to_string() }.add_pub(&mut store).unwrap();
    PubTable { id: 30, name: "corner".to_string(), pub_id: 100 }.add_table(&mut store).unwrap();
    assert_eq!(PubTable::delete_table(&mut store, 30), Ok(100));
    assert!(PubTable::get_tables(&store, 100).is_empty());
}

#[test]
fn get_tables_of_unknown_pub_is_empty() {
    let store = Store::new();
    assert!(PubTable::get_tables(&store, 999).is_empty());
}

#[test]
fn cleanup_reaps_exactly_the_stale() {
    let mut store = Store::new();
    Person::add_person(&mut store, 1, 0);
    Person::add_person(&mut store, 2, 290);
    // At 301 seconds, the person last seen at 0 is out of the five-minute
    // window; the one seen at 290 is not.
    Person::cleanup_outdated(&mut store, 301);
    assert!(!store.contains_person(1));
    assert!(store.contains_person(2));
}

#[test]
fn cleanup_at_the_window_edge_keeps_the_record() {
    let mut store = Store::new();
    Person::add_person(&mut store, 1, 0);
    // Exactly five minutes old: not yet stale (strictly older is required).
    Person::cleanup_outdated(&mut store, 300);
    assert!(store.contains_person(1));
    Person::cleanup_outdated(&mut store, 301);
    assert!(!store.contains_person(1));
}

#[test]
fn regular_pings_outlive_many_reaper_ticks() {
    let mut store = Store::new();
    Person::add_person(&mut store, 1, 0);
    let mut last_ping: u64 = 0;
    let mut now: u64 = 0;
    for tick in 1..=30u64 {
        now = tick * 60;
        if now >= last_ping + 240 {
            Person::update_last(&mut store, 1, now);
            last_ping = now;
        }
        Person::cleanup_outdated(&mut store, now);
        assert!(store.contains_person(1), "reaped at tick {}", tick);
    }
}
