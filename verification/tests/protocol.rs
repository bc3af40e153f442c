//! Tests of the command processor: one decoded command in, the next
//! state and the messages to deliver out.

use pubhouse::commands::{Connection, Outbound};
use pubhouse::registry::Registry;
use pubhouse::store::Store;
use pubhouse::types::{Command, Person, Response};

#[test]
fn create_pub_then_list_pubs_round_trip() {
    let mut store = Store::new();
    let mut reg = Registry::new();
    Person::add_person(&mut store, 1, 10);
    reg.register(1);
    let conn = Connection { id: 1 };

    let effects = conn.handle_command(
        &mut store,
        &mut reg,
        Command::CreatePub { name: "The Anchor".to_string() },
        11,
        100,
    );
    assert_eq!(effects.len(), 2);
    assert_eq!(effects[0].to, vec![1]);
    match &effects[0].msg {
        Response::CreatePub { data } => {
            assert_eq!(data.id, 100);
            assert_eq!(data.name, "The Anchor");
            assert_eq!(data.persons, vec![1]);
        },
        other => panic!("expected a CreatePub reply, got {:?}", other),
    }
    assert_eq!(effects[1].to, vec![1]);
    match &effects[1].msg {
        Response::Person { data } => {
            assert_eq!(data.pub_id, Some(100));
            assert_eq!(data.table_id, None);
        },
        other => panic!("expected a Person reply, got {:?}", other),
    }

    let effects = conn.handle_command(&mut store, &mut reg, Command::ListPubs, 12, 0);
    assert_eq!(effects.len(), 1);
    assert_eq!(effects[0].to, vec![1]);
    match &effects[0].msg {
        Response::Pubs { list } => {
            assert_eq!(list.len(), 1);
            assert_eq!(list[0].id, 100);
            assert_eq!(list[0].name, "The Anchor");
            assert_eq!(list[0].persons, vec![1]);
        },
        other => panic!("expected a Pubs reply, got {:?}", other),
    }
}

#[test]
fn create_pub_with_a_colliding_id_changes_nothing() {
    let mut store = Store::new();
    let mut reg = Registry::new();
    Person::add_person(&mut store, 1, 10);
    reg.register(1);
    let conn = Connection { id: 1 };
    conn.handle_command(&mut store, &mut reg, Command::CreatePub { name: "A".to_string() }, 11, 100);
    let effects = conn.handle_command(
        &mut store,
        &mut reg,
        Command::CreatePub { name: "B".to_string() },
        12,
        100,
    );
    assert!(effects.is_empty());
    let effects = conn.handle_command(&mut store, &mut reg, Command::ListPubs, 13, 0);
    match &effects[0].msg {
        Response::Pubs { list } => {
            assert_eq!(list.len(), 1);
            assert_eq!(list[0].name, "A");
        },
        other => panic!("expected a Pubs reply, got {:?}", other),
    }
}

#[test]
fn join_pub_moves_person_and_notifies_both_rooms() {
    let mut store = Store::new();
    let mut reg = Registry::new();
    for id in [1u128, 2, 3] {
        Person::add_person(&mut store, id, 10);
        reg.register(id);
    }
    let a = Connection { id: 1 };
    let b = Connection { id: 2 };
    let c = Connection { id: 3 };
    // A builds pub 10 with table 30, B joins pub 10, C builds pub 20.
    a.handle_command(&mut store, &mut reg, Command::CreatePub { name: "P1".to_string() }, 11, 10);
    a.handle_command(
        &mut store,
        &mut reg,
        Command::CreateTable { pub_id: 10, name: "T1".to_string() },
        12,
        30,
    );
    b.handle_command(&mut store, &mut reg, Command::JoinPub { pub_id: 10 }, 13, 0);
    c.handle_command(&mut store, &mut reg, Command::CreatePub { name: "P2".to_string() }, 14, 20);

    let before = Person::load_from_db(&store, 1).unwrap();
    assert_eq!(before.pub_id, Some(10));
    assert_eq!(before.table_id, Some(30));

    let effects = a.handle_command(&mut store, &mut reg, Command::JoinPub { pub_id: 20 }, 15, 0);

    // A is out of pub 10 and table 30, and in pub 20 with no table.
    let after = Person::load_from_db(&store, 1).unwrap();
    assert_eq!(after.pub_id, Some(20));
    assert_eq!(after.table_id, None);
    let effects_list = a.handle_command(&mut store, &mut reg, Command::ListPubs, 16, 0);
    match &effects_list[0].msg {
        Response::Pubs { list } => {
            assert_eq!(list.len(), 2);
            assert_eq!(list[0].id, 10);
            assert_eq!(list[0].persons, vec![2]);
            assert_eq!(list[1].id, 20);
            assert_eq!(list[1].persons, vec![1, 3]);
        },
        other => panic!("expected a Pubs reply, got {:?}", other),
    }

    // Broadcasts: a presence refresh to the new pub's members (A and C),
    // one to the remaining member of the old pub (B), and the new pub's
    // table list back to A.
    assert_eq!(effects.len(), 3);
    assert_eq!(effects[0].to, vec![1, 3]);
    assert!(matches!(effects[0].msg, Response::Person { .. }));
    assert_eq!(effects[1].to, vec![2]);
    assert!(matches!(effects[1].msg, Response::Person { .. }));
    assert_eq!(effects[2].to, vec![1]);
    assert!(matches!(effects[2].msg, Response::Tables { .. }));
}

#[test]
fn join_pub_that_does_not_exist_is_a_no_op() {
    let mut store = Store::new();
    let mut reg = Registry::new();
    Person::add_person(&mut store, 1, 10);
    reg.register(1);
    let conn = Connection { id: 1 };
    let effects = conn.handle_command(&mut store, &mut reg, Command::JoinPub { pub_id: 999 }, 11, 0);
    assert!(effects.is_empty());
    let p = Person::load_from_db(&store, 1).unwrap();
    assert_eq!(p.pub_id, None);
    assert_eq!(p.last_updated, 10);
}

#[test]
fn ping_touches_activity_and_nothing_else() {
    let mut store = Store::new();
    let mut reg = Registry::new();
    Person::add_person(&mut store, 1, 10);
    reg.register(1);
    let conn = Connection { id: 1 };
    conn.handle_command(&mut store, &mut reg, Command::CreatePub { name: "P".to_string() }, 11, 10);
    conn.handle_command(
        &mut store,
        &mut reg,
        Command::CreateTable { pub_id: 10, name: "T".to_string() },
        12,
        30,
    );

    for now in [20u64, 21, 22] {
        let effects = conn.handle_command(&mut store, &mut reg, Command::Ping, now, 0);
        assert_eq!(effects.len(), 1);
        assert_eq!(effects[0].to, vec![1]);
        assert!(matches!(effects[0].msg, Response::Pong));
        let p = Person::load_from_db(&store, 1).unwrap();
        assert_eq!(p.pub_id, Some(10));
        assert_eq!(p.table_id, Some(30));
        assert_eq!(p.last_updated, now);
    }
}

#[test]
fn send_to_a_reachable_peer_delivers_exactly_one_data_frame() {
    let mut store = Store::new();
    let mut reg = Registry::new();
    Person::add_person(&mut store, 1, 10);
    Person::add_person(&mut store, 2, 10);
    reg.register(1);
    reg.register(2);
    let a = Connection { id: 1 };
    let effects = a.handle_command(
        &mut store,
        &mut reg,
        Command::Send { user_id: 2, content: "hi".to_string() },
        11,
        0,
    );
    assert_eq!(
        effects,
        vec![Outbound { to: vec![2], msg: Response::Data { author: 1, content: "hi".to_string() } }],
    );
}

#[test]
fn send_to_an_unreachable_peer_is_silent() {
    let mut store = Store::new();
    let mut reg = Registry::new();
    Person::add_person(&mut store, 1, 10);
    reg.register(1);
    let a = Connection { id: 1 };
    let effects = a.handle_command(
        &mut store,
        &mut reg,
        Command::Send { user_id: 2, content: "hi".to_string() },
        11,
        0,
    );
    assert!(effects.is_empty());
    // The sender's record and connection are untouched.
    assert!(reg.contains(1));
    let p = Person::load_from_db(&store, 1).unwrap();
    assert_eq!(p.last_updated, 10);
}

#[test]
fn delete_pub_guard_through_the_protocol() {
    let mut store = Store::new();
    let mut reg = Registry::new();
    Person::add_person(&mut store, 1, 10);
    reg.register(1);
    let conn = Connection { id: 1 };
    conn.handle_command(&mut store, &mut reg, Command::CreatePub { name: "P".to_string() }, 11, 10);

    // Occupied: the pub list comes back unchanged.
    let effects = conn.handle_command(&mut store, &mut reg, Command::DeletePub { pub_id: 10 }, 12, 0);
    match &effects[0].msg {
        Response::Pubs { list } => {
            assert_eq!(list.len(), 1);
            assert_eq!(list[0].id, 10);
        },
        other => panic!("expected a Pubs reply, got {:?}", other),
    }

    // Emptied: the pub disappears from the next listing.
    conn.handle_command(&mut store, &mut reg, Command::LeavePub, 13, 0);
    let effects = conn.handle_command(&mut store, &mut reg, Command::DeletePub { pub_id: 10 }, 14, 0);
    match &effects[0].msg {
        Response::Pubs { list } => assert!(list.is_empty()),
        other => panic!("expected a Pubs reply, got {:?}", other),
    }
}

#[test]
fn create_table_requires_membership_of_the_pub() {
    let mut store = Store::new();
    let mut reg = Registry::new();
    Person::add_person(&mut store, 1, 10);
    Person::add_person(&mut store, 2, 10);
    reg.register(1);
    reg.register(2);
    let a = Connection { id: 1 };
    let b = Connection { id: 2 };
    a.handle_command(&mut store, &mut reg, Command::CreatePub { name: "P".to_string() }, 11, 10);
    // B is not in pub 10: the table is not created.
    let effects = b.handle_command(
        &mut store,
        &mut reg,
        Command::CreateTable { pub_id: 10, name: "T".to_string() },
        12,
        30,
    );
    assert!(effects.is_empty());
    let effects = a.handle_command(&mut store, &mut reg, Command::ListTables { pub_id: 10 }, 13, 0);
    match &effects[0].msg {
        Response::Tables { list } => assert!(list.is_empty()),
        other => panic!("expected a Tables reply, got {:?}", other),
    }
}

#[test]
fn create_table_seats_its_maker() {
    let mut store = Store::new();
    let mut reg = Registry::new();
    Person::add_person(&mut store, 1, 10);
    reg.register(1);
    let conn = Connection { id: 1 };
    conn.handle_command(&mut store, &mut reg, Command::CreatePub { name: "P".to_string() }, 11, 10);
    let effects = conn.handle_command(
        &mut store,
        &mut reg,
        Command::CreateTable { pub_id: 10, name: "corner".to_string() },
        12,
        30,
    );
    assert_eq!(effects.len(), 2);
    match &effects[0].msg {
        Response::CreateTable { data } => {
            assert_eq!(data.id, 30);
            assert_eq!(data.pub_id, 10);
            assert_eq!(data.name, "corner");
            assert_eq!(data.persons, vec![1]);
        },
        other => panic!("expected a CreateTable reply, got {:?}", other),
    }
    match &effects[1].msg {
        Response::Person { data } => {
            assert_eq!(data.table_id, Some(30));
        },
        other => panic!("expected a Person reply, got {:?}", other),
    }
}

#[test]
fn join_table_in_another_pub_is_a_no_op() {
    let mut store = Store::new();
    let mut reg = Registry::new();
    Person::add_person(&mut store, 1, 10);
    Person::add_person(&mut store, 2, 10);
    reg.register(1);
    reg.register(2);
    let a = Connection { id: 1 };
    let b = Connection { id: 2 };
    a.handle_command(&mut store, &mut reg, Command::CreatePub { name: "P1".to_string() }, 11, 10);
    a.handle_command(
        &mut store,
        &mut reg,
        Command::CreateTable { pub_id: 10, name: "T1".to_string() },
        12,
        30,
    );
    b.handle_command(&mut store, &mut reg, Command::CreatePub { name: "P2".to_string() }, 13, 20);
    // B sits in pub 20; table 30 belongs to pub 10.
    let effects = b.handle_command(&mut store, &mut reg, Command::JoinTable { table_id: 30 }, 14, 0);
    assert!(effects.is_empty());
    let p = Person::load_from_db(&store, 2).unwrap();
    assert_eq!(p.table_id, None);
}

#[test]
fn leave_table_notifies_who_stays_behind() {
    let mut store = Store::new();
    let mut reg = Registry::new();
    Person::add_person(&mut store, 1, 10);
    Person::add_person(&mut store, 2, 10);
    reg.register(1);
    reg.register(2);
    let a = Connection { id: 1 };
    let b = Connection { id: 2 };
    a.handle_command(&mut store, &mut reg, Command::CreatePub { name: "P".to_string() }, 11, 10);
    a.handle_command(
        &mut store,
        &mut reg,
        Command::CreateTable { pub_id: 10, name: "T".to_string() },
        12,
        30,
    );
    b.handle_command(&mut store, &mut reg, Command::JoinPub { pub_id: 10 }, 13, 0);
    b.handle_command(&mut store, &mut reg, Command::JoinTable { table_id: 30 }, 14, 0);

    let effects = a.handle_command(&mut store, &mut reg, Command::LeaveTable, 15, 0);
    assert_eq!(effects.len(), 1);
    assert_eq!(effects[0].to, vec![2]);
    assert!(matches!(effects[0].msg, Response::Person { .. }));
    let p = Person::load_from_db(&store, 1).unwrap();
    assert_eq!(p.table_id, None);
    assert_eq!(p.pub_id, Some(10));
}

#[test]
fn leave_pub_clears_the_table_as_well() {
    let mut store = Store::new();
    let mut reg = Registry::new();
    Person::add_person(&mut store, 1, 10);
    reg.register(1);
    let conn = Connection { id: 1 };
    conn.handle_command(&mut store, &mut reg, Command::CreatePub { name: "P".to_string() }, 11, 10);
    conn.handle_command(
        &mut store,
        &mut reg,
        Command::CreateTable { pub_id: 10, name: "T".to_string() },
        12,
        30,
    );
    conn.handle_command(&mut store, &mut reg, Command::LeavePub, 13, 0);
    let p = Person::load_from_db(&store, 1).unwrap();
    assert_eq!(p.pub_id, None);
    assert_eq!(p.table_id, None);
}

#[test]
fn set_name_replies_with_the_updated_record() {
    let mut store = Store::new();
    let mut reg = Registry::new();
    Person::add_person(&mut store, 1, 10);
    reg.register(1);
    let conn = Connection { id: 1 };
    let effects = conn.handle_command(
        &mut store,
        &mut reg,
        Command::SetName { name: "Alice".to_string() },
        11,
        0,
    );
    assert_eq!(effects.len(), 1);
    match &effects[0].msg {
        Response::Person { data } => {
            assert_eq!(data.name, Some("Alice".to_string()));
        },
        other => panic!("expected a Person reply, got {:?}", other),
    }
}

#[test]
fn get_person_answers_for_known_ids_only() {
    let mut store = Store::new();
    let mut reg = Registry::new();
    Person::add_person(&mut store, 1, 10);
    Person::add_person(&mut store, 2, 10);
    reg.register(1);
    let conn = Connection { id: 1 };
    let effects = conn.handle_command(&mut store, &mut reg, Command::GetPerson { user_id: 2 }, 11, 0);
    assert_eq!(effects.len(), 1);
    match &effects[0].msg {
        Response::Person { data } => assert_eq!(data.id, 2),
        other => panic!("expected a Person reply, got {:?}", other),
    }
    let effects = conn.handle_command(&mut store, &mut reg, Command::GetPerson { user_id: 9 }, 12, 0);
    assert!(effects.is_empty());
}

#[test]
fn delete_table_of_unknown_id_is_a_no_op() {
    let mut store = Store::new();
    let mut reg = Registry::new();
    Person::add_person(&mut store, 1, 10);
    reg.register(1);
    let conn = Connection { id: 1 };
    let effects = conn.handle_command(
        &mut store,
        &mut reg,
        Command::DeleteTable { table_id: 999 },
        11,
        0,
    );
    assert!(effects.is_empty());
}

#[test]
fn an_unregistered_actor_gets_no_replies() {
    let mut store = Store::new();
    let mut reg = Registry::new();
    Person::add_person(&mut store, 1, 10);
    let conn = Connection { id: 1 };
    let effects = conn.handle_command(&mut store, &mut reg, Command::ListPubs, 11, 0);
    assert!(effects.is_empty());
}

#[test]
fn handle_msg_draws_an_id_by_itself() {
    let mut store = Store::new();
    let mut reg = Registry::new();
    Person::add_person(&mut store, 1, 10);
    reg.register(1);
    let conn = Connection { id: 1 };
    conn.handle_msg(&mut store, &mut reg, Command::CreatePub { name: "X".to_string() }, 11);
    let effects = conn.handle_msg(&mut store, &mut reg, Command::ListPubs, 12);
    assert_eq!(effects.len(), 1);
    match &effects[0].msg {
        Response::Pubs { list } => {
            assert_eq!(list.len(), 1);
            assert_eq!(list[0].name, "X");
            assert_eq!(list[0].persons, vec![1]);
        },
        other => panic!("expected a Pubs reply, got {:?}", other),
    }
}

#[test]
fn join_table_notifies_table_pub_and_old_table() {
    let mut store = Store::new();
    let mut reg = Registry::new();
    for id in [1u128, 2] {
        Person::add_person(&mut store, id, 10);
        reg.register(id);
    }
    let a = Connection { id: 1 };
    let b = Connection { id: 2 };
    a.handle_command(&mut store, &mut reg, Command::CreatePub { name: "P".to_string() }, 11, 10);
    a.handle_command(
        &mut store,
        &mut reg,
        Command::CreateTable { pub_id: 10, name: "T".to_string() },
        12,
        30,
    );
    b.handle_command(&mut store, &mut reg, Command::JoinPub { pub_id: 10 }, 13, 0);

    let effects = b.handle_command(&mut store, &mut reg, Command::JoinTable { table_id: 30 }, 14, 0);
    // A presence refresh to the table's members (A and B), then the pub
    // refresh (record plus table list to A and B), in that order; B had
    // no previous table, so nothing more.
    assert_eq!(effects.len(), 3);
    assert_eq!(effects[0].to, vec![1, 2]);
    assert!(matches!(effects[0].msg, Response::Person { .. }));
    assert_eq!(effects[1].to, vec![1, 2]);
    assert!(matches!(effects[1].msg, Response::Person { .. }));
    assert_eq!(effects[2].to, vec![1, 2]);
    assert!(matches!(effects[2].msg, Response::Tables { .. }));
    let p = Person::load_from_db(&store, 2).unwrap();
    assert_eq!(p.table_id, Some(30));
}

#[test]
fn list_pubs_on_an_empty_store() {
    let mut store = Store::new();
    let mut reg = Registry::new();
    Person::add_person(&mut store, 1, 10);
    reg.register(1);
    let conn = Connection { id: 1 };
    let effects = conn.handle_command(&mut store, &mut reg, Command::ListPubs, 11, 0);
    assert_eq!(effects.len(), 1);
    match &effects[0].msg {
        Response::Pubs { list } => assert!(list.is_empty()),
        other => panic!("expected a Pubs reply, got {:?}", other),
    }
}

#[test]
fn ids_at_the_top_of_the_range_work() {
    let mut store = Store::new();
    let mut reg = Registry::new();
    let big = u128::MAX;
    Person::add_person(&mut store, big, 10);
    reg.register(big);
    let conn = Connection { id: big };
    let effects = conn.handle_command(
        &mut store,
        &mut reg,
        Command::CreatePub { name: "edge".to_string() },
        11,
        u128::MAX - 1,
    );
    assert_eq!(effects.len(), 2);
    let p = Person::load_from_db(&store, big).unwrap();
    assert_eq!(p.pub_id, Some(u128::MAX - 1));
}

#[test]
fn a_held_table_always_sits_in_the_holders_pub() {
    let mut store = Store::new();
    let mut reg = Registry::new();
    for id in [1u128, 2] {
        Person::add_person(&mut store, id, 10);
        reg.register(id);
    }
    let a = Connection { id: 1 };
    let b = Connection { id: 2 };
    a.handle_command(&mut store, &mut reg, Command::CreatePub { name: "P1".to_string() }, 11, 10);
    a.handle_command(
        &mut store,
        &mut reg,
        Command::CreateTable { pub_id: 10, name: "T1".to_string() },
        12,
        30,
    );
    b.handle_command(&mut store, &mut reg, Command::CreatePub { name: "P2".to_string() }, 13, 20);
    b.handle_command(&mut store, &mut reg, Command::JoinPub { pub_id: 10 }, 14, 0);
    b.handle_command(&mut store, &mut reg, Command::JoinTable { table_id: 30 }, 15, 0);
    a.handle_command(&mut store, &mut reg, Command::JoinPub { pub_id: 20 }, 16, 0);
    // After every step of the walk: whoever holds a table is in the
    // table's own pub.
    for id in [1u128, 2] {
        let p = Person::load_from_db(&store, id).unwrap();
        if let Some(table_id) = p.table_id {
            let tables = pubhouse::types::PubTable::get_tables(&store, p.pub_id.unwrap());
            assert!(tables.iter().any(|t| t.id == table_id));
        }
    }
    let a_rec = Person::load_from_db(&store, 1).unwrap();
    assert_eq!(a_rec.pub_id, Some(20));
    assert_eq!(a_rec.table_id, None);
    let b_rec = Person::load_from_db(&store, 2).unwrap();
    assert_eq!(b_rec.pub_id, Some(10));
    assert_eq!(b_rec.table_id, Some(30));
}
