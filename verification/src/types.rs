//! The data model: persons, pubs, tables, the wire commands and responses,
//! and the mathematical views that the contracts are stated over.

use vstd::prelude::*;

verus! {

/// A durable identity token. Person, pub and table identifiers are
/// 128-bit values; the transport layer renders them as UUIDs.
pub type Id = u128;

/// A participant's durable record. `pub_id` and `table_id` are the
/// person's current rooms; membership of a room is always derived from
/// these fields, never stored on the room itself.
#[derive(Debug, PartialEq)]
pub struct Person {
    pub id: Id,
    pub name: Option<String>,
    pub pub_id: Option<Id>,
    pub table_id: Option<Id>,
    pub last_updated: u64,
}

/// A top-level room.
#[derive(Debug, PartialEq)]
pub struct Pub {
    pub id: Id,
    pub name: String,
}

/// A sub-room nested inside exactly one pub; `pub_id` is immutable
/// after creation.
#[derive(Debug, PartialEq)]
pub struct PubTable {
    pub id: Id,
    pub name: String,
    pub pub_id: Id,
}

/// A pub together with its derived member list.
#[derive(Debug, PartialEq)]
pub struct PubWithPeople {
    pub id: Id,
    pub name: String,
    pub persons: Vec<Id>,
}

/// A table together with its derived member list.
#[derive(Debug, PartialEq)]
pub struct TableWithPeople {
    pub id: Id,
    pub name: String,
    pub pub_id: Id,
    pub persons: Vec<Id>,
}

/// One inbound protocol command, already decoded from the wire.
#[derive(Debug, PartialEq)]
pub enum Command {
    ListPubs,
    SetName { name: String },
    GetPerson { user_id: Id },
    CreatePub { name: String },
    LeavePub,
    JoinPub { pub_id: Id },
    DeletePub { pub_id: Id },
    CreateTable { pub_id: Id, name: String },
    ListTables { pub_id: Id },
    JoinTable { table_id: Id },
    DeleteTable { table_id: Id },
    LeaveTable,
    Send { user_id: Id, content: String },
    Ping,
}

/// One outbound protocol message.
#[derive(Debug, PartialEq)]
pub enum Response {
    CreatePub { data: PubWithPeople },
    Pubs { list: Vec<PubWithPeople> },
    CreateTable { data: TableWithPeople },
    Tables { list: Vec<TableWithPeople> },
    Person { data: Person },
    Data { author: Id, content: String },
    Pong,
}

// ----------------------------------------------------------------------
// Views
// ----------------------------------------------------------------------

/// Mathematical view of a [`Person`].
#[verifier::ext_equal]
pub struct PersonV {
    pub id: Id,
    pub name: Option<Seq<char>>,
    pub pub_id: Option<Id>,
    pub table_id: Option<Id>,
    pub last_updated: u64,
}

/// Mathematical view of a [`Pub`].
#[verifier::ext_equal]
pub struct PubV {
    pub id: Id,
    pub name: Seq<char>,
}

/// Mathematical view of a [`PubTable`].
#[verifier::ext_equal]
pub struct TableV {
    pub id: Id,
    pub name: Seq<char>,
    pub pub_id: Id,
}

/// Mathematical view of a [`PubWithPeople`].
#[verifier::ext_equal]
pub struct PubWithPeopleV {
    pub id: Id,
    pub name: Seq<char>,
    pub persons: Seq<Id>,
}

/// Mathematical view of a [`TableWithPeople`].
#[verifier::ext_equal]
pub struct TableWithPeopleV {
    pub id: Id,
    pub name: Seq<char>,
    pub pub_id: Id,
    pub persons: Seq<Id>,
}

/// Mathematical view of a [`Response`].
#[verifier::ext_equal]
pub enum ResponseV {
    CreatePub { data: PubWithPeopleV },
    Pubs { list: Seq<PubWithPeopleV> },
    CreateTable { data: TableWithPeopleV },
    Tables { list: Seq<TableWithPeopleV> },
    Person { data: PersonV },
    Data { author: Id, content: Seq<char> },
    Pong,
}

/// The views of a list of pubs-with-members.
pub open spec fn pubs_people_view(l: Seq<PubWithPeople>) -> Seq<PubWithPeopleV> {
    l.map_values(|x: PubWithPeople| x@)
}

/// The views of a list of tables-with-members.
pub open spec fn tables_people_view(l: Seq<TableWithPeople>) -> Seq<TableWithPeopleV> {
    l.map_values(|x: TableWithPeople| x@)
}

impl View for Person {
    type V = PersonV;

    open spec fn view(&self) -> PersonV {
        PersonV {
            id: self.id,
            name: match self.name {
                Some(n) => Some(n@),
                None => None,
            },
            pub_id: self.pub_id,
            table_id: self.table_id,
            last_updated: self.last_updated,
        }
    }
}

impl View for Pub {
    type V = PubV;

    open spec fn view(&self) -> PubV {
        PubV { id: self.id, name: self.name@ }
    }
}

impl View for PubTable {
    type V = TableV;

    open spec fn view(&self) -> TableV {
        TableV { id: self.id, name: self.name@, pub_id: self.pub_id }
    }
}

impl View for PubWithPeople {
    type V = PubWithPeopleV;

    open spec fn view(&self) -> PubWithPeopleV {
        PubWithPeopleV { id: self.id, name: self.name@, persons: self.persons@ }
    }
}

impl View for TableWithPeople {
    type V = TableWithPeopleV;

    open spec fn view(&self) -> TableWithPeopleV {
        TableWithPeopleV {
            id: self.id,
            name: self.name@,
            pub_id: self.pub_id,
            persons: self.persons@,
        }
    }
}

impl View for Response {
    type V = ResponseV;

    open spec fn view(&self) -> ResponseV {
        match self {
            Response::CreatePub { data } => ResponseV::CreatePub { data: data@ },
            Response::Pubs { list } => ResponseV::Pubs { list: pubs_people_view(list@) },
            Response::CreateTable { data } => ResponseV::CreateTable { data: data@ },
            Response::Tables { list } => ResponseV::Tables { list: tables_people_view(list@) },
            Response::Person { data } => ResponseV::Person { data: data@ },
            Response::Data { author, content } => ResponseV::Data {
                author: *author,
                content: content@,
            },
            Response::Pong => ResponseV::Pong,
        }
    }
}

impl Person {
    /// An equal copy of the record, for handing out in a reply while the
    /// store keeps the original.
    pub fn snapshot(&self) -> (r: Person)
        ensures
            r@ == self@,
    {
        Person {
            id: self.id,
            name: match &self.name {
                Some(n) => Some(n.clone()),
                None => None,
            },
            pub_id: self.pub_id,
            table_id: self.table_id,
            last_updated: self.last_updated,
        }
    }
}

impl Pub {
    /// An equal copy of the record.
    pub fn snapshot(&self) -> (r: Pub)
        ensures
            r@ == self@,
    {
        Pub { id: self.id, name: self.name.clone() }
    }
}

impl PubTable {
    /// An equal copy of the record.
    pub fn snapshot(&self) -> (r: PubTable)
        ensures
            r@ == self@,
    {
        PubTable { id: self.id, name: self.name.clone(), pub_id: self.pub_id }
    }
}

} // verus!
