//! The command processor: the protocol state machine. One call handles
//! one decoded command for one acting person, mutating the store and the
//! registry and returning the messages to deliver. The whole transition
//! is pinned down by the spec interpreter [`step`].

use vstd::prelude::*;
use crate::model::{
    delete_pub_spec, delete_table_spec, has_person, has_pub, has_table, person_of, pub_listing,
    set_name_map, set_pub_map, set_table_map, table_listing, table_of, touch_map, StoreV,
};
use crate::model::lemma_person_of;
use crate::registry::{
    clients_in_pub, clients_in_table, client_of, has_client, update_map, ClientInfo, Registry,
};
use crate::store::{Store};
use crate::types::{
    Command, Id, Person, Pub, PubTable, PubWithPeople,
    PubWithPeopleV, Response, ResponseV, TableWithPeople, TableWithPeopleV,
};

verus! {

/// One acting connection: the person this session speaks for.
#[derive(Debug, Clone, Copy)]
pub struct Connection {
    pub id: Id,
}

/// One message to deliver: the reachable recipients and the payload.
/// The payload is shared by every recipient in `to`.
#[derive(Debug, PartialEq)]
pub struct Outbound {
    pub to: Vec<Id>,
    pub msg: Response,
}

/// Mathematical view of an [`Outbound`].
#[verifier::ext_equal]
pub struct OutboundV {
    pub to: Seq<Id>,
    pub msg: ResponseV,
}

impl View for Outbound {
    type V = OutboundV;

    open spec fn view(&self) -> OutboundV {
        OutboundV { to: self.to@, msg: self.msg@ }
    }
}

/// The views of a list of outbound messages.
pub open spec fn outbound_view(es: Seq<Outbound>) -> Seq<OutboundV> {
    es.map_values(|e: Outbound| e@)
}

// ----------------------------------------------------------------------
// The spec interpreter: what one command does
// ----------------------------------------------------------------------

/// Everything one command produces: the next durable state, the next
/// registry state, and the messages to deliver.
#[verifier::ext_equal]
pub struct StepOut {
    pub store: StoreV,
    pub clients: Seq<ClientInfo>,
    pub effects: Seq<OutboundV>,
}

/// The acting person's own record as a reply, if the record exists.
pub open spec fn self_person(sv: StoreV, actor: Id) -> Option<ResponseV> {
    if has_person(sv.persons, actor) {
        Some(ResponseV::Person { data: person_of(sv.persons, actor) })
    } else {
        None
    }
}

/// A reply to the acting person alone — delivered only while registered.
pub open spec fn to_self(cs: Seq<ClientInfo>, actor: Id, msg: ResponseV) -> Seq<OutboundV> {
    if has_client(cs, actor) {
        seq![OutboundV { to: seq![actor], msg }]
    } else {
        Seq::empty()
    }
}

/// The acting person's record sent back to them, if both the record and
/// the connection exist.
pub open spec fn self_reply(sv: StoreV, cs: Seq<ClientInfo>, actor: Id) -> Seq<OutboundV> {
    match self_person(sv, actor) {
        Some(m) => to_self(cs, actor, m),
        None => Seq::empty(),
    }
}

/// The acting person's record sent to a room: to every id in `dests`,
/// or back to the person alone when the room has no reachable members.
pub open spec fn reply_to_list(sv: StoreV, cs: Seq<ClientInfo>, actor: Id, dests: Seq<Id>) -> Seq<
    OutboundV,
> {
    if dests.len() == 0 {
        self_reply(sv, cs, actor)
    } else {
        match self_person(sv, actor) {
            Some(m) => seq![OutboundV { to: dests, msg: m }],
            None => Seq::empty(),
        }
    }
}

/// A presence refresh for the acting person's cached pub: their record
/// and the pub's table list, to every reachable member of that pub.
pub open spec fn pub_refresh(sv: StoreV, cs: Seq<ClientInfo>, actor: Id) -> Seq<OutboundV> {
    if !has_client(cs, actor) {
        Seq::empty()
    } else {
        match client_of(cs, actor).pub_id {
            None => Seq::empty(),
            Some(q) => {
                let dests = clients_in_pub(cs, q);
                if dests.len() == 0 {
                    self_reply(sv, cs, actor)
                } else {
                    let tables_msg = OutboundV {
                        to: dests,
                        msg: ResponseV::Tables { list: table_listing(sv, q) },
                    };
                    match self_person(sv, actor) {
                        Some(m) => seq![OutboundV { to: dests, msg: m }, tables_msg],
                        None => seq![tables_msg],
                    }
                }
            },
        }
    }
}

/// Leaving the current table and pub, then joining `target` (or none):
/// the durable fields, the cached fields and the previously cached pub.
/// A person without a live connection is left untouched.
pub open spec fn conn_set_pub(
    sv: StoreV,
    cs: Seq<ClientInfo>,
    actor: Id,
    target: Option<Id>,
    now: u64,
) -> (StoreV, Seq<ClientInfo>, Option<Id>) {
    if !has_client(cs, actor) {
        (sv, cs, None)
    } else {
        let old_pub = client_of(cs, actor).pub_id;
        let ps1 = set_table_map(sv.persons, actor, None, now);
        let ps2 = set_pub_map(ps1, actor, target, now);
        (StoreV { persons: ps2, ..sv }, update_map(cs, actor, target, None), old_pub)
    }
}

/// Leaving the current table, then sitting at `target` (or none): the
/// durable field, the cached field and the previously cached table.
pub open spec fn conn_set_table(
    sv: StoreV,
    cs: Seq<ClientInfo>,
    actor: Id,
    target: Option<Id>,
    now: u64,
) -> (StoreV, Seq<ClientInfo>, Option<Id>) {
    if !has_client(cs, actor) {
        (sv, cs, None)
    } else {
        let c = client_of(cs, actor);
        let ps = set_table_map(sv.persons, actor, target, now);
        (StoreV { persons: ps, ..sv }, update_map(cs, actor, c.pub_id, target), c.table_id)
    }
}

/// What one command does, in full: the next store, the next registry and
/// the messages to deliver, as a function of the previous state, the
/// acting person, the clock and the freshly drawn id (used only by the
/// create commands). Commands whose stated precondition fails leave the
/// state unchanged and deliver nothing — never a crash.
pub open spec fn step(
    sv: StoreV,
    cs: Seq<ClientInfo>,
    actor: Id,
    cmd: Command,
    now: u64,
    fresh: Id,
) -> StepOut {
    match cmd {
        Command::ListPubs => StepOut {
            store: sv,
            clients: cs,
            effects: to_self(cs, actor, ResponseV::Pubs { list: pub_listing(sv) }),
        },
        Command::SetName { name } => {
            let sv2 = StoreV { persons: set_name_map(sv.persons, actor, name@, now), ..sv };
            StepOut { store: sv2, clients: cs, effects: self_reply(sv2, cs, actor) }
        },
        Command::GetPerson { user_id } => StepOut {
            store: sv,
            clients: cs,
            effects: match self_person(sv, user_id) {
                Some(m) => to_self(cs, actor, m),
                None => Seq::empty(),
            },
        },
        Command::CreatePub { name } => {
            if has_pub(sv.pubs, fresh) {
                StepOut { store: sv, clients: cs, effects: Seq::empty() }
            } else {
                let sv1 = StoreV {
                    pubs: sv.pubs.push(crate::types::PubV { id: fresh, name: name@ }),
                    ..sv
                };
                let (sv2, cs2, old_pub) = conn_set_pub(sv1, cs, actor, Some(fresh), now);
                let created = ResponseV::CreatePub {
                    data: PubWithPeopleV { id: fresh, name: name@, persons: seq![actor] },
                };
                StepOut {
                    store: sv2,
                    clients: cs2,
                    effects: to_self(cs2, actor, created) + self_reply(sv2, cs2, actor),
                }
            }
        },
        Command::LeavePub => {
            let (sv2, cs2, old_pub) = conn_set_pub(sv, cs, actor, None, now);
            let effects = match old_pub {
                Some(q) => reply_to_list(sv2, cs2, actor, clients_in_pub(cs2, q)),
                None => Seq::empty(),
            };
            StepOut { store: sv2, clients: cs2, effects }
        },
        Command::JoinPub { pub_id } => {
            if !has_pub(sv.pubs, pub_id) {
                StepOut { store: sv, clients: cs, effects: Seq::empty() }
            } else {
                let (sv2, cs2, old_pub) = conn_set_pub(sv, cs, actor, Some(pub_id), now);
                let e1 = reply_to_list(sv2, cs2, actor, clients_in_pub(cs2, pub_id));
                let e2 = match old_pub {
                    Some(q) => reply_to_list(sv2, cs2, actor, clients_in_pub(cs2, q)),
                    None => Seq::empty(),
                };
                let e3 = to_self(
                    cs2,
                    actor,
                    ResponseV::Tables { list: table_listing(sv2, pub_id) },
                );
                StepOut { store: sv2, clients: cs2, effects: e1 + e2 + e3 }
            }
        },
        Command::DeletePub { pub_id } => {
            let sv2 = delete_pub_spec(sv, pub_id);
            StepOut {
                store: sv2,
                clients: cs,
                effects: to_self(cs, actor, ResponseV::Pubs { list: pub_listing(sv2) }),
            }
        },
        Command::CreateTable { pub_id, name } => {
            if has_person(sv.persons, actor) && person_of(sv.persons, actor).pub_id == Some(pub_id)
                && !has_table(sv.tables, fresh) {
                let sv1 = StoreV {
                    tables: sv.tables.push(
                        crate::types::TableV { id: fresh, name: name@, pub_id },
                    ),
                    ..sv
                };
                let (sv2, cs2, old_table) = conn_set_table(sv1, cs, actor, Some(fresh), now);
                let created = ResponseV::CreateTable {
                    data: TableWithPeopleV {
                        id: fresh,
                        name: name@,
                        pub_id,
                        persons: seq![actor],
                    },
                };
                StepOut {
                    store: sv2,
                    clients: cs2,
                    effects: to_self(cs2, actor, created) + self_reply(sv2, cs2, actor),
                }
            } else {
                StepOut { store: sv, clients: cs, effects: Seq::empty() }
            }
        },
        Command::ListTables { pub_id } => StepOut {
            store: sv,
            clients: cs,
            effects: to_self(cs, actor, ResponseV::Tables { list: table_listing(sv, pub_id) }),
        },
        Command::JoinTable { table_id } => {
            if has_table(sv.tables, table_id) && has_person(sv.persons, actor) && person_of(
                sv.persons,
                actor,
            ).pub_id == Some(table_of(sv.tables, table_id).pub_id) {
                let (sv2, cs2, old_table) = conn_set_table(sv, cs, actor, Some(table_id), now);
                let e1 = reply_to_list(sv2, cs2, actor, clients_in_table(cs2, table_id));
                let e2 = pub_refresh(sv2, cs2, actor);
                let e3 = match old_table {
                    Some(t) => reply_to_list(sv2, cs2, actor, clients_in_table(cs2, t)),
                    None => Seq::empty(),
                };
                StepOut { store: sv2, clients: cs2, effects: e1 + e2 + e3 }
            } else {
                StepOut { store: sv, clients: cs, effects: Seq::empty() }
            }
        },
        Command::DeleteTable { table_id } => {
            if !has_table(sv.tables, table_id) {
                StepOut { store: sv, clients: cs, effects: Seq::empty() }
            } else {
                let parent = table_of(sv.tables, table_id).pub_id;
                let sv2 = delete_table_spec(sv, table_id);
                StepOut {
                    store: sv2,
                    clients: cs,
                    effects: to_self(
                        cs,
                        actor,
                        ResponseV::Tables { list: table_listing(sv2, parent) },
                    ),
                }
            }
        },
        Command::LeaveTable => {
            let (sv2, cs2, old_table) = conn_set_table(sv, cs, actor, None, now);
            let effects = match old_table {
                Some(t) => reply_to_list(sv2, cs2, actor, clients_in_table(cs2, t)),
                None => Seq::empty(),
            };
            StepOut { store: sv2, clients: cs2, effects }
        },
        Command::Send { user_id, content } => StepOut {
            store: sv,
            clients: cs,
            effects: if has_client(cs, user_id) {
                seq![
                    OutboundV {
                        to: seq![user_id],
                        msg: ResponseV::Data { author: actor, content: content@ },
                    },
                ]
            } else {
                Seq::empty()
            },
        },
        Command::Ping => {
            let sv2 = StoreV { persons: touch_map(sv.persons, actor, now), ..sv };
            StepOut { store: sv2, clients: cs, effects: to_self(cs, actor, ResponseV::Pong) }
        },
    }
}

// ----------------------------------------------------------------------
// The executable processor
// ----------------------------------------------------------------------

/// An equal copy of a recipient list.
fn dup_ids(v: &Vec<Id>) -> (r: Vec<Id>)
    ensures
        r@ == v@,
{
    let mut r: Vec<Id> = Vec::new();
    let n = v.len();
    let mut i: usize = 0;
    while i < n
        invariant
            n == v@.len(),
            i <= n,
            r@ == v@.subrange(0, i as int),
        decreases n - i,
    {
        r.push(v[i]);
        proof {
            assert(v@.subrange(0, i as int + 1) =~= v@.subrange(0, i as int).push(v@[i as int]));
        }
        i += 1;
    }
    proof {
        assert(v@.subrange(0, n as int) =~= v@);
    }
    r
}

impl Connection {
    /// Queue `msg` for the acting person, if they are reachable.
    fn push_to_self(&self, reg: &Registry, out: &mut Vec<Outbound>, msg: Response)
        ensures
            outbound_view(final(out)@) == outbound_view(old(out)@) + to_self(
                reg.clients@,
                self.id,
                msg@,
            ),
    {
        let ghost msgv = msg@;
        if reg.contains(self.id) {
            let mut to: Vec<Id> = Vec::new();
            to.push(self.id);
            proof {
                assert(to@ =~= seq![self.id]);
            }
            out.push(Outbound { to, msg });
            proof {
                assert(outbound_view(out@) =~= outbound_view(old(out)@) + to_self(
                    reg.clients@,
                    self.id,
                    msgv,
                ));
            }
        } else {
            proof {
                assert(outbound_view(out@) =~= outbound_view(old(out)@) + to_self(
                    reg.clients@,
                    self.id,
                    msgv,
                ));
            }
        }
    }

    /// The acting person's record as a reply, if the store knows them.
    fn get_self(&self, store: &Store) -> (r: Option<Response>)
        requires
            store.wf(),
        ensures
            match r {
                Some(m) => self_person(store@, self.id) == Some(m@),
                None => self_person(store@, self.id) is None,
            },
    {
        match Person::load_from_db(store, self.id) {
            Ok(p) => Some(Response::Person { data: p }),
            Err(_) => None,
        }
    }

    /// Queue the acting person's record for themselves.
    fn return_self(&self, store: &Store, reg: &Registry, out: &mut Vec<Outbound>)
        requires
            store.wf(),
        ensures
            outbound_view(final(out)@) == outbound_view(old(out)@) + self_reply(
                store@,
                reg.clients@,
                self.id,
            ),
    {
        match self.get_self(store) {
            Some(m) => {
                self.push_to_self(reg, out, m);
            },
            None => {
                proof {
                    assert(outbound_view(out@) =~= outbound_view(old(out)@) + self_reply(
                        store@,
                        reg.clients@,
                        self.id,
                    ));
                }
            },
        }
    }

    /// Queue the acting person's record for a room, falling back to the
    /// person themselves when the room has no reachable members.
    fn return_self_to_list(
        &self,
        store: &Store,
        reg: &Registry,
        out: &mut Vec<Outbound>,
        dests: Vec<Id>,
    )
        requires
            store.wf(),
        ensures
            outbound_view(final(out)@) == outbound_view(old(out)@) + reply_to_list(
                store@,
                reg.clients@,
                self.id,
                dests@,
            ),
    {
        let ghost destv = dests@;
        if dests.len() == 0 {
            self.return_self(store, reg, out);
        } else {
            match self.get_self(store) {
                Some(m) => {
                    out.push(Outbound { to: dests, msg: m });
                    proof {
                        assert(outbound_view(out@) =~= outbound_view(old(out)@) + reply_to_list(
                            store@,
                            reg.clients@,
                            self.id,
                            destv,
                        ));
                    }
                },
                None => {
                    proof {
                        assert(outbound_view(out@) =~= outbound_view(old(out)@) + reply_to_list(
                            store@,
                            reg.clients@,
                            self.id,
                            destv,
                        ));
                    }
                },
            }
        }
    }

    /// Queue the table list of `pub_id` for the acting person.
    fn send_tables(&self, store: &Store, reg: &Registry, out: &mut Vec<Outbound>, pub_id: Id)
        ensures
            outbound_view(final(out)@) == outbound_view(old(out)@) + to_self(
                reg.clients@,
                self.id,
                ResponseV::Tables { list: table_listing(store@, pub_id) },
            ),
    {
        let list = PubTable::get_tables(store, pub_id);
        self.push_to_self(reg, out, Response::Tables { list });
    }

    /// Queue a presence refresh (record plus table list) for every
    /// reachable member of the acting person's cached pub.
    fn tell_pub_about_self(&self, store: &Store, reg: &Registry, out: &mut Vec<Outbound>)
        requires
            store.wf(),
            reg.wf(),
        ensures
            outbound_view(final(out)@) == outbound_view(old(out)@) + pub_refresh(
                store@,
                reg.clients@,
                self.id,
            ),
    {
        let ghost base = outbound_view(out@);
        let ghost target = pub_refresh(store@, reg.clients@, self.id);
        match reg.lookup(self.id) {
            None => {
                proof {
                    assert(outbound_view(out@) =~= base + target);
                }
            },
            Some(c) => {
                match c.pub_id {
                    None => {
                        proof {
                            assert(outbound_view(out@) =~= base + target);
                        }
                    },
                    Some(q) => {
                        let dests = reg.get_clients_in_pub(q);
                        if dests.len() == 0 {
                            self.return_self(store, reg, out);
                            proof {
                                assert(outbound_view(out@) =~= base + target);
                            }
                        } else {
                            let list = PubTable::get_tables(store, q);
                            match self.get_self(store) {
                                Some(m) => {
                                    let first = dup_ids(&dests);
                                    out.push(Outbound { to: first, msg: m });
                                    out.push(Outbound { to: dests, msg: Response::Tables { list } });
                                    proof {
                                        assert(outbound_view(out@) =~= base + target);
                                    }
                                },
                                None => {
                                    out.push(Outbound { to: dests, msg: Response::Tables { list } });
                                    proof {
                                        assert(outbound_view(out@) =~= base + target);
                                    }
                                },
                            }
                        }
                    },
                }
            },
        }
    }

    /// Leave the current table and pub, join `target` if given, and keep
    /// the cache in lockstep; reports the previously cached pub. Without
    /// a live connection nothing changes.
    fn set_pub(&self, store: &mut Store, reg: &mut Registry, target: Option<Id>, now: u64) -> (r:
        Option<Id>)
        requires
            old(store).wf(),
            old(reg).wf(),
            match target {
                Some(q) => has_pub(old(store)@.pubs, q),
                None => true,
            },
        ensures
            final(store).wf(),
            final(reg).wf(),
            ({
                let (sv2, cs2, old_pub) = conn_set_pub(
                    old(store)@,
                    old(reg).clients@,
                    self.id,
                    target,
                    now,
                );
                final(store)@ == sv2 && final(reg).clients@ == cs2 && r == old_pub
            }),
    {
        match reg.lookup(self.id) {
            None => None,
            Some(c) => {
                let ghost mid = old(store)@;
                Person::leave_table(store, self.id, now);
                proof {
                    let ps1 = store@.persons;
                    if has_person(ps1, self.id) {
                        let i = choose|i: int| 0 <= i < ps1.len() && ps1[i].id == self.id;
                        lemma_person_of(ps1, self.id, i);
                    }
                }
                match target {
                    Some(q) => {
                        let res = Person::set_pub(store, self.id, q, now);
                        proof {
                            assert(res is Ok);
                        }
                    },
                    None => {
                        Person::leave_pub(store, self.id, now);
                    },
                }
                reg.update_membership(self.id, target, None);
                proof {
                    let (sv2, cs2, old_pub) = conn_set_pub(
                        old(store)@,
                        old(reg).clients@,
                        self.id,
                        target,
                        now,
                    );
                    assert(store@ =~= sv2);
                }
                c.pub_id
            },
        }
    }

    /// Leave the current table, sit at `target` if given, and keep the
    /// cache in lockstep; reports the previously cached table. Without a
    /// live connection nothing changes.
    fn set_table(&self, store: &mut Store, reg: &mut Registry, target: Option<Id>, now: u64) -> (r:
        Option<Id>)
        requires
            old(store).wf(),
            old(reg).wf(),
            match target {
                Some(t) => has_table(old(store)@.tables, t) && (has_person(
                    old(store)@.persons,
                    self.id,
                ) ==> person_of(old(store)@.persons, self.id).pub_id == Some(
                    table_of(old(store)@.tables, t).pub_id,
                )),
                None => true,
            },
        ensures
            final(store).wf(),
            final(reg).wf(),
            ({
                let (sv2, cs2, old_table) = conn_set_table(
                    old(store)@,
                    old(reg).clients@,
                    self.id,
                    target,
                    now,
                );
                final(store)@ == sv2 && final(reg).clients@ == cs2 && r == old_table
            }),
    {
        match reg.lookup(self.id) {
            None => None,
            Some(c) => {
                match target {
                    Some(t) => {
                        let res = Person::set_table(store, self.id, t, now);
                        proof {
                            assert(res is Ok);
                        }
                    },
                    None => {
                        Person::leave_table(store, self.id, now);
                    },
                }
                reg.update_membership(self.id, c.pub_id, target);
                proof {
                    let (sv2, cs2, old_table) = conn_set_table(
                        old(store)@,
                        old(reg).clients@,
                        self.id,
                        target,
                        now,
                    );
                    assert(store@ =~= sv2);
                }
                c.table_id
            },
        }
    }
}

impl Connection {
    /// Process one command for the acting person against the store and
    /// the registry, and return the messages to deliver. The whole
    /// transition equals the spec interpreter [`step`] applied to the
    /// previous state; `fresh` is the id given to a pub or table that a
    /// create command makes.
    pub fn handle_command(
        &self,
        store: &mut Store,
        reg: &mut Registry,
        cmd: Command,
        now: u64,
        fresh: Id,
    ) -> (out: Vec<Outbound>)
        requires
            old(store).wf(),
            old(reg).wf(),
        ensures
            final(store).wf(),
            final(reg).wf(),
            final(store)@ == step(old(store)@, old(reg).clients@, self.id, cmd, now, fresh).store,
            final(reg).clients@ == step(
                old(store)@,
                old(reg).clients@,
                self.id,
                cmd,
                now,
                fresh,
            ).clients,
            outbound_view(out@) == step(
                old(store)@,
                old(reg).clients@,
                self.id,
                cmd,
                now,
                fresh,
            ).effects,
    {
        let ghost sv0 = old(store)@;
        let ghost cs0 = old(reg).clients@;
        let mut out: Vec<Outbound> = Vec::new();
        proof {
            assert(outbound_view(out@) =~= Seq::<OutboundV>::empty());
        }
        match cmd {
            Command::ListPubs => {
                let list = Pub::get_pubs(store);
                self.push_to_self(reg, &mut out, Response::Pubs { list });
                proof {
                    let so = step(sv0, cs0, self.id, cmd, now, fresh);
                    assert(outbound_view(out@) =~= so.effects);
                }
            },
            Command::SetName { name } => {
                let ghost namev = name@;
                Person::set_name(store, self.id, name, now);
                self.return_self(store, reg, &mut out);
                proof {
                    let so = step(sv0, cs0, self.id, cmd, now, fresh);
                    assert(store@ =~= so.store);
                    assert(outbound_view(out@) =~= so.effects);
                }
            },
            Command::GetPerson { user_id } => {
                match Person::load_from_db(store, user_id) {
                    Ok(p) => {
                        self.push_to_self(reg, &mut out, Response::Person { data: p });
                    },
                    Err(_) => {},
                }
                proof {
                    let so = step(sv0, cs0, self.id, cmd, now, fresh);
                    assert(outbound_view(out@) =~= so.effects);
                }
            },
            Command::CreatePub { name } => {
                let ghost namev = name@;
                if !store.contains_pub(fresh) {
                    let new_pub = Pub { id: fresh, name: name.clone() };
                    let res = new_pub.add_pub(store);
                    proof {
                        assert(res is Ok);
                        assert(store@.pubs[store@.pubs.len() - 1].id == fresh);
                        assert(has_pub(store@.pubs, fresh));
                    }
                    let ghost sv1e = store@;
                    let _old_pub = self.set_pub(store, reg, Some(fresh), now);
                    let mut member_list: Vec<Id> = Vec::new();
                    member_list.push(self.id);
                    proof {
                        assert(member_list@ =~= seq![self.id]);
                    }
                    self.push_to_self(
                        reg,
                        &mut out,
                        Response::CreatePub {
                            data: PubWithPeople { id: fresh, name, persons: member_list },
                        },
                    );
                    self.return_self(store, reg, &mut out);
                    proof {
                        let so = step(sv0, cs0, self.id, cmd, now, fresh);
                        let sv1 = StoreV {
                            pubs: sv0.pubs.push(crate::types::PubV { id: fresh, name: namev }),
                            ..sv0
                        };
                        assert(sv1e =~= sv1);
                        assert(store@ =~= so.store);
                        assert(reg.clients@ =~= so.clients);
                        assert(outbound_view(out@) =~= so.effects);
                    }
                }
                proof {
                    let so = step(sv0, cs0, self.id, cmd, now, fresh);
                    assert(store@ =~= so.store);
                    assert(reg.clients@ =~= so.clients);
                    assert(outbound_view(out@) =~= so.effects);
                }
            },
            Command::LeavePub => {
                let old_pub = self.set_pub(store, reg, None, now);
                match old_pub {
                    Some(q) => {
                        let dests = reg.get_clients_in_pub(q);
                        self.return_self_to_list(store, reg, &mut out, dests);
                    },
                    None => {},
                }
                proof {
                    let so = step(sv0, cs0, self.id, cmd, now, fresh);
                    assert(store@ =~= so.store);
                    assert(reg.clients@ =~= so.clients);
                    assert(outbound_view(out@) =~= so.effects);
                }
            },
            Command::JoinPub { pub_id } => {
                if store.contains_pub(pub_id) {
                    let old_pub = self.set_pub(store, reg, Some(pub_id), now);
                    let dests = reg.get_clients_in_pub(pub_id);
                    self.return_self_to_list(store, reg, &mut out, dests);
                    match old_pub {
                        Some(q) => {
                            let back = reg.get_clients_in_pub(q);
                            self.return_self_to_list(store, reg, &mut out, back);
                        },
                        None => {},
                    }
                    self.send_tables(store, reg, &mut out, pub_id);
                }
                proof {
                    let so = step(sv0, cs0, self.id, cmd, now, fresh);
                    assert(store@ =~= so.store);
                    assert(reg.clients@ =~= so.clients);
                    assert(outbound_view(out@) =~= so.effects);
                }
            },
            Command::DeletePub { pub_id } => {
                Pub::delete_pub(store, pub_id);
                let list = Pub::get_pubs(store);
                self.push_to_self(reg, &mut out, Response::Pubs { list });
                proof {
                    let so = step(sv0, cs0, self.id, cmd, now, fresh);
                    assert(store@ =~= so.store);
                    assert(outbound_view(out@) =~= so.effects);
                }
            },
            Command::CreateTable { pub_id, name } => {
                let ghost namev = name@;
                let in_pub = match store.membership_of(self.id) {
                    Some(m) => match m.0 {
                        Some(q) => q == pub_id,
                        None => false,
                    },
                    None => false,
                };
                if in_pub && !store.contains_table(fresh) {
                    proof {
                        let i = crate::model::person_idx(sv0.persons, self.id);
                        assert(crate::model::person_links_ok(sv0.persons[i], sv0));
                        assert(has_pub(sv0.pubs, pub_id));
                    }
                    let new_table = PubTable { id: fresh, name: name.clone(), pub_id };
                    let res = new_table.add_table(store);
                    proof {
                        assert(res is Ok);
                        assert(store@.tables[store@.tables.len() - 1].id == fresh);
                        assert(has_table(store@.tables, fresh));
                        crate::model::lemma_table_of(
                            store@.tables,
                            fresh,
                            store@.tables.len() - 1,
                        );
                    }
                    let ghost sv1e = store@;
                    let _old_table = self.set_table(store, reg, Some(fresh), now);
                    let mut member_list: Vec<Id> = Vec::new();
                    member_list.push(self.id);
                    proof {
                        assert(member_list@ =~= seq![self.id]);
                    }
                    self.push_to_self(
                        reg,
                        &mut out,
                        Response::CreateTable {
                            data: TableWithPeople {
                                id: fresh,
                                name,
                                pub_id,
                                persons: member_list,
                            },
                        },
                    );
                    self.return_self(store, reg, &mut out);
                    proof {
                        let so = step(sv0, cs0, self.id, cmd, now, fresh);
                        let sv1 = StoreV {
                            tables: sv0.tables.push(
                                crate::types::TableV { id: fresh, name: namev, pub_id },
                            ),
                            ..sv0
                        };
                        assert(sv1e =~= sv1);
                        assert(store@ =~= so.store);
                        assert(reg.clients@ =~= so.clients);
                        assert(outbound_view(out@) =~= so.effects);
                    }
                }
                proof {
                    let so = step(sv0, cs0, self.id, cmd, now, fresh);
                    assert(store@ =~= so.store);
                    assert(reg.clients@ =~= so.clients);
                    assert(outbound_view(out@) =~= so.effects);
                }
            },
            Command::ListTables { pub_id } => {
                self.send_tables(store, reg, &mut out, pub_id);
                proof {
                    let so = step(sv0, cs0, self.id, cmd, now, fresh);
                    assert(outbound_view(out@) =~= so.effects);
                }
            },
            Command::JoinTable { table_id } => {
                let seated = match store.parent_pub_of(table_id) {
                    Some(parent) => match store.membership_of(self.id) {
                        Some(m) => match m.0 {
                            Some(q) => q == parent,
                            None => false,
                        },
                        None => false,
                    },
                    None => false,
                };
                if seated {
                    let old_table = self.set_table(store, reg, Some(table_id), now);
                    let dests = reg.get_clients_in_table(table_id);
                    self.return_self_to_list(store, reg, &mut out, dests);
                    self.tell_pub_about_self(store, reg, &mut out);
                    match old_table {
                        Some(t) => {
                            let back = reg.get_clients_in_table(t);
                            self.return_self_to_list(store, reg, &mut out, back);
                        },
                        None => {},
                    }
                }
                proof {
                    let so = step(sv0, cs0, self.id, cmd, now, fresh);
                    assert(store@ =~= so.store);
                    assert(reg.clients@ =~= so.clients);
                    assert(outbound_view(out@) =~= so.effects);
                }
            },
            Command::DeleteTable { table_id } => {
                match PubTable::delete_table(store, table_id) {
                    Ok(parent) => {
                        self.send_tables(store, reg, &mut out, parent);
                    },
                    Err(_) => {},
                }
                proof {
                    let so = step(sv0, cs0, self.id, cmd, now, fresh);
                    assert(store@ =~= so.store);
                    assert(outbound_view(out@) =~= so.effects);
                }
            },
            Command::LeaveTable => {
                let old_table = self.set_table(store, reg, None, now);
                match old_table {
                    Some(t) => {
                        let dests = reg.get_clients_in_table(t);
                        self.return_self_to_list(store, reg, &mut out, dests);
                    },
                    None => {},
                }
                proof {
                    let so = step(sv0, cs0, self.id, cmd, now, fresh);
                    assert(store@ =~= so.store);
                    assert(reg.clients@ =~= so.clients);
                    assert(outbound_view(out@) =~= so.effects);
                }
            },
            Command::Send { user_id, content } => {
                let ghost contentv = content@;
                if reg.contains(user_id) {
                    let mut to: Vec<Id> = Vec::new();
                    to.push(user_id);
                    proof {
                        assert(to@ =~= seq![user_id]);
                    }
                    out.push(Outbound { to, msg: Response::Data { author: self.id, content } });
                }
                proof {
                    let so = step(sv0, cs0, self.id, cmd, now, fresh);
                    assert(outbound_view(out@) =~= so.effects);
                }
            },
            Command::Ping => {
                Person::update_last(store, self.id, now);
                self.push_to_self(reg, &mut out, Response::Pong);
                proof {
                    let so = step(sv0, cs0, self.id, cmd, now, fresh);
                    assert(store@ =~= so.store);
                    assert(outbound_view(out@) =~= so.effects);
                }
            },
        }
        out
    }
}

/// Relies on uuid::Uuid::new_v4: a freshly drawn random version-4 UUID,
/// carried as its 128 bits. Nothing is promised of the value: every
/// caller must cope with whatever comes back, a collision included.
#[verifier::external_body]
fn new_v4_bits() -> (r: Id) {
    uuid::Uuid::new_v4().as_u128()
}

impl Connection {
    /// Process one decoded inbound command, drawing the id for a create
    /// command from the transport layer's UUID generator. The outcome is
    /// [`step`] under *some* fresh id; [`Self::handle_command`] pins the
    /// outcome for a chosen one.
    pub fn handle_msg(&self, store: &mut Store, reg: &mut Registry, cmd: Command, now: u64) -> (out:
        Vec<Outbound>)
        requires
            old(store).wf(),
            old(reg).wf(),
        ensures
            final(store).wf(),
            final(reg).wf(),
            exists|fresh: Id|
                {
                    let so = #[trigger] step(old(store)@, old(reg).clients@, self.id, cmd, now, fresh);
                    final(store)@ == so.store && final(reg).clients@ == so.clients
                        && outbound_view(out@) == so.effects
                },
    {
        let fresh = new_v4_bits();
        let ghost cmdg = cmd;
        let out = self.handle_command(store, reg, cmd, now, fresh);
        proof {
            let so = step(old(store)@, old(reg).clients@, self.id, cmdg, now, fresh);
            assert(store@ == so.store && reg.clients@ == so.clients && outbound_view(out@)
                == so.effects);
        }
        out
    }
}

} // verus!
