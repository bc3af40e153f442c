//! The laws of the protocol, stated over the spec interpreter [`step`]
//! and the store model, and proved once and for all. Each proof function
//! here is part of the library's stated behaviour.

use vstd::prelude::*;
use crate::commands::{
    reply_to_list, self_person, step, to_self, OutboundV,
    };
use crate::model::{
    cleanup_map, has_person, has_pub, has_table, is_stale, person_idx, person_links_ok, person_of,
    pub_listing, pub_member_ids, remove_pub, set_pub_map, set_table_map, table_member_ids,
    table_of, touch_map, unique_person_ids, wf_store, StoreV, STALE_SECONDS,
};
use crate::model::{
    lemma_cleanup_keeps_fresh, lemma_cleanup_removes_stale, lemma_person_of,
    lemma_pub_member_ids_iff, lemma_remove_pub_props, lemma_table_member_ids_iff,
};
use crate::registry::{
    client_idx, client_of, clients_in_pub, has_client, unique_client_ids,
    update_map, ClientInfo,
};
use crate::registry::{lemma_clients_in_pub_iff};
use crate::types::{Command, Id, PersonV, ResponseV};

verus! {

/// What Ping may never touch: each person's identity and room fields.
pub open spec fn membership_view(ps: Seq<PersonV>) -> Seq<(Id, Option<Id>, Option<Id>)> {
    ps.map_values(|p: PersonV| (p.id, p.pub_id, p.table_id))
}

/// Law: a person holding a table always holds that table's own pub —
/// the table exists, sits in a pub, and that pub is the person's
/// current pub. This holds in every well-formed store, and every store
/// operation and every command preserves well-formedness.
pub proof fn lemma_person_table_in_own_pub(sv: StoreV, i: int)
    requires
        wf_store(sv),
        0 <= i < sv.persons.len(),
        sv.persons[i].table_id is Some,
    ensures
        has_table(sv.tables, sv.persons[i].table_id.unwrap()),
        sv.persons[i].pub_id == Some(
            table_of(sv.tables, sv.persons[i].table_id.unwrap()).pub_id,
        ),
{
    assert(person_links_ok(sv.persons[i], sv));
}

/// Law: Ping refreshes the sender's last-activity and nothing else —
/// every person's identity, pub and table stay as they were, as do the
/// rooms and the registry; the sender alone receives Pong.
pub proof fn lemma_ping_changes_only_activity(
    sv: StoreV,
    cs: Seq<ClientInfo>,
    actor: Id,
    now: u64,
    fresh: Id,
)
    ensures
        ({
            let so = step(sv, cs, actor, Command::Ping, now, fresh);
            &&& so.clients == cs
            &&& so.store.pubs == sv.pubs
            &&& so.store.tables == sv.tables
            &&& membership_view(so.store.persons) == membership_view(sv.persons)
            &&& so.effects == to_self(cs, actor, ResponseV::Pong)
        }),
{
    let so = step(sv, cs, actor, Command::Ping, now, fresh);
    assert(membership_view(so.store.persons) =~= membership_view(sv.persons));
}

/// Law: Ping is idempotent with respect to membership — any number of
/// repeated Pings leaves every person's pub and table, the rooms and
/// the registry exactly as one (or none) left them. Shown for two
/// successive Pings; repetition follows one tick at a time.
pub proof fn lemma_ping_repeated(
    sv: StoreV,
    cs: Seq<ClientInfo>,
    actor: Id,
    now1: u64,
    now2: u64,
    f1: Id,
    f2: Id,
)
    ensures
        ({
            let s1 = step(sv, cs, actor, Command::Ping, now1, f1);
            let s2 = step(s1.store, s1.clients, actor, Command::Ping, now2, f2);
            &&& s2.clients == cs
            &&& s2.store.pubs == sv.pubs
            &&& s2.store.tables == sv.tables
            &&& membership_view(s2.store.persons) == membership_view(sv.persons)
        }),
{
    lemma_ping_changes_only_activity(sv, cs, actor, now1, f1);
    let s1 = step(sv, cs, actor, Command::Ping, now1, f1);
    lemma_ping_changes_only_activity(s1.store, s1.clients, actor, now2, f2);
}

/// Law: Send moves no state, and delivers exactly one Data frame —
/// bearing the sender and the unchanged content — to the target alone
/// when the target is reachable; an unreachable target means no effect
/// at all, and in particular no error frame back to the sender.
pub proof fn lemma_send_semantics(
    sv: StoreV,
    cs: Seq<ClientInfo>,
    actor: Id,
    user_id: Id,
    content: String,
    now: u64,
    fresh: Id,
)
    ensures
        ({
            let so = step(sv, cs, actor, Command::Send { user_id, content }, now, fresh);
            &&& so.store == sv
            &&& so.clients == cs
            &&& has_client(cs, user_id) ==> so.effects == seq![
                OutboundV {
                    to: seq![user_id],
                    msg: ResponseV::Data { author: actor, content: content@ },
                },
            ]
            &&& !has_client(cs, user_id) ==> so.effects == Seq::<OutboundV>::empty()
        }),
{
}

/// Law: the deletion guard. Deleting a pub that still has a member
/// changes nothing; deleting an empty pub removes it, so that no
/// subsequent pub listing carries its id.
pub proof fn lemma_delete_pub_guard(
    sv: StoreV,
    cs: Seq<ClientInfo>,
    actor: Id,
    pub_id: Id,
    now: u64,
    fresh: Id,
)
    ensures
        ({
            let so = step(sv, cs, actor, Command::DeletePub { pub_id }, now, fresh);
            &&& pub_member_ids(sv.persons, pub_id).len() > 0 ==> so.store == sv
            &&& pub_member_ids(sv.persons, pub_id).len() == 0 ==> !has_pub(so.store.pubs, pub_id)
                && forall|k: int|
                0 <= k < pub_listing(so.store).len() ==> (#[trigger] pub_listing(so.store)[k]).id
                    != pub_id
        }),
{
    let so = step(sv, cs, actor, Command::DeletePub { pub_id }, now, fresh);
    if pub_member_ids(sv.persons, pub_id).len() == 0 {
        lemma_remove_pub_props(sv.pubs, pub_id);
        let np = remove_pub(sv.pubs, pub_id);
        if has_pub(np, pub_id) {
            let i = choose|i: int| 0 <= i < np.len() && np[i].id == pub_id;
            assert(np[i].id != pub_id);
        }
        assert forall|k: int| 0 <= k < pub_listing(so.store).len() implies (#[trigger] pub_listing(
            so.store,
        )[k]).id != pub_id by {
            assert(pub_listing(so.store)[k].id == np[k].id);
        }
    }
}

/// Law: the join transition. A person currently in pub `p1` at table
/// `t1`, with their connection cached likewise, who joins pub `p2`:
/// they leave `p1` and `t1` (absent from both derived member sets),
/// appear in `p2`'s member set with their table cleared; every other
/// reachable member cached in `p1`, and every reachable member cached
/// in `p2`, receives a presence-refresh broadcast of the person's
/// record.
pub proof fn lemma_join_pub_transition(
    sv: StoreV,
    cs: Seq<ClientInfo>,
    actor: Id,
    p1: Id,
    t1: Id,
    p2: Id,
    now: u64,
    fresh: Id,
)
    requires
        wf_store(sv),
        unique_client_ids(cs),
        has_person(sv.persons, actor),
        person_of(sv.persons, actor).pub_id == Some(p1),
        person_of(sv.persons, actor).table_id == Some(t1),
        has_client(cs, actor),
        client_of(cs, actor).pub_id == Some(p1),
        has_pub(sv.pubs, p2),
        p1 != p2,
    ensures
        ({
            let so = step(sv, cs, actor, Command::JoinPub { pub_id: p2 }, now, fresh);
            &&& has_person(so.store.persons, actor)
            &&& person_of(so.store.persons, actor).pub_id == Some(p2)
            &&& person_of(so.store.persons, actor).table_id is None
            &&& !pub_member_ids(so.store.persons, p1).contains(actor)
            &&& !table_member_ids(so.store.persons, t1).contains(actor)
            &&& pub_member_ids(so.store.persons, p2).contains(actor)
            &&& forall|j: int|
                0 <= j < cs.len() && (#[trigger] cs[j]).id != actor && cs[j].pub_id == Some(p1)
                    ==> exists|k: int|
                    0 <= k < so.effects.len() && (#[trigger] so.effects[k]).to.contains(cs[j].id)
                        && so.effects[k].msg is Person
            &&& forall|j: int|
                0 <= j < cs.len() && (#[trigger] cs[j]).pub_id == Some(p2) ==> exists|k: int|
                    0 <= k < so.effects.len() && (#[trigger] so.effects[k]).to.contains(cs[j].id)
                        && so.effects[k].msg is Person
        }),
{
    let so = step(sv, cs, actor, Command::JoinPub { pub_id: p2 }, now, fresh);
    let ps1 = set_table_map(sv.persons, actor, None, now);
    let ps2 = set_pub_map(ps1, actor, Some(p2), now);
    let cs2 = update_map(cs, actor, Some(p2), None);
    assert(so.store.persons == ps2);
    assert(so.clients == cs2);

    let i = person_idx(sv.persons, actor);
    assert(0 <= i < sv.persons.len() && sv.persons[i].id == actor);
    assert(person_of(sv.persons, actor) == sv.persons[i]);
    assert(ps2.len() == sv.persons.len());
    assert(forall|j: int| 0 <= j < ps2.len() ==> (#[trigger] ps2[j]).id == sv.persons[j].id);
    assert(ps1[i].table_id is None);
    assert(ps2[i].pub_id == Some(p2) && ps2[i].table_id is None);
    assert forall|a: int, b: int|
        0 <= a < ps2.len() && 0 <= b < ps2.len() && a != b implies ps2[a].id != ps2[b].id by {
        assert(sv.persons[a].id != sv.persons[b].id);
    }
    lemma_person_of(ps2, actor, i);

    lemma_pub_member_ids_iff(ps2, p1, actor);
    if pub_member_ids(ps2, p1).contains(actor) {
        let w = choose|w: int|
            0 <= w < ps2.len() && ps2[w].id == actor && (#[trigger] ps2[w]).pub_id == Some(p1);
        assert(sv.persons[w].id == actor);
        assert(w == i);
    }
    lemma_table_member_ids_iff(ps2, t1, actor);
    if table_member_ids(ps2, t1).contains(actor) {
        let w = choose|w: int|
            0 <= w < ps2.len() && ps2[w].id == actor && (#[trigger] ps2[w]).table_id == Some(t1);
        assert(sv.persons[w].id == actor);
        assert(w == i);
    }
    lemma_pub_member_ids_iff(ps2, p2, actor);
    assert(pub_member_ids(ps2, p2).contains(actor));

    // The shape of the effects: one refresh to the new pub, one to the
    // old pub (or to the person alone), and the table list to the person.
    let ci = client_idx(cs, actor);
    assert(0 <= ci < cs.len() && cs[ci].id == actor);
    assert(client_of(cs, actor) == cs[ci]);
    assert(cs2.len() == cs.len());
    assert(forall|j: int| 0 <= j < cs2.len() ==> (#[trigger] cs2[j]).id == cs[j].id);
    assert(cs2[ci].pub_id == Some(p2));
    lemma_clients_in_pub_iff(cs2, p2, actor);
    let d1 = clients_in_pub(cs2, p2);
    let d2 = clients_in_pub(cs2, p1);
    assert(d1.contains(actor));
    let dw = choose|dw: int| 0 <= dw < d1.len() && d1[dw] == actor;
    assert(d1.len() > 0);
    assert(self_person(so.store, actor) == Some(
        ResponseV::Person { data: person_of(ps2, actor) },
    ));
    assert(has_client(cs2, actor));
    let e1 = reply_to_list(so.store, cs2, actor, d1);
    let e2 = reply_to_list(so.store, cs2, actor, d2);
    let e3 = to_self(cs2, actor, ResponseV::Tables { list: crate::model::table_listing(so.store, p2) });
    assert(e1.len() == 1 && e1[0].to == d1 && e1[0].msg is Person);
    assert(e2.len() == 1 && e2[0].msg is Person);
    assert(d2.len() > 0 ==> e2[0].to == d2);
    assert(so.effects == e1 + e2 + e3);
    assert(so.effects[0] == e1[0]);
    assert(so.effects[1] == e2[0]);

    assert forall|j: int|
        0 <= j < cs.len() && (#[trigger] cs[j]).pub_id == Some(p2) implies exists|k: int|
        0 <= k < so.effects.len() && (#[trigger] so.effects[k]).to.contains(cs[j].id)
            && so.effects[k].msg is Person by {
        if cs[j].id == actor {
            assert(j == ci);
            assert(false);
        }
        assert(cs2[j] == cs[j]);
        lemma_clients_in_pub_iff(cs2, p2, cs[j].id);
        assert(d1.contains(cs[j].id));
        assert(so.effects[0].to.contains(cs[j].id) && so.effects[0].msg is Person);
    }

    assert forall|j: int|
        0 <= j < cs.len() && (#[trigger] cs[j]).id != actor && cs[j].pub_id == Some(p1) implies exists|k: int|
        0 <= k < so.effects.len() && (#[trigger] so.effects[k]).to.contains(cs[j].id)
            && so.effects[k].msg is Person by {
        assert(j != ci);
        assert(cs2[j] == cs[j]);
        lemma_clients_in_pub_iff(cs2, p1, cs[j].id);
        assert(d2.contains(cs[j].id));
        assert(d2.len() > 0);
        assert(so.effects[1].to.contains(cs[j].id) && so.effects[1].msg is Person);
    }
}

/// Law: a stale person is gone after the next reaper pass — with unique
/// ids, a record whose last-activity lies more than the staleness
/// window before `now` does not survive `cleanup_map`.
pub proof fn lemma_stale_person_reaped(ps: Seq<PersonV>, now: u64, id: Id)
    requires
        unique_person_ids(ps),
        has_person(ps, id),
        is_stale(person_of(ps, id).last_updated, now),
    ensures
        !has_person(cleanup_map(ps, now), id),
{
    lemma_cleanup_removes_stale(ps, now, id);
}

/// Law: a person pinged within the staleness window is never reaped —
/// touched at time `t`, the record survives a reaper pass at any `now`
/// up to `t` plus the window, unchanged. A person pinged every four
/// minutes therefore survives every pass, one pass at a time.
pub proof fn lemma_recent_ping_survives(ps: Seq<PersonV>, id: Id, t: u64, now: u64)
    requires
        unique_person_ids(ps),
        has_person(ps, id),
        now <= t + STALE_SECONDS,
    ensures
        ({
            let ps2 = touch_map(ps, id, t);
            has_person(cleanup_map(ps2, now), id) && person_of(cleanup_map(ps2, now), id)
                == person_of(ps2, id)
        }),
{
    let ps2 = touch_map(ps, id, t);
    let i = person_idx(ps, id);
    assert(0 <= i < ps.len() && ps[i].id == id);
    assert(ps2[i].id == id && ps2[i].last_updated == t);
    assert forall|a: int, b: int|
        0 <= a < ps2.len() && 0 <= b < ps2.len() && a != b implies ps2[a].id != ps2[b].id by {
        assert(ps2[a].id == ps[a].id && ps2[b].id == ps[b].id);
    }
    lemma_person_of(ps2, id, i);
    assert(!is_stale(ps2[i].last_updated, now));
    lemma_cleanup_keeps_fresh(ps2, now, id);
}

} // verus!
