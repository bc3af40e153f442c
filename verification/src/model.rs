//! The mathematical model of the durable state: spec functions over the
//! views of persons, pubs and tables. Every store operation's contract is
//! stated as one of these transitions, and the laws of the protocol are
//! proved about them.

use vstd::prelude::*;
use crate::types::{Id, PersonV, PubV, TableV, PubWithPeopleV, TableWithPeopleV};

verus! {

/// Seconds of inactivity after which the reaper removes a person.
pub const STALE_SECONDS: u64 = 300;

/// Mathematical view of the whole durable store.
#[verifier::ext_equal]
pub struct StoreV {
    pub persons: Seq<PersonV>,
    pub pubs: Seq<PubV>,
    pub tables: Seq<TableV>,
}

// ----------------------------------------------------------------------
// Lookup
// ----------------------------------------------------------------------

pub open spec fn has_person(ps: Seq<PersonV>, id: Id) -> bool {
    exists|i: int| 0 <= i < ps.len() && ps[i].id == id
}

pub open spec fn person_idx(ps: Seq<PersonV>, id: Id) -> int {
    choose|i: int| 0 <= i < ps.len() && ps[i].id == id
}

pub open spec fn person_of(ps: Seq<PersonV>, id: Id) -> PersonV {
    ps[person_idx(ps, id)]
}

pub open spec fn has_pub(pbs: Seq<PubV>, id: Id) -> bool {
    exists|i: int| 0 <= i < pbs.len() && pbs[i].id == id
}

pub open spec fn has_table(ts: Seq<TableV>, id: Id) -> bool {
    exists|i: int| 0 <= i < ts.len() && ts[i].id == id
}

pub open spec fn table_idx(ts: Seq<TableV>, id: Id) -> int {
    choose|i: int| 0 <= i < ts.len() && ts[i].id == id
}

pub open spec fn table_of(ts: Seq<TableV>, id: Id) -> TableV {
    ts[table_idx(ts, id)]
}

// ----------------------------------------------------------------------
// Uniqueness of ids
// ----------------------------------------------------------------------

pub open spec fn unique_person_ids(ps: Seq<PersonV>) -> bool {
    forall|i: int, j: int|
        0 <= i < ps.len() && 0 <= j < ps.len() && i != j ==> ps[i].id != ps[j].id
}

pub open spec fn unique_pub_ids(pbs: Seq<PubV>) -> bool {
    forall|i: int, j: int|
        0 <= i < pbs.len() && 0 <= j < pbs.len() && i != j ==> pbs[i].id != pbs[j].id
}

pub open spec fn unique_table_ids(ts: Seq<TableV>) -> bool {
    forall|i: int, j: int|
        0 <= i < ts.len() && 0 <= j < ts.len() && i != j ==> ts[i].id != ts[j].id
}

// ----------------------------------------------------------------------
// Transitions on the person table
// ----------------------------------------------------------------------

/// The record a person starts with on first connection.
pub open spec fn blank_person(id: Id, now: u64) -> PersonV {
    PersonV { id, name: None, pub_id: None, table_id: None, last_updated: now }
}

/// Insert a blank record unless the id is already present.
pub open spec fn upsert_person(ps: Seq<PersonV>, id: Id, now: u64) -> Seq<PersonV> {
    if has_person(ps, id) {
        ps
    } else {
        ps.push(blank_person(id, now))
    }
}

/// Set the person's current pub (or clear it) and refresh last-activity.
pub open spec fn set_pub_map(ps: Seq<PersonV>, id: Id, pub_id: Option<Id>, now: u64) -> Seq<
    PersonV,
> {
    ps.map_values(
        |p: PersonV|
            if p.id == id {
                PersonV { pub_id, last_updated: now, ..p }
            } else {
                p
            },
    )
}

/// Set the person's current table (or clear it) and refresh last-activity.
pub open spec fn set_table_map(ps: Seq<PersonV>, id: Id, table_id: Option<Id>, now: u64) -> Seq<
    PersonV,
> {
    ps.map_values(
        |p: PersonV|
            if p.id == id {
                PersonV { table_id, last_updated: now, ..p }
            } else {
                p
            },
    )
}

/// Set the person's display name and refresh last-activity.
pub open spec fn set_name_map(ps: Seq<PersonV>, id: Id, name: Seq<char>, now: u64) -> Seq<
    PersonV,
> {
    ps.map_values(
        |p: PersonV|
            if p.id == id {
                PersonV { name: Some(name), last_updated: now, ..p }
            } else {
                p
            },
    )
}

/// Refresh the person's last-activity alone.
pub open spec fn touch_map(ps: Seq<PersonV>, id: Id, now: u64) -> Seq<PersonV> {
    ps.map_values(
        |p: PersonV|
            if p.id == id {
                PersonV { last_updated: now, ..p }
            } else {
                p
            },
    )
}

/// A record this old at time `now` is removed by the reaper.
pub open spec fn is_stale(last_updated: u64, now: u64) -> bool {
    last_updated + STALE_SECONDS < now
}

/// The person table after one reaper pass at time `now`: exactly the
/// fresh records remain, in their original order.
pub open spec fn cleanup_map(ps: Seq<PersonV>, now: u64) -> Seq<PersonV>
    decreases ps.len(),
{
    if ps.len() == 0 {
        Seq::empty()
    } else {
        let rest = cleanup_map(ps.drop_last(), now);
        if is_stale(ps.last().last_updated, now) {
            rest
        } else {
            rest.push(ps.last())
        }
    }
}

// ----------------------------------------------------------------------
// Derived membership
// ----------------------------------------------------------------------

/// The ids of the persons whose current pub is `pub_id`, in store order.
pub open spec fn pub_member_ids(ps: Seq<PersonV>, pub_id: Id) -> Seq<Id>
    decreases ps.len(),
{
    if ps.len() == 0 {
        Seq::empty()
    } else {
        let rest = pub_member_ids(ps.drop_last(), pub_id);
        if ps.last().pub_id == Some(pub_id) {
            rest.push(ps.last().id)
        } else {
            rest
        }
    }
}

/// The ids of the persons whose current table is `table_id`, in store order.
pub open spec fn table_member_ids(ps: Seq<PersonV>, table_id: Id) -> Seq<Id>
    decreases ps.len(),
{
    if ps.len() == 0 {
        Seq::empty()
    } else {
        let rest = table_member_ids(ps.drop_last(), table_id);
        if ps.last().table_id == Some(table_id) {
            rest.push(ps.last().id)
        } else {
            rest
        }
    }
}

// ----------------------------------------------------------------------
// Transitions on the pub and table tables
// ----------------------------------------------------------------------

/// The pubs without the one carrying `pub_id`, in their original order.
pub open spec fn remove_pub(pbs: Seq<PubV>, pub_id: Id) -> Seq<PubV>
    decreases pbs.len(),
{
    if pbs.len() == 0 {
        Seq::empty()
    } else {
        let rest = remove_pub(pbs.drop_last(), pub_id);
        if pbs.last().id == pub_id {
            rest
        } else {
            rest.push(pbs.last())
        }
    }
}

/// The tables without the one carrying `table_id`, in their original order.
pub open spec fn remove_table(ts: Seq<TableV>, table_id: Id) -> Seq<TableV>
    decreases ts.len(),
{
    if ts.len() == 0 {
        Seq::empty()
    } else {
        let rest = remove_table(ts.drop_last(), table_id);
        if ts.last().id == table_id {
            rest
        } else {
            rest.push(ts.last())
        }
    }
}

/// The tables without those nested in pub `pub_id`, in their original order.
pub open spec fn remove_tables_of(ts: Seq<TableV>, pub_id: Id) -> Seq<TableV>
    decreases ts.len(),
{
    if ts.len() == 0 {
        Seq::empty()
    } else {
        let rest = remove_tables_of(ts.drop_last(), pub_id);
        if ts.last().pub_id == pub_id {
            rest
        } else {
            rest.push(ts.last())
        }
    }
}

/// The tables nested in pub `pub_id`, in their original order.
pub open spec fn tables_of_pub(ts: Seq<TableV>, pub_id: Id) -> Seq<TableV>
    decreases ts.len(),
{
    if ts.len() == 0 {
        Seq::empty()
    } else {
        let rest = tables_of_pub(ts.drop_last(), pub_id);
        if ts.last().pub_id == pub_id {
            rest.push(ts.last())
        } else {
            rest
        }
    }
}

/// The whole store after `DeletePub`: unchanged while the pub has
/// members; otherwise the pub and its (necessarily empty) tables go.
pub open spec fn delete_pub_spec(sv: StoreV, pub_id: Id) -> StoreV {
    if pub_member_ids(sv.persons, pub_id).len() > 0 {
        sv
    } else {
        StoreV {
            pubs: remove_pub(sv.pubs, pub_id),
            tables: remove_tables_of(sv.tables, pub_id),
            ..sv
        }
    }
}

/// The whole store after `DeleteTable`: unchanged while the table has
/// members; otherwise the table goes.
pub open spec fn delete_table_spec(sv: StoreV, table_id: Id) -> StoreV {
    if table_member_ids(sv.persons, table_id).len() > 0 {
        sv
    } else {
        StoreV { tables: remove_table(sv.tables, table_id), ..sv }
    }
}

// ----------------------------------------------------------------------
// Well-formedness
// ----------------------------------------------------------------------

/// A person's references: a current pub must exist, and a current table
/// must exist, sit in a pub, and that pub must be the person's own. The
/// last clause is the central invariant of the room structure.
pub open spec fn person_links_ok(p: PersonV, sv: StoreV) -> bool {
    &&& match p.pub_id {
        Some(q) => has_pub(sv.pubs, q),
        None => true,
    }
    &&& match p.table_id {
        Some(t) => has_table(sv.tables, t) && p.pub_id == Some(table_of(sv.tables, t).pub_id),
        None => true,
    }
}

/// The store's invariant: ids are unique per table, every table sits in
/// an existing pub, and every person's references are intact.
pub open spec fn wf_store(sv: StoreV) -> bool {
    &&& unique_person_ids(sv.persons)
    &&& unique_pub_ids(sv.pubs)
    &&& unique_table_ids(sv.tables)
    &&& forall|i: int|
        0 <= i < sv.tables.len() ==> has_pub(sv.pubs, (#[trigger] sv.tables[i]).pub_id)
    &&& forall|i: int| 0 <= i < sv.persons.len() ==> person_links_ok(#[trigger] sv.persons[i], sv)
}

// ----------------------------------------------------------------------
// Workhorse lemmas: a found index pins the lookup functions down
// ----------------------------------------------------------------------

pub proof fn lemma_person_of(ps: Seq<PersonV>, id: Id, i: int)
    requires
        unique_person_ids(ps),
        0 <= i < ps.len(),
        ps[i].id == id,
    ensures
        has_person(ps, id),
        person_idx(ps, id) == i,
        person_of(ps, id) == ps[i],
{
    assert(has_person(ps, id));
    let j = person_idx(ps, id);
    assert(0 <= j < ps.len() && ps[j].id == id);
}

pub proof fn lemma_table_of(ts: Seq<TableV>, id: Id, i: int)
    requires
        unique_table_ids(ts),
        0 <= i < ts.len(),
        ts[i].id == id,
    ensures
        has_table(ts, id),
        table_idx(ts, id) == i,
        table_of(ts, id) == ts[i],
{
    assert(has_table(ts, id));
    let j = table_idx(ts, id);
    assert(0 <= j < ts.len() && ts[j].id == id);
}

/// Replacing person records without touching their ids keeps the store
/// invariant, provided each new record's references are intact.
pub proof fn lemma_persons_replaced_wf(sv: StoreV, ps2: Seq<PersonV>)
    requires
        wf_store(sv),
        ps2.len() == sv.persons.len(),
        forall|j: int| 0 <= j < ps2.len() ==> (#[trigger] ps2[j]).id == sv.persons[j].id,
        forall|j: int| 0 <= j < ps2.len() ==> person_links_ok(#[trigger] ps2[j], sv),
    ensures
        wf_store(StoreV { persons: ps2, ..sv }),
{
    let sv2 = StoreV { persons: ps2, ..sv };
    assert forall|j: int| 0 <= j < sv2.persons.len() implies person_links_ok(
        #[trigger] sv2.persons[j],
        sv2,
    ) by {
        assert(person_links_ok(ps2[j], sv));
    }
}

// ----------------------------------------------------------------------
// Unfolding the recursive transitions one element at a time
// ----------------------------------------------------------------------

pub proof fn lemma_pub_member_ids_push(s: Seq<PersonV>, x: PersonV, pub_id: Id)
    ensures
        pub_member_ids(s.push(x), pub_id) == if x.pub_id == Some(pub_id) {
            pub_member_ids(s, pub_id).push(x.id)
        } else {
            pub_member_ids(s, pub_id)
        },
{
    assert(s.push(x).drop_last() =~= s);
    assert(s.push(x).last() == x);
}

pub proof fn lemma_table_member_ids_push(s: Seq<PersonV>, x: PersonV, table_id: Id)
    ensures
        table_member_ids(s.push(x), table_id) == if x.table_id == Some(table_id) {
            table_member_ids(s, table_id).push(x.id)
        } else {
            table_member_ids(s, table_id)
        },
{
    assert(s.push(x).drop_last() =~= s);
    assert(s.push(x).last() == x);
}

pub proof fn lemma_tables_of_pub_push(s: Seq<TableV>, x: TableV, pub_id: Id)
    ensures
        tables_of_pub(s.push(x), pub_id) == if x.pub_id == pub_id {
            tables_of_pub(s, pub_id).push(x)
        } else {
            tables_of_pub(s, pub_id)
        },
{
    assert(s.push(x).drop_last() =~= s);
    assert(s.push(x).last() == x);
}

pub proof fn lemma_remove_pub_push(s: Seq<PubV>, x: PubV, pub_id: Id)
    ensures
        remove_pub(s.push(x), pub_id) == if x.id == pub_id {
            remove_pub(s, pub_id)
        } else {
            remove_pub(s, pub_id).push(x)
        },
{
    assert(s.push(x).drop_last() =~= s);
    assert(s.push(x).last() == x);
}

pub proof fn lemma_remove_table_push(s: Seq<TableV>, x: TableV, table_id: Id)
    ensures
        remove_table(s.push(x), table_id) == if x.id == table_id {
            remove_table(s, table_id)
        } else {
            remove_table(s, table_id).push(x)
        },
{
    assert(s.push(x).drop_last() =~= s);
    assert(s.push(x).last() == x);
}

pub proof fn lemma_remove_tables_of_push(s: Seq<TableV>, x: TableV, pub_id: Id)
    ensures
        remove_tables_of(s.push(x), pub_id) == if x.pub_id == pub_id {
            remove_tables_of(s, pub_id)
        } else {
            remove_tables_of(s, pub_id).push(x)
        },
{
    assert(s.push(x).drop_last() =~= s);
    assert(s.push(x).last() == x);
}

pub proof fn lemma_cleanup_push(s: Seq<PersonV>, x: PersonV, now: u64)
    ensures
        cleanup_map(s.push(x), now) == if is_stale(x.last_updated, now) {
            cleanup_map(s, now)
        } else {
            cleanup_map(s, now).push(x)
        },
{
    assert(s.push(x).drop_last() =~= s);
    assert(s.push(x).last() == x);
}

// ----------------------------------------------------------------------
// What survives a removal: exactly the rows that do not match
// ----------------------------------------------------------------------

pub proof fn lemma_remove_pub_props(pbs: Seq<PubV>, pub_id: Id)
    ensures
        forall|k: int|
            0 <= k < remove_pub(pbs, pub_id).len() ==> (#[trigger] remove_pub(pbs, pub_id)[k]).id
                != pub_id,
        forall|k: int|
            0 <= k < remove_pub(pbs, pub_id).len() ==> pbs.contains(
                #[trigger] remove_pub(pbs, pub_id)[k],
            ),
        forall|j: int|
            0 <= j < pbs.len() && (#[trigger] pbs[j]).id != pub_id ==> remove_pub(
                pbs,
                pub_id,
            ).contains(pbs[j]),
        unique_pub_ids(pbs) ==> unique_pub_ids(remove_pub(pbs, pub_id)),
    decreases pbs.len(),
{
    if pbs.len() > 0 {
        let s = pbs.drop_last();
        let x = pbs.last();
        lemma_remove_pub_props(s, pub_id);
        let r0 = remove_pub(s, pub_id);
        let r = remove_pub(pbs, pub_id);
        assert(forall|j: int| 0 <= j < s.len() ==> s[j] == pbs[j]);
        assert forall|k: int| 0 <= k < r.len() implies pbs.contains(#[trigger] r[k]) by {
            if k < r0.len() {
                assert(s.contains(r0[k]));
                let j = choose|j: int| 0 <= j < s.len() && s[j] == r0[k];
                assert(pbs[j] == r[k]);
            } else {
                assert(r[k] == x);
                assert(pbs[pbs.len() - 1] == x);
            }
        }
        assert forall|j: int|
            0 <= j < pbs.len() && pbs[j].id != pub_id implies r.contains(#[trigger] pbs[j]) by {
            if j < pbs.len() - 1 {
                assert(r0.contains(s[j]));
                let k = choose|k: int| 0 <= k < r0.len() && r0[k] == s[j];
                assert(r[k] == pbs[j]);
            } else {
                assert(x.id != pub_id);
                assert(r[r0.len() as int] == x);
            }
        }
        if unique_pub_ids(pbs) {
            assert forall|k: int, k2: int|
                0 <= k < r.len() && 0 <= k2 < r.len() && k != k2 implies r[k].id != r[k2].id by {
                if k < r0.len() && k2 < r0.len() {
                    assert(unique_pub_ids(r0));
                } else if k < r0.len() && k2 == r0.len() {
                    let j = choose|j: int| 0 <= j < s.len() && s[j] == r0[k];
                    assert(pbs[j].id != pbs[pbs.len() - 1].id);
                } else if k == r0.len() && k2 < r0.len() {
                    let j = choose|j: int| 0 <= j < s.len() && s[j] == r0[k2];
                    assert(pbs[j].id != pbs[pbs.len() - 1].id);
                }
            }
        }
    }
}

pub proof fn lemma_remove_table_props(ts: Seq<TableV>, table_id: Id)
    ensures
        forall|k: int|
            0 <= k < remove_table(ts, table_id).len() ==> (#[trigger] remove_table(
                ts,
                table_id,
            )[k]).id != table_id,
        forall|k: int|
            0 <= k < remove_table(ts, table_id).len() ==> ts.contains(
                #[trigger] remove_table(ts, table_id)[k],
            ),
        forall|j: int|
            0 <= j < ts.len() && (#[trigger] ts[j]).id != table_id ==> remove_table(
                ts,
                table_id,
            ).contains(ts[j]),
        unique_table_ids(ts) ==> unique_table_ids(remove_table(ts, table_id)),
    decreases ts.len(),
{
    if ts.len() > 0 {
        let s = ts.drop_last();
        let x = ts.last();
        lemma_remove_table_props(s, table_id);
        let r0 = remove_table(s, table_id);
        let r = remove_table(ts, table_id);
        assert(forall|j: int| 0 <= j < s.len() ==> s[j] == ts[j]);
        assert forall|k: int| 0 <= k < r.len() implies ts.contains(#[trigger] r[k]) by {
            if k < r0.len() {
                assert(s.contains(r0[k]));
                let j = choose|j: int| 0 <= j < s.len() && s[j] == r0[k];
                assert(ts[j] == r[k]);
            } else {
                assert(r[k] == x);
                assert(ts[ts.len() - 1] == x);
            }
        }
        assert forall|j: int|
            0 <= j < ts.len() && ts[j].id != table_id implies r.contains(#[trigger] ts[j]) by {
            if j < ts.len() - 1 {
                assert(r0.contains(s[j]));
                let k = choose|k: int| 0 <= k < r0.len() && r0[k] == s[j];
                assert(r[k] == ts[j]);
            } else {
                assert(x.id != table_id);
                assert(r[r0.len() as int] == x);
            }
        }
        if unique_table_ids(ts) {
            assert forall|k: int, k2: int|
                0 <= k < r.len() && 0 <= k2 < r.len() && k != k2 implies r[k].id != r[k2].id by {
                if k < r0.len() && k2 < r0.len() {
                    assert(unique_table_ids(r0));
                } else if k < r0.len() && k2 == r0.len() {
                    let j = choose|j: int| 0 <= j < s.len() && s[j] == r0[k];
                    assert(ts[j].id != ts[ts.len() - 1].id);
                } else if k == r0.len() && k2 < r0.len() {
                    let j = choose|j: int| 0 <= j < s.len() && s[j] == r0[k2];
                    assert(ts[j].id != ts[ts.len() - 1].id);
                }
            }
        }
    }
}

pub proof fn lemma_remove_tables_of_props(ts: Seq<TableV>, pub_id: Id)
    ensures
        forall|k: int|
            0 <= k < remove_tables_of(ts, pub_id).len() ==> (#[trigger] remove_tables_of(
                ts,
                pub_id,
            )[k]).pub_id != pub_id,
        forall|k: int|
            0 <= k < remove_tables_of(ts, pub_id).len() ==> ts.contains(
                #[trigger] remove_tables_of(ts, pub_id)[k],
            ),
        forall|j: int|
            0 <= j < ts.len() && (#[trigger] ts[j]).pub_id != pub_id ==> remove_tables_of(
                ts,
                pub_id,
            ).contains(ts[j]),
        unique_table_ids(ts) ==> unique_table_ids(remove_tables_of(ts, pub_id)),
    decreases ts.len(),
{
    if ts.len() > 0 {
        let s = ts.drop_last();
        let x = ts.last();
        lemma_remove_tables_of_props(s, pub_id);
        let r0 = remove_tables_of(s, pub_id);
        let r = remove_tables_of(ts, pub_id);
        assert(forall|j: int| 0 <= j < s.len() ==> s[j] == ts[j]);
        assert forall|k: int| 0 <= k < r.len() implies ts.contains(#[trigger] r[k]) by {
            if k < r0.len() {
                assert(s.contains(r0[k]));
                let j = choose|j: int| 0 <= j < s.len() && s[j] == r0[k];
                assert(ts[j] == r[k]);
            } else {
                assert(r[k] == x);
                assert(ts[ts.len() - 1] == x);
            }
        }
        assert forall|j: int|
            0 <= j < ts.len() && ts[j].pub_id != pub_id implies r.contains(#[trigger] ts[j]) by {
            if j < ts.len() - 1 {
                assert(r0.contains(s[j]));
                let k = choose|k: int| 0 <= k < r0.len() && r0[k] == s[j];
                assert(r[k] == ts[j]);
            } else {
                assert(x.pub_id != pub_id);
                assert(r[r0.len() as int] == x);
            }
        }
        if unique_table_ids(ts) {
            assert forall|k: int, k2: int|
                0 <= k < r.len() && 0 <= k2 < r.len() && k != k2 implies r[k].id != r[k2].id by {
                if k < r0.len() && k2 < r0.len() {
                    assert(unique_table_ids(r0));
                } else if k < r0.len() && k2 == r0.len() {
                    let j = choose|j: int| 0 <= j < s.len() && s[j] == r0[k];
                    assert(ts[j].id != ts[ts.len() - 1].id);
                } else if k == r0.len() && k2 < r0.len() {
                    let j = choose|j: int| 0 <= j < s.len() && s[j] == r0[k2];
                    assert(ts[j].id != ts[ts.len() - 1].id);
                }
            }
        }
    }
}

pub proof fn lemma_cleanup_props(ps: Seq<PersonV>, now: u64)
    ensures
        forall|k: int|
            0 <= k < cleanup_map(ps, now).len() ==> !is_stale(
                (#[trigger] cleanup_map(ps, now)[k]).last_updated,
                now,
            ),
        forall|k: int|
            0 <= k < cleanup_map(ps, now).len() ==> ps.contains(#[trigger] cleanup_map(ps, now)[k]),
        forall|j: int|
            0 <= j < ps.len() && !is_stale((#[trigger] ps[j]).last_updated, now) ==> cleanup_map(
                ps,
                now,
            ).contains(ps[j]),
        unique_person_ids(ps) ==> unique_person_ids(cleanup_map(ps, now)),
    decreases ps.len(),
{
    if ps.len() > 0 {
        let s = ps.drop_last();
        let x = ps.last();
        lemma_cleanup_props(s, now);
        let r0 = cleanup_map(s, now);
        let r = cleanup_map(ps, now);
        assert(forall|j: int| 0 <= j < s.len() ==> s[j] == ps[j]);
        assert forall|k: int| 0 <= k < r.len() implies ps.contains(#[trigger] r[k]) by {
            if k < r0.len() {
                assert(s.contains(r0[k]));
                let j = choose|j: int| 0 <= j < s.len() && s[j] == r0[k];
                assert(ps[j] == r[k]);
            } else {
                assert(r[k] == x);
                assert(ps[ps.len() - 1] == x);
            }
        }
        assert forall|j: int|
            0 <= j < ps.len() && !is_stale(ps[j].last_updated, now) implies r.contains(#[trigger] ps[j]) by {
            if j < ps.len() - 1 {
                assert(r0.contains(s[j]));
                let k = choose|k: int| 0 <= k < r0.len() && r0[k] == s[j];
                assert(r[k] == ps[j]);
            } else {
                assert(!is_stale(x.last_updated, now));
                assert(r[r0.len() as int] == x);
            }
        }
        if unique_person_ids(ps) {
            assert forall|k: int, k2: int|
                0 <= k < r.len() && 0 <= k2 < r.len() && k != k2 implies r[k].id != r[k2].id by {
                if k < r0.len() && k2 < r0.len() {
                    assert(unique_person_ids(r0));
                } else if k < r0.len() && k2 == r0.len() {
                    let j = choose|j: int| 0 <= j < s.len() && s[j] == r0[k];
                    assert(ps[j].id != ps[ps.len() - 1].id);
                } else if k == r0.len() && k2 < r0.len() {
                    let j = choose|j: int| 0 <= j < s.len() && s[j] == r0[k2];
                    assert(ps[j].id != ps[ps.len() - 1].id);
                }
            }
        }
    }
}

/// After a reaper pass no record carrying a stale id remains: with unique
/// ids, the one row under `id` was stale, and only old rows survive.
pub proof fn lemma_cleanup_removes_stale(ps: Seq<PersonV>, now: u64, id: Id)
    requires
        unique_person_ids(ps),
        has_person(ps, id),
        is_stale(person_of(ps, id).last_updated, now),
    ensures
        !has_person(cleanup_map(ps, now), id),
{
    lemma_cleanup_props(ps, now);
    let r = cleanup_map(ps, now);
    if has_person(r, id) {
        let k = choose|k: int| 0 <= k < r.len() && r[k].id == id;
        let j = choose|j: int| 0 <= j < ps.len() && ps[j] == r[k];
        lemma_person_of(ps, id, j);
    }
}

/// A record refreshed within the staleness window survives a reaper pass.
pub proof fn lemma_cleanup_keeps_fresh(ps: Seq<PersonV>, now: u64, id: Id)
    requires
        has_person(ps, id),
        !is_stale(person_of(ps, id).last_updated, now),
    ensures
        has_person(cleanup_map(ps, now), id),
        unique_person_ids(ps) ==> person_of(cleanup_map(ps, now), id) == person_of(ps, id),
{
    lemma_cleanup_props(ps, now);
    let j = person_idx(ps, id);
    assert(0 <= j < ps.len() && ps[j].id == id);
    let r = cleanup_map(ps, now);
    let k = choose|k: int| 0 <= k < r.len() && r[k] == ps[j];
    assert(r[k].id == id);
    assert(has_person(r, id));
    if unique_person_ids(ps) {
        lemma_cleanup_props(ps, now);
        let k2 = person_idx(r, id);
        assert(0 <= k2 < r.len() && r[k2].id == id);
        let j2 = choose|j2: int| 0 <= j2 < ps.len() && ps[j2] == r[k2];
        lemma_person_of(ps, id, j2);
    }
}

// ----------------------------------------------------------------------
// Membership lists name exactly the persons whose room field matches
// ----------------------------------------------------------------------

pub proof fn lemma_pub_member_ids_iff(ps: Seq<PersonV>, pub_id: Id, id: Id)
    ensures
        pub_member_ids(ps, pub_id).contains(id) <==> exists|i: int|
            0 <= i < ps.len() && ps[i].id == id && (#[trigger] ps[i]).pub_id == Some(pub_id),
    decreases ps.len(),
{
    if ps.len() > 0 {
        let s = ps.drop_last();
        let x = ps.last();
        lemma_pub_member_ids_iff(s, pub_id, id);
        assert(forall|j: int| 0 <= j < s.len() ==> s[j] == ps[j]);
        let r0 = pub_member_ids(s, pub_id);
        let r = pub_member_ids(ps, pub_id);
        if x.pub_id == Some(pub_id) {
            assert(r == r0.push(x.id));
            if r.contains(id) {
                let k = choose|k: int| 0 <= k < r.len() && r[k] == id;
                if k < r0.len() {
                    assert(r0.contains(id));
                } else {
                    assert(ps[ps.len() - 1].id == id && ps[ps.len() - 1].pub_id == Some(pub_id));
                }
            }
            if exists|i: int|
                0 <= i < ps.len() && ps[i].id == id && (#[trigger] ps[i]).pub_id == Some(pub_id) {
                let i = choose|i: int|
                    0 <= i < ps.len() && ps[i].id == id && (#[trigger] ps[i]).pub_id == Some(
                        pub_id,
                    );
                if i < ps.len() - 1 {
                    assert(r0.contains(id));
                    let k = choose|k: int| 0 <= k < r0.len() && r0[k] == id;
                    assert(r[k] == id);
                } else {
                    assert(r[r0.len() as int] == id);
                }
            }
        } else {
            assert(r == r0);
            if exists|i: int|
                0 <= i < ps.len() && ps[i].id == id && (#[trigger] ps[i]).pub_id == Some(pub_id) {
                let i = choose|i: int|
                    0 <= i < ps.len() && ps[i].id == id && (#[trigger] ps[i]).pub_id == Some(
                        pub_id,
                    );
                assert(i < ps.len() - 1);
                assert(s[i].id == id && s[i].pub_id == Some(pub_id));
            }
        }
    }
}

pub proof fn lemma_table_member_ids_iff(ps: Seq<PersonV>, table_id: Id, id: Id)
    ensures
        table_member_ids(ps, table_id).contains(id) <==> exists|i: int|
            0 <= i < ps.len() && ps[i].id == id && (#[trigger] ps[i]).table_id == Some(table_id),
    decreases ps.len(),
{
    if ps.len() > 0 {
        let s = ps.drop_last();
        let x = ps.last();
        lemma_table_member_ids_iff(s, table_id, id);
        assert(forall|j: int| 0 <= j < s.len() ==> s[j] == ps[j]);
        let r0 = table_member_ids(s, table_id);
        let r = table_member_ids(ps, table_id);
        if x.table_id == Some(table_id) {
            assert(r == r0.push(x.id));
            if r.contains(id) {
                let k = choose|k: int| 0 <= k < r.len() && r[k] == id;
                if k < r0.len() {
                    assert(r0.contains(id));
                } else {
                    assert(ps[ps.len() - 1].id == id && ps[ps.len() - 1].table_id == Some(
                        table_id,
                    ));
                }
            }
            if exists|i: int|
                0 <= i < ps.len() && ps[i].id == id && (#[trigger] ps[i]).table_id == Some(
                    table_id,
                ) {
                let i = choose|i: int|
                    0 <= i < ps.len() && ps[i].id == id && (#[trigger] ps[i]).table_id == Some(
                        table_id,
                    );
                if i < ps.len() - 1 {
                    assert(r0.contains(id));
                    let k = choose|k: int| 0 <= k < r0.len() && r0[k] == id;
                    assert(r[k] == id);
                } else {
                    assert(r[r0.len() as int] == id);
                }
            }
        } else {
            assert(r == r0);
            if exists|i: int|
                0 <= i < ps.len() && ps[i].id == id && (#[trigger] ps[i]).table_id == Some(
                    table_id,
                ) {
                let i = choose|i: int|
                    0 <= i < ps.len() && ps[i].id == id && (#[trigger] ps[i]).table_id == Some(
                        table_id,
                    );
                assert(i < ps.len() - 1);
                assert(s[i].id == id && s[i].table_id == Some(table_id));
            }
        }
    }
}

// ----------------------------------------------------------------------
// Empty member lists mean nobody points at the room
// ----------------------------------------------------------------------

pub proof fn lemma_pub_member_ids_empty(ps: Seq<PersonV>, pub_id: Id)
    requires
        pub_member_ids(ps, pub_id).len() == 0,
    ensures
        forall|i: int| 0 <= i < ps.len() ==> (#[trigger] ps[i]).pub_id != Some(pub_id),
    decreases ps.len(),
{
    if ps.len() > 0 {
        lemma_pub_member_ids_empty(ps.drop_last(), pub_id);
        assert forall|i: int| 0 <= i < ps.len() implies (#[trigger] ps[i]).pub_id != Some(pub_id) by {
            if i < ps.len() - 1 {
                assert(ps[i] == ps.drop_last()[i]);
            }
        }
    }
}

pub proof fn lemma_table_member_ids_empty(ps: Seq<PersonV>, table_id: Id)
    requires
        table_member_ids(ps, table_id).len() == 0,
    ensures
        forall|i: int| 0 <= i < ps.len() ==> (#[trigger] ps[i]).table_id != Some(table_id),
    decreases ps.len(),
{
    if ps.len() > 0 {
        lemma_table_member_ids_empty(ps.drop_last(), table_id);
        assert forall|i: int| 0 <= i < ps.len() implies (#[trigger] ps[i]).table_id != Some(
            table_id,
        ) by {
            if i < ps.len() - 1 {
                assert(ps[i] == ps.drop_last()[i]);
            }
        }
    }
}

// ----------------------------------------------------------------------
// Listings
// ----------------------------------------------------------------------

/// What `ListPubs` reports: every pub with its derived member list.
pub open spec fn pub_listing(sv: StoreV) -> Seq<PubWithPeopleV> {
    sv.pubs.map_values(
        |pb: PubV|
            PubWithPeopleV { id: pb.id, name: pb.name, persons: pub_member_ids(sv.persons, pb.id) },
    )
}

/// The tables of one pub among `ts`, each with its derived member list
/// drawn from `ps`.
pub open spec fn table_listing_of(ts: Seq<TableV>, ps: Seq<PersonV>, pub_id: Id) -> Seq<
    TableWithPeopleV,
> {
    tables_of_pub(ts, pub_id).map_values(
        |t: TableV|
            TableWithPeopleV {
                id: t.id,
                name: t.name,
                pub_id: t.pub_id,
                persons: table_member_ids(ps, t.id),
            },
    )
}

/// What `ListTables` reports: the tables of one pub with their derived
/// member lists.
pub open spec fn table_listing(sv: StoreV, pub_id: Id) -> Seq<TableWithPeopleV> {
    table_listing_of(sv.tables, sv.persons, pub_id)
}

} // verus!
