//! The durable store: persons, pubs and tables as in-memory tables with
//! unique ids. Every operation's effect is stated as a transition of the
//! mathematical model in [`crate::model`], and every operation preserves
//! the store invariant [`wf_store`].

use vstd::prelude::*;
use crate::error::MyError;
use crate::model::{
    blank_person, cleanup_map, has_person, has_pub, has_table, person_links_ok,
    person_of, pub_listing, pub_member_ids, remove_pub, remove_table,
    remove_tables_of, set_name_map, set_pub_map, set_table_map, table_idx, table_listing,
    table_member_ids, table_of, tables_of_pub, touch_map, upsert_person, wf_store, StoreV,
};
use crate::model::lemma_person_of;
use crate::model::lemma_persons_replaced_wf;
use crate::model::lemma_table_of;
use crate::model::{
    lemma_cleanup_props, lemma_cleanup_push, lemma_pub_member_ids_empty, lemma_pub_member_ids_push,
    lemma_remove_pub_props, lemma_remove_pub_push, lemma_remove_table_props,
    lemma_remove_table_push, lemma_remove_tables_of_props, lemma_remove_tables_of_push,
    lemma_table_member_ids_empty, lemma_table_member_ids_push, lemma_tables_of_pub_push,
    table_listing_of, is_stale, STALE_SECONDS,
};
use crate::types::{pubs_people_view, tables_people_view, PubWithPeople, TableWithPeople};
use crate::types::{Id, Person, PersonV, Pub, PubTable, PubV, TableV};

verus! {

/// The views of a sequence of person records.
pub open spec fn persons_view(ps: Seq<Person>) -> Seq<PersonV> {
    ps.map_values(|p: Person| p@)
}

/// The views of a sequence of pub records.
pub open spec fn pubs_view(pbs: Seq<Pub>) -> Seq<PubV> {
    pbs.map_values(|pb: Pub| pb@)
}

/// The views of a sequence of table records.
pub open spec fn tables_view(ts: Seq<PubTable>) -> Seq<TableV> {
    ts.map_values(|t: PubTable| t@)
}

/// The durable state: one row per person, pub and table.
pub struct Store {
    pub persons: Vec<Person>,
    pub pubs: Vec<Pub>,
    pub tables: Vec<PubTable>,
}

impl View for Store {
    type V = StoreV;

    open spec fn view(&self) -> StoreV {
        StoreV {
            persons: persons_view(self.persons@),
            pubs: pubs_view(self.pubs@),
            tables: tables_view(self.tables@),
        }
    }
}

impl Store {
    /// The store invariant; see [`wf_store`].
    pub open spec fn wf(self) -> bool {
        wf_store(self@)
    }

    /// An empty store.
    pub fn new() -> (s: Store)
        ensures
            s.wf(),
            s@.persons =~= Seq::<PersonV>::empty(),
            s@.pubs =~= Seq::<PubV>::empty(),
            s@.tables =~= Seq::<TableV>::empty(),
    {
        let s = Store { persons: Vec::new(), pubs: Vec::new(), tables: Vec::new() };
        proof {
            assert(s@.persons =~= Seq::<PersonV>::empty());
            assert(s@.pubs =~= Seq::<PubV>::empty());
            assert(s@.tables =~= Seq::<TableV>::empty());
        }
        s
    }

    /// Index of the person carrying `id`, if any.
    fn find_person(&self, id: Id) -> (r: Option<usize>)
        ensures
            match r {
                Some(i) => i < self.persons@.len() && self@.persons[i as int].id == id,
                None => !has_person(self@.persons, id),
            },
    {
        let n = self.persons.len();
        let mut i: usize = 0;
        while i < n
            invariant
                n == self.persons@.len(),
                i <= n,
                forall|j: int| 0 <= j < i ==> self@.persons[j].id != id,
            decreases n - i,
        {
            if self.persons[i].id == id {
                return Some(i);
            }
            i += 1;
        }
        None
    }

    /// Index of the pub carrying `id`, if any.
    fn find_pub(&self, id: Id) -> (r: Option<usize>)
        ensures
            match r {
                Some(i) => i < self.pubs@.len() && self@.pubs[i as int].id == id,
                None => !has_pub(self@.pubs, id),
            },
    {
        let n = self.pubs.len();
        let mut i: usize = 0;
        while i < n
            invariant
                n == self.pubs@.len(),
                i <= n,
                forall|j: int| 0 <= j < i ==> self@.pubs[j].id != id,
            decreases n - i,
        {
            if self.pubs[i].id == id {
                return Some(i);
            }
            i += 1;
        }
        None
    }

    /// Index of the table carrying `id`, if any.
    fn find_table(&self, id: Id) -> (r: Option<usize>)
        ensures
            match r {
                Some(i) => i < self.tables@.len() && self@.tables[i as int].id == id,
                None => !has_table(self@.tables, id),
            },
    {
        let n = self.tables.len();
        let mut i: usize = 0;
        while i < n
            invariant
                n == self.tables@.len(),
                i <= n,
                forall|j: int| 0 <= j < i ==> self@.tables[j].id != id,
            decreases n - i,
        {
            if self.tables[i].id == id {
                return Some(i);
            }
            i += 1;
        }
        None
    }

    /// Whether a person carrying `id` is in the store.
    pub fn contains_person(&self, id: Id) -> (b: bool)
        ensures
            b == has_person(self@.persons, id),
    {
        match self.find_person(id) {
            Some(i) => {
                proof {
                    assert(has_person(self@.persons, id));
                }
                true
            },
            None => false,
        }
    }

    /// Whether a pub carrying `id` is in the store.
    pub fn contains_pub(&self, id: Id) -> (b: bool)
        ensures
            b == has_pub(self@.pubs, id),
    {
        match self.find_pub(id) {
            Some(i) => {
                proof {
                    assert(has_pub(self@.pubs, id));
                }
                true
            },
            None => false,
        }
    }

    /// Whether a table carrying `id` is in the store.
    pub fn contains_table(&self, id: Id) -> (b: bool)
        ensures
            b == has_table(self@.tables, id),
    {
        match self.find_table(id) {
            Some(i) => {
                proof {
                    assert(has_table(self@.tables, id));
                }
                true
            },
            None => false,
        }
    }

    /// The parent pub of table `id`, if the table exists.
    pub fn parent_pub_of(&self, id: Id) -> (r: Option<Id>)
        requires
            self.wf(),
        ensures
            match r {
                Some(q) => has_table(self@.tables, id) && q == table_of(self@.tables, id).pub_id,
                None => !has_table(self@.tables, id),
            },
    {
        match self.find_table(id) {
            Some(i) => {
                proof {
                    lemma_table_of(self@.tables, id, i as int);
                }
                Some(self.tables[i].pub_id)
            },
            None => None,
        }
    }

    /// The current pub and table of person `id`, if the person exists.
    pub fn membership_of(&self, id: Id) -> (r: Option<(Option<Id>, Option<Id>)>)
        requires
            self.wf(),
        ensures
            match r {
                Some(m) => has_person(self@.persons, id) && m.0 == person_of(
                    self@.persons,
                    id,
                ).pub_id && m.1 == person_of(self@.persons, id).table_id,
                None => !has_person(self@.persons, id),
            },
    {
        match self.find_person(id) {
            Some(i) => {
                proof {
                    lemma_person_of(self@.persons, id, i as int);
                }
                Some((self.persons[i].pub_id, self.persons[i].table_id))
            },
            None => None,
        }
    }
}

/// The ids of the persons currently in pub `pub_id`, in store order.
fn collect_pub_members(persons: &Vec<Person>, pub_id: Id) -> (r: Vec<Id>)
    ensures
        r@ == pub_member_ids(persons_view(persons@), pub_id),
{
    let mut r: Vec<Id> = Vec::new();
    let n = persons.len();
    let mut i: usize = 0;
    proof {
        assert(persons_view(persons@.subrange(0, 0)) =~= Seq::<PersonV>::empty());
    }
    while i < n
        invariant
            n == persons@.len(),
            i <= n,
            r@ == pub_member_ids(persons_view(persons@.subrange(0, i as int)), pub_id),
        decreases n - i,
    {
        let ghost pre = persons_view(persons@.subrange(0, i as int));
        let p = &persons[i];
        match p.pub_id {
            Some(q) => if q == pub_id {
                r.push(p.id);
            },
            None => {},
        }
        proof {
            let x = persons@[i as int]@;
            assert(persons_view(persons@.subrange(0, i as int + 1)) =~= pre.push(x));
            lemma_pub_member_ids_push(pre, x, pub_id);
        }
        i += 1;
    }
    proof {
        assert(persons@.subrange(0, n as int) =~= persons@);
    }
    r
}

/// The ids of the persons currently at table `table_id`, in store order.
fn collect_table_members(persons: &Vec<Person>, table_id: Id) -> (r: Vec<Id>)
    ensures
        r@ == table_member_ids(persons_view(persons@), table_id),
{
    let mut r: Vec<Id> = Vec::new();
    let n = persons.len();
    let mut i: usize = 0;
    proof {
        assert(persons_view(persons@.subrange(0, 0)) =~= Seq::<PersonV>::empty());
    }
    while i < n
        invariant
            n == persons@.len(),
            i <= n,
            r@ == table_member_ids(persons_view(persons@.subrange(0, i as int)), table_id),
        decreases n - i,
    {
        let ghost pre = persons_view(persons@.subrange(0, i as int));
        let p = &persons[i];
        match p.table_id {
            Some(t) => if t == table_id {
                r.push(p.id);
            },
            None => {},
        }
        proof {
            let x = persons@[i as int]@;
            assert(persons_view(persons@.subrange(0, i as int + 1)) =~= pre.push(x));
            lemma_table_member_ids_push(pre, x, table_id);
        }
        i += 1;
    }
    proof {
        assert(persons@.subrange(0, n as int) =~= persons@);
    }
    r
}

impl Person {
    /// Insert a blank record for `person_id` unless one exists; a person
    /// reconnecting keeps the durable record.
    pub fn add_person(store: &mut Store, person_id: Id, now: u64)
        requires
            old(store).wf(),
        ensures
            final(store).wf(),
            final(store)@.pubs == old(store)@.pubs,
            final(store)@.tables == old(store)@.tables,
            final(store)@.persons == upsert_person(old(store)@.persons, person_id, now),
    {
        match store.find_person(person_id) {
            Some(_) => {
                proof {
                    assert(has_person(store@.persons, person_id));
                }
            },
            None => {
                store.persons.push(
                    Person {
                        id: person_id,
                        name: None,
                        pub_id: None,
                        table_id: None,
                        last_updated: now,
                    },
                );
                proof {
                    let ov = persons_view(old(store).persons@);
                    let nv = persons_view(store.persons@);
                    assert(nv =~= ov.push(blank_person(person_id, now)));
                    let sv2 = store@;
                    assert forall|j: int| 0 <= j < sv2.persons.len() implies person_links_ok(
                        #[trigger] sv2.persons[j],
                        sv2,
                    ) by {
                        if j < ov.len() {
                            assert(person_links_ok(ov[j], old(store)@));
                        }
                    }
                    assert(store.wf());
                }
            },
        }
    }

    /// The record of `person_id`, as an equal copy.
    pub fn load_from_db(store: &Store, person_id: Id) -> (r: Result<Person, MyError>)
        requires
            store.wf(),
        ensures
            match r {
                Ok(p) => has_person(store@.persons, person_id) && p@ == person_of(
                    store@.persons,
                    person_id,
                ),
                Err(e) => e == MyError::NotFound && !has_person(store@.persons, person_id),
            },
    {
        match store.find_person(person_id) {
            Some(i) => {
                proof {
                    lemma_person_of(store@.persons, person_id, i as int);
                }
                Ok(store.persons[i].snapshot())
            },
            None => Err(MyError::NotFound),
        }
    }

    /// Set the display name of `person_id` and refresh last-activity;
    /// without such a record nothing changes.
    pub fn set_name(store: &mut Store, person_id: Id, name: String, now: u64)
        requires
            old(store).wf(),
        ensures
            final(store).wf(),
            final(store)@.pubs == old(store)@.pubs,
            final(store)@.tables == old(store)@.tables,
            final(store)@.persons == set_name_map(old(store)@.persons, person_id, name@, now),
    {
        let ghost namev = name@;
        let ghost ov = persons_view(old(store).persons@);
        match store.find_person(person_id) {
            Some(i) => {
                let p = &mut store.persons[i];
                p.name = Some(name);
                p.last_updated = now;
                proof {
                    let nv = persons_view(store.persons@);
                    let tgt = set_name_map(ov, person_id, namev, now);
                    assert forall|j: int| 0 <= j < ov.len() implies nv[j] == tgt[j] by {
                        if j != i as int {
                            assert(ov[j].id != person_id);
                        }
                    }
                    assert(nv =~= tgt);
                    lemma_persons_replaced_wf(old(store)@, nv);
                }
            },
            None => {
                proof {
                    let tgt = set_name_map(ov, person_id, namev, now);
                    assert forall|j: int| 0 <= j < ov.len() implies ov[j] == tgt[j] by {
                        if ov[j].id == person_id {
                            assert(has_person(ov, person_id));
                        }
                    }
                    assert(ov =~= tgt);
                }
            },
        }
    }

    /// Put `person_id` in pub `pub_id` and refresh last-activity. The
    /// person must not be holding a table (the processor clears it
    /// first); the pub must exist, else `NotFound` and nothing changes.
    pub fn set_pub(store: &mut Store, person_id: Id, pub_id: Id, now: u64) -> (r: Result<
        (),
        MyError,
    >)
        requires
            old(store).wf(),
            has_person(old(store)@.persons, person_id) ==> person_of(
                old(store)@.persons,
                person_id,
            ).table_id is None,
        ensures
            final(store).wf(),
            final(store)@.pubs == old(store)@.pubs,
            final(store)@.tables == old(store)@.tables,
            match r {
                Ok(u) => has_pub(old(store)@.pubs, pub_id) && final(store)@.persons == set_pub_map(
                    old(store)@.persons,
                    person_id,
                    Some(pub_id),
                    now,
                ),
                Err(e) => e == MyError::NotFound && !has_pub(old(store)@.pubs, pub_id)
                    && final(store)@ == old(store)@,
            },
    {
        let ghost ov = persons_view(old(store).persons@);
        if !store.contains_pub(pub_id) {
            return Err(MyError::NotFound);
        }
        match store.find_person(person_id) {
            Some(i) => {
                proof {
                    lemma_person_of(ov, person_id, i as int);
                }
                let p = &mut store.persons[i];
                p.pub_id = Some(pub_id);
                p.last_updated = now;
                proof {
                    let nv = persons_view(store.persons@);
                    let tgt = set_pub_map(ov, person_id, Some(pub_id), now);
                    assert forall|j: int| 0 <= j < ov.len() implies nv[j] == tgt[j] by {
                        if j != i as int {
                            assert(ov[j].id != person_id);
                        }
                    }
                    assert(nv =~= tgt);
                    lemma_persons_replaced_wf(old(store)@, nv);
                }
            },
            None => {
                proof {
                    let tgt = set_pub_map(ov, person_id, Some(pub_id), now);
                    assert forall|j: int| 0 <= j < ov.len() implies ov[j] == tgt[j] by {
                        if ov[j].id == person_id {
                            assert(has_person(ov, person_id));
                        }
                    }
                    assert(ov =~= tgt);
                }
            },
        }
        Ok(())
    }

    /// Clear the current pub of `person_id` and refresh last-activity.
    /// The person must not be holding a table (the processor clears it
    /// first).
    pub fn leave_pub(store: &mut Store, person_id: Id, now: u64)
        requires
            old(store).wf(),
            has_person(old(store)@.persons, person_id) ==> person_of(
                old(store)@.persons,
                person_id,
            ).table_id is None,
        ensures
            final(store).wf(),
            final(store)@.pubs == old(store)@.pubs,
            final(store)@.tables == old(store)@.tables,
            final(store)@.persons == set_pub_map(old(store)@.persons, person_id, None, now),
    {
        let ghost ov = persons_view(old(store).persons@);
        match store.find_person(person_id) {
            Some(i) => {
                proof {
                    lemma_person_of(ov, person_id, i as int);
                }
                let p = &mut store.persons[i];
                p.pub_id = None;
                p.last_updated = now;
                proof {
                    let nv = persons_view(store.persons@);
                    let tgt = set_pub_map(ov, person_id, None, now);
                    assert forall|j: int| 0 <= j < ov.len() implies nv[j] == tgt[j] by {
                        if j != i as int {
                            assert(ov[j].id != person_id);
                        }
                    }
                    assert(nv =~= tgt);
                    lemma_persons_replaced_wf(old(store)@, nv);
                }
            },
            None => {
                proof {
                    let tgt = set_pub_map(ov, person_id, None, now);
                    assert forall|j: int| 0 <= j < ov.len() implies ov[j] == tgt[j] by {
                        if ov[j].id == person_id {
                            assert(has_person(ov, person_id));
                        }
                    }
                    assert(ov =~= tgt);
                }
            },
        }
    }

    /// Seat `person_id` at table `table_id` and refresh last-activity.
    /// The person's current pub must be the table's parent; the table
    /// must exist, else `NotFound` and nothing changes.
    pub fn set_table(store: &mut Store, person_id: Id, table_id: Id, now: u64) -> (r: Result<
        (),
        MyError,
    >)
        requires
            old(store).wf(),
            has_table(old(store)@.tables, table_id) && has_person(old(store)@.persons, person_id)
                ==> person_of(old(store)@.persons, person_id).pub_id == Some(
                table_of(old(store)@.tables, table_id).pub_id,
            ),
        ensures
            final(store).wf(),
            final(store)@.pubs == old(store)@.pubs,
            final(store)@.tables == old(store)@.tables,
            match r {
                Ok(u) => has_table(old(store)@.tables, table_id) && final(store)@.persons
                    == set_table_map(old(store)@.persons, person_id, Some(table_id), now),
                Err(e) => e == MyError::NotFound && !has_table(old(store)@.tables, table_id)
                    && final(store)@ == old(store)@,
            },
    {
        let ghost ov = persons_view(old(store).persons@);
        if !store.contains_table(table_id) {
            return Err(MyError::NotFound);
        }
        match store.find_person(person_id) {
            Some(i) => {
                proof {
                    lemma_person_of(ov, person_id, i as int);
                }
                let p = &mut store.persons[i];
                p.table_id = Some(table_id);
                p.last_updated = now;
                proof {
                    let nv = persons_view(store.persons@);
                    let tgt = set_table_map(ov, person_id, Some(table_id), now);
                    assert forall|j: int| 0 <= j < ov.len() implies nv[j] == tgt[j] by {
                        if j != i as int {
                            assert(ov[j].id != person_id);
                        }
                    }
                    assert(nv =~= tgt);
                    lemma_persons_replaced_wf(old(store)@, nv);
                }
            },
            None => {
                proof {
                    let tgt = set_table_map(ov, person_id, Some(table_id), now);
                    assert forall|j: int| 0 <= j < ov.len() implies ov[j] == tgt[j] by {
                        if ov[j].id == person_id {
                            assert(has_person(ov, person_id));
                        }
                    }
                    assert(ov =~= tgt);
                }
            },
        }
        Ok(())
    }

    /// Clear the current table of `person_id` and refresh last-activity.
    pub fn leave_table(store: &mut Store, person_id: Id, now: u64)
        requires
            old(store).wf(),
        ensures
            final(store).wf(),
            final(store)@.pubs == old(store)@.pubs,
            final(store)@.tables == old(store)@.tables,
            final(store)@.persons == set_table_map(old(store)@.persons, person_id, None, now),
    {
        let ghost ov = persons_view(old(store).persons@);
        match store.find_person(person_id) {
            Some(i) => {
                let p = &mut store.persons[i];
                p.table_id = None;
                p.last_updated = now;
                proof {
                    let nv = persons_view(store.persons@);
                    let tgt = set_table_map(ov, person_id, None, now);
                    assert forall|j: int| 0 <= j < ov.len() implies nv[j] == tgt[j] by {
                        if j != i as int {
                            assert(ov[j].id != person_id);
                        }
                    }
                    assert(nv =~= tgt);
                    lemma_persons_replaced_wf(old(store)@, nv);
                }
            },
            None => {
                proof {
                    let tgt = set_table_map(ov, person_id, None, now);
                    assert forall|j: int| 0 <= j < ov.len() implies ov[j] == tgt[j] by {
                        if ov[j].id == person_id {
                            assert(has_person(ov, person_id));
                        }
                    }
                    assert(ov =~= tgt);
                }
            },
        }
    }

    /// Refresh last-activity of `person_id` alone; membership and name
    /// are untouched.
    pub fn update_last(store: &mut Store, person_id: Id, now: u64)
        requires
            old(store).wf(),
        ensures
            final(store).wf(),
            final(store)@.pubs == old(store)@.pubs,
            final(store)@.tables == old(store)@.tables,
            final(store)@.persons == touch_map(old(store)@.persons, person_id, now),
    {
        let ghost ov = persons_view(old(store).persons@);
        match store.find_person(person_id) {
            Some(i) => {
                let p = &mut store.persons[i];
                p.last_updated = now;
                proof {
                    let nv = persons_view(store.persons@);
                    let tgt = touch_map(ov, person_id, now);
                    assert forall|j: int| 0 <= j < ov.len() implies nv[j] == tgt[j] by {
                        if j != i as int {
                            assert(ov[j].id != person_id);
                        }
                    }
                    assert(nv =~= tgt);
                    lemma_persons_replaced_wf(old(store)@, nv);
                }
            },
            None => {
                proof {
                    let tgt = touch_map(ov, person_id, now);
                    assert forall|j: int| 0 <= j < ov.len() implies ov[j] == tgt[j] by {
                        if ov[j].id == person_id {
                            assert(has_person(ov, person_id));
                        }
                    }
                    assert(ov =~= tgt);
                }
            },
        }
    }
}

impl Person {
    /// One reaper pass: remove every record whose last-activity is more
    /// than [`STALE_SECONDS`] before `now`; fresh records survive in
    /// their original order.
    pub fn cleanup_outdated(store: &mut Store, now: u64)
        requires
            old(store).wf(),
        ensures
            final(store).wf(),
            final(store)@.pubs == old(store)@.pubs,
            final(store)@.tables == old(store)@.tables,
            final(store)@.persons == cleanup_map(old(store)@.persons, now),
    {
        let n = store.persons.len();
        let mut kept: Vec<Person> = Vec::new();
        let mut i: usize = 0;
        proof {
            assert(persons_view(store.persons@.subrange(0, 0)) =~= Seq::<PersonV>::empty());
        }
        while i < n
            invariant
                n == store.persons@.len(),
                store.persons@ == old(store).persons@,
                store.pubs@ == old(store).pubs@,
                store.tables@ == old(store).tables@,
                i <= n,
                persons_view(kept@) == cleanup_map(
                    persons_view(store.persons@.subrange(0, i as int)),
                    now,
                ),
            decreases n - i,
        {
            let ghost pre = persons_view(store.persons@.subrange(0, i as int));
            let p = &store.persons[i];
            let stale = now > STALE_SECONDS && p.last_updated < now - STALE_SECONDS;
            proof {
                assert(stale == is_stale(p@.last_updated, now));
            }
            if !stale {
                let copy = store.persons[i].snapshot();
                kept.push(copy);
            }
            proof {
                let x = store.persons@[i as int]@;
                assert(persons_view(store.persons@.subrange(0, i as int + 1)) =~= pre.push(x));
                lemma_cleanup_push(pre, x, now);
                if !stale {
                    assert(persons_view(kept@) =~= cleanup_map(pre, now).push(x));
                }
            }
            i += 1;
        }
        proof {
            assert(store.persons@.subrange(0, n as int) =~= store.persons@);
        }
        store.persons = kept;
        proof {
            let ov = persons_view(old(store).persons@);
            let nv = persons_view(store.persons@);
            assert(nv == cleanup_map(ov, now));
            lemma_cleanup_props(ov, now);
            let sv2 = store@;
            assert forall|k: int| 0 <= k < sv2.persons.len() implies person_links_ok(
                #[trigger] sv2.persons[k],
                sv2,
            ) by {
                assert(ov.contains(nv[k]));
                let j = choose|j: int| 0 <= j < ov.len() && ov[j] == nv[k];
                assert(person_links_ok(ov[j], old(store)@));
            }
            assert(store.wf());
        }
    }
}

impl Pub {
    /// Every pub with its derived member list, in store order.
    pub fn get_pubs(store: &Store) -> (r: Vec<PubWithPeople>)
        ensures
            pubs_people_view(r@) == pub_listing(store@),
    {
        let mut r: Vec<PubWithPeople> = Vec::new();
        let n = store.pubs.len();
        let mut i: usize = 0;
        while i < n
            invariant
                n == store.pubs@.len(),
                i <= n,
                r@.len() == i,
                forall|k: int| 0 <= k < i ==> (#[trigger] r@[k])@ == pub_listing(store@)[k],
            decreases n - i,
        {
            let pb = &store.pubs[i];
            let members = collect_pub_members(&store.persons, pb.id);
            r.push(PubWithPeople { id: pb.id, name: pb.name.clone(), persons: members });
            proof {
                assert(r@[i as int]@ =~= pub_listing(store@)[i as int]);
            }
            i += 1;
        }
        proof {
            assert(pubs_people_view(r@) =~= pub_listing(store@));
        }
        r
    }

    /// Insert this pub; `Duplicate` (and no change) if the id is taken.
    pub fn add_pub(&self, store: &mut Store) -> (r: Result<(), MyError>)
        requires
            old(store).wf(),
        ensures
            final(store).wf(),
            final(store)@.persons == old(store)@.persons,
            final(store)@.tables == old(store)@.tables,
            match r {
                Ok(u) => !has_pub(old(store)@.pubs, self.id)
                    && final(store)@.pubs == old(store)@.pubs.push(self@),
                Err(e) => e == MyError::Duplicate && has_pub(old(store)@.pubs, self.id)
                    && final(store)@ == old(store)@,
            },
    {
        if store.contains_pub(self.id) {
            return Err(MyError::Duplicate);
        }
        let row = self.snapshot();
        store.pubs.push(row);
        proof {
            let opv = pubs_view(old(store).pubs@);
            let npv = pubs_view(store.pubs@);
            assert(npv =~= opv.push(self@));
            assert forall|a: int, b: int|
                0 <= a < npv.len() && 0 <= b < npv.len() && a != b implies npv[a].id
                != npv[b].id by {
                if a == opv.len() {
                    if opv[b].id == self.id {
                        assert(has_pub(opv, self.id));
                    }
                } else if b == opv.len() {
                    if opv[a].id == self.id {
                        assert(has_pub(opv, self.id));
                    }
                }
            }
            let sv2 = store@;
            assert forall|k: int| 0 <= k < sv2.tables.len() implies has_pub(
                sv2.pubs,
                (#[trigger] sv2.tables[k]).pub_id,
            ) by {
                assert(has_pub(opv, sv2.tables[k].pub_id));
                let w = choose|w: int| 0 <= w < opv.len() && opv[w].id == sv2.tables[k].pub_id;
                assert(npv[w].id == sv2.tables[k].pub_id);
            }
            assert forall|k: int| 0 <= k < sv2.persons.len() implies person_links_ok(
                #[trigger] sv2.persons[k],
                sv2,
            ) by {
                assert(person_links_ok(old(store)@.persons[k], old(store)@));
                match sv2.persons[k].pub_id {
                    Some(q) => {
                        let w = choose|w: int| 0 <= w < opv.len() && opv[w].id == q;
                        assert(npv[w].id == q);
                    },
                    None => {},
                }
            }
            assert(store.wf());
        }
        Ok(())
    }

    /// Delete the pub `pub_id` if its derived member set is empty; with
    /// members present nothing changes. An empty pub's (necessarily
    /// empty) tables go with it.
    pub fn delete_pub(store: &mut Store, pub_id: Id)
        requires
            old(store).wf(),
        ensures
            final(store).wf(),
            final(store)@.persons == old(store)@.persons,
            pub_member_ids(old(store)@.persons, pub_id).len() > 0
                ==> final(store)@ == old(store)@,
            pub_member_ids(old(store)@.persons, pub_id).len() == 0 ==> final(store)@.pubs
                == remove_pub(old(store)@.pubs, pub_id) && final(store)@.tables == remove_tables_of(
                old(store)@.tables,
                pub_id,
            ),
    {
        let members = collect_pub_members(&store.persons, pub_id);
        if members.len() > 0 {
            return ;
        }
        // Nobody is in the pub, so (by the invariant) nobody is at any of
        // its tables either: the pub and its tables can go.
        let n = store.pubs.len();
        let mut kept: Vec<Pub> = Vec::new();
        let mut i: usize = 0;
        proof {
            assert(pubs_view(store.pubs@.subrange(0, 0)) =~= Seq::<PubV>::empty());
        }
        while i < n
            invariant
                n == store.pubs@.len(),
                store.persons@ == old(store).persons@,
                store.pubs@ == old(store).pubs@,
                store.tables@ == old(store).tables@,
                i <= n,
                pubs_view(kept@) == remove_pub(pubs_view(store.pubs@.subrange(0, i as int)), pub_id),
            decreases n - i,
        {
            let ghost pre = pubs_view(store.pubs@.subrange(0, i as int));
            let keep_it = store.pubs[i].id != pub_id;
            if keep_it {
                let copy = store.pubs[i].snapshot();
                kept.push(copy);
            }
            proof {
                let x = store.pubs@[i as int]@;
                assert(pubs_view(store.pubs@.subrange(0, i as int + 1)) =~= pre.push(x));
                lemma_remove_pub_push(pre, x, pub_id);
                if keep_it {
                    assert(pubs_view(kept@) =~= remove_pub(pre, pub_id).push(x));
                }
            }
            i += 1;
        }
        proof {
            assert(store.pubs@.subrange(0, n as int) =~= store.pubs@);
        }
        store.pubs = kept;

        let m = store.tables.len();
        let mut kept_tables: Vec<PubTable> = Vec::new();
        let mut k: usize = 0;
        proof {
            assert(tables_view(store.tables@.subrange(0, 0)) =~= Seq::<TableV>::empty());
        }
        while k < m
            invariant
                m == store.tables@.len(),
                store.persons@ == old(store).persons@,
                store.tables@ == old(store).tables@,
                k <= m,
                tables_view(kept_tables@) == remove_tables_of(
                    tables_view(store.tables@.subrange(0, k as int)),
                    pub_id,
                ),
            decreases m - k,
        {
            let ghost pre = tables_view(store.tables@.subrange(0, k as int));
            let keep_it = store.tables[k].pub_id != pub_id;
            if keep_it {
                let copy = store.tables[k].snapshot();
                kept_tables.push(copy);
            }
            proof {
                let x = store.tables@[k as int]@;
                assert(tables_view(store.tables@.subrange(0, k as int + 1)) =~= pre.push(x));
                lemma_remove_tables_of_push(pre, x, pub_id);
                if keep_it {
                    assert(tables_view(kept_tables@) =~= remove_tables_of(pre, pub_id).push(x));
                }
            }
            k += 1;
        }
        proof {
            assert(store.tables@.subrange(0, m as int) =~= store.tables@);
        }
        store.tables = kept_tables;

        proof {
            let ov = old(store)@;
            let np = remove_pub(ov.pubs, pub_id);
            let nt = remove_tables_of(ov.tables, pub_id);
            assert(store@.pubs == np);
            assert(store@.tables == nt);
            lemma_remove_pub_props(ov.pubs, pub_id);
            lemma_remove_tables_of_props(ov.tables, pub_id);
            lemma_pub_member_ids_empty(ov.persons, pub_id);
            // surviving tables still point at surviving pubs
            assert forall|a: int| 0 <= a < nt.len() implies has_pub(
                np,
                (#[trigger] nt[a]).pub_id,
            ) by {
                assert(ov.tables.contains(nt[a]));
                let j = choose|j: int| 0 <= j < ov.tables.len() && ov.tables[j] == nt[a];
                assert(has_pub(ov.pubs, ov.tables[j].pub_id));
                let w = choose|w: int| 0 <= w < ov.pubs.len() && ov.pubs[w].id == ov.tables[j].pub_id;
                assert(ov.pubs[w].id != pub_id);
                assert(np.contains(ov.pubs[w]));
                let v = choose|v: int| 0 <= v < np.len() && np[v] == ov.pubs[w];
            }
            // persons never pointed at the pub, so their links survive
            let sv2 = store@;
            assert forall|a: int| 0 <= a < sv2.persons.len() implies person_links_ok(
                #[trigger] sv2.persons[a],
                sv2,
            ) by {
                let p = ov.persons[a];
                assert(person_links_ok(p, ov));
                assert(p.pub_id != Some(pub_id));
                match p.pub_id {
                    Some(q) => {
                        let w = choose|w: int| 0 <= w < ov.pubs.len() && ov.pubs[w].id == q;
                        assert(ov.pubs[w].id != pub_id);
                        assert(np.contains(ov.pubs[w]));
                        let v = choose|v: int| 0 <= v < np.len() && np[v] == ov.pubs[w];
                        assert(has_pub(np, q));
                    },
                    None => {},
                }
                match p.table_id {
                    Some(t) => {
                        let j = table_idx(ov.tables, t);
                        assert(0 <= j < ov.tables.len() && ov.tables[j].id == t);
                        lemma_table_of(ov.tables, t, j);
                        assert(p.pub_id == Some(ov.tables[j].pub_id));
                        assert(ov.tables[j].pub_id != pub_id);
                        assert(nt.contains(ov.tables[j]));
                        let v = choose|v: int| 0 <= v < nt.len() && nt[v] == ov.tables[j];
                        lemma_table_of(nt, t, v);
                    },
                    None => {},
                }
            }
            assert(store.wf());
        }
    }
}

impl PubTable {
    /// The tables of pub `pub_id` with their derived member lists, in
    /// store order. A pub id the store does not know yields the empty
    /// list.
    pub fn get_tables(store: &Store, pub_id: Id) -> (r: Vec<TableWithPeople>)
        ensures
            tables_people_view(r@) == table_listing(store@, pub_id),
    {
        let mut r: Vec<TableWithPeople> = Vec::new();
        let n = store.tables.len();
        let mut i: usize = 0;
        proof {
            assert(tables_view(store.tables@.subrange(0, 0)) =~= Seq::<TableV>::empty());
            assert(tables_people_view(r@) =~= table_listing_of(
                tables_view(store.tables@.subrange(0, 0)),
                store@.persons,
                pub_id,
            ));
        }
        while i < n
            invariant
                n == store.tables@.len(),
                i <= n,
                tables_people_view(r@) == table_listing_of(
                    tables_view(store.tables@.subrange(0, i as int)),
                    store@.persons,
                    pub_id,
                ),
            decreases n - i,
        {
            let ghost pre = tables_view(store.tables@.subrange(0, i as int));
            let ghost r0 = r@;
            let t = &store.tables[i];
            let hit = t.pub_id == pub_id;
            if hit {
                let members = collect_table_members(&store.persons, t.id);
                r.push(
                    TableWithPeople {
                        id: t.id,
                        name: t.name.clone(),
                        pub_id: t.pub_id,
                        persons: members,
                    },
                );
            }
            proof {
                let x = store.tables@[i as int]@;
                assert(tables_view(store.tables@.subrange(0, i as int + 1)) =~= pre.push(x));
                lemma_tables_of_pub_push(pre, x, pub_id);
                let lhs = tables_people_view(r@);
                let rhs = table_listing_of(pre.push(x), store@.persons, pub_id);
                if hit {
                    assert(r@ == r0.push(r@[r0.len() as int]));
                    assert(tables_of_pub(pre.push(x), pub_id) == tables_of_pub(pre, pub_id).push(
                        x,
                    ));
                    assert(tables_people_view(r0).len() == r0.len());
                    assert(table_listing_of(pre, store@.persons, pub_id).len() == tables_of_pub(
                        pre,
                        pub_id,
                    ).len());
                    assert(r0.len() == tables_of_pub(pre, pub_id).len());
                    assert forall|k: int| 0 <= k < lhs.len() implies lhs[k] == rhs[k] by {
                        if k < r0.len() {
                            assert(r@[k] == r0[k]);
                            assert(lhs[k] == tables_people_view(r0)[k]);
                            assert(tables_of_pub(pre.push(x), pub_id)[k] == tables_of_pub(
                                pre,
                                pub_id,
                            )[k]);
                            assert(rhs[k] == table_listing_of(pre, store@.persons, pub_id)[k]);
                        } else {
                            assert(k == r0.len());
                            assert(tables_of_pub(pre.push(x), pub_id)[k] == x);
                            assert(lhs[k] == r@[k]@);
                            assert(lhs[k] =~= rhs[k]);
                        }
                    }
                    assert(lhs =~= rhs);
                } else {
                    assert forall|k: int| 0 <= k < lhs.len() implies lhs[k] == rhs[k] by {
                        assert(rhs[k] == table_listing_of(pre, store@.persons, pub_id)[k]);
                    }
                    assert(lhs =~= rhs);
                }
            }
            i += 1;
        }
        proof {
            assert(store.tables@.subrange(0, n as int) =~= store.tables@);
        }
        r
    }

    /// Insert this table; `Duplicate` if the id is taken, `NotFound` if
    /// the parent pub is missing — in either case nothing changes.
    pub fn add_table(&self, store: &mut Store) -> (r: Result<(), MyError>)
        requires
            old(store).wf(),
        ensures
            final(store).wf(),
            final(store)@.persons == old(store)@.persons,
            final(store)@.pubs == old(store)@.pubs,
            match r {
                Ok(u) => !has_table(old(store)@.tables, self.id) && has_pub(
                    old(store)@.pubs,
                    self.pub_id,
                ) && final(store)@.tables == old(store)@.tables.push(self@),
                Err(e) => final(store)@ == old(store)@ && if has_table(
                    old(store)@.tables,
                    self.id,
                ) {
                    e == MyError::Duplicate
                } else {
                    e == MyError::NotFound && !has_pub(old(store)@.pubs, self.pub_id)
                },
            },
    {
        if store.contains_table(self.id) {
            return Err(MyError::Duplicate);
        }
        if !store.contains_pub(self.pub_id) {
            return Err(MyError::NotFound);
        }
        let row = self.snapshot();
        store.tables.push(row);
        proof {
            let otv = tables_view(old(store).tables@);
            let ntv = tables_view(store.tables@);
            assert(ntv =~= otv.push(self@));
            assert forall|a: int, b: int|
                0 <= a < ntv.len() && 0 <= b < ntv.len() && a != b implies ntv[a].id
                != ntv[b].id by {
                if a == otv.len() {
                    if otv[b].id == self.id {
                        assert(has_table(otv, self.id));
                    }
                } else if b == otv.len() {
                    if otv[a].id == self.id {
                        assert(has_table(otv, self.id));
                    }
                }
            }
            let sv2 = store@;
            let ov = old(store)@;
            assert forall|k: int| 0 <= k < sv2.tables.len() implies has_pub(
                sv2.pubs,
                (#[trigger] sv2.tables[k]).pub_id,
            ) by {
                if k < otv.len() {
                    assert(has_pub(ov.pubs, ov.tables[k].pub_id));
                }
            }
            assert forall|k: int| 0 <= k < sv2.persons.len() implies person_links_ok(
                #[trigger] sv2.persons[k],
                sv2,
            ) by {
                let p = ov.persons[k];
                assert(person_links_ok(p, ov));
                match p.table_id {
                    Some(t) => {
                        let j = table_idx(ov.tables, t);
                        assert(0 <= j < ov.tables.len() && ov.tables[j].id == t);
                        lemma_table_of(ov.tables, t, j);
                        assert(ntv[j].id == t);
                        lemma_table_of(ntv, t, j);
                    },
                    None => {},
                }
            }
            assert(store.wf());
        }
        Ok(())
    }

    /// Delete table `table_id` if its derived member set is empty and
    /// report its parent pub; with members present the table stays. A
    /// table id the store does not know yields `NotFound`.
    pub fn delete_table(store: &mut Store, table_id: Id) -> (r: Result<Id, MyError>)
        requires
            old(store).wf(),
        ensures
            final(store).wf(),
            final(store)@.persons == old(store)@.persons,
            final(store)@.pubs == old(store)@.pubs,
            match r {
                Ok(parent) => has_table(old(store)@.tables, table_id) && parent == table_of(
                    old(store)@.tables,
                    table_id,
                ).pub_id && (table_member_ids(old(store)@.persons, table_id).len() > 0
                    ==> final(store)@ == old(store)@) && (table_member_ids(
                    old(store)@.persons,
                    table_id,
                ).len() == 0 ==> final(store)@.tables == remove_table(
                    old(store)@.tables,
                    table_id,
                )),
                Err(e) => e == MyError::NotFound && !has_table(old(store)@.tables, table_id)
                    && final(store)@ == old(store)@,
            },
    {
        let parent = match store.parent_pub_of(table_id) {
            Some(q) => q,
            None => {
                return Err(MyError::NotFound);
            },
        };
        let members = collect_table_members(&store.persons, table_id);
        if members.len() > 0 {
            return Ok(parent);
        }
        let n = store.tables.len();
        let mut kept: Vec<PubTable> = Vec::new();
        let mut i: usize = 0;
        proof {
            assert(tables_view(store.tables@.subrange(0, 0)) =~= Seq::<TableV>::empty());
        }
        while i < n
            invariant
                n == store.tables@.len(),
                store.persons@ == old(store).persons@,
                store.pubs@ == old(store).pubs@,
                store.tables@ == old(store).tables@,
                i <= n,
                tables_view(kept@) == remove_table(
                    tables_view(store.tables@.subrange(0, i as int)),
                    table_id,
                ),
            decreases n - i,
        {
            let ghost pre = tables_view(store.tables@.subrange(0, i as int));
            let keep_it = store.tables[i].id != table_id;
            if keep_it {
                let copy = store.tables[i].snapshot();
                kept.push(copy);
            }
            proof {
                let x = store.tables@[i as int]@;
                assert(tables_view(store.tables@.subrange(0, i as int + 1)) =~= pre.push(x));
                lemma_remove_table_push(pre, x, table_id);
                if keep_it {
                    assert(tables_view(kept@) =~= remove_table(pre, table_id).push(x));
                }
            }
            i += 1;
        }
        proof {
            assert(store.tables@.subrange(0, n as int) =~= store.tables@);
        }
        store.tables = kept;
        proof {
            let ov = old(store)@;
            let nt = remove_table(ov.tables, table_id);
            assert(store@.tables == nt);
            lemma_remove_table_props(ov.tables, table_id);
            lemma_table_member_ids_empty(ov.persons, table_id);
            assert forall|a: int| 0 <= a < nt.len() implies has_pub(
                store@.pubs,
                (#[trigger] nt[a]).pub_id,
            ) by {
                assert(ov.tables.contains(nt[a]));
                let j = choose|j: int| 0 <= j < ov.tables.len() && ov.tables[j] == nt[a];
                assert(has_pub(ov.pubs, ov.tables[j].pub_id));
            }
            let sv2 = store@;
            assert forall|a: int| 0 <= a < sv2.persons.len() implies person_links_ok(
                #[trigger] sv2.persons[a],
                sv2,
            ) by {
                let p = ov.persons[a];
                assert(person_links_ok(p, ov));
                assert(p.table_id != Some(table_id));
                match p.table_id {
                    Some(t) => {
                        let j = table_idx(ov.tables, t);
                        assert(0 <= j < ov.tables.len() && ov.tables[j].id == t);
                        lemma_table_of(ov.tables, t, j);
                        assert(ov.tables[j].id != table_id);
                        assert(nt.contains(ov.tables[j]));
                        let v = choose|v: int| 0 <= v < nt.len() && nt[v] == ov.tables[j];
                        lemma_table_of(nt, t, v);
                    },
                    None => {},
                }
            }
            assert(store.wf());
        }
        Ok(parent)
    }
}

} // verus!
