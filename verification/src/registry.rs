//! The connection registry: who is reachable right now, with a cached
//! copy of each connected person's room membership. Fanout decisions are
//! made from this cache alone, without a round-trip to the store.

use vstd::prelude::*;
use crate::types::Id;

verus! {

/// One connected person: the id and the cached (pub, table) membership.
/// The delivery handle itself lives outside the library; the registry
/// decides *who* is reachable, the transport layer does the delivering.
#[derive(Clone, Copy, Debug, PartialEq, Eq, Structural)]
pub struct ClientInfo {
    pub id: Id,
    pub pub_id: Option<Id>,
    pub table_id: Option<Id>,
}

/// A freshly registered connection carries no cached membership.
pub open spec fn blank_client(id: Id) -> ClientInfo {
    ClientInfo { id, pub_id: None, table_id: None }
}

pub open spec fn has_client(cs: Seq<ClientInfo>, id: Id) -> bool {
    exists|i: int| 0 <= i < cs.len() && cs[i].id == id
}

pub open spec fn client_idx(cs: Seq<ClientInfo>, id: Id) -> int {
    choose|i: int| 0 <= i < cs.len() && cs[i].id == id
}

pub open spec fn client_of(cs: Seq<ClientInfo>, id: Id) -> ClientInfo {
    cs[client_idx(cs, id)]
}

pub open spec fn unique_client_ids(cs: Seq<ClientInfo>) -> bool {
    forall|i: int, j: int|
        0 <= i < cs.len() && 0 <= j < cs.len() && i != j ==> cs[i].id != cs[j].id
}

/// Registering: a reconnect resets the cached membership, a first
/// connection appends a blank entry.
pub open spec fn register_map(cs: Seq<ClientInfo>, id: Id) -> Seq<ClientInfo> {
    if has_client(cs, id) {
        cs.map_values(
            |c: ClientInfo|
                if c.id == id {
                    blank_client(id)
                } else {
                    c
                },
        )
    } else {
        cs.push(blank_client(id))
    }
}

/// Deregistering removes the entry; absent ids are a no-op.
pub open spec fn remove_client(cs: Seq<ClientInfo>, id: Id) -> Seq<ClientInfo>
    decreases cs.len(),
{
    if cs.len() == 0 {
        Seq::empty()
    } else {
        let rest = remove_client(cs.drop_last(), id);
        if cs.last().id == id {
            rest
        } else {
            rest.push(cs.last())
        }
    }
}

/// Rewriting one entry's cached membership; absent ids are a no-op.
pub open spec fn update_map(cs: Seq<ClientInfo>, id: Id, pub_id: Option<Id>, table_id: Option<
    Id,
>) -> Seq<ClientInfo> {
    cs.map_values(
        |c: ClientInfo|
            if c.id == id {
                ClientInfo { id, pub_id, table_id }
            } else {
                c
            },
    )
}

/// The connected persons whose cached pub is `pub_id`, in registry order.
pub open spec fn clients_in_pub(cs: Seq<ClientInfo>, pub_id: Id) -> Seq<Id>
    decreases cs.len(),
{
    if cs.len() == 0 {
        Seq::empty()
    } else {
        let rest = clients_in_pub(cs.drop_last(), pub_id);
        if cs.last().pub_id == Some(pub_id) {
            rest.push(cs.last().id)
        } else {
            rest
        }
    }
}

/// The connected persons whose cached table is `table_id`, in registry order.
pub open spec fn clients_in_table(cs: Seq<ClientInfo>, table_id: Id) -> Seq<Id>
    decreases cs.len(),
{
    if cs.len() == 0 {
        Seq::empty()
    } else {
        let rest = clients_in_table(cs.drop_last(), table_id);
        if cs.last().table_id == Some(table_id) {
            rest.push(cs.last().id)
        } else {
            rest
        }
    }
}

pub proof fn lemma_clients_in_pub_push(s: Seq<ClientInfo>, x: ClientInfo, pub_id: Id)
    ensures
        clients_in_pub(s.push(x), pub_id) == if x.pub_id == Some(pub_id) {
            clients_in_pub(s, pub_id).push(x.id)
        } else {
            clients_in_pub(s, pub_id)
        },
{
    assert(s.push(x).drop_last() =~= s);
    assert(s.push(x).last() == x);
}

pub proof fn lemma_clients_in_table_push(s: Seq<ClientInfo>, x: ClientInfo, table_id: Id)
    ensures
        clients_in_table(s.push(x), table_id) == if x.table_id == Some(table_id) {
            clients_in_table(s, table_id).push(x.id)
        } else {
            clients_in_table(s, table_id)
        },
{
    assert(s.push(x).drop_last() =~= s);
    assert(s.push(x).last() == x);
}

pub proof fn lemma_remove_client_push(s: Seq<ClientInfo>, x: ClientInfo, id: Id)
    ensures
        remove_client(s.push(x), id) == if x.id == id {
            remove_client(s, id)
        } else {
            remove_client(s, id).push(x)
        },
{
    assert(s.push(x).drop_last() =~= s);
    assert(s.push(x).last() == x);
}

pub proof fn lemma_remove_client_props(cs: Seq<ClientInfo>, id: Id)
    ensures
        forall|k: int|
            0 <= k < remove_client(cs, id).len() ==> (#[trigger] remove_client(cs, id)[k]).id
                != id,
        forall|k: int|
            0 <= k < remove_client(cs, id).len() ==> cs.contains(#[trigger] remove_client(cs, id)[k]),
        forall|j: int|
            0 <= j < cs.len() && (#[trigger] cs[j]).id != id ==> remove_client(cs, id).contains(
                cs[j],
            ),
        unique_client_ids(cs) ==> unique_client_ids(remove_client(cs, id)),
    decreases cs.len(),
{
    if cs.len() > 0 {
        let s = cs.drop_last();
        let x = cs.last();
        lemma_remove_client_props(s, id);
        let r0 = remove_client(s, id);
        let r = remove_client(cs, id);
        assert(forall|j: int| 0 <= j < s.len() ==> s[j] == cs[j]);
        assert forall|k: int| 0 <= k < r.len() implies cs.contains(#[trigger] r[k]) by {
            if k < r0.len() {
                assert(s.contains(r0[k]));
                let j = choose|j: int| 0 <= j < s.len() && s[j] == r0[k];
                assert(cs[j] == r[k]);
            } else {
                assert(r[k] == x);
                assert(cs[cs.len() - 1] == x);
            }
        }
        assert forall|j: int|
            0 <= j < cs.len() && (#[trigger] cs[j]).id != id implies r.contains(cs[j]) by {
            if j < cs.len() - 1 {
                assert(r0.contains(s[j]));
                let k = choose|k: int| 0 <= k < r0.len() && r0[k] == s[j];
                assert(r[k] == cs[j]);
            } else {
                assert(x.id != id);
                assert(r[r0.len() as int] == x);
            }
        }
        if unique_client_ids(cs) {
            assert forall|k: int, k2: int|
                0 <= k < r.len() && 0 <= k2 < r.len() && k != k2 implies r[k].id != r[k2].id by {
                if k < r0.len() && k2 < r0.len() {
                    assert(unique_client_ids(r0));
                } else if k < r0.len() && k2 == r0.len() {
                    let j = choose|j: int| 0 <= j < s.len() && s[j] == r0[k];
                    assert(cs[j].id != cs[cs.len() - 1].id);
                } else if k == r0.len() && k2 < r0.len() {
                    let j = choose|j: int| 0 <= j < s.len() && s[j] == r0[k2];
                    assert(cs[j].id != cs[cs.len() - 1].id);
                }
            }
        }
    }
}

pub proof fn lemma_clients_in_pub_iff(cs: Seq<ClientInfo>, pub_id: Id, id: Id)
    ensures
        clients_in_pub(cs, pub_id).contains(id) <==> exists|i: int|
            0 <= i < cs.len() && cs[i].id == id && (#[trigger] cs[i]).pub_id == Some(pub_id),
    decreases cs.len(),
{
    if cs.len() > 0 {
        let s = cs.drop_last();
        let x = cs.last();
        lemma_clients_in_pub_iff(s, pub_id, id);
        assert(forall|j: int| 0 <= j < s.len() ==> s[j] == cs[j]);
        let r0 = clients_in_pub(s, pub_id);
        let r = clients_in_pub(cs, pub_id);
        if x.pub_id == Some(pub_id) {
            assert(r == r0.push(x.id));
            if r.contains(id) {
                let k = choose|k: int| 0 <= k < r.len() && r[k] == id;
                if k < r0.len() {
                    assert(r0.contains(id));
                } else {
                    assert(cs[cs.len() - 1].id == id && cs[cs.len() - 1].pub_id == Some(pub_id));
                }
            }
            if exists|i: int|
                0 <= i < cs.len() && cs[i].id == id && (#[trigger] cs[i]).pub_id == Some(pub_id) {
                let i = choose|i: int|
                    0 <= i < cs.len() && cs[i].id == id && (#[trigger] cs[i]).pub_id == Some(
                        pub_id,
                    );
                if i < cs.len() - 1 {
                    assert(r0.contains(id));
                    let k = choose|k: int| 0 <= k < r0.len() && r0[k] == id;
                    assert(r[k] == id);
                } else {
                    assert(r[r0.len() as int] == id);
                }
            }
        } else {
            assert(r == r0);
            if exists|i: int|
                0 <= i < cs.len() && cs[i].id == id && (#[trigger] cs[i]).pub_id == Some(pub_id) {
                let i = choose|i: int|
                    0 <= i < cs.len() && cs[i].id == id && (#[trigger] cs[i]).pub_id == Some(
                        pub_id,
                    );
                assert(i < cs.len() - 1);
                assert(s[i].id == id && s[i].pub_id == Some(pub_id));
            }
        }
    }
}

pub proof fn lemma_clients_in_table_iff(cs: Seq<ClientInfo>, table_id: Id, id: Id)
    ensures
        clients_in_table(cs, table_id).contains(id) <==> exists|i: int|
            0 <= i < cs.len() && cs[i].id == id && (#[trigger] cs[i]).table_id == Some(table_id),
    decreases cs.len(),
{
    if cs.len() > 0 {
        let s = cs.drop_last();
        let x = cs.last();
        lemma_clients_in_table_iff(s, table_id, id);
        assert(forall|j: int| 0 <= j < s.len() ==> s[j] == cs[j]);
        let r0 = clients_in_table(s, table_id);
        let r = clients_in_table(cs, table_id);
        if x.table_id == Some(table_id) {
            assert(r == r0.push(x.id));
            if r.contains(id) {
                let k = choose|k: int| 0 <= k < r.len() && r[k] == id;
                if k < r0.len() {
                    assert(r0.contains(id));
                } else {
                    assert(cs[cs.len() - 1].id == id && cs[cs.len() - 1].table_id == Some(
                        table_id,
                    ));
                }
            }
            if exists|i: int|
                0 <= i < cs.len() && cs[i].id == id && (#[trigger] cs[i]).table_id == Some(
                    table_id,
                ) {
                let i = choose|i: int|
                    0 <= i < cs.len() && cs[i].id == id && (#[trigger] cs[i]).table_id == Some(
                        table_id,
                    );
                if i < cs.len() - 1 {
                    assert(r0.contains(id));
                    let k = choose|k: int| 0 <= k < r0.len() && r0[k] == id;
                    assert(r[k] == id);
                } else {
                    assert(r[r0.len() as int] == id);
                }
            }
        } else {
            assert(r == r0);
            if exists|i: int|
                0 <= i < cs.len() && cs[i].id == id && (#[trigger] cs[i]).table_id == Some(
                    table_id,
                ) {
                let i = choose|i: int|
                    0 <= i < cs.len() && cs[i].id == id && (#[trigger] cs[i]).table_id == Some(
                        table_id,
                    );
                assert(i < cs.len() - 1);
                assert(s[i].id == id && s[i].table_id == Some(table_id));
            }
        }
    }
}

pub proof fn lemma_client_of(cs: Seq<ClientInfo>, id: Id, i: int)
    requires
        unique_client_ids(cs),
        0 <= i < cs.len(),
        cs[i].id == id,
    ensures
        has_client(cs, id),
        client_idx(cs, id) == i,
        client_of(cs, id) == cs[i],
{
    assert(has_client(cs, id));
    let j = client_idx(cs, id);
    assert(0 <= j < cs.len() && cs[j].id == id);
}

/// The registry itself: the single source of truth for who is reachable.
pub struct Registry {
    pub clients: Vec<ClientInfo>,
}

impl Registry {
    /// Registry invariant: one entry per connected person.
    pub open spec fn wf(self) -> bool {
        unique_client_ids(self.clients@)
    }

    /// An empty registry.
    pub fn new() -> (r: Registry)
        ensures
            r.wf(),
            r.clients@ =~= Seq::<ClientInfo>::empty(),
    {
        Registry { clients: Vec::new() }
    }

    /// Index of the entry carrying `id`, if any.
    fn find(&self, id: Id) -> (r: Option<usize>)
        ensures
            match r {
                Some(i) => i < self.clients@.len() && self.clients@[i as int].id == id,
                None => !has_client(self.clients@, id),
            },
    {
        let n = self.clients.len();
        let mut i: usize = 0;
        while i < n
            invariant
                n == self.clients@.len(),
                i <= n,
                forall|j: int| 0 <= j < i ==> self.clients@[j].id != id,
            decreases n - i,
        {
            if self.clients[i].id == id {
                return Some(i);
            }
            i += 1;
        }
        None
    }

    /// Whether `id` is currently reachable.
    pub fn contains(&self, id: Id) -> (b: bool)
        ensures
            b == has_client(self.clients@, id),
    {
        match self.find(id) {
            Some(i) => {
                proof {
                    assert(has_client(self.clients@, id));
                }
                true
            },
            None => false,
        }
    }

    /// The entry for `id`, if registered.
    pub fn lookup(&self, id: Id) -> (r: Option<ClientInfo>)
        requires
            self.wf(),
        ensures
            match r {
                Some(c) => has_client(self.clients@, id) && c == client_of(self.clients@, id),
                None => !has_client(self.clients@, id),
            },
    {
        match self.find(id) {
            Some(i) => {
                proof {
                    lemma_client_of(self.clients@, id, i as int);
                }
                Some(self.clients[i])
            },
            None => None,
        }
    }

    /// Register a connection for `id`. Registering an id twice resets
    /// its cached membership and nothing else: the operation is
    /// idempotent on the set of reachable ids.
    pub fn register(&mut self, id: Id)
        requires
            old(self).wf(),
        ensures
            final(self).wf(),
            final(self).clients@ == register_map(old(self).clients@, id),
    {
        let ghost ov = old(self).clients@;
        match self.find(id) {
            Some(i) => {
                proof {
                    lemma_client_of(ov, id, i as int);
                }
                let c = &mut self.clients[i];
                c.pub_id = None;
                c.table_id = None;
                proof {
                    let nv = self.clients@;
                    let tgt = register_map(ov, id);
                    assert forall|j: int| 0 <= j < ov.len() implies nv[j] == tgt[j] by {
                        if j != i as int {
                            assert(ov[j].id != id);
                        }
                    }
                    assert(nv =~= tgt);
                    assert forall|a: int, b: int|
                        0 <= a < nv.len() && 0 <= b < nv.len() && a != b implies nv[a].id
                        != nv[b].id by {
                        assert(nv[a].id == ov[a].id && nv[b].id == ov[b].id);
                    }
                }
            },
            None => {
                self.clients.push(ClientInfo { id, pub_id: None, table_id: None });
                proof {
                    let nv = self.clients@;
                    assert(nv =~= ov.push(blank_client(id)));
                    assert forall|a: int, b: int|
                        0 <= a < nv.len() && 0 <= b < nv.len() && a != b implies nv[a].id
                        != nv[b].id by {
                        if a == ov.len() {
                            if ov[b].id == id {
                                assert(has_client(ov, id));
                            }
                        } else if b == ov.len() {
                            if ov[a].id == id {
                                assert(has_client(ov, id));
                            }
                        }
                    }
                }
            },
        }
    }

    /// Drop the connection of `id`; an absent id is a no-op.
    pub fn deregister(&mut self, id: Id)
        requires
            old(self).wf(),
        ensures
            final(self).wf(),
            final(self).clients@ == remove_client(old(self).clients@, id),
    {
        let n = self.clients.len();
        let mut kept: Vec<ClientInfo> = Vec::new();
        let mut i: usize = 0;
        proof {
            assert(old(self).clients@.subrange(0, 0) =~= Seq::<ClientInfo>::empty());
        }
        while i < n
            invariant
                n == self.clients@.len(),
                self.clients@ == old(self).clients@,
                i <= n,
                kept@ == remove_client(self.clients@.subrange(0, i as int), id),
            decreases n - i,
        {
            let ghost pre = self.clients@.subrange(0, i as int);
            let c = self.clients[i];
            if c.id != id {
                kept.push(c);
            }
            proof {
                assert(self.clients@.subrange(0, i as int + 1) =~= pre.push(
                    self.clients@[i as int],
                ));
                lemma_remove_client_push(pre, self.clients@[i as int], id);
            }
            i += 1;
        }
        proof {
            assert(self.clients@.subrange(0, n as int) =~= self.clients@);
        }
        self.clients = kept;
        proof {
            lemma_remove_client_props(old(self).clients@, id);
        }
    }

    /// Rewrite the cached membership of `id`; an absent id is a no-op.
    pub fn update_membership(&mut self, id: Id, pub_id: Option<Id>, table_id: Option<Id>)
        requires
            old(self).wf(),
        ensures
            final(self).wf(),
            final(self).clients@ == update_map(old(self).clients@, id, pub_id, table_id),
    {
        let ghost ov = old(self).clients@;
        match self.find(id) {
            Some(i) => {
                proof {
                    lemma_client_of(ov, id, i as int);
                }
                let c = &mut self.clients[i];
                c.pub_id = pub_id;
                c.table_id = table_id;
                proof {
                    let nv = self.clients@;
                    let tgt = update_map(ov, id, pub_id, table_id);
                    assert forall|j: int| 0 <= j < ov.len() implies nv[j] == tgt[j] by {
                        if j != i as int {
                            assert(ov[j].id != id);
                        }
                    }
                    assert(nv =~= tgt);
                    assert forall|a: int, b: int|
                        0 <= a < nv.len() && 0 <= b < nv.len() && a != b implies nv[a].id
                        != nv[b].id by {
                        assert(nv[a].id == ov[a].id && nv[b].id == ov[b].id);
                    }
                }
            },
            None => {
                proof {
                    let tgt = update_map(ov, id, pub_id, table_id);
                    assert forall|j: int| 0 <= j < ov.len() implies ov[j] == tgt[j] by {
                        if ov[j].id == id {
                            assert(has_client(ov, id));
                        }
                    }
                    assert(ov =~= tgt);
                }
            },
        }
    }

    /// The reachable ids whose cached pub is `pub_id`, in registry order.
    pub fn get_clients_in_pub(&self, pub_id: Id) -> (r: Vec<Id>)
        ensures
            r@ == clients_in_pub(self.clients@, pub_id),
    {
        let mut r: Vec<Id> = Vec::new();
        let n = self.clients.len();
        let mut i: usize = 0;
        proof {
            assert(self.clients@.subrange(0, 0) =~= Seq::<ClientInfo>::empty());
        }
        while i < n
            invariant
                n == self.clients@.len(),
                i <= n,
                r@ == clients_in_pub(self.clients@.subrange(0, i as int), pub_id),
            decreases n - i,
        {
            let ghost pre = self.clients@.subrange(0, i as int);
            let c = &self.clients[i];
            match c.pub_id {
                Some(q) => if q == pub_id {
                    r.push(c.id);
                },
                None => {},
            }
            proof {
                assert(self.clients@.subrange(0, i as int + 1) =~= pre.push(
                    self.clients@[i as int],
                ));
                lemma_clients_in_pub_push(pre, self.clients@[i as int], pub_id);
            }
            i += 1;
        }
        proof {
            assert(self.clients@.subrange(0, n as int) =~= self.clients@);
        }
        r
    }

    /// The reachable ids whose cached table is `table_id`, in registry order.
    pub fn get_clients_in_table(&self, table_id: Id) -> (r: Vec<Id>)
        ensures
            r@ == clients_in_table(self.clients@, table_id),
    {
        let mut r: Vec<Id> = Vec::new();
        let n = self.clients.len();
        let mut i: usize = 0;
        proof {
            assert(self.clients@.subrange(0, 0) =~= Seq::<ClientInfo>::empty());
        }
        while i < n
            invariant
                n == self.clients@.len(),
                i <= n,
                r@ == clients_in_table(self.clients@.subrange(0, i as int), table_id),
            decreases n - i,
        {
            let ghost pre = self.clients@.subrange(0, i as int);
            let c = &self.clients[i];
            match c.table_id {
                Some(t) => if t == table_id {
                    r.push(c.id);
                },
                None => {},
            }
            proof {
                assert(self.clients@.subrange(0, i as int + 1) =~= pre.push(
                    self.clients@[i as int],
                ));
                lemma_clients_in_table_push(pre, self.clients@[i as int], table_id);
            }
            i += 1;
        }
        proof {
            assert(self.clients@.subrange(0, n as int) =~= self.clients@);
        }
        r
    }
}

} // verus!
