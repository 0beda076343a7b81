//! Routing table.
//!
//! A mapping from tenant identifier to handler capability: keys unique,
//! insertion order irrelevant. Connection runners look tenants up; an
//! external registration collaborator drives `upsert` and `remove`. Each
//! operation acts on the whole table at once, so a lookup observes either
//! the state before or the state after any single mutation, never a
//! partially applied one; callers that share one table across concurrent
//! tasks keep it that way by running each operation under their own
//! reader/writer discipline.

use vstd::prelude::*;

verus! {

/// The association map of parallel key/handler sequences, later entries
/// winning.
spec fn assoc_map<H>(keys: Seq<u64>, handlers: Seq<H>) -> Map<u64, H>
    recommends
        keys.len() == handlers.len(),
    decreases keys.len(),
{
    if keys.len() == 0 || keys.len() != handlers.len() {
        Map::empty()
    } else {
        assoc_map(keys.drop_last(), handlers.drop_last()).insert(keys.last(), handlers.last())
    }
}

spec fn distinct_keys(keys: Seq<u64>) -> bool {
    forall|i: int, j: int| 0 <= i < j < keys.len() ==> keys[i] != keys[j]
}

proof fn lemma_assoc_contains<H>(keys: Seq<u64>, handlers: Seq<H>, k: u64)
    requires
        keys.len() == handlers.len(),
    ensures
        assoc_map(keys, handlers).contains_key(k) <==> keys.contains(k),
    decreases keys.len(),
{
    if keys.len() == 0 {
        assert(!keys.contains(k));
    } else {
        let kd = keys.drop_last();
        let hd = handlers.drop_last();
        assert(forall|i: int| 0 <= i < kd.len() ==> kd[i] == keys[i]);
        lemma_assoc_contains(kd, hd, k);
        if k == keys.last() {
            assert(keys[keys.len() - 1] == k);
            assert(keys.contains(k));
        } else {
            if keys.contains(k) {
                let i = choose|i: int| 0 <= i < keys.len() && keys[i] == k;
                assert(i < keys.len() - 1);
                assert(kd[i] == k);
                assert(kd.contains(k));
            }
            if kd.contains(k) {
                let i = choose|i: int| 0 <= i < kd.len() && kd[i] == k;
                assert(keys[i] == k);
                assert(keys.contains(k));
            }
        }
    }
}

proof fn lemma_assoc_index<H>(keys: Seq<u64>, handlers: Seq<H>, i: int)
    requires
        keys.len() == handlers.len(),
        distinct_keys(keys),
        0 <= i < keys.len(),
    ensures
        assoc_map(keys, handlers).contains_key(keys[i]),
        assoc_map(keys, handlers)[keys[i]] == handlers[i],
    decreases keys.len(),
{
    let kd = keys.drop_last();
    let hd = handlers.drop_last();
    assert(forall|j: int| 0 <= j < kd.len() ==> kd[j] == keys[j]);
    assert(forall|j: int| 0 <= j < hd.len() ==> hd[j] == handlers[j]);
    if i == keys.len() - 1 {
    } else {
        assert(distinct_keys(kd));
        lemma_assoc_index(kd, hd, i);
        assert(keys[i] != keys.last());
    }
}

proof fn lemma_assoc_push<H>(keys: Seq<u64>, handlers: Seq<H>, k: u64, h: H)
    requires
        keys.len() == handlers.len(),
    ensures
        assoc_map(keys.push(k), handlers.push(h)) == assoc_map(keys, handlers).insert(k, h),
{
    assert(keys.push(k).drop_last() =~= keys);
    assert(handlers.push(h).drop_last() =~= handlers);
    assert(keys.push(k).last() == k);
    assert(handlers.push(h).last() == h);
}

proof fn lemma_assoc_remove<H>(keys: Seq<u64>, handlers: Seq<H>, i: int)
    requires
        keys.len() == handlers.len(),
        distinct_keys(keys),
        0 <= i < keys.len(),
    ensures
        assoc_map(keys.remove(i), handlers.remove(i)) == assoc_map(keys, handlers).remove(
            keys[i],
        ),
    decreases keys.len(),
{
    let kd = keys.drop_last();
    let hd = handlers.drop_last();
    assert(forall|j: int| 0 <= j < kd.len() ==> kd[j] == keys[j]);
    assert(forall|j: int| 0 <= j < hd.len() ==> hd[j] == handlers[j]);
    assert(distinct_keys(kd));
    keys.remove_ensures(i);
    handlers.remove_ensures(i);
    if i == keys.len() - 1 {
        assert(keys.remove(i) =~= kd);
        assert(handlers.remove(i) =~= hd);
        lemma_assoc_contains(kd, hd, keys[i]);
        assert(!kd.contains(keys[i]));
        assert(assoc_map(kd, hd).remove(keys[i]) =~= assoc_map(kd, hd));
        assert(assoc_map(keys, handlers).remove(keys[i]) =~= assoc_map(kd, hd));
    } else {
        let krm = keys.remove(i);
        let hrm = handlers.remove(i);
        assert(krm.last() == keys.last());
        assert(hrm.last() == handlers.last());
        assert(krm.drop_last() =~= kd.remove(i));
        assert(hrm.drop_last() =~= hd.remove(i));
        lemma_assoc_remove(kd, hd, i);
        assert(assoc_map(krm, hrm) == assoc_map(kd, hd).remove(keys[i]).insert(
            keys.last(),
            handlers.last(),
        ));
        assert(keys[i] != keys.last());
        assert(assoc_map(kd, hd).remove(keys[i]).insert(keys.last(), handlers.last())
            =~= assoc_map(kd, hd).insert(keys.last(), handlers.last()).remove(keys[i]));
    }
}

/// Mapping from tenant identifier to handler capability. Keys are unique;
/// the table performs no validation of handler identity or tenant range.
pub struct RoutingTable<H> {
    keys: Vec<u64>,
    handlers: Vec<H>,
}

impl<H> View for RoutingTable<H> {
    type V = Map<u64, H>;

    closed spec fn view(&self) -> Map<u64, H> {
        assoc_map(self.keys@, self.handlers@)
    }
}

impl<H> RoutingTable<H> {
    /// Internal shape of a valid table: one handler per key, keys unique.
    pub closed spec fn wf(&self) -> bool {
        self.keys@.len() == self.handlers@.len() && distinct_keys(self.keys@)
    }

    /// An empty routing table.
    pub fn new() -> (r: Self)
        ensures
            r.wf(),
            r@ == Map::<u64, H>::empty(),
    {
        RoutingTable { keys: Vec::new(), handlers: Vec::new() }
    }

    /// Look a tenant up: the registered handler, or `None` when the tenant
    /// is absent.
    pub fn lookup(&self, tenant: u64) -> (r: Option<&H>)
        requires
            self.wf(),
        ensures
            match r {
                Some(h) => self@.contains_key(tenant) && *h == self@[tenant],
                None => !self@.contains_key(tenant),
            },
    {
        let mut i: usize = 0;
        while i < self.keys.len()
            invariant
                self.wf(),
                i <= self.keys@.len(),
                forall|j: int| 0 <= j < i ==> self.keys@[j] != tenant,
            decreases self.keys@.len() - i,
        {
            if self.keys[i] == tenant {
                proof {
                    lemma_assoc_index(self.keys@, self.handlers@, i as int);
                }
                return Some(&self.handlers[i]);
            }
            i = i + 1;
        }
        proof {
            assert(!self.keys@.contains(tenant));
            lemma_assoc_contains(self.keys@, self.handlers@, tenant);
        }
        None
    }

    /// Remove a tenant's entry; removing an absent tenant leaves the table
    /// as it was.
    pub fn remove(&mut self, tenant: u64)
        requires
            old(self).wf(),
        ensures
            final(self).wf(),
            final(self)@ == old(self)@.remove(tenant),
    {
        let ghost k0 = self.keys@;
        let ghost h0 = self.handlers@;
        let mut i: usize = 0;
        while i < self.keys.len()
            invariant
                self.keys@ == k0,
                self.handlers@ == h0,
                k0 == old(self).keys@,
                h0 == old(self).handlers@,
                k0.len() == h0.len(),
                distinct_keys(k0),
                i <= k0.len(),
                forall|j: int| 0 <= j < i ==> k0[j] != tenant,
            decreases k0.len() - i,
        {
            if self.keys[i] == tenant {
                proof {
                    lemma_assoc_remove(k0, h0, i as int);
                    k0.remove_ensures(i as int);
                    h0.remove_ensures(i as int);
                }
                self.keys.remove(i);
                self.handlers.remove(i);
                proof {
                    assert(self.keys@ == k0.remove(i as int));
                    assert(self.handlers@ == h0.remove(i as int));
                    assert(k0[i as int] == tenant);
                    assert(self@ == assoc_map(k0, h0).remove(tenant));
                    assert(old(self)@ == assoc_map(k0, h0));
                    assert(distinct_keys(self.keys@));
                }
                return;
            }
            i = i + 1;
        }
        proof {
            assert(!k0.contains(tenant));
            lemma_assoc_contains(k0, h0, tenant);
            assert(old(self)@.remove(tenant) =~= old(self)@);
        }
    }

    /// Insert or replace a tenant's handler.
    pub fn upsert(&mut self, tenant: u64, handler: H)
        requires
            old(self).wf(),
        ensures
            final(self).wf(),
            final(self)@ == old(self)@.insert(tenant, handler),
    {
        self.remove(tenant);
        proof {
            lemma_assoc_contains(self.keys@, self.handlers@, tenant);
            assert(!self.keys@.contains(tenant));
        }
        let ghost k1 = self.keys@;
        let ghost h1 = self.handlers@;
        self.keys.push(tenant);
        self.handlers.push(handler);
        proof {
            lemma_assoc_push(k1, h1, tenant, handler);
            assert(distinct_keys(self.keys@));
            assert(old(self)@.remove(tenant).insert(tenant, handler) =~= old(self)@.insert(
                tenant,
                handler,
            ));
        }
    }
}

/// What a lookup observes of a table state.
pub open spec fn spec_lookup<H>(m: Map<u64, H>, tenant: u64) -> Option<H> {
    if m.contains_key(tenant) {
        Some(m[tenant])
    } else {
        None
    }
}

/// Law: a mutation is observed whole. After an upsert every key reads
/// entirely from the new state, and likewise after a remove; no lookup can
/// observe a mixture of two table states, because each mutation produces the
/// complete next state in one step.
pub proof fn lemma_lookup_sees_whole_mutation<H>(
    m: Map<u64, H>,
    tenant: u64,
    handler: H,
    probe: u64,
)
    ensures
        spec_lookup(m.insert(tenant, handler), probe) == (if probe == tenant {
            Some(handler)
        } else {
            spec_lookup(m, probe)
        }),
        spec_lookup(m.remove(tenant), probe) == (if probe == tenant {
            None::<H>
        } else {
            spec_lookup(m, probe)
        }),
{
}

} // verus!


