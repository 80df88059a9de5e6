//! The forwarding information base: the learned (VLAN, MAC) to port
//! table, with a reverse index for bulk eviction when a port or one of
//! its VLANs is reconfigured.
//!
//! The two indexes live in concurrent maps so workers can share the
//! table; their contents are named by uninterpreted functions, and
//! every operation is specified against those names.

use vstd::prelude::*;
use dashmap::DashMap;
use crate::network::frame::Mac;

verus! {

/// Weight of the VLAN in a table key: keys are `vlan * 2^48 + mac`.
pub const VLAN_KEY_BASE: u64 = 0x1000000000000;

/// The table key holding a VLAN id and a MAC address, packed so that
/// distinct (VLAN, MAC) pairs give distinct keys.
pub open spec fn key_of(vlan: u16, mac: Mac) -> u64 {
    (vlan * VLAN_KEY_BASE + mac.spec_val()) as u64
}

/// The VLAN id a key was packed with.
pub open spec fn key_vlan(k: u64) -> u64 {
    k / VLAN_KEY_BASE
}

/// The 48-bit MAC value a key was packed with.
pub open spec fn key_mac_val(k: u64) -> u64 {
    k % VLAN_KEY_BASE
}

pub proof fn lemma_key_parts(vlan: u16, mac: Mac)
    ensures
        key_vlan(key_of(vlan, mac)) == vlan,
        key_mac_val(key_of(vlan, mac)) == mac.spec_val(),
{
    Mac::lemma_val_bound(mac);
    assert((vlan * 0x1000000000000 + mac.spec_val()) as u64 == vlan * 0x1000000000000
        + mac.spec_val()) by {
        assert(vlan * 0x1000000000000 <= 65535 * 0x1000000000000) by (nonlinear_arith)
            requires
                vlan <= 65535,
        ;
    }
    assert((vlan * 0x1000000000000 + mac.spec_val()) / 0x1000000000000 == vlan as int
        && (vlan * 0x1000000000000 + mac.spec_val()) % 0x1000000000000 == mac.spec_val()) by (nonlinear_arith)
        requires
            0 <= mac.spec_val() < 0x1000000000000,
    ;
}

/// Distinct (VLAN, MAC) pairs occupy distinct table keys.
pub proof fn lemma_key_of_injective(v1: u16, m1: Mac, v2: u16, m2: Mac)
    ensures
        key_of(v1, m1) == key_of(v2, m2) ==> v1 == v2 && m1 == m2,
{
    if key_of(v1, m1) == key_of(v2, m2) {
        lemma_key_parts(v1, m1);
        lemma_key_parts(v2, m2);
        Mac::lemma_val_injective(m1, m2);
    }
}

/// The concurrent map type of the dashmap crate, declared so values
/// of it can stand in fields and signatures; this crate reads it only
/// through the named contents below.
#[verifier::external_type_specification]
#[verifier::external_body]
#[verifier::reject_recursive_types(K)]
#[verifier::reject_recursive_types(V)]
#[verifier::reject_recursive_types(S)]
pub struct ExDashMap<K, V, S>(DashMap<K, V, S>);

/// The empty forward table.
pub open spec fn no_entries() -> Map<u64, usize> {
    Map::empty()
}

/// The empty bucket index.
pub open spec fn no_buckets() -> Map<u64, Seq<u64>> {
    Map::empty()
}

/// What the forward table of a `DashMap` holds: its key-value pairs.
pub uninterp spec fn owner_map(m: DashMap<u64, usize>) -> Map<u64, usize>;

/// What a reverse-index `DashMap` holds: each key's bucket of packed
/// table keys, in the order this crate stored them.
pub uninterp spec fn bucket_map(m: DashMap<u64, Vec<u64>>) -> Map<u64, Seq<u64>>;

/// Relies on dashmap::DashMap::insert: binds the key to the value,
/// replacing any previous binding.
#[verifier::external_body]
fn table_insert(m: &mut DashMap<u64, usize>, k: u64, v: usize)
    ensures
        owner_map(*final(m)) == owner_map(*old(m)).insert(k, v),
{
    m.insert(k, v);
}

/// Relies on dashmap::DashMap::get: returns the value bound to the
/// key, or nothing when the key is unbound.
#[verifier::external_body]
fn table_get(m: &DashMap<u64, usize>, k: u64) -> (r: Option<usize>)
    ensures
        r == if owner_map(*m).dom().contains(k) {
            Some(owner_map(*m)[k])
        } else {
            None::<usize>
        },
{
    match m.get(&k) {
        Some(entry) => Some(*entry.value()),
        None => None,
    }
}

/// Relies on dashmap::DashMap::remove: unbinds the key and returns the
/// value it was bound to, if any.
#[verifier::external_body]
fn table_remove(m: &mut DashMap<u64, usize>, k: u64) -> (r: Option<usize>)
    ensures
        owner_map(*final(m)) == owner_map(*old(m)).remove(k),
        r == if owner_map(*old(m)).dom().contains(k) {
            Some(owner_map(*old(m))[k])
        } else {
            None::<usize>
        },
{
    match m.remove(&k) {
        Some((_k, v)) => Some(v),
        None => None,
    }
}

/// Relies on dashmap::DashMap::insert: binds the key to the bucket,
/// replacing any previous bucket.
#[verifier::external_body]
pub(crate) fn buckets_insert(m: &mut DashMap<u64, Vec<u64>>, k: u64, v: Vec<u64>)
    ensures
        bucket_map(*final(m)) == bucket_map(*old(m)).insert(k, v@),
{
    m.insert(k, v);
}

/// Relies on dashmap::DashMap::remove: unbinds the key and returns the
/// bucket it was bound to, if any.
#[verifier::external_body]
pub(crate) fn buckets_remove(m: &mut DashMap<u64, Vec<u64>>, k: u64) -> (r: Option<Vec<u64>>)
    ensures
        bucket_map(*final(m)) == bucket_map(*old(m)).remove(k),
        match r {
            Some(b) => bucket_map(*old(m)).dom().contains(k) && b@ == bucket_map(*old(m))[k],
            None => !bucket_map(*old(m)).dom().contains(k),
        },
{
    match m.remove(&k) {
        Some((_k, v)) => Some(v),
        None => None,
    }
}

/// Relies on dashmap::DashMap::get: returns a copy of the bucket the
/// key is bound to, if any.
#[verifier::external_body]
pub(crate) fn buckets_get(m: &DashMap<u64, Vec<u64>>, k: u64) -> (r: Option<Vec<u64>>)
    ensures
        match r {
            Some(b) => bucket_map(*m).dom().contains(k) && b@ == bucket_map(*m)[k],
            None => !bucket_map(*m).dom().contains(k),
        },
{
    match m.get(&k) {
        Some(entry) => Some(entry.value().clone()),
        None => None,
    }
}

/// Relies on dashmap::DashMap::clear: removes every entry of the map.
#[verifier::external_body]
pub(crate) fn buckets_clear(m: &mut DashMap<u64, Vec<u64>>)
    ensures
        bucket_map(*final(m)) == no_buckets(),
{
    m.clear();
}


/// Relies on dashmap::DashMap::iter: with the map otherwise at rest it
/// walks every entry exactly once, in an order that is not specified.
#[verifier::external_body]
fn table_entries(m: &DashMap<u64, usize>) -> (r: Vec<(u64, usize)>)
    ensures
        forall|i: int| 0 <= i < r@.len() ==> owner_map(*m).contains_pair(r@[i].0, r@[i].1),
        forall|i: int, j: int| 0 <= i < j < r@.len() ==> r@[i].0 != r@[j].0,
        forall|k: u64| #[trigger] owner_map(*m).dom().contains(k) ==> exists|i: int|
            0 <= i < r@.len() && r@[i].0 == k,
{
    let mut out = Vec::new();
    for entry in m.iter() {
        out.push((*entry.key(), *entry.value()));
    }
    out
}

/// The table a lookup consults, abstractly: what `lookup` returns on a
/// table `m` for a given VLAN and MAC.
pub open spec fn lookup_spec(m: Map<u64, usize>, vlan: u16, mac: Mac) -> Option<usize> {
    if m.dom().contains(key_of(vlan, mac)) {
        Some(m[key_of(vlan, mac)])
    } else {
        None
    }
}

/// What `learn` does to a table, abstractly: last-learned-wins upsert.
pub open spec fn learn_spec(m: Map<u64, usize>, vlan: u16, mac: Mac, port: usize) -> Map<
    u64,
    usize,
> {
    m.insert(key_of(vlan, mac), port)
}

/// What `remove_port_entries` does to a table, abstractly: every key
/// owned by the port is gone, every other key untouched.
pub open spec fn without_port(m: Map<u64, usize>, port: usize) -> Map<u64, usize> {
    Map::new(|k: u64| m.dom().contains(k) && m[k] != port, |k: u64| m[k])
}

/// What `remove_port_vlan_entries` does to a table, abstractly: every
/// key owned by the port under the given VLAN is gone.
pub open spec fn without_port_vlan(m: Map<u64, usize>, port: usize, vlan: u16) -> Map<u64, usize> {
    Map::new(
        |k: u64| m.dom().contains(k) && !(m[k] == port && key_vlan(k) == vlan),
        |k: u64| m[k],
    )
}

/// Appending a value a bucket does not hold keeps the bucket free of
/// duplicates.
pub(crate) proof fn lemma_push_no_duplicates(s: Seq<u64>, v: u64)
    requires
        s.no_duplicates(),
        !s.contains(v),
    ensures
        s.push(v).no_duplicates(),
{
    let t = s.push(v);
    assert forall|i: int, j: int| 0 <= i < t.len() && 0 <= j < t.len() && i != j implies t[i]
        != t[j] by {
        if i < s.len() && j < s.len() {
        } else if i < s.len() {
            assert(s[i] == t[i]);
        } else {
            assert(j < s.len() && s[j] == t[j]);
        }
    }
}

/// The learned MAC-to-port table, scoped per VLAN: the forward map
/// from packed (VLAN, MAC) keys to the owning port, and a reverse
/// index from each port to the keys it owns.
pub struct Fib {
    table: DashMap<u64, usize>,
    rev: DashMap<u64, Vec<u64>>,
}

impl Fib {
    /// The forward table: what the switch has learned.
    pub closed spec fn entries(self) -> Map<u64, usize> {
        owner_map(self.table)
    }

    /// The reverse index: which keys each port owns.
    pub closed spec fn rev_entries(self) -> Map<u64, Seq<u64>> {
        bucket_map(self.rev)
    }

    /// The reverse index records the key under the port.
    pub open spec fn rev_has(self, p: u64, k: u64) -> bool {
        self.rev_entries().dom().contains(p) && self.rev_entries()[p].contains(k)
    }

    /// The two indexes mirror each other exactly, and no bucket lists
    /// a key twice.
    pub open spec fn wf(self) -> bool {
        &&& forall|k: u64| #[trigger] self.entries().dom().contains(k) ==> self.rev_has(
            self.entries()[k] as u64,
            k,
        )
        &&& forall|p: u64, k: u64| #[trigger] self.rev_has(p, k) ==> self.entries().dom().contains(
            k,
        ) && self.entries()[k] as u64 == p
        &&& forall|p: u64| #[trigger] self.rev_entries().dom().contains(p)
            ==> self.rev_entries()[p].no_duplicates()
    }

    /// Relies on dashmap::DashMap::new to build the two indexes; what
    /// they hold is pinned down by `clear_raw` right after.
    #[verifier::external_body]
    fn new_raw() -> (f: Fib)
    {
        Fib { table: DashMap::new(), rev: DashMap::new() }
    }

    /// Relies on dashmap::DashMap::clear: removes every entry of a
    /// map, so afterwards both indexes hold nothing.
    #[verifier::external_body]
    fn clear_raw(&mut self)
        ensures
            final(self).entries() == no_entries(),
            final(self).rev_entries() == no_buckets(),
    {
        self.table.clear();
        self.rev.clear();
    }

    pub fn new() -> (f: Fib)
        ensures
            f.wf(),
            f.entries() == Map::<u64, usize>::empty(),
    {
        let mut f = Fib::new_raw();
        f.clear_raw();
        f
    }


    /// Every entry of the forward table, each key once, in no
    /// particular order.
    pub fn entries_vec(&self) -> (r: Vec<(u64, usize)>)
        ensures
            forall|i: int| 0 <= i < r@.len() ==> self.entries().contains_pair(r@[i].0, r@[i].1),
            forall|i: int, j: int| 0 <= i < j < r@.len() ==> r@[i].0 != r@[j].0,
            forall|k: u64| #[trigger] self.entries().dom().contains(k) ==> exists|i: int|
                0 <= i < r@.len() && r@[i].0 == k,
    {
        table_entries(&self.table)
    }

    /// Point lookup of the owner of (VLAN, MAC); no side effects.
    pub fn lookup(&self, vlan: u16, mac: &Mac) -> (r: Option<usize>)
        ensures
            r == lookup_spec(self.entries(), vlan, *mac),
    {
        let k = make_key(vlan, mac);
        table_get(&self.table, k)
    }

    /// Learns (VLAN, MAC) as owned by `port`: an idempotent upsert;
    /// when the key was owned by another port, the binding moves, in
    /// the reverse index too.
    pub fn learn(&mut self, vlan: u16, mac: &Mac, port: usize)
        requires
            old(self).wf(),
        ensures
            final(self).wf(),
            final(self).entries() == learn_spec(old(self).entries(), vlan, *mac, port),
    {
        let k = make_key(vlan, mac);
        match table_get(&self.table, k) {
            Some(owner) => {
                if owner == port {
                    // Already bound to this port: avoid reverse-index churn.
                    proof {
                        assert(learn_spec(self.entries(), vlan, *mac, port) =~= self.entries());
                    }
                } else {
                    table_insert(&mut self.table, k, port);
                    proof {
                        assert(old(self).entries().dom().contains(k));
                        assert(old(self).rev_has(owner as u64, k));
                        assert(self.rev_entries() == old(self).rev_entries());
                        assert(self.rev_has(owner as u64, k));
                        assert(self.rev_entries()[owner as u64].no_duplicates());
                    }
                    self.rev_del(owner as u64, k);
                    let ghost s2 = *self;
                    proof {
                        if self.rev_has(port as u64, k) {
                            assert(old(self).rev_has(port as u64, k));
                            assert(old(self).entries()[k] as u64 == port as u64);
                        }
                    }
                    self.rev_add(port, k);
                    proof {
                        self.lemma_learn_moved_wf(*old(self), s2, k, owner, port);
                    }
                }
            },
            None => {
                table_insert(&mut self.table, k, port);
                let ghost s1 = *self;
                proof {
                    if self.rev_has(port as u64, k) {
                        assert(old(self).rev_has(port as u64, k));
                        assert(old(self).entries().dom().contains(k));
                    }
                }
                self.rev_add(port, k);
                proof {
                    self.lemma_learn_fresh_wf(*old(self), s1, k, port);
                }
            },
        }
    }

    /// After a fresh key is inserted and appended to its port's
    /// bucket, the two indexes mirror each other again.
    proof fn lemma_learn_fresh_wf(self, s0: Fib, s1: Fib, k: u64, port: usize)
        requires
            s0.wf(),
            !s0.entries().dom().contains(k),
            s1.entries() == s0.entries().insert(k, port),
            s1.rev_entries() == s0.rev_entries(),
            self.entries() == s1.entries(),
            self.rev_entries() == s1.rev_entries().insert(
                port as u64,
                s1.bucket_or_empty(port as u64).push(k),
            ),
        ensures
            self.wf(),
    {
        let pb = s0.bucket_or_empty(port as u64);
        assert(!pb.contains(k)) by {
            if pb.contains(k) {
                assert(s0.rev_has(port as u64, k));
            }
        }
        assert forall|k2: u64| #[trigger] self.entries().dom().contains(k2) implies self.rev_has(
            self.entries()[k2] as u64,
            k2,
        ) by {
            vstd::seq_lib::lemma_seq_contains_after_push(pb, k, k2);
            if k2 != k {
                assert(s0.rev_has(s0.entries()[k2] as u64, k2));
            }
        }
        assert forall|p2: u64, k2: u64| #[trigger] self.rev_has(p2, k2) implies
            self.entries().dom().contains(k2) && self.entries()[k2] as u64 == p2 by {
            if p2 == port as u64 {
                vstd::seq_lib::lemma_seq_contains_after_push(pb, k, k2);
                if k2 != k {
                    assert(s0.rev_has(p2, k2));
                }
            } else {
                assert(s0.rev_has(p2, k2));
                assert(s0.entries()[k2] as u64 == p2);
                assert(k2 != k);
            }
        }
        assert forall|p2: u64| #[trigger] self.rev_entries().dom().contains(p2) implies
            self.rev_entries()[p2].no_duplicates() by {
            if p2 == port as u64 {
                lemma_push_no_duplicates(pb, k);
            }
        }
    }

    /// After a key moves from one port's bucket to another's and the
    /// forward entry is rewritten, the two indexes mirror each other
    /// again.
    proof fn lemma_learn_moved_wf(self, s0: Fib, s2: Fib, k: u64, owner: usize, port: usize)
        requires
            s0.wf(),
            s0.entries().dom().contains(k),
            s0.entries()[k] == owner,
            owner != port,
            // state after the forward insert and the bucket deletion
            s2.entries() == s0.entries().insert(k, port),
            s2.rev_entries().dom() == s0.rev_entries().dom(),
            forall|q: u64| q != owner as u64 && #[trigger] s0.rev_entries().dom().contains(q)
                ==> s2.rev_entries()[q] == s0.rev_entries()[q],
            s2.rev_entries()[owner as u64].no_duplicates(),
            forall|x: u64| #[trigger] s2.rev_entries()[owner as u64].contains(x)
                <==> (s0.rev_entries()[owner as u64].contains(x) && x != k),
            // state after the bucket addition
            self.entries() == s2.entries(),
            self.rev_entries() == s2.rev_entries().insert(
                port as u64,
                s2.bucket_or_empty(port as u64).push(k),
            ),
        ensures
            self.wf(),
    {
        assert(s0.rev_has(owner as u64, k));
        let pb = s2.bucket_or_empty(port as u64);
        assert(!pb.contains(k)) by {
            if pb.contains(k) {
                assert(s2.rev_entries().dom().contains(port as u64));
                if port as u64 == owner as u64 {
                    assert(owner == port);
                } else {
                    assert(s0.rev_entries()[port as u64].contains(k));
                    assert(s0.rev_has(port as u64, k));
                    assert(s0.entries()[k] as u64 == port as u64);
                }
            }
        }
        assert forall|k2: u64| #[trigger] self.entries().dom().contains(k2) implies self.rev_has(
            self.entries()[k2] as u64,
            k2,
        ) by {
            vstd::seq_lib::lemma_seq_contains_after_push(pb, k, k2);
            if k2 != k {
                let p2 = s0.entries()[k2] as u64;
                assert(s0.rev_has(p2, k2));
                if p2 == owner as u64 {
                    assert(s2.rev_entries()[owner as u64].contains(k2));
                    assert(self.rev_entries()[p2].contains(k2));
                } else if p2 == port as u64 {
                    assert(pb.contains(k2));
                }
            }
        }
        assert forall|p2: u64, k2: u64| #[trigger] self.rev_has(p2, k2) implies
            self.entries().dom().contains(k2) && self.entries()[k2] as u64 == p2 by {
            if p2 == port as u64 {
                vstd::seq_lib::lemma_seq_contains_after_push(pb, k, k2);
                if k2 != k {
                    assert(pb.contains(k2));
                    if s2.rev_entries().dom().contains(p2) {
                        if p2 == owner as u64 {
                            assert(owner == port);
                        } else {
                            assert(s0.rev_has(p2, k2));
                        }
                    }
                }
            } else if p2 == owner as u64 {
                assert(s2.rev_entries()[owner as u64].contains(k2));
                assert(s0.rev_has(p2, k2));
                assert(k2 != k);
            } else {
                assert(s2.rev_entries()[p2] == s0.rev_entries()[p2]);
                assert(s0.rev_has(p2, k2));
                assert(s0.entries()[k2] as u64 == p2);
                assert(k2 != k) by {
                    if k2 == k {
                        assert(s0.entries()[k] as u64 == owner as u64);
                    }
                }
            }
        }
        assert forall|p2: u64| #[trigger] self.rev_entries().dom().contains(p2) implies
            self.rev_entries()[p2].no_duplicates() by {
            if p2 == port as u64 {
                assert(pb.no_duplicates()) by {
                    if s2.rev_entries().dom().contains(port as u64) {
                        if port as u64 == owner as u64 {
                        } else {
                            assert(s2.rev_entries()[p2] == s0.rev_entries()[p2]);
                        }
                    }
                }
                lemma_push_no_duplicates(pb, k);
            } else if p2 == owner as u64 {
            } else {
                assert(s2.rev_entries()[p2] == s0.rev_entries()[p2]);
            }
        }
    }

    /// Evicts every entry owned by the port: called on shutdown and on
    /// any mode change that invalidates the port's forwarding context.
    pub fn remove_port_entries(&mut self, port: usize)
        requires
            old(self).wf(),
        ensures
            final(self).wf(),
            final(self).entries() == without_port(old(self).entries(), port),
    {
        let ghost s0 = *old(self);
        match buckets_remove(&mut self.rev, port as u64) {
            None => {
                proof {
                    assert forall|k: u64| s0.entries().dom().contains(k) implies s0.entries()[k]
                        != port by {
                        if s0.entries()[k] == port {
                            assert(s0.rev_has(port as u64, k));
                        }
                    }
                    assert(self.entries() =~= without_port(s0.entries(), port));
                    assert(self.rev_entries() =~= s0.rev_entries());
                    assert(self.entries() == s0.entries());
                    self.lemma_wf_from_equal(s0);
                }
            },
            Some(keys) => {
                let ghost bucket = keys@;
                let n = keys.len();
                let mut i: usize = 0;
                while i < n
                    invariant
                        n == keys@.len(),
                        i <= n,
                        keys@ == bucket,
                        self.rev_entries() == s0.rev_entries().remove(port as u64),
                        self.entries() == s0.entries().remove_keys(
                            bucket.take(i as int).to_set(),
                        ),
                    decreases n - i,
                {
                    table_remove(&mut self.table, keys[i]);
                    i = i + 1;
                    proof {
                        bucket.take(i - 1).lemma_push_to_set_commute(bucket[i - 1]);
                        assert(bucket.take(i as int) =~= bucket.take(i - 1).push(bucket[i - 1]));
                        assert(self.entries() =~= s0.entries().remove_keys(
                            bucket.take(i as int).to_set(),
                        ));
                    }
                }
                proof {
                    assert(bucket.take(n as int) =~= bucket);
                    assert(s0.rev_entries().dom().contains(port as u64));
                    // The bucket lists exactly the keys the port owns.
                    assert forall|k: u64| s0.entries().dom().contains(k) implies (bucket.contains(
                        k,
                    ) <==> s0.entries()[k] == port) by {
                        if bucket.contains(k) {
                            assert(s0.rev_has(port as u64, k));
                        }
                        if s0.entries()[k] == port {
                            assert(s0.rev_has(port as u64, k));
                        }
                    }
                    assert forall|k: u64| bucket.contains(k) implies s0.entries().dom().contains(
                        k,
                    ) by {
                        assert(s0.rev_has(port as u64, k));
                    }
                    assert(self.entries() =~= without_port(s0.entries(), port));
                    self.lemma_remove_port_wf(s0, port);
                }
            },
        }
    }


    /// Equality of both indexes carries well-formedness over.
    proof fn lemma_wf_from_equal(self, other: Fib)
        requires
            other.wf(),
            self.entries() == other.entries(),
            self.rev_entries() == other.rev_entries(),
        ensures
            self.wf(),
    {
        assert forall|k: u64| #[trigger] self.entries().dom().contains(k) implies self.rev_has(
            self.entries()[k] as u64,
            k,
        ) by {
            assert(other.rev_has(other.entries()[k] as u64, k));
        }
        assert forall|p: u64, k: u64| #[trigger] self.rev_has(p, k) implies
            self.entries().dom().contains(k) && self.entries()[k] as u64 == p by {
            assert(other.rev_has(p, k));
        }
        assert forall|p: u64| #[trigger] self.rev_entries().dom().contains(p) implies
            self.rev_entries()[p].no_duplicates() by {
            assert(other.rev_entries().dom().contains(p));
        }
    }

    /// After a port's bucket is dropped and exactly its keys leave the
    /// forward table, the two indexes mirror each other again.
    proof fn lemma_remove_port_wf(self, s0: Fib, port: usize)
        requires
            s0.wf(),
            self.entries() == without_port(s0.entries(), port),
            self.rev_entries() == s0.rev_entries().remove(port as u64),
        ensures
            self.wf(),
    {
        assert forall|k: u64| #[trigger] self.entries().dom().contains(k) implies self.rev_has(
            self.entries()[k] as u64,
            k,
        ) by {
            assert(s0.rev_has(s0.entries()[k] as u64, k));
            assert(s0.entries()[k] != port);
        }
        assert forall|p2: u64, k2: u64| #[trigger] self.rev_has(p2, k2) implies
            self.entries().dom().contains(k2) && self.entries()[k2] as u64 == p2 by {
            assert(p2 != port as u64);
            assert(s0.rev_has(p2, k2));
            assert(s0.entries()[k2] as u64 == p2);
            assert(s0.entries()[k2] != port);
        }
        assert forall|p2: u64| #[trigger] self.rev_entries().dom().contains(p2) implies
            self.rev_entries()[p2].no_duplicates() by {
            assert(self.rev_entries()[p2] == s0.rev_entries()[p2]);
        }
    }

    /// Evicts the port's entries for exactly the given VLAN: called
    /// when a VLAN leaves a trunk port's allow-set.
    pub fn remove_port_vlan_entries(&mut self, port: usize, vlan: u16)
        requires
            old(self).wf(),
        ensures
            final(self).wf(),
            final(self).entries() == without_port_vlan(old(self).entries(), port, vlan),
    {
        let ghost s0 = *old(self);
        match buckets_remove(&mut self.rev, port as u64) {
            None => {
                proof {
                    assert forall|k: u64| s0.entries().dom().contains(k) implies s0.entries()[k]
                        != port by {
                        if s0.entries()[k] == port {
                            assert(s0.rev_has(port as u64, k));
                        }
                    }
                    assert(self.entries() =~= without_port_vlan(s0.entries(), port, vlan));
                    assert(self.rev_entries() =~= s0.rev_entries());
                    assert(self.entries() == s0.entries());
                    self.lemma_wf_from_equal(s0);
                }
            },
            Some(keys) => {
                let ghost bucket = keys@;
                proof {
                    assert(s0.rev_entries().dom().contains(port as u64));
                    assert(bucket.no_duplicates());
                }
                let mut kept: Vec<u64> = Vec::new();
                let n = keys.len();
                let mut i: usize = 0;
                while i < n
                    invariant
                        n == keys@.len(),
                        i <= n,
                        keys@ == bucket,
                        bucket.no_duplicates(),
                        self.rev_entries() == s0.rev_entries().remove(port as u64),
                        self.entries() == Map::new(
                            |k: u64|
                                s0.entries().dom().contains(k) && !(key_vlan(k) == vlan
                                    && bucket.take(i as int).contains(k)),
                            |k: u64| s0.entries()[k],
                        ),
                        kept@.no_duplicates(),
                        forall|x: u64| #[trigger] kept@.contains(x) <==> (bucket.take(
                            i as int,
                        ).contains(x) && key_vlan(x) != vlan),
                    decreases n - i,
                {
                    let k = keys[i];
                    let ghost kept0 = kept@;
                    if k / VLAN_KEY_BASE == vlan as u64 {
                        table_remove(&mut self.table, k);
                    } else {
                        proof {
                            if kept@.contains(k) {
                                let j = choose|j: int|
                                    0 <= j < i && bucket.take(i as int)[j] == k;
                                assert(bucket[j] == bucket[i as int]);
                            }
                            lemma_push_no_duplicates(kept@, k);
                        }
                        kept.push(k);
                    }
                    i = i + 1;
                    proof {
                        assert(bucket.take(i as int) =~= bucket.take(i - 1).push(bucket[i - 1]));
                        assert forall|x: u64| #[trigger] bucket.take(i as int).contains(x) implies (
                        bucket.take(i - 1).contains(x) || x == bucket[i - 1]) by {
                            vstd::seq_lib::lemma_seq_contains_after_push(
                                bucket.take(i - 1),
                                bucket[i - 1],
                                x,
                            );
                        }
                        assert forall|x: u64| bucket.take(i - 1).contains(x) || x == bucket[i - 1]
                            implies #[trigger] bucket.take(i as int).contains(x) by {
                            vstd::seq_lib::lemma_seq_contains_after_push(
                                bucket.take(i - 1),
                                bucket[i - 1],
                                x,
                            );
                        }
                        assert forall|x: u64| #[trigger] kept@.contains(x) implies (bucket.take(
                            i as int,
                        ).contains(x) && key_vlan(x) != vlan) by {
                            vstd::seq_lib::lemma_seq_contains_after_push(kept0, bucket[i - 1], x);
                        }
                        assert forall|x: u64| bucket.take(i as int).contains(x) && key_vlan(x)
                            != vlan implies #[trigger] kept@.contains(x) by {
                            vstd::seq_lib::lemma_seq_contains_after_push(kept0, bucket[i - 1], x);
                        }
                        assert(self.entries() =~= Map::new(
                            |k: u64|
                                s0.entries().dom().contains(k) && !(key_vlan(k) == vlan
                                    && bucket.take(i as int).contains(k)),
                            |k: u64| s0.entries()[k],
                        ));
                    }
                }
                buckets_insert(&mut self.rev, port as u64, kept);
                proof {
                    assert(bucket.take(n as int) =~= bucket);
                    assert forall|k: u64| s0.entries().dom().contains(k) implies (bucket.contains(
                        k,
                    ) <==> s0.entries()[k] == port) by {
                        if bucket.contains(k) {
                            assert(s0.rev_has(port as u64, k));
                        }
                        if s0.entries()[k] == port {
                            assert(s0.rev_has(port as u64, k));
                        }
                    }
                    assert forall|k: u64| bucket.contains(k) implies s0.entries().dom().contains(
                        k,
                    ) by {
                        assert(s0.rev_has(port as u64, k));
                    }
                    assert(self.entries() =~= without_port_vlan(s0.entries(), port, vlan));
                    assert(self.rev_entries() =~= s0.rev_entries().insert(port as u64, kept@));
                    self.lemma_remove_port_vlan_wf(s0, port, vlan, kept@);
                }
            },
        }
    }

    /// After the port's bucket is rewritten to its keys of other VLANs
    /// and the matching keys leave the forward table, the two indexes
    /// mirror each other again.
    proof fn lemma_remove_port_vlan_wf(self, s0: Fib, port: usize, vlan: u16, kept: Seq<u64>)
        requires
            s0.wf(),
            s0.rev_entries().dom().contains(port as u64),
            self.entries() == without_port_vlan(s0.entries(), port, vlan),
            self.rev_entries() == s0.rev_entries().insert(port as u64, kept),
            kept.no_duplicates(),
            forall|x: u64| #[trigger] kept.contains(x) <==> (s0.rev_entries()[port
                as u64].contains(x) && key_vlan(x) != vlan),
        ensures
            self.wf(),
    {
        assert forall|k: u64| #[trigger] self.entries().dom().contains(k) implies self.rev_has(
            self.entries()[k] as u64,
            k,
        ) by {
            let p = s0.entries()[k] as u64;
            assert(s0.rev_has(p, k));
            if p == port as u64 {
                assert(s0.entries()[k] == port);
                assert(key_vlan(k) != vlan);
                assert(kept.contains(k));
            }
        }
        assert forall|p2: u64, k2: u64| #[trigger] self.rev_has(p2, k2) implies
            self.entries().dom().contains(k2) && self.entries()[k2] as u64 == p2 by {
            if p2 == port as u64 {
                assert(kept.contains(k2));
                assert(s0.rev_has(p2, k2));
                assert(s0.entries()[k2] as u64 == p2);
            } else {
                assert(s0.rev_has(p2, k2));
                assert(s0.entries()[k2] as u64 == p2);
                assert(s0.entries()[k2] != port);
            }
        }
        assert forall|p2: u64| #[trigger] self.rev_entries().dom().contains(p2) implies
            self.rev_entries()[p2].no_duplicates() by {
            if p2 != port as u64 {
                assert(self.rev_entries()[p2] == s0.rev_entries()[p2]);
            }
        }
    }

    /// Appends `k` to `port`'s reverse bucket; the forward table is
    /// untouched.
    fn rev_add(&mut self, port: usize, k: u64)
        requires
            !old(self).rev_has(port as u64, k),
        ensures
            final(self).entries() == old(self).entries(),
            final(self).rev_entries() == old(self).rev_entries().insert(
                port as u64,
                old(self).bucket_or_empty(port as u64).push(k),
            ),
    {
        let pkey: u64 = port as u64;
        let mut b: Vec<u64> = match buckets_remove(&mut self.rev, pkey) {
            Some(b) => b,
            None => Vec::new(),
        };
        b.push(k);
        buckets_insert(&mut self.rev, pkey, b);
        proof {
            assert(self.rev_entries() =~= old(self).rev_entries().insert(
                pkey,
                old(self).bucket_or_empty(pkey).push(k),
            ));
        }
    }

    /// The port's reverse bucket, or the empty bucket if none exists.
    pub open spec fn bucket_or_empty(self, p: u64) -> Seq<u64> {
        if self.rev_entries().dom().contains(p) {
            self.rev_entries()[p]
        } else {
            Seq::<u64>::empty()
        }
    }

    /// Deletes `k` from `p`'s reverse bucket; the forward table is
    /// untouched.
    fn rev_del(&mut self, p: u64, k: u64)
        requires
            old(self).rev_has(p, k),
            old(self).rev_entries()[p].no_duplicates(),
        ensures
            final(self).entries() == old(self).entries(),
            final(self).rev_entries().dom() == old(self).rev_entries().dom(),
            forall|q: u64| q != p && #[trigger] old(self).rev_entries().dom().contains(q)
                ==> final(self).rev_entries()[q] == old(self).rev_entries()[q],
            final(self).rev_entries()[p].no_duplicates(),
            forall|x: u64| #[trigger] final(self).rev_entries()[p].contains(x)
                <==> (old(self).rev_entries()[p].contains(x) && x != k),
    {
        let mut b: Vec<u64> = match buckets_remove(&mut self.rev, p) {
            Some(b) => b,
            None => Vec::new(),
        };
        let ghost ob = b@;
        let mut i: usize = 0;
        let n = b.len();
        while i < n && b[i] != k
            invariant
                n == b@.len(),
                i <= n,
                b@ == ob,
                ob.contains(k),
                forall|j: int| 0 <= j < i ==> ob[j] != k,
            decreases n - i,
        {
            i = i + 1;
        }
        proof {
            assert(i < n && ob[i as int] == k) by {
                if i == n {
                    let widx = choose|j: int| 0 <= j < ob.len() && ob[j] == k;
                    assert(ob[widx] != k);
                }
            }
        }
        b.remove(i);
        buckets_insert(&mut self.rev, p, b);
        proof {
            let nb = ob.remove(i as int);
            assert(self.rev_entries() =~= old(self).rev_entries().insert(p, nb));
            assert(self.rev_entries().dom() =~= old(self).rev_entries().dom());
            // Removing the sole occurrence of k keeps every other value
            // and drops k.
            assert forall|x: u64| #[trigger] nb.contains(x) implies ob.contains(x) && x != k by {
                let j = choose|j: int| 0 <= j < nb.len() && nb[j] == x;
                if j < i {
                    assert(ob[j] == x);
                } else {
                    assert(ob[j + 1] == x);
                }
                if x == k {
                    if j < i {
                        assert(ob[j] == k && ob[i as int] == k);
                        assert(!ob.no_duplicates());
                    } else {
                        assert(ob[j + 1] == k && ob[i as int] == k);
                        assert(!ob.no_duplicates());
                    }
                }
            }
            assert forall|x: u64| ob.contains(x) && x != k implies #[trigger] nb.contains(x) by {
                let j = choose|j: int| 0 <= j < ob.len() && ob[j] == x;
                if j < i {
                    assert(nb[j] == x);
                } else {
                    assert(j != i);
                    assert(nb[j - 1] == x);
                }
            }
            // no_duplicates carries over to the shorter bucket.
            assert(nb.no_duplicates()) by {
                assert forall|u: int, v: int|
                    0 <= u < nb.len() && 0 <= v < nb.len() && u != v implies nb[u] != nb[v] by {
                    let ou = if u < i { u } else { u + 1 };
                    let ov = if v < i { v } else { v + 1 };
                    assert(nb[u] == ob[ou] && nb[v] == ob[ov]);
                }
            }
        }
    }
}

/// Packs a VLAN id and a MAC address into the 64-bit table key.
fn make_key(vlan: u16, mac: &Mac) -> (k: u64)
    ensures
        k == key_of(vlan, *mac),
{
    proof {
        Mac::lemma_val_bound(*mac);
        assert(vlan * 0x1000000000000 <= 65535 * 0x1000000000000) by (nonlinear_arith)
            requires
                vlan <= 65535,
        ;
    }
    (vlan as u64) * VLAN_KEY_BASE + mac.val()
}


/// Law: a learned binding is immediately visible to lookup, and a
/// second learn of the same key overwrites it — last learned wins,
/// never the older owner.
pub proof fn lemma_learn_then_lookup(m: Map<u64, usize>, vlan: u16, mac: Mac, p: usize, q: usize)
    ensures
        lookup_spec(learn_spec(m, vlan, mac, p), vlan, mac) == Some(p),
        lookup_spec(learn_spec(learn_spec(m, vlan, mac, p), vlan, mac, q), vlan, mac) == Some(q),
        p != q ==> lookup_spec(learn_spec(learn_spec(m, vlan, mac, p), vlan, mac, q), vlan, mac)
            != Some(p),
{
}

/// Law: after a port's entries are evicted, every key the port owned
/// misses, and a key owned by any other port still resolves as before.
pub proof fn lemma_remove_port_lookup(m: Map<u64, usize>, port: usize, vlan: u16, mac: Mac)
    ensures
        lookup_spec(m, vlan, mac) == Some(port) ==> lookup_spec(
            without_port(m, port),
            vlan,
            mac,
        ) is None,
        (match lookup_spec(m, vlan, mac) {
            Some(q) => q != port,
            None => true,
        }) ==> lookup_spec(without_port(m, port), vlan, mac) == lookup_spec(m, vlan, mac),
{
}

/// Law: a binding learned for another port is untouched by evicting
/// this port's entries, whatever key it sits under.
pub proof fn lemma_remove_port_keeps_unrelated_learn(
    m: Map<u64, usize>,
    port: usize,
    vlan: u16,
    mac: Mac,
    q: usize,
)
    requires
        q != port,
    ensures
        lookup_spec(without_port(learn_spec(m, vlan, mac, q), port), vlan, mac) == Some(q),
{
}

/// Law: evicting a port's entries for one VLAN removes exactly those:
/// a key of that VLAN owned by the port misses afterwards, and every
/// key of any other VLAN resolves as before.
pub proof fn lemma_remove_port_vlan_lookup(
    m: Map<u64, usize>,
    port: usize,
    vlan: u16,
    mac: Mac,
    vlan2: u16,
    mac2: Mac,
)
    ensures
        lookup_spec(m, vlan, mac) == Some(port) ==> lookup_spec(
            without_port_vlan(m, port, vlan),
            vlan,
            mac,
        ) is None,
        vlan2 != vlan ==> lookup_spec(without_port_vlan(m, port, vlan), vlan2, mac2)
            == lookup_spec(m, vlan2, mac2),
{
    lemma_key_parts(vlan, mac);
    lemma_key_parts(vlan2, mac2);
}

} // verus!
