//! A model of the lease-backed key-value store.
//!
//! The real store is reached over the network; this model captures, as
//! verified code, exactly the behaviour the registration core relies on:
//! unique keys, leases granted with a positive time-to-live, a heartbeat
//! that resets a lease's remaining life without touching any stored
//! value, and deletion by exact key or by prefix.
//!
//! Every mutating operation's contract is stated as a transition relation
//! between the store before and after the call, so that laws about
//! sequences of calls (idempotence of reconciliation, the put/get round
//! trip) can be proved from the contracts alone.

use vstd::prelude::*;
use vstd::seq_lib::*;
use vstd::string::StringExecFns;

use crate::text::{str_eq, str_has_prefix};

verus! {

/// One stored key-value pair. A `lease` of zero is the no-lease sentinel:
/// the record never expires.
pub struct StoreRecord {
    pub key: String,
    pub value: String,
    pub lease: i64,
}

/// One live lease: its id, the time-to-live it was granted with, and the
/// instant it was last granted or renewed. It expires at
/// `renewed_at + ttl`.
#[derive(Clone, Copy, PartialEq, Eq, Structural, Debug)]
pub struct LeaseInfo {
    pub id: i64,
    pub ttl: i64,
    pub renewed_at: i64,
}

/// The store model: the stored records, the live leases, the next unused
/// lease id, and the current instant in seconds.
pub struct StoreModel {
    pub records: Vec<StoreRecord>,
    pub leases: Vec<LeaseInfo>,
    pub next_lease_id: i64,
    pub now: i64,
}

impl StoreModel {
    /// Well-formedness: keys are unique, lease ids are unique, positive
    /// and below the next unused id, lease time-to-lives are positive,
    /// and every non-zero lease id a record carries names a live lease.
    pub open spec fn wf(self) -> bool {
        &&& 1 <= self.next_lease_id
        &&& forall|i: int, j: int|
            0 <= i < j < self.records@.len() ==> #[trigger] self.records@[i].key@
                != #[trigger] self.records@[j].key@
        &&& forall|i: int, j: int|
            0 <= i < j < self.leases@.len() ==> #[trigger] self.leases@[i].id
                != #[trigger] self.leases@[j].id
        &&& forall|i: int|
            0 <= i < self.leases@.len() ==> 1 <= (#[trigger] self.leases@[i]).id
                < self.next_lease_id
        &&& forall|i: int| 0 <= i < self.leases@.len() ==> 0 < (#[trigger] self.leases@[i]).ttl
        &&& forall|i: int|
            0 <= i < self.records@.len() ==> ((#[trigger] self.records@[i]).lease == 0
                || self.spec_has_lease(self.records@[i].lease))
    }

    /// Whether a record with key `k` is stored.
    pub open spec fn spec_has_key(self, k: Seq<char>) -> bool {
        exists|i: int| 0 <= i < self.records@.len() && (#[trigger] self.records@[i]).key@ == k
    }

    /// The position of the record with key `k` (meaningful only when
    /// `spec_has_key(k)` holds; unique under `wf`).
    pub open spec fn spec_index_of(self, k: Seq<char>) -> int {
        choose|i: int| 0 <= i < self.records@.len() && (#[trigger] self.records@[i]).key@ == k
    }

    /// The value stored under key `k`.
    pub open spec fn spec_value_of(self, k: Seq<char>) -> Seq<char> {
        self.records@[self.spec_index_of(k)].value@
    }

    /// The lease id the record under key `k` carries (zero for none).
    pub open spec fn spec_lease_of(self, k: Seq<char>) -> i64 {
        self.records@[self.spec_index_of(k)].lease
    }

    /// Whether a lease with this id is live.
    pub open spec fn spec_has_lease(self, id: i64) -> bool {
        exists|i: int| 0 <= i < self.leases@.len() && (#[trigger] self.leases@[i]).id == id
    }

    /// The position of the lease with this id (unique under `wf`).
    pub open spec fn spec_lease_index(self, id: i64) -> int {
        choose|i: int| 0 <= i < self.leases@.len() && (#[trigger] self.leases@[i]).id == id
    }

    /// The time-to-live the lease was granted with.
    pub open spec fn spec_lease_ttl(self, id: i64) -> i64 {
        self.leases@[self.spec_lease_index(id)].ttl
    }

    /// The instant the lease was last granted or renewed.
    pub open spec fn spec_lease_renewed_at(self, id: i64) -> i64 {
        self.leases@[self.spec_lease_index(id)].renewed_at
    }

    /// A record's position pins down `spec_index_of` for its key.
    pub proof fn lemma_index_of(self, i: int)
        requires
            forall|a: int, b: int|
                0 <= a < b < self.records@.len() ==> #[trigger] self.records@[a].key@
                    != #[trigger] self.records@[b].key@,
            0 <= i < self.records@.len(),
        ensures
            self.spec_has_key(self.records@[i].key@),
            self.spec_index_of(self.records@[i].key@) == i,
    {
        let k = self.records@[i].key@;
        assert(self.spec_has_key(k));
        let j = self.spec_index_of(k);
        assert(0 <= j < self.records@.len() && self.records@[j].key@ == k);
        if i < j {
            assert(self.records@[i].key@ != self.records@[j].key@);
        }
        if j < i {
            assert(self.records@[j].key@ != self.records@[i].key@);
        }
    }

    /// A lease's position pins down `spec_lease_index` for its id.
    pub proof fn lemma_lease_index_of(self, i: int)
        requires
            forall|a: int, b: int|
                0 <= a < b < self.leases@.len() ==> #[trigger] self.leases@[a].id
                    != #[trigger] self.leases@[b].id,
            0 <= i < self.leases@.len(),
        ensures
            self.spec_has_lease(self.leases@[i].id),
            self.spec_lease_index(self.leases@[i].id) == i,
    {
        let id = self.leases@[i].id;
        assert(self.spec_has_lease(id));
        let j = self.spec_lease_index(id);
        assert(0 <= j < self.leases@.len() && self.leases@[j].id == id);
        if i < j {
            assert(self.leases@[i].id != self.leases@[j].id);
        }
        if j < i {
            assert(self.leases@[j].id != self.leases@[i].id);
        }
    }

    /// A stored key survives in any store holding the same record
    /// sequence.
    proof fn lemma_key_set_unchanged(self, other: StoreModel, k: Seq<char>)
        requires
            self.records@ == other.records@,
            self.spec_has_key(k),
        ensures
            other.spec_has_key(k),
    {
        let w = choose|i: int|
            0 <= i < self.records@.len() && (#[trigger] self.records@[i]).key@ == k;
        assert(other.records@[w].key@ == k);
    }

    /// Two stores with the same record sequence agree on every key's
    /// presence, position, value and lease id.
    proof fn lemma_record_view_eq(self, other: StoreModel, k: Seq<char>)
        requires
            self.wf(),
            self.records@ == other.records@,
        ensures
            self.spec_has_key(k) == other.spec_has_key(k),
            self.spec_has_key(k) ==> {
                &&& other.spec_index_of(k) == self.spec_index_of(k)
                &&& other.spec_value_of(k) == self.spec_value_of(k)
                &&& other.spec_lease_of(k) == self.spec_lease_of(k)
            },
    {
        if self.spec_has_key(k) {
            self.lemma_key_set_unchanged(other, k);
            let i = self.spec_index_of(k);
            let j = other.spec_index_of(k);
            assert(0 <= i < self.records@.len() && self.records@[i].key@ == k);
            assert(0 <= j < other.records@.len() && other.records@[j].key@ == k);
            if i < j {
                assert(self.records@[i].key@ != self.records@[j].key@);
            }
            if j < i {
                assert(self.records@[j].key@ != self.records@[i].key@);
            }
        } else if other.spec_has_key(k) {
            other.lemma_key_set_unchanged(self, k);
        }
    }

    /// A live lease survives in any store holding the same lease
    /// sequence.
    proof fn lemma_lease_set_unchanged(self, other: StoreModel, id: i64)
        requires
            self.leases@ == other.leases@,
            self.spec_has_lease(id),
        ensures
            other.spec_has_lease(id),
    {
        let w = choose|i: int|
            0 <= i < self.leases@.len() && (#[trigger] self.leases@[i]).id == id;
        assert(other.leases@[w].id == id);
    }

    /// Two stores with the same lease sequence agree on every lease's
    /// presence, position, time-to-live and renewal instant.
    proof fn lemma_lease_view_eq(self, other: StoreModel, id: i64)
        requires
            self.wf(),
            self.leases@ == other.leases@,
        ensures
            self.spec_has_lease(id) == other.spec_has_lease(id),
            self.spec_has_lease(id) ==> {
                &&& other.spec_lease_index(id) == self.spec_lease_index(id)
                &&& other.spec_lease_ttl(id) == self.spec_lease_ttl(id)
                &&& other.spec_lease_renewed_at(id) == self.spec_lease_renewed_at(id)
            },
    {
        if self.spec_has_lease(id) {
            self.lemma_lease_set_unchanged(other, id);
            let i = self.spec_lease_index(id);
            let j = other.spec_lease_index(id);
            assert(0 <= i < self.leases@.len() && self.leases@[i].id == id);
            assert(0 <= j < other.leases@.len() && other.leases@[j].id == id);
            if i < j {
                assert(self.leases@[i].id != self.leases@[j].id);
            }
            if j < i {
                assert(self.leases@[j].id != self.leases@[i].id);
            }
        } else if other.spec_has_lease(id) {
            other.lemma_lease_set_unchanged(self, id);
        }
    }

    /// An empty store at instant zero.
    pub fn new() -> (s: StoreModel)
        ensures
            s.wf(),
            s.records@.len() == 0,
            s.leases@.len() == 0,
            s.next_lease_id == 1,
            s.now == 0,
    {
        StoreModel { records: Vec::new(), leases: Vec::new(), next_lease_id: 1, now: 0 }
    }

    /// Moves the store's clock forward.
    pub fn advance_time(&mut self, dt: i64)
        requires
            old(self).wf(),
            0 <= dt,
            old(self).now + dt <= i64::MAX,
        ensures
            final(self).wf(),
            final(self).now == old(self).now + dt,
            final(self).records@ == old(self).records@,
            final(self).leases@ == old(self).leases@,
            final(self).next_lease_id == old(self).next_lease_id,
    {
        self.now = self.now + dt;
        proof {
            assert(self.records@ == old(self).records@);
            assert(self.leases@ == old(self).leases@);
            assert forall|i: int|
                0 <= i < self.records@.len() && (#[trigger] self.records@[i]).lease
                    != 0 implies self.spec_has_lease(self.records@[i].lease) by {
                assert(old(self).spec_has_lease(old(self).records@[i].lease));
                let w = choose|j: int|
                    0 <= j < old(self).leases@.len() && (#[trigger] old(self).leases@[j]).id
                        == old(self).records@[i].lease;
                assert(self.leases@[w].id == self.records@[i].lease);
            }
        }
    }

    /// The position of the record with this key, if any.
    fn find_index(&self, key: &str) -> (r: Option<usize>)
        requires
            self.wf(),
        ensures
            match r {
                Some(i) => {
                    &&& i < self.records@.len()
                    &&& self.records@[i as int].key@ == key@
                    &&& self.spec_has_key(key@)
                    &&& self.spec_index_of(key@) == i
                },
                None => !self.spec_has_key(key@),
            },
    {
        let mut i: usize = 0;
        while i < self.records.len()
            invariant
                self.wf(),
                i <= self.records@.len(),
                forall|j: int| 0 <= j < i ==> (#[trigger] self.records@[j]).key@ != key@,
            decreases self.records@.len() - i,
        {
            if str_eq(self.records[i].key.as_str(), key) {
                proof {
                    self.lemma_index_of(i as int);
                }
                return Some(i);
            }
            i = i + 1;
        }
        None
    }

    /// The position of the lease with this id, if any.
    fn find_lease_index(&self, id: i64) -> (r: Option<usize>)
        requires
            self.wf(),
        ensures
            match r {
                Some(i) => {
                    &&& i < self.leases@.len()
                    &&& self.leases@[i as int].id == id
                    &&& self.spec_has_lease(id)
                    &&& self.spec_lease_index(id) == i
                },
                None => !self.spec_has_lease(id),
            },
    {
        let mut i: usize = 0;
        while i < self.leases.len()
            invariant
                self.wf(),
                i <= self.leases@.len(),
                forall|j: int| 0 <= j < i ==> (#[trigger] self.leases@[j]).id != id,
            decreases self.leases@.len() - i,
        {
            if self.leases[i].id == id {
                proof {
                    self.lemma_lease_index_of(i as int);
                }
                return Some(i);
            }
            i = i + 1;
        }
        None
    }

    /// Looks a key up by exact match, returning a copy of its record.
    pub fn get(&self, key: &str) -> (r: Option<StoreRecord>)
        requires
            self.wf(),
        ensures
            match r {
                Some(rec) => {
                    &&& self.spec_has_key(key@)
                    &&& rec.key@ == key@
                    &&& rec.value@ == self.spec_value_of(key@)
                    &&& rec.lease == self.spec_lease_of(key@)
                },
                None => !self.spec_has_key(key@),
            },
    {
        match self.find_index(key) {
            Some(i) => {
                let rec = StoreRecord {
                    key: self.records[i].key.clone(),
                    value: self.records[i].value.clone(),
                    lease: self.records[i].lease,
                };
                Some(rec)
            },
            None => None,
        }
    }

    /// Returns copies of all records whose key starts with `prefix`, in
    /// store order.
    pub fn get_with_prefix(&self, prefix: &str) -> (r: Vec<StoreRecord>)
        requires
            self.wf(),
        ensures
            r@ == spec_matching_prefix(self.records@, prefix@),
    {
        let mut r: Vec<StoreRecord> = Vec::new();
        let n = self.records.len();
        let mut i: usize = 0;
        while i < n
            invariant
                self.wf(),
                n == self.records@.len(),
                i <= n,
                r@ == spec_matching_prefix(self.records@.take(i as int), prefix@),
            decreases n - i,
        {
            if str_has_prefix(self.records[i].key.as_str(), prefix) {
                let rec = StoreRecord {
                    key: self.records[i].key.clone(),
                    value: self.records[i].value.clone(),
                    lease: self.records[i].lease,
                };
                assert(rec == self.records@[i as int]);
                r.push(rec);
            }
            proof {
                let x = self.records@[i as int];
                let t0 = self.records@.take(i as int);
                self.records@.lemma_take_succ_push(i as int);
                assert(self.records@.take(i as int + 1) == t0.push(x));
                t0.lemma_filter_push(x, spec_matches(prefix@));
                assert(spec_matches(prefix@)(x) == prefix@.is_prefix_of(x.key@));
            }
            i = i + 1;
        }
        proof {
            assert(self.records@.take(n as int) =~= self.records@);
        }
        r
    }

    /// Creates or overwrites a record. A `ttl` of zero writes it without
    /// a lease; a positive `ttl` first grants a fresh lease for that many
    /// seconds and binds the record to it. Returns the previous value
    /// when the key already existed.
    pub fn put(&mut self, key: &str, value: &str, ttl: i64) -> (prev: Option<String>)
        requires
            old(self).wf(),
            0 <= ttl,
            old(self).next_lease_id < i64::MAX,
        ensures
            final(self).wf(),
            spec_put_transition(*old(self), *final(self), key@, value@, ttl),
            final(self).spec_has_key(key@),
            final(self).spec_value_of(key@) == value@,
            final(self).spec_lease_of(key@) == spec_put_lease_bound(*old(self), ttl),
            ttl != 0 ==> {
                &&& final(self).spec_has_lease(old(self).next_lease_id)
                &&& final(self).spec_lease_ttl(old(self).next_lease_id) == ttl
                &&& final(self).spec_lease_renewed_at(old(self).next_lease_id) == old(self).now
            },
            match prev {
                Some(p) => old(self).spec_has_key(key@) && p@ == old(self).spec_value_of(key@),
                None => !old(self).spec_has_key(key@),
            },
            forall|k2: Seq<char>|
                #[trigger] old(self).spec_has_key(k2) && k2 != key@ ==> {
                    &&& final(self).spec_has_key(k2)
                    &&& final(self).spec_value_of(k2) == old(self).spec_value_of(k2)
                    &&& final(self).spec_lease_of(k2) == old(self).spec_lease_of(k2)
                },
            forall|k2: Seq<char>|
                #[trigger] final(self).spec_has_key(k2) ==> old(self).spec_has_key(k2) || k2
                    == key@,
            forall|id: i64|
                #[trigger] old(self).spec_has_lease(id) ==> {
                    &&& final(self).spec_has_lease(id)
                    &&& final(self).spec_lease_ttl(id) == old(self).spec_lease_ttl(id)
                    &&& final(self).spec_lease_renewed_at(id) == old(self).spec_lease_renewed_at(
                        id,
                    )
                },
            forall|id: i64|
                #[trigger] final(self).spec_has_lease(id) ==> old(self).spec_has_lease(id) || (ttl
                    != 0 && id == old(self).next_lease_id),
            final(self).now == old(self).now,
            final(self).next_lease_id == if ttl == 0 {
                old(self).next_lease_id as int
            } else {
                old(self).next_lease_id + 1
            },
    {
        let bound: i64;
        if ttl == 0 {
            bound = 0;
        } else {
            bound = self.next_lease_id;
            let granted = LeaseInfo { id: bound, ttl, renewed_at: self.now };
            self.leases.push(granted);
            self.next_lease_id = self.next_lease_id + 1;
        }
        let ghost mid = *self;
        proof {
            if ttl != 0 {
                lemma_lease_push_frame(
                    *old(self),
                    mid,
                    LeaseInfo { id: bound, ttl, renewed_at: old(self).now },
                );
            }
            assert(mid.wf());
        }
        match self.find_index(key) {
            Some(i) => {
                let prev_val = self.records[i].value.clone();
                let replaced = StoreRecord {
                    key: String::from_str(key),
                    value: String::from_str(value),
                    lease: bound,
                };
                self.records[i] = replaced;
                proof {
                    self.lemma_put_existing(*old(self), mid, i as int, key@, value@, ttl, bound);
                }
                Some(prev_val)
            },
            None => {
                let added = StoreRecord {
                    key: String::from_str(key),
                    value: String::from_str(value),
                    lease: bound,
                };
                self.records.push(added);
                proof {
                    self.lemma_put_fresh(*old(self), mid, key@, value@, ttl, bound);
                }
                None
            },
        }
    }

    /// The record sequence after the in-place overwrite in `put` keeps
    /// every contract clause of `put`.
    proof fn lemma_put_existing(
        self,
        pre: StoreModel,
        mid: StoreModel,
        i: int,
        k: Seq<char>,
        v: Seq<char>,
        ttl: i64,
        bound: i64,
    )
        requires
            pre.wf(),
            mid.wf(),
            0 <= ttl,
            pre.next_lease_id < i64::MAX,
            mid.records@ == pre.records@,
            mid.now == pre.now,
            bound == spec_put_lease_bound(pre, ttl),
            ttl == 0 ==> mid.leases@ == pre.leases@ && mid.next_lease_id == pre.next_lease_id,
            ttl != 0 ==> mid.leases@ == pre.leases@.push(
                (LeaseInfo { id: pre.next_lease_id, ttl: ttl, renewed_at: pre.now }),
            ) && mid.next_lease_id == pre.next_lease_id + 1,
            0 <= i < mid.records@.len(),
            mid.records@[i].key@ == k,
            mid.spec_index_of(k) == i,
            self.records@ == mid.records@.update(
                i,
                (StoreRecord {
                    key: self.records@[i].key,
                    value: self.records@[i].value,
                    lease: bound,
                }),
            ),
            self.records@[i].key@ == k,
            self.records@[i].value@ == v,
            self.records@[i].lease == bound,
            self.leases@ == mid.leases@,
            self.next_lease_id == mid.next_lease_id,
            self.now == mid.now,
        ensures
            self.wf(),
            spec_put_transition(pre, self, k, v, ttl),
            self.spec_has_key(k),
            self.spec_value_of(k) == v,
            self.spec_lease_of(k) == bound,
            ttl != 0 ==> {
                &&& self.spec_has_lease(pre.next_lease_id)
                &&& self.spec_lease_ttl(pre.next_lease_id) == ttl
                &&& self.spec_lease_renewed_at(pre.next_lease_id) == pre.now
            },
            pre.spec_has_key(k),
            forall|k2: Seq<char>|
                #[trigger] pre.spec_has_key(k2) && k2 != k ==> {
                    &&& self.spec_has_key(k2)
                    &&& self.spec_value_of(k2) == pre.spec_value_of(k2)
                    &&& self.spec_lease_of(k2) == pre.spec_lease_of(k2)
                },
            forall|k2: Seq<char>|
                #[trigger] self.spec_has_key(k2) ==> pre.spec_has_key(k2) || k2 == k,
            forall|id: i64|
                #[trigger] pre.spec_has_lease(id) ==> {
                    &&& self.spec_has_lease(id)
                    &&& self.spec_lease_ttl(id) == pre.spec_lease_ttl(id)
                    &&& self.spec_lease_renewed_at(id) == pre.spec_lease_renewed_at(id)
                },
            forall|id: i64|
                #[trigger] self.spec_has_lease(id) ==> pre.spec_has_lease(id) || (ttl != 0 && id
                    == pre.next_lease_id),
    {
        // key uniqueness carries over: positions other than `i` are
        // unchanged and position `i` keeps its key.
        assert(forall|a: int, b: int|
            0 <= a < b < self.records@.len() ==> #[trigger] self.records@[a].key@
                != #[trigger] self.records@[b].key@);
        // the freshly granted lease is live in `mid`, hence in `self`.
        if ttl != 0 {
            lemma_lease_push_frame(
                pre,
                mid,
                LeaseInfo { id: pre.next_lease_id, ttl: ttl, renewed_at: pre.now },
            );
        }
        assert forall|j: int|
            0 <= j < self.records@.len() && (#[trigger] self.records@[j]).lease
                != 0 implies self.spec_has_lease(self.records@[j].lease) by {
            if j == i {
                mid.lemma_lease_set_unchanged(*&self, bound);
            } else {
                assert(self.records@[j] == mid.records@[j]);
                assert(mid.spec_has_lease(mid.records@[j].lease));
                mid.lemma_lease_set_unchanged(*&self, mid.records@[j].lease);
            }
        }
        assert(self.wf());
        self.lemma_index_of(i);
        mid.lemma_record_view_eq(pre, k);
        assert(pre.spec_index_of(k) == i);
        assert(pre.spec_has_key(k));
        // frame over the other keys.
        assert forall|k2: Seq<char>| #[trigger] pre.spec_has_key(k2) && k2 != k implies {
            &&& self.spec_has_key(k2)
            &&& self.spec_value_of(k2) == pre.spec_value_of(k2)
            &&& self.spec_lease_of(k2) == pre.spec_lease_of(k2)
        } by {
            pre.lemma_record_view_eq(mid, k2);
            let j = pre.spec_index_of(k2);
            assert(pre.records@[j].key@ == k2);
            assert(j != i);
            assert(self.records@[j] == pre.records@[j]);
            self.lemma_index_of(j);
            pre.lemma_index_of(j);
        }
        assert forall|k2: Seq<char>| #[trigger] self.spec_has_key(k2) implies pre.spec_has_key(k2)
            || k2 == k by {
            if k2 != k {
                let j = self.spec_index_of(k2);
                assert(self.records@[j].key@ == k2);
                assert(j != i);
                assert(pre.records@[j].key@ == k2);
            }
        }
        // frame over the leases.
        assert forall|id: i64| #[trigger] pre.spec_has_lease(id) implies {
            &&& self.spec_has_lease(id)
            &&& self.spec_lease_ttl(id) == pre.spec_lease_ttl(id)
            &&& self.spec_lease_renewed_at(id) == pre.spec_lease_renewed_at(id)
        } by {
            if ttl != 0 {
                mid.lemma_lease_view_eq(*&self, id);
            } else {
                pre.lemma_lease_view_eq(*&self, id);
            }
        }
        assert forall|id: i64| #[trigger] self.spec_has_lease(id) implies pre.spec_has_lease(id)
            || (ttl != 0 && id == pre.next_lease_id) by {
            self.lemma_lease_view_eq(mid, id);
        }
        if ttl != 0 {
            mid.lemma_lease_view_eq(*&self, pre.next_lease_id);
        }
        assert(spec_put_transition(pre, self, k, v, ttl));
    }

    /// The record sequence after the push in `put` keeps every contract
    /// clause of `put`.
    proof fn lemma_put_fresh(
        self,
        pre: StoreModel,
        mid: StoreModel,
        k: Seq<char>,
        v: Seq<char>,
        ttl: i64,
        bound: i64,
    )
        requires
            pre.wf(),
            mid.wf(),
            0 <= ttl,
            pre.next_lease_id < i64::MAX,
            mid.records@ == pre.records@,
            mid.now == pre.now,
            bound == spec_put_lease_bound(pre, ttl),
            ttl == 0 ==> mid.leases@ == pre.leases@ && mid.next_lease_id == pre.next_lease_id,
            ttl != 0 ==> mid.leases@ == pre.leases@.push(
                (LeaseInfo { id: pre.next_lease_id, ttl: ttl, renewed_at: pre.now }),
            ) && mid.next_lease_id == pre.next_lease_id + 1,
            !mid.spec_has_key(k),
            self.records@ == mid.records@.push(
                (StoreRecord {
                    key: self.records@[mid.records@.len() as int].key,
                    value: self.records@[mid.records@.len() as int].value,
                    lease: bound,
                }),
            ),
            self.records@[mid.records@.len() as int].key@ == k,
            self.records@[mid.records@.len() as int].value@ == v,
            self.records@[mid.records@.len() as int].lease == bound,
            self.leases@ == mid.leases@,
            self.next_lease_id == mid.next_lease_id,
            self.now == mid.now,
        ensures
            self.wf(),
            spec_put_transition(pre, self, k, v, ttl),
            self.spec_has_key(k),
            self.spec_value_of(k) == v,
            self.spec_lease_of(k) == bound,
            ttl != 0 ==> {
                &&& self.spec_has_lease(pre.next_lease_id)
                &&& self.spec_lease_ttl(pre.next_lease_id) == ttl
                &&& self.spec_lease_renewed_at(pre.next_lease_id) == pre.now
            },
            !pre.spec_has_key(k),
            forall|k2: Seq<char>|
                #[trigger] pre.spec_has_key(k2) && k2 != k ==> {
                    &&& self.spec_has_key(k2)
                    &&& self.spec_value_of(k2) == pre.spec_value_of(k2)
                    &&& self.spec_lease_of(k2) == pre.spec_lease_of(k2)
                },
            forall|k2: Seq<char>|
                #[trigger] self.spec_has_key(k2) ==> pre.spec_has_key(k2) || k2 == k,
            forall|id: i64|
                #[trigger] pre.spec_has_lease(id) ==> {
                    &&& self.spec_has_lease(id)
                    &&& self.spec_lease_ttl(id) == pre.spec_lease_ttl(id)
                    &&& self.spec_lease_renewed_at(id) == pre.spec_lease_renewed_at(id)
                },
            forall|id: i64|
                #[trigger] self.spec_has_lease(id) ==> pre.spec_has_lease(id) || (ttl != 0 && id
                    == pre.next_lease_id),
    {
        let n = mid.records@.len() as int;
        mid.lemma_record_view_eq(pre, k);
        assert(!pre.spec_has_key(k));
        // key uniqueness: the new key equals no stored key, or `mid`
        // would already hold it.
        assert forall|a: int, b: int|
            0 <= a < b < self.records@.len() implies #[trigger] self.records@[a].key@
            != #[trigger] self.records@[b].key@ by {
            if b == n {
                assert(self.records@[a] == mid.records@[a]);
                if self.records@[a].key@ == k {
                    assert(mid.spec_has_key(k));
                }
            }
        }
        if ttl != 0 {
            lemma_lease_push_frame(
                pre,
                mid,
                LeaseInfo { id: pre.next_lease_id, ttl: ttl, renewed_at: pre.now },
            );
        }
        assert forall|j: int|
            0 <= j < self.records@.len() && (#[trigger] self.records@[j]).lease
                != 0 implies self.spec_has_lease(self.records@[j].lease) by {
            if j == n {
                mid.lemma_lease_set_unchanged(*&self, bound);
            } else {
                assert(self.records@[j] == mid.records@[j]);
                assert(mid.spec_has_lease(mid.records@[j].lease));
                mid.lemma_lease_set_unchanged(*&self, mid.records@[j].lease);
            }
        }
        assert(self.wf());
        self.lemma_index_of(n);
        // frame over the other keys.
        assert forall|k2: Seq<char>| #[trigger] pre.spec_has_key(k2) && k2 != k implies {
            &&& self.spec_has_key(k2)
            &&& self.spec_value_of(k2) == pre.spec_value_of(k2)
            &&& self.spec_lease_of(k2) == pre.spec_lease_of(k2)
        } by {
            let j = pre.spec_index_of(k2);
            assert(pre.records@[j].key@ == k2);
            assert(self.records@[j] == pre.records@[j]);
            self.lemma_index_of(j);
            pre.lemma_index_of(j);
        }
        assert forall|k2: Seq<char>| #[trigger] self.spec_has_key(k2) implies pre.spec_has_key(k2)
            || k2 == k by {
            if k2 != k {
                let j = self.spec_index_of(k2);
                assert(self.records@[j].key@ == k2);
                assert(j != n);
                assert(pre.records@[j].key@ == k2);
            }
        }
        // frame over the leases.
        assert forall|id: i64| #[trigger] pre.spec_has_lease(id) implies {
            &&& self.spec_has_lease(id)
            &&& self.spec_lease_ttl(id) == pre.spec_lease_ttl(id)
            &&& self.spec_lease_renewed_at(id) == pre.spec_lease_renewed_at(id)
        } by {
            if ttl != 0 {
                mid.lemma_lease_view_eq(*&self, id);
            } else {
                pre.lemma_lease_view_eq(*&self, id);
            }
        }
        assert forall|id: i64| #[trigger] self.spec_has_lease(id) implies pre.spec_has_lease(id)
            || (ttl != 0 && id == pre.next_lease_id) by {
            self.lemma_lease_view_eq(mid, id);
        }
        if ttl != 0 {
            mid.lemma_lease_view_eq(*&self, pre.next_lease_id);
        }
        assert(spec_put_transition(pre, self, k, v, ttl));
    }

    /// Deletes the record under an exact key, returning how many records
    /// were removed (one or zero). Leases are left as they are.
    pub fn delete(&mut self, key: &str) -> (count: i64)
        requires
            old(self).wf(),
        ensures
            final(self).wf(),
            count == (if old(self).spec_has_key(key@) { 1int } else { 0int }),
            !final(self).spec_has_key(key@),
            forall|k2: Seq<char>|
                #[trigger] old(self).spec_has_key(k2) && k2 != key@ ==> {
                    &&& final(self).spec_has_key(k2)
                    &&& final(self).spec_value_of(k2) == old(self).spec_value_of(k2)
                    &&& final(self).spec_lease_of(k2) == old(self).spec_lease_of(k2)
                },
            forall|k2: Seq<char>|
                #[trigger] final(self).spec_has_key(k2) ==> old(self).spec_has_key(k2) && k2
                    != key@,
            final(self).leases@ == old(self).leases@,
            final(self).next_lease_id == old(self).next_lease_id,
            final(self).now == old(self).now,
    {
        match self.find_index(key) {
            Some(i) => {
                self.records.remove(i);
                proof {
                    self.lemma_delete_frame(*old(self), i as int, key@);
                }
                1
            },
            None => 0,
        }
    }

    /// Removing one record keeps every other record in place, with its
    /// value and lease id.
    proof fn lemma_delete_frame(self, pre: StoreModel, i: int, k: Seq<char>)
        requires
            pre.wf(),
            0 <= i < pre.records@.len(),
            pre.records@[i].key@ == k,
            pre.spec_index_of(k) == i,
            self.records@ == pre.records@.remove(i),
            self.leases@ == pre.leases@,
            self.next_lease_id == pre.next_lease_id,
            self.now == pre.now,
        ensures
            self.wf(),
            !self.spec_has_key(k),
            forall|k2: Seq<char>|
                #[trigger] pre.spec_has_key(k2) && k2 != k ==> {
                    &&& self.spec_has_key(k2)
                    &&& self.spec_value_of(k2) == pre.spec_value_of(k2)
                    &&& self.spec_lease_of(k2) == pre.spec_lease_of(k2)
                },
            forall|k2: Seq<char>|
                #[trigger] self.spec_has_key(k2) ==> pre.spec_has_key(k2) && k2 != k,
    {
        // each surviving position maps to its old position.
        assert forall|j: int| 0 <= j < self.records@.len() implies #[trigger] self.records@[j]
            == pre.records@[if j < i { j } else { j + 1 }] by {}
        assert forall|a: int, b: int|
            0 <= a < b < self.records@.len() implies #[trigger] self.records@[a].key@
            != #[trigger] self.records@[b].key@ by {
            let a0 = if a < i { a } else { a + 1 };
            let b0 = if b < i { b } else { b + 1 };
            assert(self.records@[a] == pre.records@[a0]);
            assert(self.records@[b] == pre.records@[b0]);
        }
        assert forall|j: int|
            0 <= j < self.records@.len() && (#[trigger] self.records@[j]).lease
                != 0 implies self.spec_has_lease(self.records@[j].lease) by {
            let j0 = if j < i { j } else { j + 1 };
            assert(self.records@[j] == pre.records@[j0]);
            assert(pre.spec_has_lease(pre.records@[j0].lease));
            pre.lemma_lease_set_unchanged(self, pre.records@[j0].lease);
        }
        assert(self.wf());
        assert forall|j: int| 0 <= j < self.records@.len() implies (#[trigger] self.records@[j]).key@
            != k by {
            let j0 = if j < i { j } else { j + 1 };
            assert(self.records@[j] == pre.records@[j0]);
            if pre.records@[j0].key@ == k {
                pre.lemma_index_of(j0);
            }
        }
        assert forall|k2: Seq<char>| #[trigger] pre.spec_has_key(k2) && k2 != k implies {
            &&& self.spec_has_key(k2)
            &&& self.spec_value_of(k2) == pre.spec_value_of(k2)
            &&& self.spec_lease_of(k2) == pre.spec_lease_of(k2)
        } by {
            let j0 = pre.spec_index_of(k2);
            assert(pre.records@[j0].key@ == k2);
            assert(j0 != i);
            let j = if j0 < i { j0 } else { j0 - 1 };
            assert(self.records@[j] == pre.records@[j0]);
            self.lemma_index_of(j);
            pre.lemma_index_of(j0);
        }
        assert forall|k2: Seq<char>| #[trigger] self.spec_has_key(k2) implies pre.spec_has_key(k2)
            && k2 != k by {
            let j = self.spec_index_of(k2);
            assert(self.records@[j].key@ == k2);
            let j0 = if j < i { j } else { j + 1 };
            assert(pre.records@[j0].key@ == k2);
            assert(k2 != k);
        }
    }

    /// Deletes every record whose key starts with `prefix`, returning how
    /// many were removed (zero when none match). Leases are left as they
    /// are.
    pub fn delete_with_prefix(&mut self, prefix: &str) -> (count: i64)
        requires
            old(self).wf(),
            old(self).records@.len() <= i64::MAX,
        ensures
            final(self).wf(),
            final(self).records@ == spec_without_prefix(old(self).records@, prefix@),
            count == old(self).records@.len() - final(self).records@.len(),
            forall|k2: Seq<char>|
                #[trigger] old(self).spec_has_key(k2) && !prefix@.is_prefix_of(k2) ==> {
                    &&& final(self).spec_has_key(k2)
                    &&& final(self).spec_value_of(k2) == old(self).spec_value_of(k2)
                    &&& final(self).spec_lease_of(k2) == old(self).spec_lease_of(k2)
                },
            forall|k2: Seq<char>|
                #[trigger] final(self).spec_has_key(k2) ==> old(self).spec_has_key(k2)
                    && !prefix@.is_prefix_of(k2),
            final(self).leases@ == old(self).leases@,
            final(self).next_lease_id == old(self).next_lease_id,
            final(self).now == old(self).now,
    {
        let ghost pre = *self;
        let n = self.records.len();
        let mut kept: Vec<StoreRecord> = Vec::new();
        let mut i: usize = 0;
        while i < n
            invariant
                self.wf(),
                *self == pre,
                n == self.records@.len(),
                i <= n,
                kept@.len() <= i,
                kept@ == spec_without_prefix(pre.records@.take(i as int), prefix@),
            decreases n - i,
        {
            if !str_has_prefix(self.records[i].key.as_str(), prefix) {
                let rec = StoreRecord {
                    key: self.records[i].key.clone(),
                    value: self.records[i].value.clone(),
                    lease: self.records[i].lease,
                };
                assert(rec == pre.records@[i as int]);
                kept.push(rec);
            }
            proof {
                let x = pre.records@[i as int];
                let t0 = pre.records@.take(i as int);
                pre.records@.lemma_take_succ_push(i as int);
                assert(pre.records@.take(i as int + 1) == t0.push(x));
                t0.lemma_filter_push(x, spec_keeps(prefix@));
                assert(spec_keeps(prefix@)(x) == !prefix@.is_prefix_of(x.key@));
            }
            i = i + 1;
        }
        proof {
            assert(pre.records@.take(n as int) =~= pre.records@);
        }
        let removed = n - kept.len();
        self.records = kept;
        proof {
            self.lemma_prefix_delete_frame(pre, prefix@);
        }
        removed as i64
    }

    /// Keeping exactly the records without the prefix preserves
    /// well-formedness and every unrelated key.
    proof fn lemma_prefix_delete_frame(self, pre: StoreModel, prefix: Seq<char>)
        requires
            pre.wf(),
            self.records@ == spec_without_prefix(pre.records@, prefix),
            self.leases@ == pre.leases@,
            self.next_lease_id == pre.next_lease_id,
            self.now == pre.now,
        ensures
            self.wf(),
            forall|k2: Seq<char>|
                #[trigger] pre.spec_has_key(k2) && !prefix.is_prefix_of(k2) ==> {
                    &&& self.spec_has_key(k2)
                    &&& self.spec_value_of(k2) == pre.spec_value_of(k2)
                    &&& self.spec_lease_of(k2) == pre.spec_lease_of(k2)
                },
            forall|k2: Seq<char>|
                #[trigger] self.spec_has_key(k2) ==> pre.spec_has_key(k2) && !prefix.is_prefix_of(
                    k2,
                ),
    {
        lemma_filter_of_distinct(pre.records@, spec_keeps(prefix));
        let kept = self.records@;
        // every kept record sits in the old store, under the same key.
        assert forall|m: int| 0 <= m < kept.len() implies #[trigger] pre.spec_has_key(kept[m].key@)
            && pre.records@[pre.spec_index_of(kept[m].key@)] == kept[m] by {
            assert(pre.records@.contains(kept[m]));
            let j = choose|j: int| 0 <= j < pre.records@.len() && pre.records@[j] == kept[m];
            pre.lemma_index_of(j);
        }
        assert(self.wf()) by {
            assert forall|j: int|
                0 <= j < kept.len() && (#[trigger] kept[j]).lease
                    != 0 implies self.spec_has_lease(kept[j].lease) by {
                assert(pre.spec_has_lease(kept[j].lease));
                pre.lemma_lease_set_unchanged(self, kept[j].lease);
            }
        }
        assert forall|k2: Seq<char>| #[trigger] pre.spec_has_key(k2) && !prefix.is_prefix_of(
            k2,
        ) implies {
            &&& self.spec_has_key(k2)
            &&& self.spec_value_of(k2) == pre.spec_value_of(k2)
            &&& self.spec_lease_of(k2) == pre.spec_lease_of(k2)
        } by {
            let j0 = pre.spec_index_of(k2);
            assert(pre.records@[j0].key@ == k2);
            assert(spec_keeps(prefix)(pre.records@[j0]));
            pre.records@.lemma_filter_contains(spec_keeps(prefix), j0);
            assert(kept.contains(pre.records@[j0]));
            let m = choose|m: int| 0 <= m < kept.len() && kept[m] == pre.records@[j0];
            self.lemma_index_of(m);
        }
        assert forall|k2: Seq<char>| #[trigger] self.spec_has_key(k2) implies pre.spec_has_key(k2)
            && !prefix.is_prefix_of(k2) by {
            let m = self.spec_index_of(k2);
            assert(kept[m].key@ == k2);
            pre.records@.lemma_filter_pred(spec_keeps(prefix), m);
        }
    }

    /// Renews the lease carried by the record under `key`, if the record
    /// exists and carries one; otherwise does nothing. The stored value
    /// is never changed: only the lease's remaining life moves.
    pub fn touch(&mut self, key: &str)
        requires
            old(self).wf(),
        ensures
            final(self).wf(),
            spec_touch_transition(*old(self), *final(self), key@),
            final(self).records@ == old(self).records@,
            forall|k2: Seq<char>|
                #[trigger] old(self).spec_has_key(k2) ==> {
                    &&& final(self).spec_has_key(k2)
                    &&& final(self).spec_value_of(k2) == old(self).spec_value_of(k2)
                    &&& final(self).spec_lease_of(k2) == old(self).spec_lease_of(k2)
                },
            forall|k2: Seq<char>|
                #[trigger] final(self).spec_has_key(k2) ==> old(self).spec_has_key(k2),
            forall|id: i64|
                #[trigger] old(self).spec_has_lease(id) ==> final(self).spec_has_lease(id)
                    && final(self).spec_lease_ttl(id) == old(self).spec_lease_ttl(id),
            forall|id: i64|
                #[trigger] final(self).spec_has_lease(id) ==> old(self).spec_has_lease(id),
            old(self).spec_has_key(key@) && old(self).spec_lease_of(key@) != 0 ==> final(self).spec_lease_renewed_at(old(self).spec_lease_of(key@)) == old(self).now,
            forall|id: i64|
                #[trigger] old(self).spec_has_lease(id) && !(old(self).spec_has_key(key@) && id
                    == old(self).spec_lease_of(key@)) ==> final(self).spec_lease_renewed_at(id)
                    == old(self).spec_lease_renewed_at(id),
            final(self).next_lease_id == old(self).next_lease_id,
            final(self).now == old(self).now,
    {
        match self.find_index(key) {
            Some(i) => {
                let lease = self.records[i].lease;
                if lease != 0 {
                    match self.find_lease_index(lease) {
                        Some(j) => {
                            let granted_ttl = self.leases[j].ttl;
                            self.leases[j] = LeaseInfo {
                                id: lease,
                                ttl: granted_ttl,
                                renewed_at: self.now,
                            };
                            proof {
                                self.lemma_touch_renewed(*old(self), i as int, j as int, key@);
                            }
                        },
                        None => {
                            proof {
                                assert(false);
                            }
                        },
                    }
                }
            },
            None => {},
        }
    }

    /// Renewing one lease in place changes nothing but that lease's
    /// renewal instant.
    proof fn lemma_touch_renewed(self, pre: StoreModel, i: int, j: int, k: Seq<char>)
        requires
            pre.wf(),
            0 <= i < pre.records@.len(),
            pre.records@[i].key@ == k,
            pre.spec_index_of(k) == i,
            pre.records@[i].lease != 0,
            0 <= j < pre.leases@.len(),
            pre.leases@[j].id == pre.records@[i].lease,
            pre.spec_lease_index(pre.records@[i].lease) == j,
            self.records@ == pre.records@,
            self.leases@ == pre.leases@.update(
                j,
                (LeaseInfo {
                    id: pre.records@[i].lease,
                    ttl: pre.leases@[j].ttl,
                    renewed_at: pre.now,
                }),
            ),
            self.next_lease_id == pre.next_lease_id,
            self.now == pre.now,
        ensures
            self.wf(),
            spec_touch_transition(pre, self, k),
            forall|k2: Seq<char>|
                #[trigger] pre.spec_has_key(k2) ==> {
                    &&& self.spec_has_key(k2)
                    &&& self.spec_value_of(k2) == pre.spec_value_of(k2)
                    &&& self.spec_lease_of(k2) == pre.spec_lease_of(k2)
                },
            forall|k2: Seq<char>|
                #[trigger] self.spec_has_key(k2) ==> pre.spec_has_key(k2),
            forall|id: i64|
                #[trigger] pre.spec_has_lease(id) ==> self.spec_has_lease(id)
                    && self.spec_lease_ttl(id) == pre.spec_lease_ttl(id),
            forall|id: i64|
                #[trigger] self.spec_has_lease(id) ==> pre.spec_has_lease(id),
            self.spec_lease_renewed_at(pre.spec_lease_of(k)) == pre.now,
            forall|id: i64|
                #[trigger] pre.spec_has_lease(id) && id != pre.spec_lease_of(k)
                    ==> self.spec_lease_renewed_at(id) == pre.spec_lease_renewed_at(id),
    {
        let l = pre.records@[i].lease;
        assert(pre.spec_lease_of(k) == l);
        // ids are unchanged position by position.
        assert forall|m: int| 0 <= m < self.leases@.len() implies (#[trigger] self.leases@[m]).id
            == pre.leases@[m].id && self.leases@[m].ttl == pre.leases@[m].ttl by {}
        assert forall|j2: int|
            0 <= j2 < self.records@.len() && (#[trigger] self.records@[j2]).lease
                != 0 implies self.spec_has_lease(self.records@[j2].lease) by {
            assert(pre.spec_has_lease(pre.records@[j2].lease));
            let w = pre.spec_lease_index(pre.records@[j2].lease);
            assert(0 <= w < pre.leases@.len() && pre.leases@[w].id == pre.records@[j2].lease);
            assert(self.leases@[w].id == pre.records@[j2].lease);
        }
        assert(self.wf());
        assert forall|k2: Seq<char>| #[trigger] pre.spec_has_key(k2) implies {
            &&& self.spec_has_key(k2)
            &&& self.spec_value_of(k2) == pre.spec_value_of(k2)
            &&& self.spec_lease_of(k2) == pre.spec_lease_of(k2)
        } by {
            pre.lemma_record_view_eq(self, k2);
        }
        assert forall|k2: Seq<char>| #[trigger] self.spec_has_key(k2) implies pre.spec_has_key(
            k2,
        ) by {
            self.lemma_key_set_unchanged(pre, k2);
        }
        assert forall|id: i64| #[trigger] pre.spec_has_lease(id) implies self.spec_has_lease(id)
            && self.spec_lease_ttl(id) == pre.spec_lease_ttl(id) && (id != l
            ==> self.spec_lease_renewed_at(id) == pre.spec_lease_renewed_at(id)) by {
            let m = pre.spec_lease_index(id);
            assert(pre.leases@[m].id == id);
            assert(self.leases@[m].id == id);
            self.lemma_lease_index_of(m);
            pre.lemma_lease_index_of(m);
        }
        assert forall|id: i64| #[trigger] self.spec_has_lease(id) implies pre.spec_has_lease(
            id,
        ) by {
            let m = self.spec_lease_index(id);
            assert(self.leases@[m].id == id);
            assert(pre.leases@[m].id == id);
            pre.lemma_lease_index_of(m);
        }
        self.lemma_lease_index_of(j);
        assert(self.spec_lease_renewed_at(l) == pre.now);
        assert(spec_touch_transition(pre, self, k)) by {
            assert forall|m: int| 0 <= m < pre.leases@.len() implies #[trigger] self.leases@[m]
                == (if pre.leases@[m].id == l {
                (LeaseInfo { id: pre.leases@[m].id, ttl: pre.leases@[m].ttl, renewed_at: pre.now })
            } else {
                pre.leases@[m]
            }) by {
                if m != j && pre.leases@[m].id == l {
                    assert(pre.leases@[j].id == l);
                    if m < j {
                        assert(pre.leases@[m].id != pre.leases@[j].id);
                    } else {
                        assert(pre.leases@[j].id != pre.leases@[m].id);
                    }
                }
            }
        }
    }

    /// Ensures the pair exists and is alive: if the key is present, its
    /// lease is renewed and the stored value left untouched; if absent,
    /// the record is created, bound to a fresh lease when `ttl` is
    /// positive. An existing value is never overwritten.
    pub fn put_or_touch(&mut self, key: &str, value: &str, ttl: i64)
        requires
            old(self).wf(),
            0 <= ttl,
            old(self).next_lease_id < i64::MAX,
        ensures
            final(self).wf(),
            spec_put_or_touch_transition(*old(self), *final(self), key@, value@, ttl),
            final(self).spec_has_key(key@),
            final(self).spec_value_of(key@) == (if old(self).spec_has_key(key@) {
                old(self).spec_value_of(key@)
            } else {
                value@
            }),
            final(self).spec_lease_of(key@) == (if old(self).spec_has_key(key@) {
                old(self).spec_lease_of(key@)
            } else {
                spec_put_lease_bound(*old(self), ttl)
            }),
            forall|k2: Seq<char>|
                #[trigger] old(self).spec_has_key(k2) ==> {
                    &&& final(self).spec_has_key(k2)
                    &&& final(self).spec_value_of(k2) == old(self).spec_value_of(k2)
                    &&& final(self).spec_lease_of(k2) == old(self).spec_lease_of(k2)
                },
            forall|k2: Seq<char>|
                #[trigger] final(self).spec_has_key(k2) ==> old(self).spec_has_key(k2) || k2
                    == key@,
            forall|id: i64|
                #[trigger] old(self).spec_has_lease(id) ==> final(self).spec_has_lease(id)
                    && final(self).spec_lease_ttl(id) == old(self).spec_lease_ttl(id),
            forall|id: i64|
                #[trigger] final(self).spec_has_lease(id) ==> old(self).spec_has_lease(id) || (
                !old(self).spec_has_key(key@) && ttl != 0 && id == old(self).next_lease_id),
            old(self).spec_has_key(key@) && old(self).spec_lease_of(key@) != 0 ==> final(self).spec_lease_renewed_at(old(self).spec_lease_of(key@)) == old(self).now,
            forall|id: i64|
                #[trigger] old(self).spec_has_lease(id) && !(old(self).spec_has_key(key@) && id
                    == old(self).spec_lease_of(key@)) ==> final(self).spec_lease_renewed_at(id)
                    == old(self).spec_lease_renewed_at(id),
            !old(self).spec_has_key(key@) && ttl != 0 ==> {
                &&& final(self).spec_has_lease(old(self).next_lease_id)
                &&& final(self).spec_lease_ttl(old(self).next_lease_id) == ttl
                &&& final(self).spec_lease_renewed_at(old(self).next_lease_id) == old(self).now
            },
            final(self).now == old(self).now,
            old(self).next_lease_id <= final(self).next_lease_id <= old(self).next_lease_id
                + 1,
    {
        let existing = self.find_index(key);
        match existing {
            Some(_) => {
                self.touch(key);
            },
            None => {
                let _prev = self.put(key, value, ttl);
            },
        }
    }
}

/// How `put_or_touch` takes the store from `pre` to `post`: a present
/// key is only touched (its lease renewed, its value kept); an absent
/// key is written as by `put`.
pub open spec fn spec_put_or_touch_transition(
    pre: StoreModel,
    post: StoreModel,
    k: Seq<char>,
    v: Seq<char>,
    ttl: i64,
) -> bool {
    if pre.spec_has_key(k) {
        spec_touch_transition(pre, post, k)
    } else {
        spec_put_transition(pre, post, k, v, ttl)
    }
}

/// How `touch` takes the store from `pre` to `post`: the records are
/// exactly as they were; when the key is present and carries a non-zero
/// lease id, that lease's renewal instant moves to the present and every
/// other lease is untouched; otherwise the leases too are exactly as
/// they were.
pub open spec fn spec_touch_transition(pre: StoreModel, post: StoreModel, k: Seq<char>) -> bool {
    &&& post.records@ == pre.records@
    &&& post.next_lease_id == pre.next_lease_id
    &&& post.now == pre.now
    &&& post.leases@.len() == pre.leases@.len()
    &&& if pre.spec_has_key(k) && pre.spec_lease_of(k) != 0 {
        forall|j: int|
            0 <= j < pre.leases@.len() ==> #[trigger] post.leases@[j] == (if pre.leases@[j].id
                == pre.spec_lease_of(k) {
                (LeaseInfo {
                    id: pre.leases@[j].id,
                    ttl: pre.leases@[j].ttl,
                    renewed_at: pre.now,
                })
            } else {
                pre.leases@[j]
            })
    } else {
        post.leases@ == pre.leases@
    }
}

/// The records kept by a prefix deletion: those whose key does not start
/// with the prefix.
pub open spec fn spec_without_prefix(records: Seq<StoreRecord>, prefix: Seq<char>) -> Seq<
    StoreRecord,
> {
    records.filter(spec_keeps(prefix))
}

/// The predicate a record must meet to survive a prefix deletion.
pub open spec fn spec_keeps(prefix: Seq<char>) -> spec_fn(StoreRecord) -> bool {
    |rec: StoreRecord| !prefix.is_prefix_of(rec.key@)
}

/// The records a prefix lookup returns: those whose key starts with the
/// prefix, in store order.
pub open spec fn spec_matching_prefix(records: Seq<StoreRecord>, prefix: Seq<char>) -> Seq<
    StoreRecord,
> {
    records.filter(spec_matches(prefix))
}

/// The predicate a record must meet to be returned by a prefix lookup.
pub open spec fn spec_matches(prefix: Seq<char>) -> spec_fn(StoreRecord) -> bool {
    |rec: StoreRecord| prefix.is_prefix_of(rec.key@)
}

/// Law: reconciliation is idempotent. Two `put_or_touch` calls in a row
/// with the same key, value and time-to-live leave the records exactly
/// as the first call left them; the second call rewrites nothing, and a
/// value that existed before the first call is never rewritten either.
pub proof fn lemma_put_or_touch_idempotent(
    s0: StoreModel,
    s1: StoreModel,
    s2: StoreModel,
    k: Seq<char>,
    v: Seq<char>,
    ttl: i64,
)
    requires
        s0.wf(),
        s1.wf(),
        spec_put_or_touch_transition(s0, s1, k, v, ttl),
        spec_put_or_touch_transition(s1, s2, k, v, ttl),
    ensures
        s1.spec_has_key(k),
        s2.records@ == s1.records@,
        s2.spec_has_key(k),
        s2.spec_value_of(k) == s1.spec_value_of(k),
        s0.spec_has_key(k) ==> s1.spec_value_of(k) == s0.spec_value_of(k),
{
    if s0.spec_has_key(k) {
        s0.lemma_record_view_eq(s1, k);
    } else {
        let n = s0.records@.len() as int;
        assert(s1.records@[n].key@ == k);
        assert(s1.spec_has_key(k));
    }
    s1.lemma_record_view_eq(s2, k);
}

/// Law: round trip. After a `put` with no lease asked for, the key holds
/// exactly the value that was put, with the no-lease sentinel attached,
/// which is what `get` then returns.
pub proof fn lemma_put_get_round_trip(pre: StoreModel, post: StoreModel, k: Seq<char>, v: Seq<char>)
    requires
        pre.wf(),
        post.wf(),
        spec_put_transition(pre, post, k, v, 0),
    ensures
        post.spec_has_key(k),
        post.spec_value_of(k) == v,
        post.spec_lease_of(k) == 0,
{
    if pre.spec_has_key(k) {
        let i = pre.spec_index_of(k);
        assert(post.records@[i].key@ == k);
        post.lemma_index_of(i);
    } else {
        let n = pre.records@.len() as int;
        assert(post.records@[n].key@ == k);
        post.lemma_index_of(n);
    }
}

/// Filtering a sequence of records with pairwise distinct keys yields
/// records drawn from the sequence, again with pairwise distinct keys.
proof fn lemma_filter_of_distinct(s: Seq<StoreRecord>, pred: spec_fn(StoreRecord) -> bool)
    requires
        forall|a: int, b: int|
            0 <= a < b < s.len() ==> (#[trigger] s[a]).key@ != (#[trigger] s[b]).key@,
    ensures
        forall|m: int| 0 <= m < s.filter(pred).len() ==> s.contains(#[trigger] s.filter(pred)[m]),
        forall|a: int, b: int|
            0 <= a < b < s.filter(pred).len() ==> (#[trigger] s.filter(pred)[a]).key@
                != (#[trigger] s.filter(pred)[b]).key@,
    decreases s.len(),
{
    reveal(Seq::filter);
    if s.len() != 0 {
        let t = s.drop_last();
        let x = s.last();
        lemma_filter_of_distinct(t, pred);
        let f = s.filter(pred);
        let ft = t.filter(pred);
        assert forall|m: int| 0 <= m < f.len() implies s.contains(#[trigger] f[m]) by {
            if pred(x) && m == ft.len() {
                assert(f[m] == x);
                assert(s[s.len() - 1] == x);
            } else {
                assert(f[m] == ft[m]);
                assert(t.contains(ft[m]));
                let j = choose|j: int| 0 <= j < t.len() && t[j] == ft[m];
                assert(s[j] == ft[m]);
            }
        }
        assert forall|a: int, b: int| 0 <= a < b < f.len() implies (#[trigger] f[a]).key@
            != (#[trigger] f[b]).key@ by {
            if pred(x) && b == ft.len() {
                assert(f[a] == ft[a]);
                assert(t.contains(ft[a]));
                let j = choose|j: int| 0 <= j < t.len() && t[j] == ft[a];
                assert(s[j] == f[a]);
                assert(s[j].key@ != s[s.len() - 1].key@);
            } else {
                assert(f[a] == ft[a] && f[b] == ft[b]);
            }
        }
    }
}

/// The lease id a record written by `put` carries: zero when no lease is
/// asked for, else the id of the freshly granted lease.
pub open spec fn spec_put_lease_bound(pre: StoreModel, ttl: i64) -> i64 {
    if ttl == 0 {
        0
    } else {
        pre.next_lease_id
    }
}

/// How `put` takes the store from `pre` to `post`: the clock stands
/// still; with a positive `ttl` one fresh lease is granted, else the
/// leases are untouched; the record under `k` is overwritten in place or
/// appended, bound to the granted lease or to none; every other record is
/// untouched.
pub open spec fn spec_put_transition(
    pre: StoreModel,
    post: StoreModel,
    k: Seq<char>,
    v: Seq<char>,
    ttl: i64,
) -> bool {
    &&& post.now == pre.now
    &&& if ttl == 0 {
        post.leases@ == pre.leases@ && post.next_lease_id == pre.next_lease_id
    } else {
        post.leases@ == pre.leases@.push(
            LeaseInfo { id: pre.next_lease_id, ttl: ttl, renewed_at: pre.now },
        ) && post.next_lease_id == pre.next_lease_id + 1
    }
    &&& if pre.spec_has_key(k) {
        &&& post.records@.len() == pre.records@.len()
        &&& forall|j: int|
            0 <= j < pre.records@.len() && j != pre.spec_index_of(k)
                ==> #[trigger] post.records@[j] == pre.records@[j]
        &&& post.records@[pre.spec_index_of(k)].key@ == k
        &&& post.records@[pre.spec_index_of(k)].value@ == v
        &&& post.records@[pre.spec_index_of(k)].lease == spec_put_lease_bound(pre, ttl)
    } else {
        &&& post.records@.len() == pre.records@.len() + 1
        &&& forall|j: int|
            0 <= j < pre.records@.len() ==> #[trigger] post.records@[j] == pre.records@[j]
        &&& post.records@[pre.records@.len() as int].key@ == k
        &&& post.records@[pre.records@.len() as int].value@ == v
        &&& post.records@[pre.records@.len() as int].lease == spec_put_lease_bound(pre, ttl)
    }
}

/// Appending one fresh lease keeps every live lease live and unchanged,
/// adds exactly the new one, and preserves well-formedness of the lease
/// table.
proof fn lemma_lease_push_frame(pre: StoreModel, post: StoreModel, granted: LeaseInfo)
    requires
        pre.wf(),
        granted.id == pre.next_lease_id,
        0 < granted.ttl,
        pre.next_lease_id < i64::MAX,
        post.records@ == pre.records@,
        post.leases@ == pre.leases@.push(granted),
        post.next_lease_id == pre.next_lease_id + 1,
        post.now == pre.now,
    ensures
        post.wf(),
        post.spec_has_lease(granted.id),
        post.spec_lease_index(granted.id) == pre.leases@.len(),
        post.spec_lease_ttl(granted.id) == granted.ttl,
        post.spec_lease_renewed_at(granted.id) == granted.renewed_at,
        forall|id: i64|
            #[trigger] pre.spec_has_lease(id) ==> {
                &&& post.spec_has_lease(id)
                &&& post.spec_lease_index(id) == pre.spec_lease_index(id)
                &&& post.spec_lease_ttl(id) == pre.spec_lease_ttl(id)
                &&& post.spec_lease_renewed_at(id) == pre.spec_lease_renewed_at(id)
            },
        forall|id: i64|
            #[trigger] post.spec_has_lease(id) ==> pre.spec_has_lease(id) || id == granted.id,
{
    let n = pre.leases@.len() as int;
    // lease ids stay unique: every old id is below the granted one.
    assert forall|a: int, b: int|
        0 <= a < b < post.leases@.len() implies #[trigger] post.leases@[a].id
        != #[trigger] post.leases@[b].id by {
        if b == n {
            assert(post.leases@[a] == pre.leases@[a]);
        }
    }
    assert(post.leases@[n] == granted);
    post.lemma_lease_index_of(n);
    assert forall|id: i64| #[trigger] pre.spec_has_lease(id) implies {
        &&& post.spec_has_lease(id)
        &&& post.spec_lease_index(id) == pre.spec_lease_index(id)
        &&& post.spec_lease_ttl(id) == pre.spec_lease_ttl(id)
        &&& post.spec_lease_renewed_at(id) == pre.spec_lease_renewed_at(id)
    } by {
        let j = pre.spec_lease_index(id);
        assert(pre.leases@[j].id == id);
        assert(post.leases@[j] == pre.leases@[j]);
        post.lemma_lease_index_of(j);
        pre.lemma_lease_index_of(j);
    }
    assert forall|id: i64| #[trigger] post.spec_has_lease(id) implies pre.spec_has_lease(id) || id
        == granted.id by {
        if id != granted.id {
            let j = post.spec_lease_index(id);
            assert(post.leases@[j].id == id);
            assert(j != n);
            assert(pre.leases@[j].id == id);
        }
    }
    // the records' lease links all point at old leases, which survive.
    assert forall|j: int|
        0 <= j < post.records@.len() && (#[trigger] post.records@[j]).lease
            != 0 implies post.spec_has_lease(post.records@[j].lease) by {
        assert(post.records@[j] == pre.records@[j]);
        assert(pre.spec_has_lease(pre.records@[j].lease));
    }
    assert(post.wf());
}

} // verus!
