//! The renewal schedule and the per-tick reconciliation drive.
//!
//! A registration is kept alive by a loop that ticks every `ttl / 2`
//! seconds and, on each tick, applies put-or-touch to every derived
//! record in order. One record's failure must not keep the remaining
//! records from being reconciled, and the next tick happens regardless:
//! the drive here takes the per-record failures as input and states what
//! the store holds afterwards whatever they were.

use vstd::prelude::*;

use crate::records::Record;
use crate::store::StoreModel;

verus! {

/// The interval, in whole seconds, between two renewal ticks: half the
/// lease time-to-live, so that a record survives one fully missed tick
/// before its lease can expire.
pub fn renewal_interval_secs(ttl: i64) -> (r: u64)
    requires
        0 < ttl,
    ensures
        r == ttl as int / 2,
{
    (ttl as u64) / 2
}

/// What the reconciler decides to do with one record, given what the
/// lookup of its key returned.
#[derive(Clone, Copy, PartialEq, Eq, Structural, Debug)]
pub enum ReconcileAction {
    /// The key exists: renew the lease it carries. A lease id of zero is
    /// the no-lease sentinel and the renewal is then a no-op that must
    /// not error.
    Touch { lease: i64 },
    /// The key is absent and a positive time-to-live was asked for:
    /// grant a fresh lease and create the record bound to it.
    CreateWithLease,
    /// The key is absent and no lease was asked for: create the record
    /// without one; it never expires.
    CreateWithoutLease,
}

/// Decides how one record is reconciled. `existing_lease` is the lease
/// id found under the record's key, or nothing when the key is absent.
/// An existing record is only ever touched — its value is never
/// rewritten.
pub fn reconcile_action(existing_lease: Option<i64>, ttl: i64) -> (r: ReconcileAction)
    ensures
        r == (match existing_lease {
            Some(l) => ReconcileAction::Touch { lease: l },
            None => if ttl == 0 {
                ReconcileAction::CreateWithoutLease
            } else {
                ReconcileAction::CreateWithLease
            },
        }),
{
    match existing_lease {
        Some(l) => ReconcileAction::Touch { lease: l },
        None => {
            if ttl == 0 {
                ReconcileAction::CreateWithoutLease
            } else {
                ReconcileAction::CreateWithLease
            }
        },
    }
}

/// Drives one renewal tick over the derived records, in order.
/// `failed[i]` says that record `i`'s reconciliation failed wholesale
/// (its store calls came to nothing); the drive goes on with the next
/// record regardless, so one record's failure never keeps the others
/// from being reconciled.
///
/// Afterwards: every record whose reconciliation did not fail exists;
/// every key present before keeps its value and its lease id, with the
/// lease renewed where the record was reconciled; no other key appears;
/// a created record holds the derived value, bound to a fresh lease of
/// the given time-to-live when one was asked for.
pub fn run_tick(store: &mut StoreModel, records: &Vec<Record>, ttl: i64, failed: &Vec<bool>)
    requires
        old(store).wf(),
        0 <= ttl,
        failed@.len() == records@.len(),
        old(store).next_lease_id + records@.len() < i64::MAX,
    ensures
        final(store).wf(),
        final(store).now == old(store).now,
        forall|k: Seq<char>|
            #[trigger] old(store).spec_has_key(k) ==> {
                &&& final(store).spec_has_key(k)
                &&& final(store).spec_value_of(k) == old(store).spec_value_of(k)
                &&& final(store).spec_lease_of(k) == old(store).spec_lease_of(k)
            },
        forall|i: int|
            0 <= i < records@.len() && !failed@[i] ==> final(store).spec_has_key(
                (#[trigger] records@[i]).key@,
            ),
        forall|k: Seq<char>|
            #[trigger] final(store).spec_has_key(k) ==> old(store).spec_has_key(k) || exists|
                i: int,
            |
                0 <= i < records@.len() && !failed@[i] && (#[trigger] records@[i]).key@ == k,
        forall|k: Seq<char>|
            #[trigger] final(store).spec_has_key(k) && !old(store).spec_has_key(k) ==> {
                &&& exists|i: int|
                    0 <= i < records@.len() && !failed@[i] && (#[trigger] records@[i]).key@ == k
                        && records@[i].value@ == final(store).spec_value_of(k)
                &&& ttl != 0 ==> {
                    &&& final(store).spec_lease_of(k) != 0
                    &&& final(store).spec_has_lease(final(store).spec_lease_of(k))
                    &&& final(store).spec_lease_ttl(final(store).spec_lease_of(k)) == ttl
                    &&& final(store).spec_lease_renewed_at(final(store).spec_lease_of(k))
                        == old(store).now
                }
                &&& ttl == 0 ==> final(store).spec_lease_of(k) == 0
            },
        forall|id: i64|
            #[trigger] old(store).spec_has_lease(id) ==> final(store).spec_has_lease(id) && final(store).spec_lease_ttl(id) == old(store).spec_lease_ttl(id),
        forall|i: int|
            0 <= i < records@.len() && !failed@[i] && old(store).spec_has_key(
                (#[trigger] records@[i]).key@,
            ) && old(store).spec_lease_of(records@[i].key@) != 0 ==> final(store).spec_lease_renewed_at(old(store).spec_lease_of(records@[i].key@)) == old(store).now,
{
    let ghost pre = *old(store);
    let mut i: usize = 0;
    while i < records.len()
        invariant
            pre.wf(),
            store.wf(),
            0 <= ttl,
            failed@.len() == records@.len(),
            i <= records@.len(),
            store.now == pre.now,
            pre.next_lease_id <= store.next_lease_id,
            store.next_lease_id <= pre.next_lease_id + i,
            pre.next_lease_id + records@.len() < i64::MAX,
            forall|k: Seq<char>|
                #[trigger] pre.spec_has_key(k) ==> {
                    &&& store.spec_has_key(k)
                    &&& store.spec_value_of(k) == pre.spec_value_of(k)
                    &&& store.spec_lease_of(k) == pre.spec_lease_of(k)
                },
            forall|j: int|
                0 <= j < i && !failed@[j] ==> store.spec_has_key((#[trigger] records@[j]).key@),
            forall|k: Seq<char>|
                #[trigger] store.spec_has_key(k) ==> pre.spec_has_key(k) || exists|j: int|
                    0 <= j < i && !failed@[j] && (#[trigger] records@[j]).key@ == k,
            forall|k: Seq<char>|
                #[trigger] store.spec_has_key(k) && !pre.spec_has_key(k) ==> {
                    &&& exists|j: int|
                        0 <= j < i && !failed@[j] && (#[trigger] records@[j]).key@ == k
                            && records@[j].value@ == store.spec_value_of(k)
                    &&& ttl != 0 ==> {
                        &&& store.spec_lease_of(k) != 0
                        &&& store.spec_has_lease(store.spec_lease_of(k))
                        &&& store.spec_lease_ttl(store.spec_lease_of(k)) == ttl
                        &&& store.spec_lease_renewed_at(store.spec_lease_of(k)) == pre.now
                    }
                    &&& ttl == 0 ==> store.spec_lease_of(k) == 0
                },
            forall|id: i64|
                #[trigger] pre.spec_has_lease(id) ==> store.spec_has_lease(id)
                    && store.spec_lease_ttl(id) == pre.spec_lease_ttl(id),
            forall|j: int|
                0 <= j < i && !failed@[j] && pre.spec_has_key((#[trigger] records@[j]).key@)
                    && pre.spec_lease_of(records@[j].key@) != 0 ==> store.spec_lease_renewed_at(
                    pre.spec_lease_of(records@[j].key@),
                ) == pre.now,
        decreases records@.len() - i,
    {
        let ghost cur = *store;
        if !failed[i] {
            store.put_or_touch(records[i].key.as_str(), records[i].value.as_str(), ttl);
            proof {
                let k_i = records@[i as int].key@;
                // every key present before this step keeps its view.
                assert forall|k: Seq<char>| #[trigger] pre.spec_has_key(k) implies {
                    &&& store.spec_has_key(k)
                    &&& store.spec_value_of(k) == pre.spec_value_of(k)
                    &&& store.spec_lease_of(k) == pre.spec_lease_of(k)
                } by {
                    assert(cur.spec_has_key(k));
                }
                // no key appears but the one just reconciled.
                assert forall|k: Seq<char>| #[trigger] store.spec_has_key(k) implies
                    pre.spec_has_key(k) || exists|j: int|
                        0 <= j < i + 1 && !failed@[j] && (#[trigger] records@[j]).key@
                            == k by {
                    if !pre.spec_has_key(k) {
                        if cur.spec_has_key(k) {
                            let j0 = choose|j: int|
                                0 <= j < i && !failed@[j] && (#[trigger] records@[j]).key@ == k;
                            assert(0 <= j0 < i + 1 && !failed@[j0] && records@[j0].key@ == k);
                        } else {
                            assert(k == k_i);
                            assert(0 <= i < i + 1 && !failed@[i as int] && records@[
                                i as int].key@ == k);
                        }
                    }
                }
                // a created key holds a reconciled record's value and a
                // fresh lease where one was asked for.
                assert forall|k: Seq<char>| #[trigger] store.spec_has_key(k)
                    && !pre.spec_has_key(k) implies {
                    &&& exists|j: int|
                        0 <= j < i + 1 && !failed@[j] && (#[trigger] records@[j]).key@ == k
                            && records@[j].value@ == store.spec_value_of(k)
                    &&& ttl != 0 ==> {
                        &&& store.spec_lease_of(k) != 0
                        &&& store.spec_has_lease(store.spec_lease_of(k))
                        &&& store.spec_lease_ttl(store.spec_lease_of(k)) == ttl
                        &&& store.spec_lease_renewed_at(store.spec_lease_of(k)) == pre.now
                    }
                    &&& ttl == 0 ==> store.spec_lease_of(k) == 0
                } by {
                    if cur.spec_has_key(k) {
                        let j0 = choose|j: int|
                            0 <= j < i && !failed@[j] && (#[trigger] records@[j]).key@ == k
                                && records@[j].value@ == cur.spec_value_of(k);
                        assert(0 <= j0 < i + 1 && !failed@[j0] && records@[j0].key@ == k
                            && records@[j0].value@ == store.spec_value_of(k));
                        if ttl != 0 {
                            assert(cur.spec_has_lease(cur.spec_lease_of(k)));
                        }
                    } else {
                        assert(k == k_i);
                        assert(records@[i as int].value@ == store.spec_value_of(k));
                        assert(0 <= i < i + 1 && !failed@[i as int] && records@[i as int].key@
                            == k && records@[i as int].value@ == store.spec_value_of(k));
                        if ttl != 0 {
                            assert(store.spec_lease_of(k) == cur.next_lease_id);
                        }
                    }
                }
                // leases renewed on earlier steps stay renewed.
                assert forall|j: int|
                    0 <= j < i + 1 && !failed@[j] && pre.spec_has_key(
                        (#[trigger] records@[j]).key@,
                    ) && pre.spec_lease_of(records@[j].key@) != 0 implies
                    store.spec_lease_renewed_at(pre.spec_lease_of(records@[j].key@))
                        == pre.now by {
                    let kj = records@[j].key@;
                    let l = pre.spec_lease_of(kj);
                    let idx = pre.spec_index_of(kj);
                    assert(0 <= idx < pre.records@.len() && pre.records@[idx].key@ == kj);
                    assert(pre.records@[idx].lease == l);
                    assert(pre.spec_has_lease(l));
                    assert(cur.spec_has_lease(l));
                    if j == i as int {
                        assert(cur.spec_has_key(k_i));
                        assert(cur.spec_lease_of(k_i) == l);
                    } else {
                        if cur.spec_has_key(k_i) && l == cur.spec_lease_of(k_i) {
                        } else {
                        }
                    }
                }
            }
        }
        i = i + 1;
    }
}

} // verus!
