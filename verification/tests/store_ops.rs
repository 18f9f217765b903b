use etcd_registry::store::{LeaseInfo, StoreModel};

fn lease_info(store: &StoreModel, id: i64) -> LeaseInfo {
    let mut found = None;
    for lease in &store.leases {
        if lease.id == id {
            found = Some(*lease);
        }
    }
    found.expect("lease not found")
}

#[test]
fn put_then_get_round_trip_without_lease() {
    let mut store = StoreModel::new();
    let prev = store.put("k", "v", 0);
    assert!(prev.is_none());
    let rec = store.get("k").expect("key must exist after put");
    assert_eq!(rec.key.as_str(), "k");
    assert_eq!(rec.value.as_str(), "v");
    assert_eq!(rec.lease, 0);
    assert!(store.leases.is_empty());
}

#[test]
fn put_with_ttl_binds_a_fresh_lease() {
    let mut store = StoreModel::new();
    store.put("k", "v", 10);
    let rec = store.get("k").expect("key must exist after put");
    assert_ne!(rec.lease, 0);
    let lease = lease_info(&store, rec.lease);
    assert_eq!(lease.ttl, 10);
    assert_eq!(lease.renewed_at, 0);
}

#[test]
fn put_returns_the_previous_value_and_overwrites() {
    let mut store = StoreModel::new();
    assert!(store.put("k", "v1", 0).is_none());
    let prev = store.put("k", "v2", 0).expect("previous value expected");
    assert_eq!(prev.as_str(), "v1");
    assert_eq!(store.get("k").unwrap().value.as_str(), "v2");
}

#[test]
fn get_missing_key_returns_nothing() {
    let store = StoreModel::new();
    assert!(store.get("absent").is_none());
}

#[test]
fn touch_renews_the_lease_and_keeps_the_value() {
    let mut store = StoreModel::new();
    store.put("k", "v", 10);
    let id = store.get("k").unwrap().lease;
    store.advance_time(4);
    store.touch("k");
    let rec = store.get("k").expect("key still there");
    assert_eq!(rec.value.as_str(), "v");
    assert_eq!(rec.lease, id);
    let lease = lease_info(&store, id);
    assert_eq!(lease.ttl, 10);
    assert_eq!(lease.renewed_at, 4);
}

#[test]
fn touch_without_lease_or_key_is_a_no_op() {
    let mut store = StoreModel::new();
    store.put("k", "v", 0);
    store.touch("k");
    store.touch("absent");
    assert_eq!(store.get("k").unwrap().value.as_str(), "v");
    assert_eq!(store.get("k").unwrap().lease, 0);
}

#[test]
fn put_or_touch_creates_then_only_touches() {
    let mut store = StoreModel::new();
    store.put_or_touch("k", "v1", 10);
    let first = store.get("k").expect("created");
    assert_eq!(first.value.as_str(), "v1");
    assert_ne!(first.lease, 0);
    store.advance_time(5);
    store.put_or_touch("k", "v2", 10);
    let second = store.get("k").expect("still there");
    assert_eq!(second.value.as_str(), "v1");
    assert_eq!(second.lease, first.lease);
    assert_eq!(lease_info(&store, second.lease).renewed_at, 5);
}

#[test]
fn put_or_touch_never_overwrites_an_existing_value() {
    let mut store = StoreModel::new();
    store.put("k", "original", 0);
    store.put_or_touch("k", "clobber", 10);
    assert_eq!(store.get("k").unwrap().value.as_str(), "original");
    assert_eq!(store.get("k").unwrap().lease, 0);
}

#[test]
fn delete_removes_one_exact_key() {
    let mut store = StoreModel::new();
    store.put("a", "1", 0);
    store.put("b", "2", 0);
    assert_eq!(store.delete("a"), 1);
    assert!(store.get("a").is_none());
    assert_eq!(store.get("b").unwrap().value.as_str(), "2");
    assert_eq!(store.delete("a"), 0);
}

#[test]
fn delete_with_prefix_removes_matching_and_counts() {
    let mut store = StoreModel::new();
    store.put("traefik/http/services/api/loadbalancer/servers/api/url", "u", 0);
    store.put("traefik/http/services/web/loadbalancer/servers/web/url", "w", 0);
    store.put("traefik/http/routers/api/service", "api", 0);
    store.put("env", "prod", 0);
    let removed = store.delete_with_prefix("traefik/http/services/");
    assert_eq!(removed, 2);
    assert!(store.get("traefik/http/services/api/loadbalancer/servers/api/url").is_none());
    assert!(store.get("traefik/http/services/web/loadbalancer/servers/web/url").is_none());
    assert_eq!(store.get("traefik/http/routers/api/service").unwrap().value.as_str(), "api");
    assert_eq!(store.get("env").unwrap().value.as_str(), "prod");
    let removed_again = store.delete_with_prefix("traefik/http/services/");
    assert_eq!(removed_again, 0);
}

#[test]
fn get_with_prefix_returns_exactly_the_matching_records() {
    let mut store = StoreModel::new();
    store.put("app/a", "1", 0);
    store.put("app/b", "2", 0);
    store.put("other", "3", 0);
    let matching = store.get_with_prefix("app/");
    assert_eq!(matching.len(), 2);
    assert_eq!(matching[0].key.as_str(), "app/a");
    assert_eq!(matching[0].value.as_str(), "1");
    assert_eq!(matching[1].key.as_str(), "app/b");
    assert_eq!(matching[1].value.as_str(), "2");
    assert!(store.get_with_prefix("nothing/").is_empty());
}

#[test]
fn fresh_store_is_empty() {
    let store = StoreModel::new();
    assert!(store.records.is_empty());
    assert!(store.leases.is_empty());
    assert_eq!(store.next_lease_id, 1);
    assert_eq!(store.now, 0);
}
