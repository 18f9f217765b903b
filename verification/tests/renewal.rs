use etcd_registry::config::ServiceRegisterConfig;
use etcd_registry::records::{derive_records, Record};
use etcd_registry::registrar::{reconcile_action, renewal_interval_secs, run_tick, ReconcileAction};
use etcd_registry::store::{LeaseInfo, StoreModel};

fn lease_info(store: &StoreModel, id: i64) -> LeaseInfo {
    let mut found = None;
    for lease in &store.leases {
        if lease.id == id {
            found = Some(*lease);
        }
    }
    found.expect("lease not found")
}

#[test]
fn renewal_interval_is_half_the_ttl() {
    assert_eq!(renewal_interval_secs(10), 5);
    assert_eq!(renewal_interval_secs(9), 4);
    assert_eq!(renewal_interval_secs(2), 1);
    assert_eq!(renewal_interval_secs(1), 0);
    assert_eq!(renewal_interval_secs(600), 300);
}

#[test]
fn reconcile_action_touches_found_records_whatever_the_lease() {
    assert_eq!(reconcile_action(Some(7), 10), ReconcileAction::Touch { lease: 7 });
    assert_eq!(reconcile_action(Some(0), 10), ReconcileAction::Touch { lease: 0 });
    assert_eq!(reconcile_action(None, 10), ReconcileAction::CreateWithLease);
    assert_eq!(reconcile_action(None, 0), ReconcileAction::CreateWithoutLease);
}

#[test]
fn registration_end_to_end_two_ticks() {
    let config = ServiceRegisterConfig {
        url: String::from("http://10.0.0.5:8080"),
        tags: vec![String::from("env=prod")],
        ttl: 10,
    };
    let records = derive_records("api", &config);
    let no_failures = vec![false, false, false];
    let mut store = StoreModel::new();

    run_tick(&mut store, &records, config.ttl, &no_failures);

    let url = store
        .get("traefik/http/services/api/loadbalancer/servers/api/url")
        .expect("url record registered");
    assert_eq!(url.value.as_str(), "http://10.0.0.5:8080");
    let router = store.get("traefik/http/routers/api/service").expect("router record registered");
    assert_eq!(router.value.as_str(), "api");
    let tag = store.get("env").expect("tag record registered");
    assert_eq!(tag.value.as_str(), "prod");
    for rec in [&url, &router, &tag] {
        assert_ne!(rec.lease, 0);
        let lease = lease_info(&store, rec.lease);
        assert_eq!(lease.ttl, 10);
        assert_eq!(lease.renewed_at, 0);
    }

    store.advance_time(5);
    run_tick(&mut store, &records, config.ttl, &no_failures);

    let url2 = store.get("traefik/http/services/api/loadbalancer/servers/api/url").unwrap();
    let router2 = store.get("traefik/http/routers/api/service").unwrap();
    let tag2 = store.get("env").unwrap();
    assert_eq!(url2.value.as_str(), "http://10.0.0.5:8080");
    assert_eq!(router2.value.as_str(), "api");
    assert_eq!(tag2.value.as_str(), "prod");
    // the leases were extended, not recreated: same ids, later renewal.
    assert_eq!(url2.lease, url.lease);
    assert_eq!(router2.lease, router.lease);
    assert_eq!(tag2.lease, tag.lease);
    for rec in [&url2, &router2, &tag2] {
        let lease = lease_info(&store, rec.lease);
        assert_eq!(lease.ttl, 10);
        assert_eq!(lease.renewed_at, 5);
    }
}

#[test]
fn one_failing_record_does_not_stop_the_tick_or_the_next() {
    let records = vec![
        Record { key: String::from("k0"), value: String::from("v0") },
        Record { key: String::from("k1"), value: String::from("v1") },
        Record { key: String::from("k2"), value: String::from("v2") },
    ];
    let mut store = StoreModel::new();

    // the middle record's reconciliation fails on the first tick.
    run_tick(&mut store, &records, 10, &vec![false, true, false]);
    assert_eq!(store.get("k0").unwrap().value.as_str(), "v0");
    assert!(store.get("k1").is_none());
    assert_eq!(store.get("k2").unwrap().value.as_str(), "v2");

    // the next tick happens on schedule and repairs the gap.
    store.advance_time(5);
    run_tick(&mut store, &records, 10, &vec![false, false, false]);
    assert_eq!(store.get("k1").unwrap().value.as_str(), "v1");
    // the records that succeeded before keep their lease ids.
    let k0 = store.get("k0").unwrap();
    assert_eq!(lease_info(&store, k0.lease).renewed_at, 5);
}

#[test]
fn tick_without_lease_creates_permanent_records() {
    let records = vec![Record { key: String::from("k"), value: String::from("v") }];
    let mut store = StoreModel::new();
    run_tick(&mut store, &records, 0, &vec![false]);
    let rec = store.get("k").unwrap();
    assert_eq!(rec.value.as_str(), "v");
    assert_eq!(rec.lease, 0);
    assert!(store.leases.is_empty());
}
