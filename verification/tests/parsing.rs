use etcd_registry::config::{EtcdConfig, ServiceRegisterConfig};
use etcd_registry::records::{derive_records, router_key, url_key};
use etcd_registry::tags::parse_tag;

#[test]
fn tag_with_equals_splits_at_first() {
    let (k, v) = parse_tag("a=b");
    assert_eq!(k.as_str(), "a");
    assert_eq!(v.as_str(), "b");
}

#[test]
fn tag_without_equals_yields_empty_pair() {
    let (k, v) = parse_tag("noequals");
    assert_eq!(k.as_str(), "");
    assert_eq!(v.as_str(), "");
}

#[test]
fn tag_with_two_equals_keeps_the_rest_in_the_value() {
    let (k, v) = parse_tag("a==b");
    assert_eq!(k.as_str(), "a");
    assert_eq!(v.as_str(), "=b");
}

#[test]
fn tag_edge_shapes() {
    let (k, v) = parse_tag("=");
    assert_eq!(k.as_str(), "");
    assert_eq!(v.as_str(), "");
    let (k, v) = parse_tag("=v");
    assert_eq!(k.as_str(), "");
    assert_eq!(v.as_str(), "v");
    let (k, v) = parse_tag("k=");
    assert_eq!(k.as_str(), "k");
    assert_eq!(v.as_str(), "");
    let (k, v) = parse_tag("");
    assert_eq!(k.as_str(), "");
    assert_eq!(v.as_str(), "");
}

#[test]
fn url_key_matches_the_proxy_convention() {
    assert_eq!(
        url_key("api").as_str(),
        "traefik/http/services/api/loadbalancer/servers/api/url"
    );
}

#[test]
fn router_key_matches_the_proxy_convention() {
    assert_eq!(router_key("api").as_str(), "traefik/http/routers/api/service");
}

#[test]
fn derive_records_produces_url_router_then_tags() {
    let config = ServiceRegisterConfig {
        url: String::from("http://10.0.0.5:8080"),
        tags: vec![String::from("env=prod"), String::from("zone=eu")],
        ttl: 10,
    };
    let records = derive_records("api", &config);
    assert_eq!(records.len(), 4);
    assert_eq!(
        records[0].key.as_str(),
        "traefik/http/services/api/loadbalancer/servers/api/url"
    );
    assert_eq!(records[0].value.as_str(), "http://10.0.0.5:8080");
    assert_eq!(records[1].key.as_str(), "traefik/http/routers/api/service");
    assert_eq!(records[1].value.as_str(), "api");
    assert_eq!(records[2].key.as_str(), "env");
    assert_eq!(records[2].value.as_str(), "prod");
    assert_eq!(records[3].key.as_str(), "zone");
    assert_eq!(records[3].value.as_str(), "eu");
}

#[test]
fn derive_records_passes_malformed_tags_through() {
    let config = ServiceRegisterConfig {
        url: String::from("http://h:1"),
        tags: vec![String::from("noequals")],
        ttl: 0,
    };
    let records = derive_records("svc", &config);
    assert_eq!(records.len(), 3);
    assert_eq!(records[2].key.as_str(), "");
    assert_eq!(records[2].value.as_str(), "");
}

#[test]
fn default_connection_settings() {
    let config = EtcdConfig::default();
    assert_eq!(config.endpoints.len(), 1);
    assert_eq!(config.endpoints[0].as_str(), "http://127.0.0.1:2379");
    assert_eq!(config.timeout, 2000);
    assert_eq!(config.keep_alive, 300);
}
