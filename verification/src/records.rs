//! Record derivation.
//!
//! A registration is advertised through a fixed set of key-value records:
//! one endpoint-URL record, one router-binding record, and one record per
//! tag, in that order. Derivation is a pure function of the registration:
//! it reads no store state, and the key layout must match the reverse
//! proxy's discovery convention exactly.

use vstd::prelude::*;
use vstd::string::StringExecFns;

use crate::config::ServiceRegisterConfig;
use crate::tags::{parse_tag, spec_tag_key, spec_tag_value};

verus! {

/// One key-value pair that must exist in the store for the service to be
/// discoverable.
pub struct Record {
    pub key: String,
    pub value: String,
}

/// The key under which a service's endpoint URL is advertised.
pub open spec fn spec_url_key(service_name: Seq<char>) -> Seq<char> {
    "traefik/http/services/"@ + service_name + "/loadbalancer/servers/"@ + service_name
        + "/url"@
}

/// The key that binds the proxy's router for a service to the service.
pub open spec fn spec_router_key(service_name: Seq<char>) -> Seq<char> {
    "traefik/http/routers/"@ + service_name + "/service"@
}

/// Builds the endpoint-URL key for a service.
pub fn url_key(service_name: &str) -> (r: String)
    ensures
        r@ == spec_url_key(service_name@),
{
    let mut s = String::from_str("traefik/http/services/");
    s.append(service_name);
    s.append("/loadbalancer/servers/");
    s.append(service_name);
    s.append("/url");
    s
}

/// Builds the router-binding key for a service.
pub fn router_key(service_name: &str) -> (r: String)
    ensures
        r@ == spec_router_key(service_name@),
{
    let mut s = String::from_str("traefik/http/routers/");
    s.append(service_name);
    s.append("/service");
    s
}

/// Derives the full record set for one registration, in the fixed order:
/// the endpoint-URL record, the router-binding record, then one record
/// per tag in the order the tags were supplied.
pub fn derive_records(service_name: &str, config: &ServiceRegisterConfig) -> (r: Vec<Record>)
    ensures
        r@.len() == 2 + config.tags@.len(),
        r@[0].key@ == spec_url_key(service_name@),
        r@[0].value@ == config.url@,
        r@[1].key@ == spec_router_key(service_name@),
        r@[1].value@ == service_name@,
        forall|i: int|
            0 <= i < config.tags@.len() ==> {
                &&& (#[trigger] r@[2 + i]).key@ == spec_tag_key(config.tags@[i]@)
                &&& r@[2 + i].value@ == spec_tag_value(config.tags@[i]@)
            },
{
    let mut r: Vec<Record> = Vec::new();
    r.push(Record { key: url_key(service_name), value: config.url.clone() });
    r.push(Record { key: router_key(service_name), value: String::from_str(service_name) });
    let mut i: usize = 0;
    while i < config.tags.len()
        invariant
            r@.len() == 2 + i,
            i <= config.tags@.len(),
            r@[0].key@ == spec_url_key(service_name@),
            r@[0].value@ == config.url@,
            r@[1].key@ == spec_router_key(service_name@),
            r@[1].value@ == service_name@,
            forall|j: int|
                0 <= j < i ==> {
                    &&& (#[trigger] r@[2 + j]).key@ == spec_tag_key(config.tags@[j]@)
                    &&& r@[2 + j].value@ == spec_tag_value(config.tags@[j]@)
                },
        decreases config.tags@.len() - i,
    {
        let (key, value) = parse_tag(config.tags[i].as_str());
        r.push(Record { key, value });
        i = i + 1;
    }
    r
}

} // verus!
