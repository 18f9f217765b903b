//! A self-renewing service registration library for a lease-backed
//! key-value store.
//!
//! A service's reachability facts (its endpoint URL, its router binding,
//! and its tags) are written into the store as key-value records, each
//! bound to a time-limited lease. A periodic renewal loop re-derives the
//! record set every `ttl / 2` seconds and, for each record, either creates
//! it with a fresh lease or refreshes the lease it already carries —
//! never overwriting an existing value.
//!
//! The store itself is an external collaborator reached over the network;
//! this crate holds the verified core: configuration, record derivation,
//! tag parsing, the put-or-touch reconciliation rule, the renewal schedule,
//! and a store model against which the reconciliation contracts are stated
//! and proved.

pub mod config;
pub mod records;
pub mod registrar;
pub mod store;
pub mod tags;
pub mod text;
