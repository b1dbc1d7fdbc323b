//! Cluster membership discovery: an in-memory, multi-tenant registry of
//! TTL-bounded affiliate records with per-cluster watch feeds, garbage
//! collection of expired records and a snapshot/restore view of the whole
//! registry.

pub mod affiliate;
pub mod client;
pub mod cluster;
pub mod config;
pub mod dump;
pub mod hub;
pub mod protocol;
pub mod service;
pub mod time;
