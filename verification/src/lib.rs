//! A TLS certificate observation service: given a set of network targets,
//! it periodically performs TLS handshakes, captures the server-presented
//! certificate chain (even when validation fails), and exposes the observed
//! validity windows as metric rows.
//!
//! This crate holds the verified core: the certificate model, the module
//! (TLS-profile) inheritance resolver, the endpoint planner, the probe
//! outcome classifier, the deduplicating certificate store, and the probe
//! scheduler's timing decisions. Network, file and HTTP plumbing live
//! outside, handing plain values in and out.

pub mod cert;
pub mod config;
pub mod error;
pub mod filestore;
pub mod loader;
pub mod metrics;
pub mod modules;
pub mod prober;
pub mod scheduler;
pub mod store;
pub mod target;
pub mod text;
pub mod time;
