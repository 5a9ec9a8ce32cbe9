//! Verified core of a log-ingestion service.
//!
//! The library covers the ingestion pipeline of a syslog collector: the
//! incremental file-tailing mechanism with persisted read-cursors, the
//! line-to-record parsing and mapping step, the dynamic filter-query
//! assembly used to serve queries, and the blacklist-suppression logic
//! applied to query results.  File and network I/O stay outside; the
//! library works on plain values handed in by its caller and states its
//! behaviour in contracts.

pub mod blacklist;
pub mod cache;
pub mod config;
pub mod entities;
pub mod errors;
pub mod ident;
pub mod pipeline;
pub mod query;
pub mod record;
pub mod repository;
pub mod service;
pub mod text;
pub mod timestamp;
