//! A minimal distributed key-presence store.
//!
//! The library holds the verified core of a small replicated store: the
//! append-only item container, the parsing of configuration properties, the
//! line-based wire protocol (request parsing and response rendering), and the
//! replication planner that decides what a master node pushes to its replicas.
//! All socket, file and timer work lives outside the library; it hands in
//! plain strings and takes plain strings back.

pub mod config;
pub mod digits;
pub mod protocol;
pub mod replication;
pub mod storage;
pub mod text;
