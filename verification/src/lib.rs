//! A read-only filesystem over BitTorrent torrents served by rqbit: the
//! inode table, file handles, path rules, request decisions and protocol
//! logic, with their contracts.
pub mod errno;
pub mod text;
pub mod error;
pub mod types;
pub mod fs;
pub mod api;
pub mod metrics;
pub mod sharded_counter;
pub mod cache;
pub mod config;
pub mod mount;
pub mod laws;
