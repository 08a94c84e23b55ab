//! The filesystem: its inode table and the decisions behind each request.
pub mod tables;
pub mod inode_manager;
pub mod names;
pub mod filesystem;
pub mod async_bridge;
