//! Core data types for inodes, handles, torrents and file attributes.
pub mod inode;
pub mod handle;
pub mod attr;
pub mod torrent;

pub use handle::FileHandle;
pub use inode::InodeEntry;
