//! Torrents and the files they hold.
use vstd::prelude::*;

verus! {

/// A torrent as the filesystem knows it.
#[derive(Debug, Clone)]
pub struct Torrent {
    pub id: u64,
    pub name: String,
    pub info_hash: String,
    pub total_size: u64,
    pub piece_length: u64,
    pub num_pieces: usize,
}

/// One file of a torrent.
#[derive(Debug, Clone)]
pub struct TorrentFile {
    pub path: Vec<String>,
    pub length: u64,
    pub offset: u64,
}

} // verus!
