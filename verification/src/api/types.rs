//! The data the rqbit API exchanges, and piece availability.
use crate::error::RqbitFuseError;
use vstd::prelude::*;

verus! {

/// Torrent summary from the list endpoint.
#[derive(Debug, Clone)]
pub struct TorrentSummary {
    pub id: u64,
    pub info_hash: String,
    pub name: String,
    pub output_folder: String,
}

/// Response from listing torrents.
#[derive(Debug, Clone)]
pub struct TorrentListResponse {
    pub torrents: Vec<TorrentSummary>,
}

/// Full torrent information.
#[derive(Debug, Clone)]
pub struct TorrentInfo {
    pub id: u64,
    pub info_hash: String,
    pub name: String,
    pub output_folder: String,
    pub file_count: Option<usize>,
    pub files: Vec<FileInfo>,
    pub piece_length: Option<u64>,
}

/// File information.
#[derive(Debug, Clone)]
pub struct FileInfo {
    pub name: String,
    pub length: u64,
    pub components: Vec<String>,
}

/// Response from adding a torrent.
#[derive(Debug, Clone)]
pub struct AddTorrentResponse {
    pub id: u64,
    pub info_hash: String,
}

/// Result of listing torrents (handles partial failures).
#[derive(Debug, Clone)]
pub struct ListTorrentsResult {
    /// Successfully loaded torrents with full details
    pub torrents: Vec<TorrentInfo>,
    /// Failed torrent fetches: (id, name, error)
    pub errors: Vec<(u64, String, RqbitFuseError)>,
}

impl ListTorrentsResult {
    /// Some torrents failed to load.
    pub fn is_partial(&self) -> (r: bool)
        ensures
            r == (self.errors@.len() > 0),
    {
        self.errors.len() != 0
    }

    /// Some torrents loaded.
    pub fn has_successes(&self) -> (r: bool)
        ensures
            r == (self.torrents@.len() > 0),
    {
        self.torrents.len() != 0
    }

    /// No torrent loaded.
    pub fn is_empty(&self) -> (r: bool)
        ensures
            r == (self.torrents@.len() == 0),
    {
        self.torrents.len() == 0
    }

    /// The number of torrents tried: loaded and failed.
    pub fn total_attempted(&self) -> (r: usize)
        requires
            self.torrents@.len() + self.errors@.len() <= usize::MAX,
        ensures
            r == self.torrents@.len() + self.errors@.len(),
    {
        self.torrents.len() + self.errors.len()
    }
}

/// Request to add a torrent from a magnet link.
#[derive(Debug, Clone)]
pub struct AddMagnetRequest {
    pub magnet_link: String,
}

/// Request to add a torrent from a URL.
#[derive(Debug, Clone)]
pub struct AddTorrentUrlRequest {
    pub torrent_link: String,
}

/// Piece availability bitfield, least significant bit first in each byte.
#[derive(Debug, Clone)]
pub struct PieceBitfield {
    pub bits: Vec<u8>,
    pub num_pieces: usize,
}

/// Whether piece `i` is marked present: it is below the piece count and its
/// bit is set.
pub open spec fn piece_present(bits: Seq<u8>, num_pieces: nat, i: int) -> bool {
    0 <= i < num_pieces && i / 8 < bits.len() && (bits[i / 8] >> ((i % 8) as u8)) & 1u8 == 1u8
}

/// The number of present pieces among the first `k`.
pub open spec fn present_count(bits: Seq<u8>, num_pieces: nat, k: nat) -> nat
    decreases k,
{
    if k == 0 {
        0
    } else {
        present_count(bits, num_pieces, (k - 1) as nat) + if piece_present(
            bits,
            num_pieces,
            k - 1,
        ) {
            1nat
        } else {
            0nat
        }
    }
}

/// The last byte of a range, saturating at the largest offset.
pub open spec fn range_end_byte(offset: u64, size: u64) -> int {
    if offset + size - 1 > u64::MAX {
        u64::MAX as int
    } else {
        offset + size - 1
    }
}

proof fn lemma_present_count_bound(bits: Seq<u8>, num_pieces: nat, k: nat)
    ensures
        present_count(bits, num_pieces, k) <= k,
    decreases k,
{
    if k > 0 {
        lemma_present_count_bound(bits, num_pieces, (k - 1) as nat);
    }
}

impl PieceBitfield {
    /// Whether the piece is downloaded.
    pub fn has_piece(&self, piece_idx: usize) -> (r: bool)
        ensures
            r == piece_present(self.bits@, self.num_pieces as nat, piece_idx as int),
    {
        if piece_idx >= self.num_pieces {
            return false;
        }
        let byte_idx = piece_idx / 8;
        let bit_idx = (piece_idx % 8) as u8;
        if byte_idx < self.bits.len() {
            (self.bits[byte_idx] >> bit_idx) & 1u8 == 1u8
        } else {
            false
        }
    }

    /// The number of downloaded pieces.
    pub fn downloaded_count(&self) -> (r: usize)
        ensures
            r == present_count(self.bits@, self.num_pieces as nat, self.num_pieces as nat),
    {
        let mut count: usize = 0;
        let mut i: usize = 0;
        while i < self.num_pieces
            invariant
                i <= self.num_pieces,
                count == present_count(self.bits@, self.num_pieces as nat, i as nat),
            decreases self.num_pieces - i,
        {
            proof {
                lemma_present_count_bound(self.bits@, self.num_pieces as nat, i as nat);
            }
            if self.has_piece(i) {
                count = count + 1;
            }
            i = i + 1;
        }
        count
    }

    /// Every piece is downloaded.
    pub fn is_complete(&self) -> (r: bool)
        ensures
            r == (present_count(self.bits@, self.num_pieces as nat, self.num_pieces as nat)
                == self.num_pieces),
    {
        self.downloaded_count() == self.num_pieces
    }

    /// Check if all pieces in a byte range are available: an empty range
    /// always is; with a piece length of 0 no other range is; else every
    /// piece from the one holding `offset` to the one holding the range's last
    /// byte (saturating at the largest offset) must be present.
    pub fn has_piece_range(&self, offset: u64, size: u64, piece_length: u64) -> (r: bool)
        ensures
            r == (size == 0 || (piece_length > 0 && forall|i: int|
                offset / piece_length <= i <= range_end_byte(offset, size) / (piece_length as int)
                    ==> #[trigger] piece_present(self.bits@, self.num_pieces as nat, i))),
    {
        if size == 0 {
            return true;
        }
        if piece_length == 0 {
            return false;
        }
        let start_piece = offset / piece_length;
        let end_byte = offset.saturating_add(size - 1);
        let end_piece = end_byte / piece_length;
        assert(end_byte == range_end_byte(offset, size));
        let mut i = start_piece;
        if start_piece > end_piece {
            return true;
        }
        loop
            invariant
                start_piece <= i <= end_piece,
                piece_length > 0,
                size > 0,
                start_piece == offset / piece_length,
                end_piece == range_end_byte(offset, size) / (piece_length as int),
                forall|j: int| start_piece <= j < i ==> #[trigger] piece_present(self.bits@, self.num_pieces as nat, j),
            decreases end_piece - i,
        {
            if i >= self.num_pieces as u64 {
                assert(!piece_present(self.bits@, self.num_pieces as nat, i as int));
                return false;
            }
            if !self.has_piece(i as usize) {
                return false;
            }
            if i == end_piece {
                return true;
            }
            i = i + 1;
        }
    }
}

/// Torrent state for monitoring.
#[derive(Debug, Clone, Copy, PartialEq, Eq, Structural)]
pub enum TorrentState {
    Downloading,
    Seeding,
    Paused,
    Stalled,
    Error,
    Unknown,
}

impl TorrentState {
    /// The state of a torrent from its statistics: an error wins, then a
    /// finished or fully downloaded torrent seeds, then the server's state
    /// "paused" or "live" (downloading), else unknown.
    pub fn from_stats(
        has_error: bool,
        finished: bool,
        progress_bytes: u64,
        total_bytes: u64,
        state: &str,
    ) -> (r: TorrentState)
        ensures
            r == (if has_error {
                TorrentState::Error
            } else if finished || (progress_bytes >= total_bytes && total_bytes > 0) {
                TorrentState::Seeding
            } else if state@ == "paused"@ {
                TorrentState::Paused
            } else if state@ == "live"@ {
                TorrentState::Downloading
            } else {
                TorrentState::Unknown
            }),
    {
        if has_error {
            TorrentState::Error
        } else if finished || (progress_bytes >= total_bytes && total_bytes > 0) {
            TorrentState::Seeding
        } else if crate::text::str_equal(state, "paused") {
            TorrentState::Paused
        } else if crate::text::str_equal(state, "live") {
            TorrentState::Downloading
        } else {
            TorrentState::Unknown
        }
    }
}

} // verus!
