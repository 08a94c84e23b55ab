use rqbit_fuse::api::types::{ListTorrentsResult, PieceBitfield, TorrentInfo, TorrentState};
use rqbit_fuse::error::RqbitFuseError;

#[test]
fn test_piece_bitfield() {
    // Pieces 0, 1, 3 downloaded (binary: 1011)
    let bitfield = PieceBitfield { bits: vec![0b00001011], num_pieces: 4 };

    assert!(bitfield.has_piece(0));
    assert!(bitfield.has_piece(1));
    assert!(!bitfield.has_piece(2));
    assert!(bitfield.has_piece(3));

    assert_eq!(bitfield.downloaded_count(), 3);
    assert!(!bitfield.is_complete());
}

#[test]
fn test_piece_bitfield_complete() {
    let bitfield = PieceBitfield { bits: vec![0b11111111], num_pieces: 8 };

    assert!(bitfield.is_complete());
    assert_eq!(bitfield.downloaded_count(), 8);
}

#[test]
fn test_has_piece_range_complete_bitfield() {
    let bitfield = PieceBitfield { bits: vec![0b11111111], num_pieces: 8 };

    assert!(bitfield.has_piece_range(0, 100, 100));
    assert!(bitfield.has_piece_range(0, 800, 100));
    assert!(bitfield.has_piece_range(350, 100, 100));
    assert!(bitfield.has_piece_range(700, 100, 100));
    assert!(bitfield.has_piece_range(0, 1, 100));
    assert!(bitfield.has_piece_range(799, 1, 100));
}

#[test]
fn test_has_piece_range_partial_bitfield() {
    // Pieces 1, 3, 5, 7 available
    let bitfield = PieceBitfield { bits: vec![0b10101010], num_pieces: 8 };

    assert!(bitfield.has_piece_range(100, 100, 100));
    assert!(bitfield.has_piece_range(300, 100, 100));
    assert!(bitfield.has_piece_range(500, 100, 100));
    assert!(bitfield.has_piece_range(700, 100, 100));

    assert!(!bitfield.has_piece_range(0, 100, 100));
    assert!(!bitfield.has_piece_range(0, 200, 100));
    assert!(!bitfield.has_piece_range(200, 100, 100));
    assert!(!bitfield.has_piece_range(0, 800, 100));
    assert!(!bitfield.has_piece_range(50, 200, 100));
}

#[test]
fn test_has_piece_range_edge_cases() {
    // Pieces 4-7 available
    let bitfield = PieceBitfield { bits: vec![0b11110000], num_pieces: 8 };

    assert!(bitfield.has_piece_range(0, 0, 100));
    assert!(bitfield.has_piece_range(500, 0, 100));

    assert!(!bitfield.has_piece_range(0, 100, 0));
    assert!(bitfield.has_piece_range(0, 0, 0));

    assert!(bitfield.has_piece_range(400, 100, 100));
    assert!(!bitfield.has_piece_range(0, 100, 100));
}

#[test]
fn test_has_piece_range_spans_multiple_pieces() {
    let mut bits = vec![0u8; 2];
    bits[0] = 0b11111111;
    bits[1] = 0b00000000;

    let bitfield = PieceBitfield { bits, num_pieces: 16 };

    assert!(bitfield.has_piece_range(0, 800, 100));
    assert!(bitfield.has_piece_range(100, 500, 100));
    assert!(bitfield.has_piece_range(350, 250, 100));

    assert!(!bitfield.has_piece_range(700, 200, 100));
    assert!(!bitfield.has_piece_range(750, 100, 100));
}

#[test]
fn test_has_piece_range_large_piece_length() {
    // Pieces 0-3 available
    let bitfield = PieceBitfield { bits: vec![0b00001111], num_pieces: 8 };

    let piece_length = 1024 * 1024;

    assert!(bitfield.has_piece_range(0, piece_length, piece_length));
    assert!(bitfield.has_piece_range(0, 4 * piece_length, piece_length));
    assert!(bitfield.has_piece_range(piece_length / 2, piece_length, piece_length));

    assert!(!bitfield.has_piece_range(3 * piece_length, 2 * piece_length, piece_length));
}

#[test]
fn piece_beyond_count_is_missing() {
    // The bit is set but the torrent has only two pieces.
    let bitfield = PieceBitfield { bits: vec![0b00000111], num_pieces: 2 };
    assert!(!bitfield.has_piece(2));
    assert_eq!(bitfield.downloaded_count(), 2);
    assert!(bitfield.is_complete());
    // A range that reaches past the last piece is not available.
    assert!(!bitfield.has_piece_range(0, 300, 100));
}

#[test]
fn piece_range_near_the_top_of_u64_saturates() {
    let bitfield = PieceBitfield { bits: vec![0xff; 4], num_pieces: 32 };
    // The range end saturates at the last byte instead of overflowing, so
    // only piece 15 is asked for, and it is present.
    assert!(bitfield.has_piece_range(u64::MAX - 10, 100, 1 << 60));
    let missing = PieceBitfield { bits: vec![0xff, 0x7f], num_pieces: 16 };
    assert!(!missing.has_piece_range(u64::MAX - 10, 100, 1 << 60));
}

fn info(id: u64) -> TorrentInfo {
    TorrentInfo {
        id,
        info_hash: String::new(),
        name: format!("t{}", id),
        output_folder: String::new(),
        file_count: None,
        files: vec![],
        piece_length: None,
    }
}

#[test]
fn list_result_counts() {
    let empty = ListTorrentsResult { torrents: vec![], errors: vec![] };
    assert!(empty.is_empty());
    assert!(!empty.is_partial());
    assert!(!empty.has_successes());
    assert_eq!(empty.total_attempted(), 0);

    let partial = ListTorrentsResult {
        torrents: vec![info(1), info(2)],
        errors: vec![(3, "three".to_string(), RqbitFuseError::NotFound("3".to_string()))],
    };
    assert!(!partial.is_empty());
    assert!(partial.is_partial());
    assert!(partial.has_successes());
    assert_eq!(partial.total_attempted(), 3);
}

#[test]
fn torrent_state_from_stats() {
    assert_eq!(TorrentState::from_stats(true, true, 10, 10, "live"), TorrentState::Error);
    assert_eq!(TorrentState::from_stats(false, true, 0, 10, "paused"), TorrentState::Seeding);
    assert_eq!(TorrentState::from_stats(false, false, 10, 10, "live"), TorrentState::Seeding);
    assert_eq!(TorrentState::from_stats(false, false, 0, 0, "paused"), TorrentState::Paused);
    assert_eq!(TorrentState::from_stats(false, false, 5, 10, "live"), TorrentState::Downloading);
    assert_eq!(TorrentState::from_stats(false, false, 5, 10, "initializing"), TorrentState::Unknown);
}
