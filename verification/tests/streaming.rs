use rqbit_fuse::api::circuit_breaker::{CircuitBreaker, CircuitState};
use rqbit_fuse::api::streaming::{
    choose_stream, open_stream_check, stream_stats, StreamChoice, StreamCursor, StreamKey, MAX_SEEK_FORWARD,
};

#[test]
fn cursor_serves_forward_reads_within_the_limit() {
    let mut c = StreamCursor::new(100);
    assert_eq!(c.position(), 0);
    assert!(c.is_valid());
    assert!(!c.has_pending());
    assert!(c.can_read_at(0));
    assert!(c.can_read_at(MAX_SEEK_FORWARD));
    assert!(!c.can_read_at(MAX_SEEK_FORWARD + 1));

    let mut out = Vec::new();
    c.read_chunk(&mut out, 4, &[1, 2, 3, 4, 5, 6]);
    assert_eq!(out, vec![1, 2, 3, 4]);
    assert_eq!(c.position(), 4);
    assert!(c.has_pending());
    // Backward seeks are not served.
    assert!(!c.can_read_at(3));
    assert!(c.can_read_at(4));

    // The pending bytes start the next read.
    let first = c.take_pending(1);
    assert_eq!(first, vec![5]);
    assert_eq!(c.position(), 5);
    assert_eq!(c.consume_pending(10), 1);
    assert_eq!(c.position(), 6);
    assert!(!c.has_pending());

    c.invalidate();
    assert!(!c.is_valid());
    assert!(!c.can_read_at(6));
}

#[test]
fn skipping_forward_keeps_the_rest() {
    let mut c = StreamCursor::new(0);
    let skipped = c.skip_chunk(0, 3, &[9, 9]);
    assert_eq!(skipped, 2);
    let skipped = c.skip_chunk(skipped, 3, &[9, 7, 8]);
    assert_eq!(skipped, 3);
    assert_eq!(c.position(), 3);
    assert_eq!(c.take_pending(5), vec![7, 8]);
    assert_eq!(c.position(), 5);
}

#[test]
fn idle_streams() {
    let mut c = StreamCursor::new(1_000);
    assert!(!c.is_idle(31_000));
    assert!(c.is_idle(31_001));
    c.touch(40_000);
    assert!(!c.is_idle(41_000));
    assert!(!c.is_idle(500));
}

#[test]
fn choosing_a_stream() {
    let mut c = StreamCursor::new(0);
    let mut out = Vec::new();
    c.read_chunk(&mut out, 10, &[0; 10]);
    assert_eq!(choose_stream(Some(&c), 10, 1, 50), StreamChoice::Reuse { skip: 0 });
    assert_eq!(choose_stream(Some(&c), 110, 1, 50), StreamChoice::Reuse { skip: 100 });
    assert_eq!(choose_stream(Some(&c), 5, 1, 50), StreamChoice::Create);
    assert_eq!(choose_stream(None, 0, 49, 50), StreamChoice::Create);
    assert_eq!(
        choose_stream(None, 0, 50, 50),
        StreamChoice::TooMany("Maximum number of open streams (50) exceeded".to_string())
    );
    assert_eq!(choose_stream(Some(&c), 10 + MAX_SEEK_FORWARD + 1, 3, 3), StreamChoice::TooMany(
        "Maximum number of open streams (3) exceeded".to_string()
    ));
}

#[test]
fn opening_streams() {
    assert_eq!(open_stream_check(206, "Partial Content", 100).unwrap(), 0);
    assert_eq!(open_stream_check(200, "OK", 100).unwrap(), 100);
    assert_eq!(open_stream_check(200, "OK", 0).unwrap(), 0);
    assert_eq!(
        open_stream_check(500, "Internal Server Error", 0).unwrap_err().message(),
        "I/O error: Failed to create stream: HTTP Internal Server Error"
    );
}

#[test]
fn stream_statistics() {
    let s = stream_stats(&vec![10, 20, 30], 50);
    assert_eq!(s.active_streams, 3);
    assert_eq!(s.max_streams, 50);
    assert_eq!(s.total_bytes_streaming, 60);
    let key = StreamKey { torrent_id: 1, file_idx: 2 };
    assert_eq!(key, StreamKey { torrent_id: 1, file_idx: 2 });
}

#[test]
fn circuit_breaker_opens_and_recovers() {
    let mut b = CircuitBreaker::new(3, 1000);
    assert_eq!(b.state(), CircuitState::Closed);
    assert!(b.can_execute(0));
    b.record_failure(10);
    b.record_failure(20);
    assert_eq!(b.state(), CircuitState::Closed);
    b.record_failure(30);
    assert_eq!(b.state(), CircuitState::Open);
    assert!(!b.can_execute(500));
    assert!(!b.can_execute(1029));
    assert!(b.can_execute(1030));
    assert_eq!(b.state(), CircuitState::HalfOpen);
    // A failure while half open opens it again.
    b.record_failure(1100);
    assert_eq!(b.state(), CircuitState::Open);
    assert!(b.can_execute(2100));
    b.record_success();
    assert_eq!(b.state(), CircuitState::Closed);
    b.record_failure(3000);
    assert_eq!(b.state(), CircuitState::Closed);
}
