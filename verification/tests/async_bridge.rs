use rqbit_fuse::error::{ErrorOrigin, IoErrorKind, RqbitFuseError};
use rqbit_fuse::fs::async_bridge::{
    forget_response, forget_result, i32_to_decimal, piece_length_for, pieces_response, pieces_result,
    read_file_result, read_response, send_error, FuseRequest, FuseResponse, ReadFailure, SendFailure, ToFuseError,
    WorkerOutcome, DEFAULT_PIECE_LENGTH,
};
use rqbit_fuse::metrics::Metrics;

#[test]
fn test_fuse_request_debug() {
    let request = FuseRequest::ReadFile { torrent_id: 1, file_index: 0, offset: 0, size: 1024, timeout_ms: 5000 };
    let debug_str = format!("{:?}", request);
    assert!(debug_str.contains("ReadFile"));
}

#[test]
fn test_fuse_response_debug() {
    let response = FuseResponse::Success { data: Some(vec![1, 2, 3]) };
    assert!(format!("{:?}", response).contains("Success"));
}

#[test]
fn read_responses_count_bytes_and_errors() {
    let mut m = Metrics::new();
    match read_response(&mut m, WorkerOutcome::Done(vec![1, 2, 3])) {
        FuseResponse::Success { data: Some(d) } => assert_eq!(d, vec![1, 2, 3]),
        other => panic!("unexpected {:?}", other),
    }
    assert_eq!(m.bytes_read, 3);
    assert_eq!(m.error_count, 0);

    match read_response(
        &mut m,
        WorkerOutcome::Failed { origin: ErrorOrigin::Library(RqbitFuseError::NotFound("x".to_string())), message: "gone".to_string() },
    ) {
        FuseResponse::Error { error_code, message } => {
            assert_eq!(error_code, libc::ENOENT);
            assert_eq!(message, "gone");
        }
        other => panic!("unexpected {:?}", other),
    }
    assert_eq!(m.error_count, 1);

    match read_response(&mut m, WorkerOutcome::TimedOut) {
        FuseResponse::Error { error_code, message } => {
            assert_eq!(error_code, libc::ETIMEDOUT);
            assert_eq!(message, "Operation timed out");
        }
        other => panic!("unexpected {:?}", other),
    }
    assert_eq!(m.error_count, 2);
    assert_eq!(m.bytes_read, 3);
}

#[test]
fn piece_checks() {
    assert_eq!(piece_length_for(Some(Some(1024))), 1024);
    assert_eq!(piece_length_for(Some(None)), DEFAULT_PIECE_LENGTH);
    assert_eq!(piece_length_for(None), 262144);

    assert!(matches!(pieces_response(WorkerOutcome::Done(true)), FuseResponse::PiecesAvailable));
    match pieces_response(WorkerOutcome::Done(false)) {
        FuseResponse::PiecesNotAvailable { reason } => assert_eq!(reason, "Pieces not available"),
        other => panic!("unexpected {:?}", other),
    }
    match pieces_response(WorkerOutcome::TimedOut) {
        FuseResponse::Error { error_code, message } => {
            assert_eq!(error_code, libc::ETIMEDOUT);
            assert_eq!(message, "Check timed out");
        }
        other => panic!("unexpected {:?}", other),
    }
    match pieces_response(WorkerOutcome::Failed { origin: ErrorOrigin::Io(IoErrorKind::PermissionDenied), message: "no".to_string() }) {
        FuseResponse::Error { error_code, .. } => assert_eq!(error_code, libc::EACCES),
        other => panic!("unexpected {:?}", other),
    }
    assert_eq!(pieces_result(FuseResponse::PiecesAvailable).unwrap(), true);
    assert_eq!(pieces_result(FuseResponse::PiecesNotAvailable { reason: "r".to_string() }).unwrap(), false);
    assert_eq!(
        pieces_result(FuseResponse::Error { error_code: 5, message: "bad".to_string() }).unwrap_err().message(),
        "I/O error: Check failed (code 5): bad"
    );
}

#[test]
fn forget_round_trip() {
    assert!(matches!(forget_response(Ok(())), FuseResponse::Success { data: None }));
    assert!(forget_result(forget_response(Ok(()))).is_ok());
    let r = forget_response(Err((ErrorOrigin::Other, "boom".to_string())));
    match &r {
        FuseResponse::Error { error_code, .. } => assert_eq!(*error_code, libc::EIO),
        other => panic!("unexpected {:?}", other),
    }
    let e = forget_result(r).unwrap_err();
    assert_eq!(e.message(), format!("I/O error: Forget failed (code {}): boom", libc::EIO));
    assert_eq!(
        forget_result(FuseResponse::PiecesAvailable).unwrap_err().message(),
        "I/O error: Unexpected response"
    );
}

#[test]
fn read_results() {
    assert_eq!(read_file_result(FuseResponse::Success { data: Some(vec![7]) }).unwrap(), vec![7]);
    let failed = read_file_result(FuseResponse::Error { error_code: -3, message: "m".to_string() }).unwrap_err();
    assert_eq!(failed.error_code, -3);
    assert_eq!(failed.error.message(), "I/O error: Read failed (code -3): m");
    let not_yet =
        read_file_result(FuseResponse::Error { error_code: libc::EAGAIN, message: "pieces".to_string() }).unwrap_err();
    assert_eq!(not_yet.error_code, libc::EAGAIN);
    let unexpected = read_file_result(FuseResponse::Success { data: None }).unwrap_err();
    assert_eq!(unexpected.error_code, libc::EIO);
    assert!(matches!(unexpected.error, RqbitFuseError::IoError(_)));
    let timed_out = ReadFailure::from_error(RqbitFuseError::TimedOut("t".to_string()));
    assert_eq!(timed_out.error_code, libc::ETIMEDOUT);
}

#[test]
fn unanswered_requests() {
    assert_eq!(send_error(SendFailure::Timeout).message(), "Operation timed out: request timed out");
    assert_eq!(send_error(SendFailure::Full).message(), "I/O error: channel full");
    assert_eq!(send_error(SendFailure::Disconnected).message(), "I/O error: worker disconnected");
    assert_eq!(send_error(SendFailure::Closed).message(), "I/O error: worker disconnected");
}

#[test]
fn decimal_text_and_error_codes() {
    assert_eq!(i32_to_decimal(0), "0");
    assert_eq!(i32_to_decimal(42), "42");
    assert_eq!(i32_to_decimal(-7), "-7");
    assert_eq!(i32_to_decimal(i32::MIN), "-2147483648");
    assert_eq!(RqbitFuseError::IsDirectory.to_fuse_error(), libc::EISDIR);
    assert_eq!(ErrorOrigin::Io(IoErrorKind::InvalidInput).to_fuse_error(), libc::EINVAL);
}
