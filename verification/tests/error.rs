use rqbit_fuse::error::{errno_for_origin, join_strings, ErrorOrigin, IoErrorKind, RqbitFuseError};

fn api(status: u16, message: &str) -> RqbitFuseError {
    RqbitFuseError::ApiError { status, message: message.to_string() }
}

#[test]
fn test_api_error_mapping() {
    assert_eq!(RqbitFuseError::NotFound("torrent 1".to_string()).to_errno(), libc::ENOENT);
    assert_eq!(RqbitFuseError::InvalidArgument("test".to_string()).to_errno(), libc::EINVAL);
    assert_eq!(RqbitFuseError::TimedOut("connection".to_string()).to_errno(), libc::ETIMEDOUT);
    assert_eq!(RqbitFuseError::NetworkError("test".to_string()).to_errno(), libc::ENETUNREACH);
    assert_eq!(RqbitFuseError::NotReady("retry limit".to_string()).to_errno(), libc::EAGAIN);
    assert_eq!(api(404, "not found").to_errno(), libc::ENOENT);
    assert_eq!(api(403, "forbidden").to_errno(), libc::EACCES);
    assert_eq!(api(503, "unavailable").to_errno(), libc::EAGAIN);
}

#[test]
fn test_api_error_is_transient() {
    assert!(RqbitFuseError::TimedOut("connection".to_string()).is_transient());
    assert!(RqbitFuseError::NetworkError("test".to_string()).is_transient());
    assert!(RqbitFuseError::NotReady("retry limit".to_string()).is_transient());
    assert!(api(503, "unavailable").is_transient());

    assert!(!RqbitFuseError::NotFound("test".to_string()).is_transient());
    assert!(!RqbitFuseError::InvalidArgument("test".to_string()).is_transient());
    assert!(!api(404, "not found").is_transient());
}

#[test]
fn test_error_to_errno() {
    assert_eq!(RqbitFuseError::NotFound("test".to_string()).to_errno(), libc::ENOENT);
    assert_eq!(RqbitFuseError::PermissionDenied("test".to_string()).to_errno(), libc::EACCES);
    assert_eq!(RqbitFuseError::TimedOut("test".to_string()).to_errno(), libc::ETIMEDOUT);
    assert_eq!(RqbitFuseError::NetworkError("test".to_string()).to_errno(), libc::ENETUNREACH);
    assert_eq!(RqbitFuseError::IoError("test".to_string()).to_errno(), libc::EIO);
    assert_eq!(RqbitFuseError::InvalidArgument("test".to_string()).to_errno(), libc::EINVAL);
    assert_eq!(RqbitFuseError::IsDirectory.to_errno(), libc::EISDIR);
    assert_eq!(RqbitFuseError::NotDirectory.to_errno(), libc::ENOTDIR);
    assert_eq!(RqbitFuseError::NotReady("test".to_string()).to_errno(), libc::EAGAIN);
}

#[test]
fn test_api_error_to_errno() {
    assert_eq!(api(400, "test").to_errno(), libc::EINVAL);
    assert_eq!(api(404, "test").to_errno(), libc::ENOENT);
    assert_eq!(api(429, "test").to_errno(), libc::EAGAIN);
    assert_eq!(api(500, "test").to_errno(), libc::EIO);
}

#[test]
fn test_is_transient() {
    assert!(RqbitFuseError::TimedOut("test".to_string()).is_transient());
    assert!(RqbitFuseError::NetworkError("test".to_string()).is_transient());
    assert!(RqbitFuseError::NotReady("test".to_string()).is_transient());
    assert!(api(429, "test").is_transient());

    assert!(!RqbitFuseError::NotFound("test".to_string()).is_transient());
    assert!(!RqbitFuseError::PermissionDenied("test".to_string()).is_transient());
    assert!(!RqbitFuseError::InvalidArgument("test".to_string()).is_transient());
    assert!(!api(400, "test").is_transient());
}

#[test]
fn test_is_server_unavailable() {
    assert!(RqbitFuseError::TimedOut("test".to_string()).is_server_unavailable());
    assert!(RqbitFuseError::NetworkError("test".to_string()).is_server_unavailable());

    assert!(!RqbitFuseError::NotFound("test".to_string()).is_server_unavailable());
    assert!(!RqbitFuseError::NotReady("test".to_string()).is_server_unavailable());
}

#[test]
fn test_display_formatting() {
    assert_eq!(RqbitFuseError::NotFound("test".to_string()).message(), "Not found: test");
}

#[test]
fn remaining_status_mappings() {
    assert_eq!(api(401, "x").to_errno(), libc::EACCES);
    assert_eq!(api(408, "x").to_errno(), libc::EAGAIN);
    assert_eq!(api(409, "x").to_errno(), libc::EEXIST);
    assert_eq!(api(413, "x").to_errno(), libc::EFBIG);
    assert_eq!(api(416, "x").to_errno(), libc::EINVAL);
    assert_eq!(api(423, "x").to_errno(), libc::EAGAIN);
    assert_eq!(api(504, "x").to_errno(), libc::EAGAIN);
    assert_eq!(api(502, "x").to_errno(), libc::EIO);
    assert!(api(502, "x").is_transient());
    assert!(api(408, "x").is_transient());
    assert!(!api(500, "x").is_transient());
    assert_eq!(RqbitFuseError::ValidationError(vec![]).to_errno(), libc::EINVAL);
    assert_eq!(RqbitFuseError::ParseError("x".to_string()).to_errno(), libc::EINVAL);
}

#[test]
fn messages_of_every_variant() {
    assert_eq!(api(503, "busy").message(), "API error: 503 - busy");
    assert_eq!(RqbitFuseError::PermissionDenied("p".to_string()).message(), "Permission denied: p");
    assert_eq!(RqbitFuseError::TimedOut("t".to_string()).message(), "Operation timed out: t");
    assert_eq!(RqbitFuseError::NetworkError("n".to_string()).message(), "Network error: n");
    assert_eq!(RqbitFuseError::IoError("i".to_string()).message(), "I/O error: i");
    assert_eq!(RqbitFuseError::InvalidArgument("a".to_string()).message(), "Invalid argument: a");
    assert_eq!(
        RqbitFuseError::ValidationError(vec!["a".to_string(), "b".to_string()]).message(),
        "Validation error: a; b"
    );
    assert_eq!(RqbitFuseError::NotReady("r".to_string()).message(), "Resource temporarily unavailable: r");
    assert_eq!(RqbitFuseError::ParseError("j".to_string()).message(), "Parse error: j");
    assert_eq!(RqbitFuseError::IsDirectory.message(), "Is a directory");
    assert_eq!(RqbitFuseError::NotDirectory.message(), "Not a directory");
}

#[test]
fn io_kinds_map_to_variants() {
    assert!(matches!(
        RqbitFuseError::from_io_kind(IoErrorKind::NotFound, "m".to_string()),
        RqbitFuseError::NotFound(_)
    ));
    assert!(matches!(
        RqbitFuseError::from_io_kind(IoErrorKind::PermissionDenied, "m".to_string()),
        RqbitFuseError::PermissionDenied(_)
    ));
    assert!(matches!(
        RqbitFuseError::from_io_kind(IoErrorKind::TimedOut, "m".to_string()),
        RqbitFuseError::TimedOut(_)
    ));
    assert!(matches!(
        RqbitFuseError::from_io_kind(IoErrorKind::InvalidInput, "m".to_string()),
        RqbitFuseError::InvalidArgument(_)
    ));
    assert!(matches!(
        RqbitFuseError::from_io_kind(IoErrorKind::Other, "m".to_string()),
        RqbitFuseError::IoError(_)
    ));
}

#[test]
fn http_failures_are_classified() {
    assert!(matches!(
        RqbitFuseError::from_http_failure(true, true, true, "d".to_string()),
        RqbitFuseError::TimedOut(_)
    ));
    assert_eq!(
        RqbitFuseError::from_http_failure(false, true, false, "refused".to_string()).message(),
        "Network error: Server disconnected: refused"
    );
    assert_eq!(
        RqbitFuseError::from_http_failure(false, false, true, "bad".to_string()).message(),
        "Network error: bad"
    );
    assert_eq!(
        RqbitFuseError::from_http_failure(false, false, false, "body".to_string()).message(),
        "I/O error: HTTP error: body"
    );
}

#[test]
fn joining_strings() {
    assert_eq!(join_strings(&vec![], ", "), "");
    assert_eq!(join_strings(&vec!["one".to_string()], ", "), "one");
    assert_eq!(
        join_strings(&vec!["a".to_string(), "b".to_string(), "c".to_string()], "-"),
        "a-b-c"
    );
}

#[test]
fn errno_for_each_origin() {
    assert_eq!(
        errno_for_origin(&ErrorOrigin::Library(RqbitFuseError::IsDirectory)),
        libc::EISDIR
    );
    assert_eq!(errno_for_origin(&ErrorOrigin::Io(IoErrorKind::NotFound)), libc::ENOENT);
    assert_eq!(errno_for_origin(&ErrorOrigin::Io(IoErrorKind::PermissionDenied)), libc::EACCES);
    assert_eq!(errno_for_origin(&ErrorOrigin::Io(IoErrorKind::TimedOut)), libc::ETIMEDOUT);
    assert_eq!(errno_for_origin(&ErrorOrigin::Io(IoErrorKind::InvalidInput)), libc::EINVAL);
    assert_eq!(errno_for_origin(&ErrorOrigin::Io(IoErrorKind::Other)), libc::EIO);
    assert_eq!(errno_for_origin(&ErrorOrigin::Other), libc::EIO);
}
