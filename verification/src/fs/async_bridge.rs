//! The requests that filesystem callbacks hand to the async worker, the
//! responses it sends back, and how outcomes become responses and results.
use crate::error::{errno_for_origin, io_kind_errno, ErrorOrigin, RqbitFuseError};
use crate::errno::{errno_code, errno_value, Errno};
use crate::metrics::{wrap_add, Metrics};
use crate::text::{concat2, concat3};
use vstd::prelude::*;

verus! {

/// Trait for converting errors to FUSE error codes.
pub trait ToFuseError {
    /// Convert the error to a FUSE error code.
    fn to_fuse_error(&self) -> i32;
}

/// The error name of an error's origin: the library's mapping for its own
/// errors, the kind's name for I/O errors, EIO otherwise.
pub open spec fn origin_errno(origin: ErrorOrigin) -> Errno {
    match origin {
        ErrorOrigin::Library(e) => e.spec_errno_name(),
        ErrorOrigin::Io(k) => io_kind_errno(k),
        ErrorOrigin::Other => Errno::EIO,
    }
}

impl ToFuseError for ErrorOrigin {
    fn to_fuse_error(&self) -> (r: i32)
        ensures
            r == errno_value(origin_errno(*self)),
    {
        errno_for_origin(self)
    }
}

impl ToFuseError for RqbitFuseError {
    fn to_fuse_error(&self) -> (r: i32)
        ensures
            r == errno_value(self.spec_errno_name()),
    {
        self.to_errno()
    }
}

/// Request sent from a filesystem callback to the async worker (the
/// channel for the answer travels beside it).
#[derive(Debug, Clone, Copy, PartialEq, Eq, Structural)]
pub enum FuseRequest {
    ReadFile { torrent_id: u64, file_index: u64, offset: u64, size: usize, timeout_ms: u64 },
    CheckPiecesAvailable { torrent_id: u64, offset: u64, size: u64, timeout_ms: u64 },
    ForgetTorrent { torrent_id: u64 },
}

/// Response from the async worker to a filesystem callback.
#[derive(Debug, Clone)]
pub enum FuseResponse {
    Success { data: Option<Vec<u8>> },
    Error { error_code: i32, message: String },
    PiecesAvailable,
    PiecesNotAvailable { reason: String },
}

/// How an async operation of the worker ended: with a value, with an
/// error (its origin and text), or by running out of time.
#[derive(Debug)]
pub enum WorkerOutcome<T> {
    Done(T),
    Failed { origin: ErrorOrigin, message: String },
    TimedOut,
}

/// The response to a read: the data, counted as read; an error with its
/// number and text; or a timeout. Errors are counted.
pub fn read_response(metrics: &mut Metrics, outcome: WorkerOutcome<Vec<u8>>) -> (r: FuseResponse)
    ensures
        match outcome {
            WorkerOutcome::Done(data) => (r matches FuseResponse::Success { data: Some(d) } && d@ == data@)
                && *final(metrics) == (Metrics { bytes_read: wrap_add(old(metrics).bytes_read, data@.len() as u64), ..*old(metrics) }),
            WorkerOutcome::Failed { origin, message } => (r matches FuseResponse::Error { error_code, message: m }
                && error_code == errno_value(origin_errno(origin)) && m@ == message@)
                && *final(metrics) == (Metrics { error_count: wrap_add(old(metrics).error_count, 1), ..*old(metrics) }),
            WorkerOutcome::TimedOut => (r matches FuseResponse::Error { error_code, message: m }
                && error_code == errno_value(Errno::ETIMEDOUT) && m@ == "Operation timed out"@)
                && *final(metrics) == (Metrics { error_count: wrap_add(old(metrics).error_count, 1), ..*old(metrics) }),
        },
{
    match outcome {
        WorkerOutcome::Done(data) => {
            metrics.record_read(data.len() as u64);
            FuseResponse::Success { data: Some(data) }
        },
        WorkerOutcome::Failed { origin, message } => {
            metrics.record_error();
            FuseResponse::Error { error_code: origin.to_fuse_error(), message }
        },
        WorkerOutcome::TimedOut => {
            metrics.record_error();
            FuseResponse::Error { error_code: errno_code(Errno::ETIMEDOUT), message: String::from_str("Operation timed out") }
        },
    }
}

/// The default piece length (256 KiB), used when a torrent's is unknown.
pub const DEFAULT_PIECE_LENGTH: u64 = 262144;

/// The piece length to check availability with: the torrent's, or 256 KiB
/// when the torrent could not be fetched or does not say.
pub fn piece_length_for(fetched: Option<Option<u64>>) -> (r: u64)
    ensures
        r == (match fetched {
            Some(Some(l)) => l,
            _ => DEFAULT_PIECE_LENGTH,
        }),
{
    match fetched {
        Some(Some(l)) => l,
        _ => DEFAULT_PIECE_LENGTH,
    }
}

/// The response to a check of piece availability.
pub fn pieces_response(outcome: WorkerOutcome<bool>) -> (r: FuseResponse)
    ensures
        match outcome {
            WorkerOutcome::Done(true) => r matches FuseResponse::PiecesAvailable,
            WorkerOutcome::Done(false) => r matches FuseResponse::PiecesNotAvailable { reason } && reason@ == "Pieces not available"@,
            WorkerOutcome::Failed { origin, message } => r matches FuseResponse::Error { error_code, message: m }
                && error_code == errno_value(origin_errno(origin)) && m@ == message@,
            WorkerOutcome::TimedOut => r matches FuseResponse::Error { error_code, message: m }
                && error_code == errno_value(Errno::ETIMEDOUT) && m@ == "Check timed out"@,
        },
{
    match outcome {
        WorkerOutcome::Done(true) => FuseResponse::PiecesAvailable,
        WorkerOutcome::Done(false) => FuseResponse::PiecesNotAvailable { reason: String::from_str("Pieces not available") },
        WorkerOutcome::Failed { origin, message } => FuseResponse::Error { error_code: origin.to_fuse_error(), message },
        WorkerOutcome::TimedOut => FuseResponse::Error {
            error_code: errno_code(Errno::ETIMEDOUT),
            message: String::from_str("Check timed out"),
        },
    }
}

/// The response to forgetting a torrent.
pub fn forget_response(outcome: Result<(), (ErrorOrigin, String)>) -> (r: FuseResponse)
    ensures
        match outcome {
            Ok(()) => r matches FuseResponse::Success { data: None },
            Err((origin, message)) => r matches FuseResponse::Error { error_code, message: m }
                && error_code == errno_value(origin_errno(origin)) && m@ == message@,
        },
{
    match outcome {
        Ok(()) => FuseResponse::Success { data: None },
        Err((origin, message)) => FuseResponse::Error { error_code: origin.to_fuse_error(), message },
    }
}

/// Why a request could not be handed to the worker or answered.
#[derive(Debug, Clone, Copy, PartialEq, Eq, Structural)]
pub enum SendFailure {
    /// No answer in time
    Timeout,
    /// The worker went away before answering
    Disconnected,
    /// The worker's queue is full
    Full,
    /// The worker's queue is closed
    Closed,
}

/// The error for a request that was not answered.
pub fn send_error(failure: SendFailure) -> (r: RqbitFuseError)
    ensures
        failure == SendFailure::Timeout ==> (r matches RqbitFuseError::TimedOut(m) && m@ == "request timed out"@),
        failure == SendFailure::Full ==> (r matches RqbitFuseError::IoError(m) && m@ == "channel full"@),
        (failure == SendFailure::Disconnected || failure == SendFailure::Closed) ==> (r matches RqbitFuseError::IoError(m)
            && m@ == "worker disconnected"@),
{
    match failure {
        SendFailure::Timeout => RqbitFuseError::TimedOut(String::from_str("request timed out")),
        SendFailure::Full => RqbitFuseError::IoError(String::from_str("channel full")),
        _ => RqbitFuseError::IoError(String::from_str("worker disconnected")),
    }
}

/// The decimal text of a signed number, as `format!("{}", n)` writes it.
pub open spec fn signed_decimal(n: int) -> Seq<char> {
    if n < 0 {
        "-"@ + crate::text::decimal((-n) as nat)
    } else {
        crate::text::decimal(n as nat)
    }
}

/// Writes a signed number in decimal.
pub fn i32_to_decimal(n: i32) -> (r: String)
    ensures
        r@ == signed_decimal(n as int),
{
    if n < 0 {
        let m = crate::text::u64_to_decimal((-(n as i64)) as u64);
        concat2("-", m.as_str())
    } else {
        crate::text::u64_to_decimal(n as u64)
    }
}

/// `<what> failed (code <code>): <message>`.
pub open spec fn failure_text(what: Seq<char>, code: i32, message: Seq<char>) -> Seq<char> {
    what + " failed (code "@ + signed_decimal(code as int) + "): "@ + message
}

fn failure_message(what: &str, code: i32, message: &str) -> (r: String)
    ensures
        r@ == failure_text(what@, code, message@),
{
    let c = i32_to_decimal(code);
    let mut s = concat3(what, " failed (code ", c.as_str());
    s.append("): ");
    s.append(message);
    s
}

/// Why a read through the worker failed: the error number its answer
/// carries, which the filesystem replies with, and the error.
#[derive(Debug, Clone)]
pub struct ReadFailure {
    pub error_code: i32,
    pub error: RqbitFuseError,
}

impl ReadFailure {
    /// The failure for an error of the library, with the error's number.
    pub fn from_error(error: RqbitFuseError) -> (r: ReadFailure)
        ensures
            r.error_code == errno_value(error.spec_errno_name()),
            r.error == error,
    {
        let error_code = error.to_errno();
        ReadFailure { error_code, error }
    }
}

/// The result of a read from the worker's response: the data of a
/// success; for an error, the worker's error number (EAGAIN when pieces
/// are not there yet reaches the reply as EAGAIN) with an I/O error naming
/// it; for an unexpected response, EIO.
pub fn read_file_result(response: FuseResponse) -> (r: Result<Vec<u8>, ReadFailure>)
    ensures
        match response {
            FuseResponse::Success { data: Some(d) } => r matches Ok(out) && out@ == d@,
            FuseResponse::Error { error_code, message } => r matches Err(f) && f.error_code == error_code
                && (f.error matches RqbitFuseError::IoError(m) && m@ == failure_text("Read"@, error_code, message@)),
            _ => r matches Err(f) && f.error_code == errno_value(Errno::EIO)
                && (f.error matches RqbitFuseError::IoError(m) && m@ == "Unexpected response"@),
        },
{
    match response {
        FuseResponse::Success { data: Some(d) } => Ok(d),
        FuseResponse::Error { error_code, message } => Err(ReadFailure {
            error_code,
            error: RqbitFuseError::IoError(failure_message("Read", error_code, message.as_str())),
        }),
        _ => Err(ReadFailure {
            error_code: errno_code(Errno::EIO),
            error: RqbitFuseError::IoError(String::from_str("Unexpected response")),
        }),
    }
}

/// Whether pieces are available, from the worker's response.
pub fn pieces_result(response: FuseResponse) -> (r: Result<bool, RqbitFuseError>)
    ensures
        match response {
            FuseResponse::PiecesAvailable => r == Ok::<bool, RqbitFuseError>(true),
            FuseResponse::PiecesNotAvailable { .. } => r == Ok::<bool, RqbitFuseError>(false),
            FuseResponse::Error { error_code, message } => r matches Err(RqbitFuseError::IoError(m))
                && m@ == failure_text("Check"@, error_code, message@),
            _ => r matches Err(RqbitFuseError::IoError(m)) && m@ == "Unexpected response"@,
        },
{
    match response {
        FuseResponse::PiecesAvailable => Ok(true),
        FuseResponse::PiecesNotAvailable { .. } => Ok(false),
        FuseResponse::Error { error_code, message } => Err(RqbitFuseError::IoError(
            failure_message("Check", error_code, message.as_str()),
        )),
        _ => Err(RqbitFuseError::IoError(String::from_str("Unexpected response"))),
    }
}

/// Whether forgetting a torrent succeeded, from the worker's response.
pub fn forget_result(response: FuseResponse) -> (r: Result<(), RqbitFuseError>)
    ensures
        match response {
            FuseResponse::Success { .. } => r is Ok,
            FuseResponse::Error { error_code, message } => r matches Err(RqbitFuseError::IoError(m))
                && m@ == failure_text("Forget"@, error_code, message@),
            _ => r matches Err(RqbitFuseError::IoError(m)) && m@ == "Unexpected response"@,
        },
{
    match response {
        FuseResponse::Success { .. } => Ok(()),
        FuseResponse::Error { error_code, message } => Err(RqbitFuseError::IoError(
            failure_message("Forget", error_code, message.as_str()),
        )),
        _ => Err(RqbitFuseError::IoError(String::from_str("Unexpected response"))),
    }
}

} // verus!
