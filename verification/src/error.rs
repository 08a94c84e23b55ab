//! The library's error type, its mapping to POSIX error numbers, and which
//! errors are worth retrying.
use crate::errno::{errno_code, errno_value, Errno};
use crate::text::{concat2, concat3, decimal, u64_to_decimal};
use vstd::prelude::*;

verus! {

/// Unified error type for the filesystem.
#[derive(Debug, Clone)]
pub enum RqbitFuseError {
    /// Entity not found (ENOENT)
    NotFound(String),
    /// Permission denied (EACCES)
    PermissionDenied(String),
    /// Operation timed out (ETIMEDOUT)
    TimedOut(String),
    /// Network error: server disconnected, circuit breaker open, and the like
    NetworkError(String),
    /// The API answered with an HTTP error status
    ApiError { status: u16, message: String },
    /// I/O error
    IoError(String),
    /// Invalid argument (EINVAL)
    InvalidArgument(String),
    /// Validation error with messages
    ValidationError(Vec<String>),
    /// Resource temporarily unavailable (EAGAIN)
    NotReady(String),
    /// Parse or serialization error
    ParseError(String),
    /// Is a directory (EISDIR)
    IsDirectory,
    /// Not a directory (ENOTDIR)
    NotDirectory,
}

/// Result type for operations that fail with [`RqbitFuseError`].
pub type RqbitFuseResult<T> = Result<T, RqbitFuseError>;

/// The error name that an HTTP status of an API error maps to.
pub open spec fn status_errno(status: u16) -> Errno {
    if status == 400 || status == 416 {
        Errno::EINVAL
    } else if status == 401 || status == 403 {
        Errno::EACCES
    } else if status == 404 {
        Errno::ENOENT
    } else if status == 408 || status == 423 || status == 429 || status == 503 || status == 504 {
        Errno::EAGAIN
    } else if status == 409 {
        Errno::EEXIST
    } else if status == 413 {
        Errno::EFBIG
    } else {
        Errno::EIO
    }
}

/// The HTTP statuses worth retrying.
pub open spec fn transient_status(status: u16) -> bool {
    status == 408 || status == 429 || status == 502 || status == 503 || status == 504
}

/// The words of a list joined with `sep`.
pub open spec fn join_with(parts: Seq<Seq<char>>, sep: Seq<char>) -> Seq<char>
    decreases parts.len(),
{
    if parts.len() == 0 {
        Seq::empty()
    } else if parts.len() == 1 {
        parts[0]
    } else {
        join_with(parts.drop_last(), sep) + sep + parts.last()
    }
}

/// The kinds of I/O failure that the library tells apart.
#[derive(Debug, Clone, Copy, PartialEq, Eq, Structural)]
pub enum IoErrorKind {
    NotFound,
    PermissionDenied,
    TimedOut,
    InvalidInput,
    Other,
}

/// Where an error that reaches a filesystem reply came from.
#[derive(Debug, Clone)]
pub enum ErrorOrigin {
    /// An error of this library
    Library(RqbitFuseError),
    /// An I/O error of the given kind
    Io(IoErrorKind),
    /// Anything else
    Other,
}

/// The error name for an I/O error kind.
pub open spec fn io_kind_errno(kind: IoErrorKind) -> Errno {
    match kind {
        IoErrorKind::NotFound => Errno::ENOENT,
        IoErrorKind::PermissionDenied => Errno::EACCES,
        IoErrorKind::TimedOut => Errno::ETIMEDOUT,
        IoErrorKind::InvalidInput => Errno::EINVAL,
        IoErrorKind::Other => Errno::EIO,
    }
}

impl RqbitFuseError {
    /// The error name of this error.
    pub open spec fn spec_errno_name(&self) -> Errno {
        match self {
            RqbitFuseError::NotFound(_) => Errno::ENOENT,
            RqbitFuseError::PermissionDenied(_) => Errno::EACCES,
            RqbitFuseError::TimedOut(_) => Errno::ETIMEDOUT,
            RqbitFuseError::NetworkError(_) => Errno::ENETUNREACH,
            RqbitFuseError::ApiError { status, .. } => status_errno(*status),
            RqbitFuseError::IoError(_) => Errno::EIO,
            RqbitFuseError::InvalidArgument(_) => Errno::EINVAL,
            RqbitFuseError::ValidationError(_) => Errno::EINVAL,
            RqbitFuseError::NotReady(_) => Errno::EAGAIN,
            RqbitFuseError::ParseError(_) => Errno::EINVAL,
            RqbitFuseError::IsDirectory => Errno::EISDIR,
            RqbitFuseError::NotDirectory => Errno::ENOTDIR,
        }
    }

    /// Whether retrying may help.
    pub open spec fn spec_is_transient(&self) -> bool {
        match self {
            RqbitFuseError::TimedOut(_) => true,
            RqbitFuseError::NetworkError(_) => true,
            RqbitFuseError::NotReady(_) => true,
            RqbitFuseError::ApiError { status, .. } => transient_status(*status),
            _ => false,
        }
    }

    /// The text of the error, as its display form writes it.
    pub open spec fn spec_message(&self) -> Seq<char> {
        match self {
            RqbitFuseError::NotFound(m) => "Not found: "@ + m@,
            RqbitFuseError::PermissionDenied(m) => "Permission denied: "@ + m@,
            RqbitFuseError::TimedOut(m) => "Operation timed out: "@ + m@,
            RqbitFuseError::NetworkError(m) => "Network error: "@ + m@,
            RqbitFuseError::ApiError { status, message } => "API error: "@ + decimal(
                *status as nat,
            ) + " - "@ + message@,
            RqbitFuseError::IoError(m) => "I/O error: "@ + m@,
            RqbitFuseError::InvalidArgument(m) => "Invalid argument: "@ + m@,
            RqbitFuseError::ValidationError(v) => "Validation error: "@ + join_with(
                v@.map_values(|s: String| s@),
                "; "@,
            ),
            RqbitFuseError::NotReady(m) => "Resource temporarily unavailable: "@ + m@,
            RqbitFuseError::ParseError(m) => "Parse error: "@ + m@,
            RqbitFuseError::IsDirectory => "Is a directory"@,
            RqbitFuseError::NotDirectory => "Not a directory"@,
        }
    }

    /// The error name that a filesystem reply carries for this error.
    pub fn errno_name(&self) -> (e: Errno)
        ensures
            e == self.spec_errno_name(),
    {
        match self {
            RqbitFuseError::NotFound(_) => Errno::ENOENT,
            RqbitFuseError::PermissionDenied(_) => Errno::EACCES,
            RqbitFuseError::TimedOut(_) => Errno::ETIMEDOUT,
            RqbitFuseError::NetworkError(_) => Errno::ENETUNREACH,
            RqbitFuseError::ApiError { status, .. } => {
                let s = *status;
                if s == 400 || s == 416 {
                    Errno::EINVAL
                } else if s == 401 || s == 403 {
                    Errno::EACCES
                } else if s == 404 {
                    Errno::ENOENT
                } else if s == 408 || s == 423 || s == 429 || s == 503 || s == 504 {
                    Errno::EAGAIN
                } else if s == 409 {
                    Errno::EEXIST
                } else if s == 413 {
                    Errno::EFBIG
                } else {
                    Errno::EIO
                }
            },
            RqbitFuseError::IoError(_) => Errno::EIO,
            RqbitFuseError::InvalidArgument(_) => Errno::EINVAL,
            RqbitFuseError::ValidationError(_) => Errno::EINVAL,
            RqbitFuseError::NotReady(_) => Errno::EAGAIN,
            RqbitFuseError::ParseError(_) => Errno::EINVAL,
            RqbitFuseError::IsDirectory => Errno::EISDIR,
            RqbitFuseError::NotDirectory => Errno::ENOTDIR,
        }
    }

    /// Convert the error to the C library error number for a FUSE reply.
    pub fn to_errno(&self) -> (r: i32)
        ensures
            r == errno_value(self.spec_errno_name()),
    {
        errno_code(self.errno_name())
    }

    /// Check if this error is transient and retryable.
    pub fn is_transient(&self) -> (r: bool)
        ensures
            r == self.spec_is_transient(),
    {
        match self {
            RqbitFuseError::TimedOut(_) => true,
            RqbitFuseError::NetworkError(_) => true,
            RqbitFuseError::NotReady(_) => true,
            RqbitFuseError::ApiError { status, .. } => {
                let s = *status;
                s == 408 || s == 429 || s == 502 || s == 503 || s == 504
            },
            _ => false,
        }
    }

    /// Check if this error indicates the server is unavailable.
    pub fn is_server_unavailable(&self) -> (r: bool)
        ensures
            r == (self is TimedOut || self is NetworkError),
    {
        match self {
            RqbitFuseError::TimedOut(_) => true,
            RqbitFuseError::NetworkError(_) => true,
            _ => false,
        }
    }

    /// The text of the error (what its display form shows).
    pub fn message(&self) -> (r: String)
        ensures
            r@ == self.spec_message(),
    {
        match self {
            RqbitFuseError::NotFound(m) => concat2("Not found: ", m.as_str()),
            RqbitFuseError::PermissionDenied(m) => concat2("Permission denied: ", m.as_str()),
            RqbitFuseError::TimedOut(m) => concat2("Operation timed out: ", m.as_str()),
            RqbitFuseError::NetworkError(m) => concat2("Network error: ", m.as_str()),
            RqbitFuseError::ApiError { status, message } => {
                let code = u64_to_decimal(*status as u64);
                let mut r = concat3("API error: ", code.as_str(), " - ");
                r.append(message.as_str());
                r
            },
            RqbitFuseError::IoError(m) => concat2("I/O error: ", m.as_str()),
            RqbitFuseError::InvalidArgument(m) => concat2("Invalid argument: ", m.as_str()),
            RqbitFuseError::ValidationError(v) => {
                let joined = join_strings(v, "; ");
                concat2("Validation error: ", joined.as_str())
            },
            RqbitFuseError::NotReady(m) => concat2(
                "Resource temporarily unavailable: ",
                m.as_str(),
            ),
            RqbitFuseError::ParseError(m) => concat2("Parse error: ", m.as_str()),
            RqbitFuseError::IsDirectory => String::from_str("Is a directory"),
            RqbitFuseError::NotDirectory => String::from_str("Not a directory"),
        }
    }

    /// The error for an I/O failure of the given kind and message.
    pub fn from_io_kind(kind: IoErrorKind, message: String) -> (e: RqbitFuseError)
        ensures
            e == (match kind {
                IoErrorKind::NotFound => RqbitFuseError::NotFound(message),
                IoErrorKind::PermissionDenied => RqbitFuseError::PermissionDenied(message),
                IoErrorKind::TimedOut => RqbitFuseError::TimedOut(message),
                IoErrorKind::InvalidInput => RqbitFuseError::InvalidArgument(message),
                IoErrorKind::Other => RqbitFuseError::IoError(message),
            }),
    {
        match kind {
            IoErrorKind::NotFound => RqbitFuseError::NotFound(message),
            IoErrorKind::PermissionDenied => RqbitFuseError::PermissionDenied(message),
            IoErrorKind::TimedOut => RqbitFuseError::TimedOut(message),
            IoErrorKind::InvalidInput => RqbitFuseError::InvalidArgument(message),
            IoErrorKind::Other => RqbitFuseError::IoError(message),
        }
    }

    /// The error for a failed HTTP request: a timeout, a failed connection, a
    /// failure while building or sending the request, or another HTTP failure;
    /// `description` is the HTTP client's text for it.
    pub fn from_http_failure(
        is_timeout: bool,
        is_connect: bool,
        is_request: bool,
        description: String,
    ) -> (e: RqbitFuseError)
        ensures
            is_timeout ==> e == RqbitFuseError::TimedOut(description),
            !is_timeout && is_connect ==> (e matches RqbitFuseError::NetworkError(m) && m@
                == "Server disconnected: "@ + description@),
            !is_timeout && !is_connect && is_request ==> e == RqbitFuseError::NetworkError(
                description,
            ),
            !is_timeout && !is_connect && !is_request ==> (e matches RqbitFuseError::IoError(m)
                && m@ == "HTTP error: "@ + description@),
    {
        if is_timeout {
            RqbitFuseError::TimedOut(description)
        } else if is_connect {
            RqbitFuseError::NetworkError(concat2("Server disconnected: ", description.as_str()))
        } else if is_request {
            RqbitFuseError::NetworkError(description)
        } else {
            RqbitFuseError::IoError(concat2("HTTP error: ", description.as_str()))
        }
    }
}

/// The strings of `parts` joined with `sep`.
pub fn join_strings(parts: &Vec<String>, sep: &str) -> (r: String)
    ensures
        r@ == join_with(parts@.map_values(|s: String| s@), sep@),
{
    let mut r = String::new();
    let mut i: usize = 0;
    while i < parts.len()
        invariant
            i <= parts.len(),
            r@ == join_with(parts@.subrange(0, i as int).map_values(|s: String| s@), sep@),
        decreases parts.len() - i,
    {
        let ghost prev = parts@.subrange(0, i as int).map_values(|s: String| s@);
        let ghost next = parts@.subrange(0, i + 1).map_values(|s: String| s@);
        assert(next.drop_last() =~= prev);
        if i > 0 {
            r.append(sep);
        } else {
            assert(prev.len() == 0);
        }
        r.append(parts[i].as_str());
        i = i + 1;
    }
    assert(parts@.subrange(0, parts.len() as int) =~= parts@);
    r
}

/// The error number for an error that reaches a filesystem reply: the
/// library's own mapping for its errors, the I/O kind's number for I/O
/// errors, and EIO for anything else.
pub fn errno_for_origin(origin: &ErrorOrigin) -> (r: i32)
    ensures
        r == errno_value(
            match origin {
                ErrorOrigin::Library(e) => e.spec_errno_name(),
                ErrorOrigin::Io(k) => io_kind_errno(*k),
                ErrorOrigin::Other => Errno::EIO,
            },
        ),
{
    match origin {
        ErrorOrigin::Library(e) => e.to_errno(),
        ErrorOrigin::Io(k) => {
            let name = match k {
                IoErrorKind::NotFound => Errno::ENOENT,
                IoErrorKind::PermissionDenied => Errno::EACCES,
                IoErrorKind::TimedOut => Errno::ETIMEDOUT,
                IoErrorKind::InvalidInput => Errno::EINVAL,
                IoErrorKind::Other => Errno::EIO,
            };
            errno_code(name)
        },
        ErrorOrigin::Other => errno_code(Errno::EIO),
    }
}

} // verus!
