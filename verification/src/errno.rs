//! The POSIX error numbers that the filesystem answers with.
//!
//! Their numeric values differ between platforms, so the library names them
//! with [`Errno`] and takes the number from `libc` at the one place where a
//! number is needed.
use vstd::prelude::*;

verus! {

/// The error numbers this filesystem can reply with.
#[derive(Debug, Clone, Copy, PartialEq, Eq, Structural)]
pub enum Errno {
    ENOENT,
    EACCES,
    ETIMEDOUT,
    ENETUNREACH,
    EINVAL,
    EAGAIN,
    EEXIST,
    EFBIG,
    EIO,
    EISDIR,
    ENOTDIR,
    EBADF,
    ELOOP,
    EMFILE,
    EROFS,
    EBUSY,
    ENODATA,
    ERANGE,
}

/// The number that the platform's C library gives to an error name.
pub uninterp spec fn errno_value(e: Errno) -> i32;

/// Reads the platform's number for `e` from `libc`: the constant of the
/// same name, looked up by the variant's position in [`Errno`].
#[verifier::external_body]
pub(crate) fn errno_code(e: Errno) -> (r: i32)
    ensures
        r == errno_value(e),
{
    let codes: [i32; 18] = [
        libc::ENOENT, libc::EACCES, libc::ETIMEDOUT, libc::ENETUNREACH, libc::EINVAL, libc::EAGAIN,
        libc::EEXIST, libc::EFBIG, libc::EIO, libc::EISDIR, libc::ENOTDIR, libc::EBADF,
        libc::ELOOP, libc::EMFILE, libc::EROFS, libc::EBUSY, libc::ENODATA, libc::ERANGE,
    ];
    codes[e as usize]
}

impl Errno {
    /// The platform's number for this error, as a filesystem reply carries it.
    pub fn to_errno(&self) -> (r: i32)
        ensures
            r == errno_value(*self),
    {
        errno_code(*self)
    }
}

/// Whether open flags ask for read-only access (`flags & O_ACCMODE == O_RDONLY`),
/// with the platform's flag values.
pub uninterp spec fn open_flags_read_only(flags: i32) -> bool;

/// Masks `flags` with `libc::O_ACCMODE` and compares with `libc::O_RDONLY`.
#[verifier::external_body]
pub(crate) fn is_read_only_open(flags: i32) -> (r: bool)
    ensures
        r == open_flags_read_only(flags),
{
    flags & libc::O_ACCMODE == libc::O_RDONLY
}

} // verus!

