//! The kernel's error numbers.
use vstd::prelude::*;

verus! {

/// Why a kernel operation failed.
#[derive(Clone, Copy, PartialEq, Eq, Structural, Debug)]
pub enum ErrorNum {
    /// Operation not permitted.
    EPERM,
    /// No such file or directory.
    ENOENT,
    /// Interrupted by a signal.
    EINTR,
    /// No such device or address.
    ENXIO,
    /// Invalid argument.
    EINVAL,
    /// Too many open files.
    EMFILE,
    /// Broken pipe.
    EPIPE,
    /// Function not implemented.
    ENOSYS,
    /// Value too large for the target buffer.
    EOVERFLOW,
    /// Bad file descriptor.
    EBADFD,
    /// Address already in use.
    EADDRINUSE,
    /// Address not available.
    EADDRNOTAVAIL,
    /// No such device.
    ENODEV,
    /// Operation not supported.
    EOPNOTSUPP,
    /// The device tree blob is malformed.
    EBADDTB,
    /// A value has the wrong type.
    EBADTYPE,
    /// Bytes are not valid text.
    EBADCODEX,
    /// Out of range.
    EOOR,
    /// Not aligned.
    ENOTALIGNED,
    /// The device is not an interrupt controller.
    ENOTINTC,
    /// The signal is disabled.
    ESIGDISABLED,
    /// No saved signal context.
    ENOSIG,
    /// Empty.
    EEMPTY,
    /// The file exists.
    EEXIST,
    /// The name is too long.
    ENAMETOOLONG,
    /// The file is a directory.
    EISDIR,
    /// Try again.
    EAGAIN,
    /// The address is in no segment of the right kind.
    EWRONGSEG,
    /// The address is already mapped.
    EMMAPED,
    /// No segment holds the address.
    ENOSEG,
    /// Cross-device link.
    EXDEV,
    /// No such process.
    ESRCH,
    /// Read-only file system.
    EROFS,
    /// Out of memory.
    ENOMEM,
    /// Too many links.
    EMLINK,
}

} // verus!
