//! Errors that a privileged call into the hypervisor reports.
use vstd::prelude::*;

verus! {

/// Error of a privileged call, by its negative error number.
#[derive(Debug, Clone, Copy, PartialEq, Eq, Structural)]
pub enum Error {
    /// Operation not permitted
    PERM,
    /// No such file or directory
    NOENT,
    /// No such process
    SRCH,
    /// Interrupted system call. Internal only, should never be exposed to the guest.
    INTR,
    /// I/O error
    IO,
    /// No such device or address
    NXIO,
    /// Arg list too long
    TOOBIG,
    /// Exec format error
    NOEXEC,
    /// Bad file number
    BADF,
    /// No child processes
    CHILD,
    /// Operation would block
    WOULDBLOCK,
    /// Out of memory
    NOMEM,
    /// Permission denied
    ACCES,
    /// Bad address
    FAULT,
    /// Device or resource busy
    BUSY,
    /// File exists
    EXIST,
    /// Cross-device link
    XDEV,
    /// No such device
    NODEV,
    /// Not a directory
    NOTDIR,
    /// Is a directory
    ISDIR,
    /// Invalid argument
    INVAL,
    /// File table overflow
    NFILE,
    /// Too many open files
    MFILE,
    /// No space left on device
    NOSPC,
    /// Read-only file system
    ROFS,
    /// Too many links
    MLINK,
    /// Math argument out of domain of func
    DOM,
    /// Math result not representable
    RANGE,
    /// Resource deadlock would occur
    DEADLOCK,
    /// File name too long
    NAMETOOLONG,
    /// No record locks available
    NOLCK,
    /// Function not implemented
    NOSYS,
    /// Directory not empty
    NOTEMPTY,
    /// No data available
    NODATA,
    /// Timer expired
    TIME,
    /// Not a data message
    BADMSG,
    /// Value too large for defined data type
    OVERFLOW,
    /// Illegal byte sequence
    ILSEQ,
    /// Interrupted system call should be restarted. Internal only, should never be exposed to the guest.
    RESTART,
    /// Socket operation on non-socket
    NOTSOCK,
    /// Message too large.
    MSGSIZE,
    /// Operation not supported on transport endpoint
    OPNOTSUPP,
    /// Address already in use
    ADDRINUSE,
    /// Cannot assign requested address
    ADDRNOTAVAIL,
    /// No buffer space available
    NOBUFS,
    /// Transport endpoint is already connected
    ISCONN,
    /// Transport endpoint is not connected
    NOTCONN,
    /// Connection timed out
    TIMEDOUT,
    /// Connection refused
    CONNREFUSED,
    /// Unknown error
    Unknown(i64),
}

impl Error {
    /// The error number that stands for this error.
    pub open spec fn code(self) -> int {
        match self {
            Error::PERM => -1,
            Error::NOENT => -2,
            Error::SRCH => -3,
            Error::INTR => -4,
            Error::IO => -5,
            Error::NXIO => -6,
            Error::TOOBIG => -7,
            Error::NOEXEC => -8,
            Error::BADF => -9,
            Error::CHILD => -10,
            Error::WOULDBLOCK => -11,
            Error::NOMEM => -12,
            Error::ACCES => -13,
            Error::FAULT => -14,
            Error::BUSY => -16,
            Error::EXIST => -17,
            Error::XDEV => -18,
            Error::NODEV => -19,
            Error::NOTDIR => -20,
            Error::ISDIR => -21,
            Error::INVAL => -22,
            Error::NFILE => -23,
            Error::MFILE => -24,
            Error::NOSPC => -28,
            Error::ROFS => -30,
            Error::MLINK => -31,
            Error::DOM => -33,
            Error::RANGE => -34,
            Error::DEADLOCK => -35,
            Error::NAMETOOLONG => -36,
            Error::NOLCK => -37,
            Error::NOSYS => -38,
            Error::NOTEMPTY => -39,
            Error::NODATA => -61,
            Error::TIME => -62,
            Error::BADMSG => -74,
            Error::OVERFLOW => -75,
            Error::ILSEQ => -84,
            Error::RESTART => -85,
            Error::NOTSOCK => -88,
            Error::MSGSIZE => -90,
            Error::OPNOTSUPP => -95,
            Error::ADDRINUSE => -98,
            Error::ADDRNOTAVAIL => -99,
            Error::NOBUFS => -105,
            Error::ISCONN => -106,
            Error::NOTCONN => -107,
            Error::TIMEDOUT => -110,
            Error::CONNREFUSED => -111,
            Error::Unknown(n) => n as int,
        }
    }

    /// The error for a negative error number; numbers with no name of their
    /// own give `Unknown`.
    pub fn from_errno(errno: i64) -> (r: Error)
        requires
            errno < 0,
        ensures
            r.code() == errno,
            r is Unknown ==> forall|e: Error| !(e is Unknown) ==> e.code() != errno,
    {
        match errno {
            -1 => Error::PERM,
            -2 => Error::NOENT,
            -3 => Error::SRCH,
            -4 => Error::INTR,
            -5 => Error::IO,
            -6 => Error::NXIO,
            -7 => Error::TOOBIG,
            -8 => Error::NOEXEC,
            -9 => Error::BADF,
            -10 => Error::CHILD,
            -11 => Error::WOULDBLOCK,
            -12 => Error::NOMEM,
            -13 => Error::ACCES,
            -14 => Error::FAULT,
            -16 => Error::BUSY,
            -17 => Error::EXIST,
            -18 => Error::XDEV,
            -19 => Error::NODEV,
            -20 => Error::NOTDIR,
            -21 => Error::ISDIR,
            -22 => Error::INVAL,
            -23 => Error::NFILE,
            -24 => Error::MFILE,
            -28 => Error::NOSPC,
            -30 => Error::ROFS,
            -31 => Error::MLINK,
            -33 => Error::DOM,
            -34 => Error::RANGE,
            -35 => Error::DEADLOCK,
            -36 => Error::NAMETOOLONG,
            -37 => Error::NOLCK,
            -38 => Error::NOSYS,
            -39 => Error::NOTEMPTY,
            -61 => Error::NODATA,
            -62 => Error::TIME,
            -74 => Error::BADMSG,
            -75 => Error::OVERFLOW,
            -84 => Error::ILSEQ,
            -85 => Error::RESTART,
            -88 => Error::NOTSOCK,
            -90 => Error::MSGSIZE,
            -95 => Error::OPNOTSUPP,
            -98 => Error::ADDRINUSE,
            -99 => Error::ADDRNOTAVAIL,
            -105 => Error::NOBUFS,
            -106 => Error::ISCONN,
            -107 => Error::NOTCONN,
            -110 => Error::TIMEDOUT,
            -111 => Error::CONNREFUSED,
            n => Error::Unknown(n),
        }
    }
}

/// The outcome of a privileged call from its raw return value: a
/// non-negative value is a result, a negative one an error number.
pub fn errno_to_result(errno: i64) -> (r: Result<u64, Error>)
    ensures
        errno >= 0 ==> r == Ok::<u64, Error>(errno as u64),
        errno < 0 ==> (r matches Err(e) && e.code() == errno && (e is Unknown ==> forall|x: Error|
            !(x is Unknown) ==> x.code() != errno)),
{
    if errno >= 0 {
        Ok(errno as u64)
    } else {
        Err(Error::from_errno(errno))
    }
}

} // verus!
