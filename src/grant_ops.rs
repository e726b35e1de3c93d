//! Outcomes of grant table operations: the privileged call itself can fail,
//! and apart from that the operation reports a status of its own. The two
//! are kept apart.
use vstd::prelude::*;

use crate::hypercall::Error;

verus! {

/// Status that a grant table operation reports when it is refused.
#[derive(Debug, Clone, Copy, PartialEq, Eq, Structural)]
pub enum GrantStatusError {
    /// General undefined error.
    GeneralError,
    /// Unrecognised domain id.
    BadDomain,
    /// Unrecognised or inappropriate grant reference.
    BadGntref,
    /// Unrecognised or inappropriate handle.
    BadHandle,
    /// Inappropriate virtual address to map.
    BadVirtAddr,
    /// Inappropriate device address to unmap.
    BadDevAddr,
    /// Out of space in the I/O MMU.
    NoDeviceSpace,
    /// Not enough privilege for the operation.
    PermissionDenied,
    /// Specified page was invalid for the operation.
    BadPage,
    /// Copy arguments cross a page boundary.
    BadCopyArg,
    /// Page address size too large.
    AddressTooBig,
    /// The operation is to be retried.
    Eagain,
    /// A status with no name of its own.
    Unknown(i16),
}

impl GrantStatusError {
    /// The status number that stands for this error.
    pub open spec fn code(self) -> int {
        match self {
            GrantStatusError::GeneralError => -1,
            GrantStatusError::BadDomain => -2,
            GrantStatusError::BadGntref => -3,
            GrantStatusError::BadHandle => -4,
            GrantStatusError::BadVirtAddr => -5,
            GrantStatusError::BadDevAddr => -6,
            GrantStatusError::NoDeviceSpace => -7,
            GrantStatusError::PermissionDenied => -8,
            GrantStatusError::BadPage => -9,
            GrantStatusError::BadCopyArg => -10,
            GrantStatusError::AddressTooBig => -11,
            GrantStatusError::Eagain => -12,
            GrantStatusError::Unknown(n) => n as int,
        }
    }

    /// The error for a non-zero status; numbers with no name of their own
    /// give `Unknown`.
    pub fn from_status(status: i16) -> (r: GrantStatusError)
        requires
            status != 0,
        ensures
            r.code() == status,
            r is Unknown ==> forall|e: GrantStatusError| !(e is Unknown) ==> e.code() != status,
    {
        match status {
            -1 => GrantStatusError::GeneralError,
            -2 => GrantStatusError::BadDomain,
            -3 => GrantStatusError::BadGntref,
            -4 => GrantStatusError::BadHandle,
            -5 => GrantStatusError::BadVirtAddr,
            -6 => GrantStatusError::BadDevAddr,
            -7 => GrantStatusError::NoDeviceSpace,
            -8 => GrantStatusError::PermissionDenied,
            -9 => GrantStatusError::BadPage,
            -10 => GrantStatusError::BadCopyArg,
            -11 => GrantStatusError::AddressTooBig,
            -12 => GrantStatusError::Eagain,
            n => GrantStatusError::Unknown(n),
        }
    }
}

/// Why a grant table operation failed.
#[derive(Debug, Clone, Copy, PartialEq, Eq, Structural)]
pub enum GrantOpError {
    /// The privileged call failed.
    Hypercall(Error),
    /// The call went through and the operation was refused.
    Status(GrantStatusError),
}

/// The outcome of a grant table operation from the call's return value and
/// the status field of the operation's argument: a failed call first, then a
/// non-zero status, else the call's result.
pub fn grant_op_result(ret: i64, status: i16) -> (r: Result<u64, GrantOpError>)
    ensures
        ret >= 0 && status == 0 ==> r == Ok::<u64, GrantOpError>(ret as u64),
        ret < 0 ==> (r matches Err(GrantOpError::Hypercall(e)) && e.code() == ret && (e is Unknown ==> forall|x: Error|
            !(x is Unknown) ==> x.code() != ret)),
        ret >= 0 && status != 0 ==> (r matches Err(GrantOpError::Status(e)) && e.code() == status && (e is Unknown
            ==> forall|x: GrantStatusError| !(x is Unknown) ==> x.code() != status)),
{
    if ret < 0 {
        return Err(GrantOpError::Hypercall(Error::from_errno(ret)));
    }
    if status != 0 {
        return Err(GrantOpError::Status(GrantStatusError::from_status(status)));
    }
    Ok(ret as u64)
}

} // verus!
