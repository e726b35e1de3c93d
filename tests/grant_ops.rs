use stardust::grant_ops::{grant_op_result, GrantOpError, GrantStatusError};
use stardust::hypercall::Error;

#[test]
fn call_failure_comes_first() {
    assert_eq!(grant_op_result(-22, -3), Err(GrantOpError::Hypercall(Error::INVAL)));
}

#[test]
fn operation_status_is_reported_apart() {
    assert_eq!(grant_op_result(0, -2), Err(GrantOpError::Status(GrantStatusError::BadDomain)));
    assert_eq!(grant_op_result(0, -8), Err(GrantOpError::Status(GrantStatusError::PermissionDenied)));
    assert_eq!(grant_op_result(0, -40), Err(GrantOpError::Status(GrantStatusError::Unknown(-40))));
    assert_eq!(grant_op_result(0, 3), Err(GrantOpError::Status(GrantStatusError::Unknown(3))));
}

#[test]
fn success_passes_the_result() {
    assert_eq!(grant_op_result(0, 0), Ok(0));
    assert_eq!(grant_op_result(12, 0), Ok(12));
}
