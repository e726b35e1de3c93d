use stardust::hypercall::{errno_to_result, Error};

#[test]
fn named_error_numbers() {
    assert!(matches!(Error::from_errno(-1), Error::PERM));
    assert!(matches!(Error::from_errno(-12), Error::NOMEM));
    assert!(matches!(Error::from_errno(-22), Error::INVAL));
    assert!(matches!(Error::from_errno(-111), Error::CONNREFUSED));
}

#[test]
fn unnamed_error_numbers() {
    assert!(matches!(Error::from_errno(-15), Error::Unknown(-15)));
    assert!(matches!(Error::from_errno(-1000), Error::Unknown(-1000)));
}

#[test]
fn results_of_privileged_calls() {
    assert!(matches!(errno_to_result(0), Ok(0)));
    assert!(matches!(errno_to_result(5), Ok(5)));
    assert!(matches!(errno_to_result(-38), Err(Error::NOSYS)));
}
