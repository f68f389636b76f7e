use std::io;

use scanmem::error::ScanmemError;

#[test]
fn display_messages_are_stable() {
    assert_eq!(ScanmemError::NotAttached.message(), "no process is attached");
    assert_eq!(ScanmemError::PermissionDenied.message(), "permission denied");
    assert_eq!(ScanmemError::ProcessExited.message(), "the target process has exited");
    assert_eq!(
        ScanmemError::InvalidExpr("bad expr".to_owned()).message(),
        "invalid scan expression: bad expr"
    );
    assert_eq!(ScanmemError::Ptrace(3).message(), "ptrace failed (errno 3)");
}

#[test]
fn io_error_converts_via_from_and_keeps_its_message() {
    let io_err = io::Error::new(io::ErrorKind::PermissionDenied, "denied");
    let err: ScanmemError = io_err.into();
    assert_eq!(err.message(), "denied");
}

#[test]
fn ptrace_message_keeps_a_negative_errno_sign() {
    assert_eq!(ScanmemError::Ptrace(-12).message(), "ptrace failed (errno -12)");
    assert_eq!(ScanmemError::Ptrace(0).message(), "ptrace failed (errno 0)");
    assert_eq!(
        ScanmemError::Ptrace(i32::MIN).message(),
        "ptrace failed (errno -2147483648)"
    );
}
