//! [`ScanmemError`]: every way a session operation can fail.

use vstd::prelude::*;

use crate::text::decimal_text;

verus! {

/// `std::io::Error`, carried through opaquely.
#[verifier::external_type_specification]
#[verifier::external_body]
pub struct ExIoError(std::io::Error);

/// Every way a session operation can fail.
#[derive(Debug)]
pub enum ScanmemError {
    NotAttached,
    PermissionDenied,
    ProcessExited,
    Io(std::io::Error),
    InvalidExpr(String),
    /// Raw `errno` from a failed `ptrace(2)` call.
    Ptrace(i32),
}

/// `std::io::Error`'s `Display` text. What it says comes from the operating system's error
/// descriptions, so nothing is stated of it.
#[verifier::external_body]
fn io_error_text(e: &std::io::Error) -> String {
    e.to_string()
}

/// The decimal text of a possibly negative number.
pub open spec fn signed_decimal_text(v: int) -> Seq<char> {
    if v < 0 {
        seq!['-'] + decimal_text((-v) as nat)
    } else {
        decimal_text(v as nat)
    }
}

impl ScanmemError {
    /// The human-readable description of this error; for [`ScanmemError::Io`], the I/O error's
    /// own text.
    pub fn message(&self) -> (r: String)
        ensures
            *self matches ScanmemError::NotAttached ==> r@ == "no process is attached"@,
            *self matches ScanmemError::PermissionDenied ==> r@ == "permission denied"@,
            *self matches ScanmemError::ProcessExited ==> r@ == "the target process has exited"@,
            *self matches ScanmemError::InvalidExpr(s) ==> r@ == "invalid scan expression: "@
                + s@,
            *self matches ScanmemError::Ptrace(n) ==> r@ == "ptrace failed (errno "@
                + signed_decimal_text(n as int) + ")"@,
    {
        match self {
            ScanmemError::NotAttached => String::from_str("no process is attached"),
            ScanmemError::PermissionDenied => String::from_str("permission denied"),
            ScanmemError::ProcessExited => String::from_str("the target process has exited"),
            ScanmemError::Io(e) => io_error_text(e),
            ScanmemError::InvalidExpr(s) => {
                let mut m = String::from_str("invalid scan expression: ");
                m.append(s.as_str());
                m
            },
            ScanmemError::Ptrace(n) => {
                let mut m = String::from_str("ptrace failed (errno ");
                if *n < 0 {
                    m.append("-");
                    let d = crate::text::decimal_string((-(*n as i64)) as u128);
                    m.append(d.as_str());
                    proof {
                        reveal_strlit("-");
                        assert(m@ =~= "ptrace failed (errno "@ + signed_decimal_text(*n as int));
                    }
                } else {
                    let d = crate::text::decimal_string(*n as u128);
                    m.append(d.as_str());
                }
                m.append(")");
                m
            },
        }
    }
}

impl From<std::io::Error> for ScanmemError {
    fn from(e: std::io::Error) -> (r: ScanmemError) {
        ScanmemError::Io(e)
    }
}

impl vstd::std_specs::convert::FromSpecImpl<std::io::Error> for ScanmemError {
    open spec fn obeys_from_spec() -> bool {
        true
    }

    open spec fn from_spec(e: std::io::Error) -> ScanmemError {
        ScanmemError::Io(e)
    }
}

} // verus!
