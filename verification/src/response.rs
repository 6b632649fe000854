//! Decisions over remote response payloads.
//!
//! The transport hands each remote operation's answer back as plain
//! values — was a token present, was the errors list empty, what
//! status came back — and these functions decide, exactly and for
//! every combination, what the operation's outcome is. The network
//! call itself stays with the caller.

use vstd::prelude::*;

verus! {

/// Outcome of asking for a one-time authentication code.
#[derive(Clone, Copy, Debug, PartialEq, Eq, Structural)]
pub enum AuthCodeDecision {
    /// The service confirmed success: the code is on its way.
    Accepted,
    /// The service reported errors; they take precedence over any
    /// missing or negative success flag.
    ReportedErrors,
    /// The service answered, without errors, that it did not send one.
    Refused,
    /// No success flag and no errors: the answer says nothing.
    Unknown,
}

/// Decides the outcome of an authentication-code request from the
/// success flag and whether the response's errors list was non-empty.
pub fn interpret_auth_code_response(success: Option<bool>, has_errors: bool) -> (r:
    AuthCodeDecision)
    ensures
        r == AuthCodeDecision::Accepted <==> success == Some(true),
        r == AuthCodeDecision::ReportedErrors <==> success != Some(true) && has_errors,
        r == AuthCodeDecision::Refused <==> success == Some(false) && !has_errors,
        r == AuthCodeDecision::Unknown <==> success is None && !has_errors,
{
    match success {
        Some(true) => AuthCodeDecision::Accepted,
        _ if has_errors => AuthCodeDecision::ReportedErrors,
        Some(false) => AuthCodeDecision::Refused,
        _ => AuthCodeDecision::Unknown,
    }
}

/// Why a login yielded no session token.
#[derive(Clone, Copy, Debug, PartialEq, Eq, Structural)]
pub enum LoginError {
    /// The service reported errors.
    ReportedErrors,
    /// No token and no errors: the answer says nothing.
    Unknown,
}

/// Decides the outcome of a login from the token, if any, and whether
/// the response's errors list was non-empty. A present token wins,
/// whatever else the response carried.
pub fn interpret_login_response(auth_token: Option<Vec<u8>>, has_errors: bool) -> (r: Result<
    Vec<u8>,
    LoginError,
>)
    ensures
        auth_token matches Some(t) ==> r == Ok::<Vec<u8>, LoginError>(t),
        auth_token is None && has_errors ==> r == Err::<Vec<u8>, LoginError>(
            LoginError::ReportedErrors,
        ),
        auth_token is None && !has_errors ==> r == Err::<Vec<u8>, LoginError>(LoginError::Unknown),
{
    match auth_token {
        Some(t) => Ok(t),
        None => if has_errors {
            Err(LoginError::ReportedErrors)
        } else {
            Err(LoginError::Unknown)
        },
    }
}

/// Why a payment submission yielded no status.
#[derive(Clone, Copy, Debug, PartialEq, Eq, Structural)]
pub enum PaymentSendError {
    /// The service reported errors; they take precedence over any
    /// status beside them.
    ReportedErrors,
    /// No errors but no status either: the answer says nothing.
    EmptyResponse,
}

/// Decides the outcome of a payment submission from the status, if
/// any, and whether the response's errors list was non-empty.
pub fn interpret_payment_response(status: Option<Vec<u8>>, has_errors: bool) -> (r: Result<
    Vec<u8>,
    PaymentSendError,
>)
    ensures
        has_errors ==> r == Err::<Vec<u8>, PaymentSendError>(PaymentSendError::ReportedErrors),
        !has_errors ==> (status matches Some(s) ==> r == Ok::<Vec<u8>, PaymentSendError>(s)),
        !has_errors && status is None ==> r == Err::<Vec<u8>, PaymentSendError>(
            PaymentSendError::EmptyResponse,
        ),
{
    if has_errors {
        return Err(PaymentSendError::ReportedErrors);
    }
    match status {
        Some(s) => Ok(s),
        None => Err(PaymentSendError::EmptyResponse),
    }
}

} // verus!
