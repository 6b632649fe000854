use galoy_client::response::AuthCodeDecision;
use galoy_client::response::LoginError;
use galoy_client::response::PaymentSendError;
use galoy_client::response::interpret_auth_code_response;
use galoy_client::response::interpret_login_response;
use galoy_client::response::interpret_payment_response;

#[test]
fn auth_code_decisions_cover_every_answer() {
    assert_eq!(interpret_auth_code_response(Some(true), false), AuthCodeDecision::Accepted);
    // a confirmed success wins even beside reported errors
    assert_eq!(interpret_auth_code_response(Some(true), true), AuthCodeDecision::Accepted);
    assert_eq!(interpret_auth_code_response(Some(false), true), AuthCodeDecision::ReportedErrors);
    assert_eq!(interpret_auth_code_response(None, true), AuthCodeDecision::ReportedErrors);
    assert_eq!(interpret_auth_code_response(Some(false), false), AuthCodeDecision::Refused);
    assert_eq!(interpret_auth_code_response(None, false), AuthCodeDecision::Unknown);
}

#[test]
fn login_decisions_prefer_the_token() {
    assert_eq!(
        interpret_login_response(Some(b"token".to_vec()), false),
        Ok(b"token".to_vec())
    );
    assert_eq!(interpret_login_response(Some(b"token".to_vec()), true), Ok(b"token".to_vec()));
    assert_eq!(interpret_login_response(None, true), Err(LoginError::ReportedErrors));
    assert_eq!(interpret_login_response(None, false), Err(LoginError::Unknown));
}

#[test]
fn payment_decisions_report_errors_first() {
    assert_eq!(
        interpret_payment_response(Some(b"SUCCESS".to_vec()), false),
        Ok(b"SUCCESS".to_vec())
    );
    assert_eq!(
        interpret_payment_response(Some(b"SUCCESS".to_vec()), true),
        Err(PaymentSendError::ReportedErrors)
    );
    assert_eq!(interpret_payment_response(None, true), Err(PaymentSendError::ReportedErrors));
    assert_eq!(interpret_payment_response(None, false), Err(PaymentSendError::EmptyResponse));
}
