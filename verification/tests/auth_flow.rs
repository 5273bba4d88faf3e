use newsdeck::auth::{auth_step, AuthEvent, AuthState};

#[test]
fn already_authorized_session_skips_the_dialogue() {
    let r = auth_step(AuthState::AwaitingCode, AuthEvent::AlreadyAuthorized);
    assert!(matches!(r, Ok(AuthState::Authorized)));
}

#[test]
fn accepted_code_authorizes() {
    let r = auth_step(AuthState::AwaitingCode, AuthEvent::CodeAccepted);
    assert!(matches!(r, Ok(AuthState::Authorized)));
}

#[test]
fn second_factor_path_authorizes_after_password() {
    let mid = auth_step(AuthState::AwaitingCode, AuthEvent::PasswordNeeded);
    let state = mid.unwrap();
    assert!(matches!(state, AuthState::AwaitingPassword));
    let done = auth_step(state, AuthEvent::PasswordAccepted);
    assert!(matches!(done, Ok(AuthState::Authorized)));
}

#[test]
fn rejection_fails_the_dialogue() {
    assert!(auth_step(AuthState::AwaitingCode, AuthEvent::Rejected).is_err());
    assert!(auth_step(AuthState::AwaitingPassword, AuthEvent::Rejected).is_err());
}

#[test]
fn out_of_order_events_fail() {
    assert!(auth_step(AuthState::AwaitingCode, AuthEvent::PasswordAccepted).is_err());
    assert!(auth_step(AuthState::AwaitingPassword, AuthEvent::CodeAccepted).is_err());
}
