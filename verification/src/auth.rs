//! The interactive authorization dialogue as a linear state machine:
//! request a one-time code, accept it, and — when the account has a
//! second factor — accept a password. Any rejection ends the dialogue.

use vstd::prelude::*;

verus! {

/// Where the authorization dialogue stands.
#[derive(Clone, Copy, PartialEq, Eq, Debug, Structural)]
pub enum AuthState {
    /// A login code was requested and has not been answered yet.
    AwaitingCode,
    /// The code was accepted but the account asks for its second factor.
    AwaitingPassword,
    /// The session is authorized.
    Authorized,
}

/// What the remote service answered to the last step.
#[derive(Clone, Copy, PartialEq, Eq, Debug, Structural)]
pub enum AuthEvent {
    /// The stored session was already authorized; no dialogue is needed.
    AlreadyAuthorized,
    /// The submitted one-time code was accepted outright.
    CodeAccepted,
    /// The code was accepted but a second-factor password is required.
    PasswordNeeded,
    /// The second-factor password was accepted.
    PasswordAccepted,
    /// The step was rejected.
    Rejected,
}

/// Authorization failed: the operator sees this at startup.
#[derive(Clone, Copy, PartialEq, Eq, Debug, Structural)]
pub enum AuthError {
    Rejected,
}

/// The transition table of the dialogue. Progress is linear: a code
/// answer either authorizes or asks for the password; the password
/// answer authorizes; everything else — including any rejection and any
/// out-of-order event — fails.
pub open spec fn auth_next(state: AuthState, event: AuthEvent) -> Result<AuthState, AuthError> {
    match (state, event) {
        (AuthState::AwaitingCode, AuthEvent::AlreadyAuthorized) => Ok(AuthState::Authorized),
        (AuthState::AwaitingCode, AuthEvent::CodeAccepted) => Ok(AuthState::Authorized),
        (AuthState::AwaitingCode, AuthEvent::PasswordNeeded) => Ok(AuthState::AwaitingPassword),
        (AuthState::AwaitingPassword, AuthEvent::PasswordAccepted) => Ok(AuthState::Authorized),
        _ => Err(AuthError::Rejected),
    }
}

/// Apply one answer from the remote service to the dialogue state.
pub fn auth_step(state: AuthState, event: AuthEvent) -> (r: Result<AuthState, AuthError>)
    ensures
        r == auth_next(state, event),
        event is Rejected ==> r is Err,
        (r matches Ok(s) && s is Authorized) <==> ((state is AwaitingCode && (
        event is AlreadyAuthorized || event is CodeAccepted)) || (state is AwaitingPassword
            && event is PasswordAccepted)),
{
    match (state, event) {
        (AuthState::AwaitingCode, AuthEvent::AlreadyAuthorized) => Ok(AuthState::Authorized),
        (AuthState::AwaitingCode, AuthEvent::CodeAccepted) => Ok(AuthState::Authorized),
        (AuthState::AwaitingCode, AuthEvent::PasswordNeeded) => Ok(AuthState::AwaitingPassword),
        (AuthState::AwaitingPassword, AuthEvent::PasswordAccepted) => Ok(AuthState::Authorized),
        _ => Err(AuthError::Rejected),
    }
}

} // verus!
