//! The authentication flow as a state machine: how a process invocation
//! obtains a working client, reusing a cached token when the proxy still
//! accepts it and falling back to a passphrase login otherwise. The
//! caller performs each commanded step and feeds the outcome back in.

use vstd::prelude::*;

use crate::agent::AuthToken;

verus! {

/// Where the flow stands.
pub enum AuthState {
    /// Waiting for the credential store to answer.
    LoadingCache,
    /// Waiting for the probe of a cached token.
    Probing,
    /// Waiting for a passphrase login.
    LoggingIn,
    /// Waiting for the fresh token to be stored.
    Storing,
    /// The flow is over: a working client is at hand.
    Done,
}

/// What the caller reports back.
pub enum AuthEvent {
    /// The credential store answered: a cached token, or none. A store
    /// failure is not fatal: it is reported as no cached token.
    Cache(Option<AuthToken>),
    /// The probe accepted the cached token.
    ProbeAccepted,
    /// The probe answered that the token is invalid or expired.
    ProbeRejected,
    /// Login succeeded and produced a fresh token.
    LoggedIn(AuthToken),
    /// Storing the fresh token ended, well or not. A store failure is not
    /// fatal.
    StoreEnded,
}

/// What the caller must do next.
pub enum AuthCmd {
    /// Read the credential store.
    ReadCache,
    /// Probe this token against the proxy.
    Probe(AuthToken),
    /// Prompt for the passphrase and log in.
    PromptLogin,
    /// Store this token, overwriting any cached one.
    Store(AuthToken),
    /// Use the client at hand.
    Finish,
}

/// The whole flow: a warm start probes the cached token and reuses it
/// when the proxy accepts it; a rejected or missing token falls back to a
/// passphrase login whose fresh token is stored. An event that its state
/// cannot answer yields nothing.
pub open spec fn spec_auth_step(state: AuthState, event: AuthEvent) -> Option<
    (AuthState, AuthCmd),
> {
    match (state, event) {
        (AuthState::LoadingCache, AuthEvent::Cache(Some(t))) => Some(
            (AuthState::Probing, AuthCmd::Probe(t)),
        ),
        (AuthState::LoadingCache, AuthEvent::Cache(None)) => Some(
            (AuthState::LoggingIn, AuthCmd::PromptLogin),
        ),
        (AuthState::Probing, AuthEvent::ProbeAccepted) => Some((AuthState::Done, AuthCmd::Finish)),
        (AuthState::Probing, AuthEvent::ProbeRejected) => Some(
            (AuthState::LoggingIn, AuthCmd::PromptLogin),
        ),
        (AuthState::LoggingIn, AuthEvent::LoggedIn(t)) => Some(
            (AuthState::Storing, AuthCmd::Store(t)),
        ),
        (AuthState::Storing, AuthEvent::StoreEnded) => Some((AuthState::Done, AuthCmd::Finish)),
        _ => None,
    }
}

/// The command that opens the flow.
pub fn auth_begin() -> (r: (AuthState, AuthCmd))
    ensures
        r == (AuthState::LoadingCache, AuthCmd::ReadCache),
{
    (AuthState::LoadingCache, AuthCmd::ReadCache)
}

/// One step of the flow, exactly as `spec_auth_step` lays it out.
pub fn auth_step(state: AuthState, event: AuthEvent) -> (r: Option<(AuthState, AuthCmd)>)
    ensures
        r == spec_auth_step(state, event),
{
    match (state, event) {
        (AuthState::LoadingCache, AuthEvent::Cache(Some(t))) => Some(
            (AuthState::Probing, AuthCmd::Probe(t)),
        ),
        (AuthState::LoadingCache, AuthEvent::Cache(None)) => Some(
            (AuthState::LoggingIn, AuthCmd::PromptLogin),
        ),
        (AuthState::Probing, AuthEvent::ProbeAccepted) => Some((AuthState::Done, AuthCmd::Finish)),
        (AuthState::Probing, AuthEvent::ProbeRejected) => Some(
            (AuthState::LoggingIn, AuthCmd::PromptLogin),
        ),
        (AuthState::LoggingIn, AuthEvent::LoggedIn(t)) => Some(
            (AuthState::Storing, AuthCmd::Store(t)),
        ),
        (AuthState::Storing, AuthEvent::StoreEnded) => Some((AuthState::Done, AuthCmd::Finish)),
        _ => None,
    }
}

/// However the flow runs, it can only finish after the proxy accepted the
/// cached token or a fresh login's token was handed to the store: every
/// step that reaches `Done` commands `Finish`, and arrives there only from
/// a probe acceptance or the end of a store.
pub proof fn lemma_auth_done_only_authenticated(state: AuthState, event: AuthEvent)
    ensures
        match spec_auth_step(state, event) {
            Some(step) => step.0 is Done ==> step.1 is Finish && ((state is Probing
                && event is ProbeAccepted) || (state is Storing && event is StoreEnded)),
            None => true,
        },
{
}

} // verus!
