//! The authentication flow's transition table: warm start, stale token,
//! and cold start.

use radicle_proxy_client::agent::AuthToken;
use radicle_proxy_client::auth::{auth_begin, auth_step, AuthCmd, AuthEvent, AuthState};

fn token(text: &str) -> AuthToken {
    AuthToken::new(text.to_string())
}

#[test]
fn warm_start_reuses_an_accepted_token() {
    let (state, cmd) = auth_begin();
    assert!(matches!(state, AuthState::LoadingCache));
    assert!(matches!(cmd, AuthCmd::ReadCache));

    let (state, cmd) = auth_step(state, AuthEvent::Cache(Some(token("cached")))).unwrap();
    assert!(matches!(state, AuthState::Probing));
    match cmd {
        AuthCmd::Probe(t) => assert_eq!(t.expose(), "cached"),
        other => panic!("expected a probe, got another command: {}", describe(&other)),
    }

    let (state, cmd) = auth_step(state, AuthEvent::ProbeAccepted).unwrap();
    assert!(matches!(state, AuthState::Done));
    assert!(matches!(cmd, AuthCmd::Finish));
}

#[test]
fn a_stale_token_falls_back_to_login_and_overwrites_the_cache() {
    let (state, _) = auth_begin();
    let (state, _) = auth_step(state, AuthEvent::Cache(Some(token("stale")))).unwrap();
    let (state, cmd) = auth_step(state, AuthEvent::ProbeRejected).unwrap();
    assert!(matches!(state, AuthState::LoggingIn));
    assert!(matches!(cmd, AuthCmd::PromptLogin));

    let (state, cmd) = auth_step(state, AuthEvent::LoggedIn(token("fresh"))).unwrap();
    assert!(matches!(state, AuthState::Storing));
    match cmd {
        AuthCmd::Store(t) => assert_eq!(t.expose(), "fresh"),
        other => panic!("expected a store, got another command: {}", describe(&other)),
    }

    let (state, cmd) = auth_step(state, AuthEvent::StoreEnded).unwrap();
    assert!(matches!(state, AuthState::Done));
    assert!(matches!(cmd, AuthCmd::Finish));
}

#[test]
fn cold_start_logs_in_at_once() {
    let (state, _) = auth_begin();
    let (state, cmd) = auth_step(state, AuthEvent::Cache(None)).unwrap();
    assert!(matches!(state, AuthState::LoggingIn));
    assert!(matches!(cmd, AuthCmd::PromptLogin));
}

#[test]
fn events_out_of_turn_answer_nothing() {
    let (state, _) = auth_begin();
    assert!(auth_step(state, AuthEvent::ProbeAccepted).is_none());
    let (state, _) = auth_begin();
    let (state, _) = auth_step(state, AuthEvent::Cache(None)).unwrap();
    assert!(auth_step(state, AuthEvent::StoreEnded).is_none());
}

fn describe(cmd: &AuthCmd) -> &'static str {
    match cmd {
        AuthCmd::ReadCache => "read the cache",
        AuthCmd::Probe(_) => "probe",
        AuthCmd::PromptLogin => "prompt and log in",
        AuthCmd::Store(_) => "store",
        AuthCmd::Finish => "finish",
    }
}
