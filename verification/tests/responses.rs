//! How fetched outcomes become values and typed errors: the 404 and 403
//! rules, the error-body shape, and the transport failure.

use radicle_proxy_client::agent::{
    interpret_response, interpret_response_ignoring_body, interpret_response_opt, login_outcome,
    token_accepted, Fetched,
};
use radicle_proxy_client::error::ApiError;
use radicle_proxy_client::json::JsonValue;

fn error_body(message: &str) -> Vec<u8> {
    format!("{{\"message\":\"{}\",\"variant\":\"Error\"}}", message).into_bytes()
}

#[test]
fn not_found_is_none_not_an_error() {
    let r = interpret_response_opt(Fetched::Status(404, Some(b"anything at all".to_vec())));
    assert!(matches!(r, Ok(None)));
}

#[test]
fn success_is_the_parsed_body() {
    let r = interpret_response_opt(Fetched::Success(Some(b"{\"urn\":\"rad:git:x\"}".to_vec())));
    let doc = r.unwrap().unwrap();
    assert_eq!(
        doc.get(b"urn").unwrap(),
        &JsonValue::Str(b"rad:git:x".to_vec())
    );
}

#[test]
fn other_statuses_carry_the_servers_message_and_code() {
    let r = interpret_response_opt(Fetched::Status(500, Some(error_body("keystore sealed"))));
    match r {
        Err(ApiError::Api { msg, code }) => {
            assert_eq!(msg, b"keystore sealed".to_vec());
            assert_eq!(code, 500);
        },
        other => panic!("expected an Api error, got {:?}", other),
    }
}

#[test]
fn malformed_bodies_are_serialization_errors() {
    assert!(matches!(
        interpret_response(Fetched::Success(Some(b"{not json".to_vec()))),
        Err(ApiError::Serialization)
    ));
    // An error status whose body lacks the {message, variant} shape.
    assert!(matches!(
        interpret_response(Fetched::Status(500, Some(b"{\"message\":\"x\"}".to_vec()))),
        Err(ApiError::Serialization)
    ));
    assert!(matches!(
        interpret_response(Fetched::Status(500, Some(b"oops".to_vec()))),
        Err(ApiError::Serialization)
    ));
}

#[test]
fn unreadable_bodies_are_io_errors() {
    assert!(matches!(interpret_response(Fetched::Success(None)), Err(ApiError::Io)));
    assert!(matches!(interpret_response(Fetched::Status(500, None)), Err(ApiError::Io)));
}

#[test]
fn a_404_with_an_unreadable_body_is_still_none() {
    assert!(matches!(interpret_response_opt(Fetched::Status(404, None)), Ok(None)));
}

#[test]
fn ignored_post_bodies_accept_the_empty_answer() {
    // The proxy answers the unseal and settings posts with an empty body.
    assert!(matches!(
        interpret_response_ignoring_body(Fetched::Success(Some(Vec::new()))),
        Ok(())
    ));
    assert!(matches!(
        interpret_response_ignoring_body(Fetched::Success(Some(b"whatever".to_vec()))),
        Ok(())
    ));
    assert!(matches!(
        interpret_response_ignoring_body(Fetched::Success(None)),
        Err(ApiError::Io)
    ));
    match interpret_response_ignoring_body(Fetched::Status(403, Some(error_body("wrong")))) {
        Err(ApiError::Api { msg, code }) => {
            assert_eq!(msg, b"wrong".to_vec());
            assert_eq!(code, 403);
        },
        other => panic!("expected an Api error, got {:?}", other),
    }
    assert!(matches!(
        interpret_response_ignoring_body(Fetched::Status(500, None)),
        Err(ApiError::Io)
    ));
}

#[test]
fn login_hands_back_the_cookie_or_the_unseal_failure() {
    let ok = login_outcome(Ok(()), Some("fresh-token".to_string())).unwrap();
    assert_eq!(ok.expose(), "fresh-token");
    assert!(matches!(login_outcome(Ok(()), None), Err(ApiError::Io)));
    let unseal_failed = Err(ApiError::Api { msg: b"wrong passphrase".to_vec(), code: 403 });
    match login_outcome(unseal_failed, Some("stale".to_string())) {
        Err(ApiError::Api { msg, code }) => {
            assert_eq!(msg, b"wrong passphrase".to_vec());
            assert_eq!(code, 403);
        },
        Err(_) => panic!("expected the unseal failure back, got another error"),
        Ok(_) => panic!("expected the unseal failure back, got a token"),
    }
}

#[test]
fn transport_failures_keep_their_cause() {
    // A connection that is refused at once: nothing listens on this port.
    let agent = ureq::builder().timeout(std::time::Duration::from_secs(2)).build();
    let t = match agent.get("http://localhost:9/").call() {
        Err(ureq::Error::Transport(t)) => t,
        other => panic!("expected a transport failure, got {:?}", other.map(|_| ())),
    };
    assert!(matches!(
        interpret_response(Fetched::TransportFailed(t)),
        Err(ApiError::Transport(_))
    ));
}

#[test]
fn wrong_passphrase_surfaces_the_servers_answer() {
    // The unseal endpoint refuses a wrong passphrase with an error body.
    let r = interpret_response(Fetched::Status(403, Some(error_body("incorrect passphrase"))));
    match r {
        Err(ApiError::Api { msg, code }) => {
            assert_eq!(msg, b"incorrect passphrase".to_vec());
            assert_eq!(code, 403);
        },
        other => panic!("expected an Api error, got {:?}", other),
    }
}

#[test]
fn a_403_probe_means_the_token_is_stale() {
    let stale = interpret_response(Fetched::Status(403, Some(error_body("token expired"))));
    assert!(matches!(token_accepted(stale), Ok(false)));
}

#[test]
fn an_accepted_probe_keeps_the_token() {
    let fine = interpret_response(Fetched::Success(Some(b"[]".to_vec())));
    assert!(matches!(token_accepted(fine), Ok(true)));
}

#[test]
fn other_probe_failures_propagate() {
    let down = interpret_response(Fetched::Status(500, Some(error_body("sealed"))));
    assert!(matches!(token_accepted(down), Err(ApiError::Api { code: 500, .. })));
}
