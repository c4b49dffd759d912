//! The client constructors end to end against a port nothing listens on:
//! the URL check runs, the cookie jar is seeded, the request goes out, and
//! the refused connection comes back as a transport error — never as a
//! URL error once the base passed construction.

use radicle_proxy_client::agent::{AuthToken, Client, Passphrase};
use radicle_proxy_client::error::ApiError;

#[test]
fn with_token_reports_transport_failures() {
    let token = AuthToken::new("sometoken".to_string());
    let r = Client::with_token("http://localhost:9".to_string(), &token);
    assert!(matches!(r, Err(ApiError::Transport(_))));
}

#[test]
fn with_token_checks_the_base_url_first() {
    let token = AuthToken::new("sometoken".to_string());
    let r = Client::with_token("http://127.0.0.1:9".to_string(), &token);
    assert!(matches!(r, Err(ApiError::UrlConstruction)));
}

#[test]
fn with_login_reports_transport_failures() {
    let passphrase = Passphrase::new(b"hunter2".to_vec());
    let r = Client::with_login("http://localhost:9".to_string(), passphrase);
    assert!(matches!(r, Err(ApiError::Transport(_))));
}

#[test]
fn with_login_checks_the_base_url_first() {
    let passphrase = Passphrase::new(b"hunter2".to_vec());
    let r = Client::with_login("not a url".to_string(), passphrase);
    assert!(matches!(r, Err(ApiError::UrlConstruction)));
}
