//! Base-URL validation and request-URL building, held against the `url`
//! crate's own behaviour.

use radicle_proxy_client::agent::Client;
use radicle_proxy_client::error::ApiError;

#[test]
fn accepts_base_urls_with_a_domain() {
    assert!(Client::new("http://localhost:17246".to_string()).is_ok());
    assert!(Client::new("https://proxy.example.com".to_string()).is_ok());
    assert!(Client::new("http://example.com/base".to_string()).is_ok());
}

#[test]
fn refuses_base_urls_without_a_domain() {
    // An IP host has no domain to scope the auth cookie to.
    assert!(matches!(
        Client::new("http://127.0.0.1:17246".to_string()),
        Err(ApiError::UrlConstruction)
    ));
    // A data URL cannot take appended path segments.
    assert!(matches!(
        Client::new("data:text/plain,hello".to_string()),
        Err(ApiError::UrlConstruction)
    ));
    assert!(matches!(
        Client::new("not a url at all".to_string()),
        Err(ApiError::UrlConstruction)
    ));
}

#[test]
fn builds_request_urls_as_the_url_crate_does() {
    let client = Client::new("http://localhost:17246".to_string()).unwrap();
    let built = client.url_for(&["v1", "projects", "rad:git:hnrk", "peers"]);

    let mut expected = url::Url::parse("http://localhost:17246").unwrap();
    expected
        .path_segments_mut()
        .unwrap()
        .push("v1")
        .push("projects")
        .push("rad:git:hnrk")
        .push("peers");
    assert_eq!(built, expected.to_string());
    assert_eq!(built, "http://localhost:17246/v1/projects/rad:git:hnrk/peers");
}
