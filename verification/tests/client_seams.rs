//! The resource clients' interpretation seams: what each one hands back
//! for concrete agent answers, the missing-resource and wrong-shape cases
//! included.

use radicle_proxy_client::error::ApiError;
use radicle_proxy_client::json::parse_json;
use radicle_proxy_client::{identities, projects, session};

#[test]
fn an_absent_project_stays_none_at_the_client() {
    assert!(matches!(projects::lookup_of(Ok(None)), Ok(None)));
    assert!(matches!(identities::lookup_of(Ok(None)), Ok(None)));
}

#[test]
fn empty_listings_come_back_empty() {
    let doc = parse_json(&b"[]".to_vec()).unwrap();
    assert_eq!(identities::listing_of(Ok(doc)).unwrap(), vec![]);
    let doc = parse_json(&b"[]".to_vec()).unwrap();
    assert_eq!(projects::listing_of(Ok(doc)).unwrap(), vec![]);
    let doc = parse_json(&b"[]".to_vec()).unwrap();
    assert_eq!(projects::peer_listing_of(Ok(doc)).unwrap(), vec![]);
    let doc = parse_json(&b"[]".to_vec()).unwrap();
    assert_eq!(projects::request_listing_of(Ok(doc)).unwrap(), vec![]);
}

#[test]
fn wrong_shapes_are_serialization_errors() {
    let doc = parse_json(&b"{\"unexpected\":true}".to_vec()).unwrap();
    assert!(matches!(identities::listing_of(Ok(doc)), Err(ApiError::Serialization)));
    let doc = parse_json(&b"42".to_vec()).unwrap();
    assert!(matches!(projects::lookup_of(Ok(Some(doc))), Err(ApiError::Serialization)));
    let doc = parse_json(&b"[]".to_vec()).unwrap();
    assert!(matches!(session::session_of(Ok(doc)), Err(ApiError::Serialization)));
}

#[test]
fn failures_pass_through_the_clients_unchanged() {
    match identities::listing_of(Err(ApiError::Api { msg: b"sealed".to_vec(), code: 500 })) {
        Err(ApiError::Api { msg, code }) => {
            assert_eq!(msg, b"sealed".to_vec());
            assert_eq!(code, 500);
        },
        other => panic!("expected the failure back, got {:?}", other),
    }
    assert!(matches!(projects::lookup_of(Err(ApiError::Io)), Err(ApiError::Io)));
    assert!(matches!(session::session_of(Err(ApiError::Io)), Err(ApiError::Io)));
}
