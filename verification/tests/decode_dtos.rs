//! Typed decoding of the proxy's documents, each from literal wire text.

use radicle_proxy_client::identities::{decode_identities, decode_identity, find_matching};
use radicle_proxy_client::json::parse_json;
use radicle_proxy_client::projects::{
    decode_peers, decode_project, decode_request, RequestState, RequestStatus, TimedOut,
};
use radicle_proxy_client::session::decode_session;

fn identity_body(handle: &str, urn: &str, peer: &str) -> String {
    format!(
        "{{\"peerId\":\"{peer}\",\"urn\":\"{urn}\",\"shareableEntityIdentifier\":\"{handle}@{urn}\",\
         \"metadata\":{{\"handle\":\"{handle}\"}},\
         \"avatarFallback\":{{\"emoji\":\"🌱\",\"background\":{{\"r\":255,\"g\":0,\"b\":10}}}}}}"
    )
}

#[test]
fn decodes_an_identity() {
    let body = identity_body("cloudhead", "rad:git:hnrk1", "hyy1");
    let doc = parse_json(&body.into_bytes()).unwrap();
    let id = decode_identity(&doc).unwrap();
    assert_eq!(id.metadata.handle, b"cloudhead".to_vec());
    assert_eq!(id.urn, b"rad:git:hnrk1".to_vec());
    assert_eq!(id.peer_id, b"hyy1".to_vec());
    assert_eq!(id.avatar_fallback.background.r, 255);
    assert_eq!(id.avatar_fallback.background.b, 10);
}

#[test]
fn refuses_an_identity_missing_a_field() {
    let doc = parse_json(&b"{\"urn\":\"rad:git:x\"}".to_vec()).unwrap();
    assert_eq!(decode_identity(&doc), None);
}

#[test]
fn matches_identities_by_urn_handle_or_peer() {
    let body = format!(
        "[{},{}]",
        identity_body("alice", "rad:git:a", "p1"),
        identity_body("bob", "rad:git:b", "p2")
    );
    let doc = parse_json(&body.into_bytes()).unwrap();
    let ids = decode_identities(&doc).unwrap();
    assert_eq!(ids.len(), 2);
    assert_eq!(find_matching(&ids, b"alice").len(), 1);
    assert_eq!(find_matching(&ids, b"rad:git:b").len(), 1);
    assert_eq!(find_matching(&ids, b"p2")[0].metadata.handle, b"bob".to_vec());
    assert_eq!(find_matching(&ids, b"nobody").len(), 0);
}

#[test]
fn decodes_a_project() {
    let body = "{\"urn\":\"rad:git:p\",\"shareableEntityIdentifier\":\"me@rad:git:p\",\
        \"metadata\":{\"name\":\"radicle\",\"description\":\"peer to peer\",\
        \"defaultBranch\":\"main\",\"maintainers\":[\"rad:git:a\"]},\
        \"stats\":{\"commits\":420,\"branches\":2,\"contributors\":3}}";
    let doc = parse_json(&body.as_bytes().to_vec()).unwrap();
    let p = decode_project(&doc).unwrap();
    assert_eq!(p.metadata.name, b"radicle".to_vec());
    assert_eq!(p.metadata.maintainers, vec![b"rad:git:a".to_vec()]);
    assert_eq!(p.stats.commits, 420);
    assert_eq!(p.stats.contributors, 3);
}

#[test]
fn decodes_peers() {
    let body = format!(
        "[{{\"peerId\":\"p1\",\"status\":{{\"role\":\"maintainer\",\"type\":\"replicated\",\
         \"user\":{}}},\"type\":\"connected\"}}]",
        identity_body("alice", "rad:git:a", "p1")
    );
    let doc = parse_json(&body.into_bytes()).unwrap();
    let peers = decode_peers(&doc).unwrap();
    assert_eq!(peers.len(), 1);
    assert_eq!(peers[0].status.role, b"maintainer".to_vec());
    assert_eq!(peers[0].status.user.metadata.handle, b"alice".to_vec());
    assert_eq!(peers[0].type_, b"connected".to_vec());
}

#[test]
fn decodes_requests_in_every_state() {
    let cloning = "{\"urn\":\"rad:git:r\",\"attempts\":{\"queries\":1},\"timestamp\":1600000000,\
        \"type\":\"cloning\",\"state\":{\"peers\":{\"p1\":\"available\",\"p2\":\"inProgress\",\"p3\":\"failed\"}}}";
    let doc = parse_json(&cloning.as_bytes().to_vec()).unwrap();
    let rq = decode_request(&doc).unwrap();
    assert_eq!(rq.urn, b"rad:git:r".to_vec());
    assert_eq!(rq.timestamp, 1_600_000_000);
    match &rq.state {
        RequestState::Cloning(peers) => {
            assert_eq!(peers.len(), 3);
            assert_eq!(peers[0], (b"p1".to_vec(), RequestStatus::Available));
            assert_eq!(peers[1], (b"p2".to_vec(), RequestStatus::InProgress));
            assert_eq!(peers[2], (b"p3".to_vec(), RequestStatus::Failed));
        },
        other => panic!("expected cloning, got {:?}", other),
    }

    let created = "{\"urn\":\"rad:git:r\",\"attempts\":null,\"timestamp\":1,\"type\":\"created\",\"state\":{}}";
    let doc = parse_json(&created.as_bytes().to_vec()).unwrap();
    assert_eq!(decode_request(&doc).unwrap().state, RequestState::Created);

    let cloned = "{\"urn\":\"rad:git:r\",\"attempts\":null,\"timestamp\":1,\"type\":\"cloned\",\
        \"state\":{\"url\":\"rad:git:r\"}}";
    let doc = parse_json(&cloned.as_bytes().to_vec()).unwrap();
    assert_eq!(decode_request(&doc).unwrap().state, RequestState::Cloned(b"rad:git:r".to_vec()));

    let timed_out = "{\"urn\":\"rad:git:r\",\"attempts\":null,\"timestamp\":1,\"type\":\"timedOut\",\
        \"state\":\"query\"}";
    let doc = parse_json(&timed_out.as_bytes().to_vec()).unwrap();
    assert_eq!(decode_request(&doc).unwrap().state, RequestState::TimedOut(TimedOut::Query));

    let unknown = "{\"urn\":\"rad:git:r\",\"attempts\":null,\"timestamp\":1,\"type\":\"exploded\",\
        \"state\":{}}";
    let doc = parse_json(&unknown.as_bytes().to_vec()).unwrap();
    assert_eq!(decode_request(&doc), None);
}

#[test]
fn decodes_empty_listings() {
    let doc = parse_json(&b"[]".to_vec()).unwrap();
    assert_eq!(decode_identities(&doc), Some(vec![]));
    assert_eq!(decode_peers(&doc), Some(vec![]));
}

#[test]
fn decodes_a_session() {
    let body = format!(
        "{{\"identity\":{},\"settings\":{{\"appearance\":{{\"theme\":\"dark\",\
         \"hints\":{{\"showRemoteHelper\":false}}}},\"coco\":{{\"seeds\":[\"s1\",\"s2\"]}}}}}}",
        identity_body("alice", "rad:git:a", "p1")
    );
    let doc = parse_json(&body.into_bytes()).unwrap();
    let session = decode_session(&doc).unwrap();
    assert_eq!(session.identity.metadata.handle, b"alice".to_vec());
    assert!(!session.settings.appearance.hints.show_remote_helper);
    assert_eq!(session.settings.coco.seeds, vec![b"s1".to_vec(), b"s2".to_vec()]);
}
