use scion_router_proto::http_api::{get_peers, health, Peer, PeerRequest, PeerResponse, PeersResponse, HealthResponse};

#[test]
fn test_health() {
    let response = health();
    assert_eq!(response.0, 200);
    assert_eq!(response.1.message, "OK");
}

#[test]
fn test_get_peers() {
    let response = get_peers();
    assert_eq!(response.0, 200);
    assert_eq!(response.1.peers, vec![] as Vec<String>);
}

#[test]
fn texts_of_answers() {
    let h = HealthResponse { message: "OK".to_string() };
    assert_eq!(h.to_string(), "OK");
    let p = Peer { name: "br1".to_string(), address: "127.0.0.1:5000".to_string() };
    assert_eq!(p.to_string(), "br1 127.0.0.1:5000");
    let r = PeerResponse { peer: Peer { name: "a".to_string(), address: "b".to_string() } };
    assert_eq!(r.to_string(), "a b");
    let q = PeerRequest { peer: Peer { name: "x".to_string(), address: "y:1".to_string() } };
    assert_eq!(q.to_string(), "x y:1");
    let l = PeersResponse { peers: vec!["a".to_string(), "b\"c".to_string()] };
    assert_eq!(l.to_string(), "[\"a\", \"b\\\"c\"]");
    let e = PeersResponse { peers: vec![] };
    assert_eq!(e.to_string(), "[]");
}
