use drosophila::discovery::{
    build_candidates, discovered_peers, filter_by_protocol, needs_probe, ping_from_elapsed, public_peer_sources,
    sort_peers, DiscoveredPeer, PeerMetadata, PeerOrder, PublicNode,
};

fn node(region: &str, address: &str, up: bool, response_ms: u64) -> PublicNode {
    PublicNode {
        region: region.to_owned(),
        address: address.to_owned(),
        metadata: PeerMetadata { up, response_ms },
    }
}

fn public_nodes() -> Vec<PublicNode> {
    vec![
        node("DE.md", "wss://example.com/yggdrasil", true, 12),
        node("DE.md", "tcp://example.net:1234", true, 3),
    ]
}

#[test]
fn candidates_filter_protocol_and_apply_default_websocket_port() {
    let peers = build_candidates(public_nodes(), &vec!["wss".to_owned()]);
    assert_eq!(peers.len(), 1);
    assert_eq!(peers[0].port, 443);
    assert_eq!(peers[0].country, "DE");
}

#[test]
fn discovery_candidates_filter_protocol_and_apply_default_websocket_port() {
    let peers = build_candidates(public_nodes(), &vec!["wss".to_owned()]);
    assert_eq!(peers.len(), 1);
    assert_eq!(peers[0].port, 443);
    assert_eq!(peers[0].country, "DE");
}

#[test]
fn candidates_skip_down_duplicate_and_portless_peers() {
    let nodes = vec![
        node("FR.md", "tcp://down.example:1", false, 5),
        node("FR.md.md", "tcp://up.example:2", true, 0),
        node("NL.md", "tcp://up.example:2", true, 7),
        node("NL.md", "tcp://noport.example", true, 7),
        node("NL.md", "not a uri", true, 7),
    ];
    let peers = build_candidates(nodes, &vec!["tcp".to_owned()]);
    assert_eq!(peers.len(), 1);
    assert_eq!(peers[0].address, "tcp://up.example:2");
    assert_eq!(peers[0].host, "up.example");
    assert_eq!(peers[0].protocol, "tcp");
    assert_eq!(peers[0].country, "FR");
    assert_eq!(peers[0].ping_ms, None);
}

fn peer(country: &str, protocol: &str, ping: Option<u64>) -> DiscoveredPeer {
    DiscoveredPeer {
        address: format!("{protocol}://{country}:1"),
        protocol: protocol.to_owned(),
        host: country.to_owned(),
        port: 1,
        country: country.to_owned(),
        ping_ms: ping,
    }
}

#[test]
fn peers_sort_by_ping_then_country() {
    let peers = vec![peer("b", "tcp", None), peer("c", "tcp", Some(5)), peer("a", "tcp", Some(5)), peer("d", "tls", Some(1))];
    let sorted = sort_peers(peers, PeerOrder::ByPing);
    let order: Vec<&str> = sorted.iter().map(|p| p.country.as_str()).collect();
    assert_eq!(order, vec!["d", "a", "c", "b"]);
}

#[test]
fn peers_sort_by_country_then_ping() {
    let peers = vec![peer("b", "tcp", Some(1)), peer("A", "tcp", Some(9)), peer("a", "tcp", None), peer("C", "tcp", None)];
    let sorted = sort_peers(peers, PeerOrder::ByCountry);
    let order: Vec<(&str, Option<u64>)> = sorted.iter().map(|p| (p.country.as_str(), p.ping_ms)).collect();
    assert_eq!(order, vec![("a", None), ("A", Some(9)), ("b", Some(1)), ("C", None)]);
}

#[test]
fn filtering_keeps_enabled_protocols_in_order() {
    let peers = vec![peer("a", "tcp", None), peer("b", "tls", None), peer("c", "quic", None), peer("d", "tcp", None)];
    let shown = filter_by_protocol(&peers, &vec!["tcp".to_owned(), "quic".to_owned()]);
    let order: Vec<&str> = shown.iter().map(|p| p.country.as_str()).collect();
    assert_eq!(order, vec!["a", "c", "d"]);
}

#[test]
fn probing_and_sources() {
    assert!(!needs_probe("quic"));
    assert!(needs_probe("tcp"));
    assert_eq!(ping_from_elapsed(42), 42);
    assert_eq!(ping_from_elapsed(u128::MAX), u64::MAX);
    let sources = public_peer_sources();
    assert_eq!(sources[0], "https://publicpeers.neilalexander.dev/publicnodes.json");
    assert_eq!(sources[1], "https://peers.yggdrasil.link/publicnodes.json");
}

#[test]
fn peers_with_equal_keys_keep_their_order() {
    let mut first = peer("DE", "tcp", Some(5));
    first.address = "tcp://first:1".to_owned();
    let mut second = peer("DE", "tcp", Some(5));
    second.address = "tcp://second:1".to_owned();
    let faster = peer("DE", "tcp", Some(1));
    let sorted = sort_peers(vec![first.clone(), second.clone(), faster.clone()], PeerOrder::ByPing);
    assert_eq!(sorted, vec![faster.clone(), first.clone(), second.clone()]);
    let sorted = sort_peers(vec![second.clone(), first.clone()], PeerOrder::ByCountry);
    assert_eq!(sorted, vec![second, first]);
}

#[test]
fn discovery_offers_probed_candidates_by_round_trip() {
    let nodes = vec![
        node("DE.md", "tcp://slow.example:1", true, 0),
        node("FR.md", "quic://fast.example:2", true, 9),
        node("NL.md", "tls://gone.example:3", true, 1),
        node("SE.md", "tcp://quick.example:4", true, 0),
        node("SE.md", "tcp://slow.example:1", true, 0),
    ];
    let protocols = vec!["tcp".to_owned(), "tls".to_owned(), "quic".to_owned()];
    let candidates = build_candidates(nodes, &protocols);
    assert_eq!(candidates.len(), 4);
    let offered = discovered_peers(&candidates, &vec![Some(40), None, None, Some(7)]);
    let addresses: Vec<&str> = offered.iter().map(|p| p.address.as_str()).collect();
    assert_eq!(addresses, vec!["tcp://quick.example:4", "quic://fast.example:2", "tcp://slow.example:1"]);
    assert_eq!(offered[0].ping_ms, Some(7));
    assert_eq!(offered[1].ping_ms, Some(9));
    assert_eq!(offered[2].ping_ms, Some(40));
    assert_eq!(offered[2].country, "DE");
    let unanswered = discovered_peers(&candidates, &vec![]);
    assert_eq!(unanswered.len(), 1);
    assert_eq!(unanswered[0].address, "quic://fast.example:2");
}
