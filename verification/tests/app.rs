use drosophila::discovery::DiscoveredPeer;
use drosophila::peers::{build_peer_uri, format_endpoint, peer_display, valid_hostname, validate_endpoint, DiscoveryCache};

fn protocols(values: &[&str]) -> Vec<String> {
    values.iter().map(|value| (*value).to_owned()).collect()
}

fn peer(address: &str) -> DiscoveredPeer {
    DiscoveredPeer {
        address: address.to_owned(),
        protocol: "tcp".to_owned(),
        host: "example.net".to_owned(),
        port: 1234,
        country: "DE".to_owned(),
        ping_ms: Some(3),
    }
}

#[test]
fn peer_builder_percent_encodes_secrets() {
    let peer = build_peer_uri("tls", "example.com:443", "front.example", "a b").unwrap();
    assert!(peer.contains("sni=front.example"));
    assert!(peer.contains("password=a+b"));
}

#[test]
fn app_peer_builder_percent_encodes_secrets() {
    let peer = build_peer_uri("tls", "example.com:443", "front.example", "a b").unwrap();
    assert!(peer.contains("sni=front.example"));
    assert!(peer.contains("password=a+b"));
}

#[test]
fn ipv6_endpoint_is_bracketed() {
    assert_eq!(format_endpoint("2001:db8::1", 443), "[2001:db8::1]:443");
}

#[test]
fn app_ipv6_endpoint_is_bracketed() {
    assert_eq!(format_endpoint("2001:db8::1", 443), "[2001:db8::1]:443");
}

#[test]
fn protocol_order_does_not_affect_cache_lookup() {
    let mut cache = DiscoveryCache::default();
    cache.insert(&protocols(&["tcp", "tls"]), Vec::new());

    assert!(cache.get(&protocols(&["tls", "tcp"])).is_some());
}

#[test]
fn app_protocol_order_does_not_affect_cache_lookup() {
    let mut cache = DiscoveryCache::default();
    cache.insert(&protocols(&["tcp", "tls"]), Vec::new());

    assert!(cache.get(&protocols(&["tls", "tcp"])).is_some());
}

#[test]
fn removing_request_keeps_other_cached_protocols() {
    let mut cache = DiscoveryCache::default();
    cache.insert(&protocols(&["tcp", "tls"]), Vec::new());
    cache.insert(&protocols(&["ws"]), Vec::new());

    cache.remove(&protocols(&["tls", "tcp"]));

    assert!(cache.get(&protocols(&["tcp", "tls"])).is_none());
    assert!(cache.get(&protocols(&["ws"])).is_some());
}

#[test]
fn app_removing_request_keeps_other_cached_protocols() {
    let mut cache = DiscoveryCache::default();
    cache.insert(&protocols(&["tcp", "tls"]), Vec::new());
    cache.insert(&protocols(&["ws"]), Vec::new());

    cache.remove(&protocols(&["tls", "tcp"]));

    assert!(cache.get(&protocols(&["tcp", "tls"])).is_none());
    assert!(cache.get(&protocols(&["ws"])).is_some());
}

#[test]
fn cache_keeps_repeated_protocols_apart_and_replaces_results() {
    let mut cache = DiscoveryCache::default();
    cache.insert(&protocols(&["tcp"]), vec![peer("tcp://a:1")]);
    assert!(cache.get(&protocols(&["tcp", "tcp"])).is_none());
    cache.insert(&protocols(&["tcp"]), vec![peer("tcp://b:2"), peer("tcp://c:3")]);
    let found = cache.get(&protocols(&["tcp"])).unwrap();
    assert_eq!(found.len(), 2);
    assert_eq!(found[0].address, "tcp://b:2");
}

#[test]
fn endpoint_formatting_keeps_hosts_and_bracketed_literals() {
    assert_eq!(format_endpoint("example.com", 443), "example.com:443");
    assert_eq!(format_endpoint("[2001:db8::1]", 8443), "[2001:db8::1]:8443");
    assert_eq!(format_endpoint("10.0.0.1", 0), "10.0.0.1:0");
}

#[test]
fn peer_builder_adds_sni_for_tls_only() {
    assert_eq!(build_peer_uri("tcp", "example.com:1234", "front.example", "").unwrap(), "tcp://example.com:1234?");
    assert_eq!(build_peer_uri("tls", "example.com:443", "", "").unwrap(), "tls://example.com:443?");
    assert_eq!(build_peer_uri("tls", "example.com:443/a//", "", "x").unwrap(), "tls://example.com:443/a//?password=x");
    assert_eq!(build_peer_uri("tcp", "example.com:1234/", "", "x").unwrap(), "tcp://example.com:1234/?password=x");
    assert!(build_peer_uri("tls", "example.com:99999", "", "").is_none());
}

#[test]
fn endpoint_validation_needs_host_and_port() {
    assert!(validate_endpoint("tcp", "example.com:1234"));
    assert!(!validate_endpoint("tcp", "example.com"));
    assert!(validate_endpoint("wss", "example.com"));
    assert!(!validate_endpoint("tcp", "example.com:99999"));
}

#[test]
fn sni_must_be_a_dotted_host_name() {
    assert!(valid_hostname("front.example"));
    assert!(!valid_hostname("front"));
    assert!(!valid_hostname("-front.example"));
    assert!(!valid_hostname("front.example1"));
}

#[test]
fn peer_display_describes_the_uri() {
    let (title, subtitle, icon) = peer_display("tls://example.com:443?sni=front.example&password=x");
    assert_eq!(title, "example.com:443");
    assert_eq!(subtitle, "TLS \u{2022} SNI: front.example \u{2022} Password");
    assert_eq!(icon, "network-wired-symbolic");

    let (title, subtitle, icon) = peer_display("not a uri");
    assert_eq!(title, "not a uri");
    assert_eq!(subtitle, "Invalid peer URI");
    assert_eq!(icon, "network-error-symbolic");
}
