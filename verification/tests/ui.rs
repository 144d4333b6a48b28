use drosophila::backend::{BackendEvent, NodeMode};
use drosophila::config::ConnectionMode;
use drosophila::discovery::DiscoveredPeer;
use drosophila::peers::DiscoveryCache;
use drosophila::ui::{
    add_peer, check_peer_dialog, copyable, dialog_fields, dialog_peer_uri, discovery_status,
    dns_port_from_text, mode_for_selection, peer_row_subtitle, peer_state_icon, peers_description,
    ping_label, plan_discovery, private_key_from_text, protocol_index, protocols,
    proxy_card_subtitle, proxy_card_title, proxy_card_visible, record_discovery, remove_peer,
    reported_state, running_subtitle, selection_for_mode, sorted_peers, split_debug_flag,
    trimmed_text, visible_peers,
    DiscoveryPlan, EventView, SwitchAction, UiState,
};

fn strings(values: &[&str]) -> Vec<String> {
    values.iter().map(|value| (*value).to_owned()).collect()
}

fn peer(address: &str, protocol: &str, country: &str, ping: Option<u64>) -> DiscoveredPeer {
    DiscoveredPeer {
        address: address.to_owned(),
        protocol: protocol.to_owned(),
        host: "example.net".to_owned(),
        port: 1234,
        country: country.to_owned(),
        ping_ms: ping,
    }
}

#[test]
fn mode_selector_without_tun() {
    assert_eq!(mode_for_selection(0, false), ConnectionMode::Proxy);
    assert_eq!(mode_for_selection(1, false), ConnectionMode::SystemProxy);
    assert_eq!(selection_for_mode(ConnectionMode::Proxy, false), 0);
    assert_eq!(selection_for_mode(ConnectionMode::SystemProxy, false), 1);
    assert_eq!(selection_for_mode(ConnectionMode::Tun, false), 1);
    assert_eq!(
        mode_for_selection(selection_for_mode(ConnectionMode::Tun, false), false),
        ConnectionMode::SystemProxy
    );
}

#[test]
fn mode_selector_with_tun() {
    assert_eq!(mode_for_selection(0, true), ConnectionMode::Tun);
    assert_eq!(mode_for_selection(1, true), ConnectionMode::Proxy);
    assert_eq!(mode_for_selection(2, true), ConnectionMode::SystemProxy);
    assert_eq!(mode_for_selection(7, true), ConnectionMode::SystemProxy);
    assert_eq!(selection_for_mode(ConnectionMode::Tun, true), 0);
    assert_eq!(selection_for_mode(ConnectionMode::Proxy, true), 1);
    assert_eq!(selection_for_mode(ConnectionMode::SystemProxy, true), 2);
    assert!(!proxy_card_visible(ConnectionMode::Tun, true));
    assert_eq!(proxy_card_title(ConnectionMode::Tun, true), "Proxy Details");
}

#[test]
fn protocols_and_their_positions() {
    assert_eq!(protocols(), vec!["tcp", "tls", "ws", "wss", "quic"]);
    assert_eq!(protocol_index("wss"), 3);
    assert_eq!(protocol_index("quic"), 4);
    assert_eq!(protocol_index("unix"), 0);
}

#[test]
fn private_keys_are_128_hex_digits() {
    let key = "0123456789abcdefABCDEF".repeat(6)[..128].to_owned();
    assert_eq!(private_key_from_text(&format!("  {key}\n")), Some(key.clone()));
    assert_eq!(private_key_from_text(&key[..127]), None);
    let mut bad = key.clone();
    bad.replace_range(0..1, "g");
    assert_eq!(private_key_from_text(&bad), None);
}

#[test]
fn dns_ports_are_nonzero_numbers() {
    assert_eq!(dns_port_from_text(" 53 "), Some(53));
    assert_eq!(dns_port_from_text("+5353"), Some(5353));
    assert_eq!(dns_port_from_text("0"), None);
    assert_eq!(dns_port_from_text("65536"), None);
    assert_eq!(dns_port_from_text("fifty"), None);
    assert_eq!(dns_port_from_text(""), None);
}

#[test]
fn proxy_card_follows_the_mode() {
    assert!(proxy_card_visible(ConnectionMode::Proxy, false));
    assert!(proxy_card_visible(ConnectionMode::Tun, false));
    assert_eq!(proxy_card_title(ConnectionMode::SystemProxy, false), "System Proxy Details");
    assert_eq!(proxy_card_title(ConnectionMode::Tun, false), "System Proxy Details");
    assert_eq!(proxy_card_title(ConnectionMode::Proxy, false), "Proxy Details");
    assert_eq!(proxy_card_subtitle("127.0.0.1:1080"), "HTTP and SOCKS5 on 127.0.0.1:1080");
}

#[test]
fn peer_list_description() {
    assert_eq!(peers_description(0), "No peers configured");
    assert_eq!(peers_description(1), "1 peer node");
    assert_eq!(peers_description(12), "12 peer nodes");
}

#[test]
fn peers_are_added_once_and_removed_everywhere() {
    let mut peers = strings(&["tcp://a:1", "tls://b:2"]);
    assert!(add_peer(&mut peers, "tcp://c:3".to_owned()));
    assert!(!add_peer(&mut peers, "tcp://c:3".to_owned()));
    assert_eq!(peers, strings(&["tcp://a:1", "tls://b:2", "tcp://c:3"]));
    peers.push("tcp://a:1".to_owned());
    remove_peer(&mut peers, "tcp://a:1");
    assert_eq!(peers, strings(&["tls://b:2", "tcp://c:3"]));
    remove_peer(&mut peers, "tcp://c:3");
    assert_eq!(peers, strings(&["tls://b:2"]));
}

#[test]
fn switch_follows_the_node() {
    let mut ui = UiState::new();
    assert_eq!(ui.on_switch(false), SwitchAction::Ignore);
    assert_eq!(ui.on_switch(true), SwitchAction::Start);
    assert!(ui.transitioning);
    assert_eq!(ui.on_switch(false), SwitchAction::Revert(false));
    assert_eq!(ui.on_event(&BackendEvent::Starting), EventView::Starting);
    let started = BackendEvent::Started { address: "200::1".to_owned(), subnet: "300::/64".to_owned(), mode: NodeMode::Proxy };
    assert_eq!(ui.on_event(&started), EventView::Started(NodeMode::Proxy));
    assert!(ui.running && !ui.transitioning);
    assert!(!ui.connection_editable(true));
    assert_eq!(ui.restart_notice(false), Some("Connection mode will be applied after restarting Yggdrasil"));
    assert_eq!(ui.restart_notice(true), Some("The new key will be applied after restarting Yggdrasil"));
    assert!(ui.set_switch(false, true));
    assert_eq!(ui.on_switch(true), SwitchAction::Ignore);
    assert!(!ui.set_switch(true, true));
    assert_eq!(ui.on_switch(false), SwitchAction::Stop);
    assert_eq!(ui.on_event(&BackendEvent::Failed("x".to_owned())), EventView::Failed { stopped: true });
    assert!(!ui.running && !ui.transitioning);
    assert_eq!(ui.on_event(&BackendEvent::Failed("y".to_owned())), EventView::Failed { stopped: false });
    assert_eq!(ui.on_event(&BackendEvent::Stopped), EventView::Stopped);
    assert_eq!(ui.on_event(&BackendEvent::PeerStatus(Vec::new())), EventView::PeerStatus);
    assert_eq!(
        ui.on_event(&BackendEvent::DiscoveryFinished { id: 4, result: Err("e".to_owned()) }),
        EventView::Discovery(4)
    );
    assert_eq!(ui.restart_notice(false), None);
    assert_eq!(running_subtitle(NodeMode::SystemProxy), "System proxy running");
    assert_eq!(running_subtitle(NodeMode::Tun), "Running");
}

#[test]
fn peer_icons_follow_reported_states() {
    let status = vec![("tcp://a:1".to_owned(), false), ("tcp://b:2".to_owned(), true), ("tcp://a:1".to_owned(), true)];
    assert_eq!(reported_state(&status, "tcp://a:1"), Some(true));
    assert_eq!(reported_state(&status, "tcp://c:3"), None);
    assert_eq!(peer_state_icon(Some(true), true, "network-wired-symbolic"), "network-wired-symbolic");
    assert_eq!(peer_state_icon(None, true, "network-wired-symbolic"), "network-error-symbolic");
    assert_eq!(peer_state_icon(Some(false), false, "web-browser-symbolic"), "web-browser-symbolic");
}

#[test]
fn copy_rows_skip_placeholders() {
    assert!(copyable("200::1"));
    assert!(!copyable("\u{2013}"));
    assert!(!copyable(""));
}

#[test]
fn discovery_uses_the_cache_unless_refreshing() {
    let mut cache = DiscoveryCache::default();
    let mut next_id = 1;
    assert!(matches!(plan_discovery(&[], false, &cache, &mut next_id), DiscoveryPlan::NoProtocols));
    let request = strings(&["tls", "tcp"]);
    assert!(matches!(plan_discovery(&request, false, &cache, &mut next_id), DiscoveryPlan::Search { id: 1 }));
    assert_eq!(next_id, 2);
    let found = record_discovery(&mut cache, &request, Ok(vec![peer("tcp://a:1", "tcp", "DE", Some(4))])).unwrap();
    assert_eq!(found.len(), 1);
    match plan_discovery(&strings(&["tcp", "tls"]), false, &cache, &mut next_id) {
        DiscoveryPlan::Cached(peers) => assert_eq!(peers[0].address, "tcp://a:1"),
        other => panic!("unexpected {other:?}"),
    }
    assert!(matches!(plan_discovery(&request, true, &cache, &mut next_id), DiscoveryPlan::Search { id: 2 }));
    assert!(record_discovery(&mut cache, &request, Err("offline".to_owned())).is_none());
    assert!(cache.get(&request).is_none());
    next_id = u64::MAX;
    assert!(matches!(plan_discovery(&request, false, &cache, &mut next_id), DiscoveryPlan::Search { id: u64::MAX }));
    assert_eq!(next_id, 0);
}

#[test]
fn discovery_list_texts() {
    assert_eq!(discovery_status(0), "No peers available");
    assert_eq!(discovery_status(3), "Shown 3 peers");
    assert_eq!(ping_label(Some(12)), "12 ms");
    assert_eq!(ping_label(None), "\u{2013}");
    assert_eq!(peer_row_subtitle("wss", "DE"), "WSS \u{2022} DE");
}

#[test]
fn discovery_list_filters_and_sorts() {
    let peers = vec![
        peer("tcp://a:1", "tcp", "NL", Some(30)),
        peer("tls://b:2", "tls", "de", Some(10)),
        peer("quic://c:3", "quic", "AT", Some(1)),
        peer("tcp://d:4", "tcp", "DE", None),
    ];
    let enabled = strings(&["tcp", "tls"]);
    let by_ping: Vec<String> = visible_peers(&peers, &enabled, 0).into_iter().map(|p| p.address).collect();
    assert_eq!(by_ping, strings(&["tls://b:2", "tcp://a:1", "tcp://d:4"]));
    let by_country: Vec<String> = visible_peers(&peers, &enabled, 1).into_iter().map(|p| p.address).collect();
    assert_eq!(by_country, strings(&["tcp://d:4", "tls://b:2", "tcp://a:1"]));
}

#[test]
fn add_dialog_is_filled_from_a_discovered_peer() {
    let mut found = peer("tls://[2001:db8::1]:443?sni=a.example&password=p%20w&sni=b.example", "tls", "DE", None);
    found.host = "2001:db8::1".to_owned();
    found.port = 443;
    let fields = dialog_fields(&found);
    assert_eq!(fields.protocol, 1);
    assert_eq!(fields.endpoint, "[2001:db8::1]:443");
    assert_eq!(fields.sni, Some("b.example".to_owned()));
    assert_eq!(fields.password, Some("p w".to_owned()));
    let plain = dialog_fields(&peer("tcp://a:1", "tcp", "DE", None));
    assert_eq!(plain.sni, None);
    assert_eq!(plain.password, None);
}

#[test]
fn add_dialog_checks_its_fields() {
    let check = check_peer_dialog("tls", " example.com:443 ", "front.example");
    assert!(check.endpoint_ok && check.sni_shown && check.sni_ok && check.can_add);
    let check = check_peer_dialog("tls", "example.com:443", "front");
    assert!(!check.sni_ok && !check.can_add);
    let check = check_peer_dialog("tcp", "example.com", "front");
    assert!(!check.endpoint_ok && check.endpoint_error && !check.sni_shown && check.sni_ok && !check.can_add);
    let check = check_peer_dialog("tcp", "", "");
    assert!(!check.endpoint_error);
    assert_eq!(
        dialog_peer_uri("tls", " example.com:443 ", " front.example ", " a b "),
        Some("tls://example.com:443?sni=front.example&password=a+b".to_owned())
    );
}

#[test]
fn debug_flag_is_taken_out_of_the_command_line() {
    let (rest, debug) = split_debug_flag(strings(&["drosophila", "--debug", "--x", "--debug"]));
    assert!(debug);
    assert_eq!(rest, strings(&["drosophila", "--x"]));
    let (rest, debug) = split_debug_flag(strings(&["drosophila"]));
    assert!(!debug);
    assert_eq!(rest, strings(&["drosophila"]));
}

#[test]
fn configured_peers_are_listed_sorted() {
    let sorted = sorted_peers(strings(&["tls://b:1", "tcp://z:1", "tcp://a:1", "tls://b:1", "Tcp://x:1"]));
    assert_eq!(sorted, strings(&["Tcp://x:1", "tcp://a:1", "tcp://z:1", "tls://b:1", "tls://b:1"]));
    assert_eq!(trimmed_text("  127.0.0.1:1080\t"), "127.0.0.1:1080");
}
