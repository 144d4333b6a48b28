use drosophila::backend::{
    interface_name, parse_dns_server, peer_failure_message, peer_status, proxy_settings, start_mode,
    tun_mtu, without_query, ActiveNode, BackendAction, BackendCommand, BackendEvent, BackendState,
    NodeMode, StartError,
};
use drosophila::config::{ConnectionMode, GuiConfig};
use drosophila::net::{parse_socket_address, IpAddress};
use drosophila::privileged::{RemoteEvent, WorkerEvent};

#[test]
fn dns_parser_accepts_bare_ipv6() {
    let address = parse_dns_server("2001:db8::53", 53).unwrap().unwrap();
    assert_eq!(address, parse_socket_address("[2001:db8::53]:53").unwrap());
}

#[test]
fn peer_status_key_ignores_query_parameters() {
    assert_eq!(
        without_query("tls://example:443?sni=x"),
        "tls://example:443"
    );
}

#[test]
fn without_query_keeps_uris_without_a_query() {
    assert_eq!(without_query("tcp://example:1"), "tcp://example:1");
    assert_eq!(without_query("tcp://a?b?c"), "tcp://a");
    assert_eq!(without_query("?x"), "");
}

#[test]
fn dns_server_is_optional_and_checked() {
    assert_eq!(parse_dns_server("   ", 53).unwrap(), None);
    assert_eq!(
        parse_dns_server(" 10.0.0.53 ", 5353).unwrap(),
        parse_socket_address("10.0.0.53:5353")
    );
    match parse_dns_server(" dns.example ", 53) {
        Err(StartError::InvalidDnsServer(host)) => assert_eq!(host, "dns.example"),
        other => panic!("unexpected {other:?}"),
    }
    let error = parse_dns_server("[::1]", 53).unwrap_err();
    assert_eq!(error.message(), "invalid DNS server address [::1]: invalid IP address syntax");
}

#[test]
fn start_mode_refuses_tun_in_flatpak_and_without_tun() {
    let mut config = GuiConfig::default();
    config.mode = ConnectionMode::Proxy;
    assert_eq!(start_mode(&config, true, false), Ok(NodeMode::Proxy));
    assert_eq!(start_mode(&config, true, true), Ok(NodeMode::Proxy));
    config.mode = ConnectionMode::SystemProxy;
    assert_eq!(start_mode(&config, false, false), Ok(NodeMode::SystemProxy));
    config.mode = ConnectionMode::Tun;
    assert_eq!(start_mode(&config, true, false), Ok(NodeMode::SystemProxy));
    assert_eq!(start_mode(&config, false, false), Ok(NodeMode::SystemProxy));
    assert_eq!(start_mode(&config, false, true), Ok(NodeMode::Tun));
    assert_eq!(start_mode(&config, true, true), Err(StartError::FlatpakTun));
    assert_eq!(
        StartError::FlatpakTun.message(),
        "Flatpak cannot create a host TUN interface. Select System Proxy in Settings."
    );
    assert_eq!(StartError::TunUnsupported.message(), "this build does not include TUN support");
}

#[test]
fn interface_and_mtu_follow_the_mode() {
    assert_eq!(interface_name(NodeMode::Tun), "auto");
    assert_eq!(interface_name(NodeMode::Proxy), "none");
    assert_eq!(tun_mtu(1500, 65535), 1500);
    assert_eq!(tun_mtu(70000, 80000), 65535);
    assert_eq!(tun_mtu(90000, 9000), 9000);
}

#[test]
fn proxy_settings_are_read_in_order() {
    let mut config = GuiConfig::default();
    config.dns_server = "200::53".to_owned();
    let settings = proxy_settings(&config, "200:1234::1", 65535).unwrap();
    assert_eq!(settings.listen, parse_socket_address("127.0.0.1:1080").unwrap());
    assert_eq!(settings.dns, parse_socket_address("[200::53]:53"));
    assert_eq!(settings.address[0], 2);
    assert_eq!(settings.address[1], 0);
    assert_eq!(settings.address[2], 0x12);
    assert_eq!(settings.mtu, 65535);

    config.proxy_listen = "localhost:1080".to_owned();
    assert_eq!(proxy_settings(&config, "200::1", 1280).unwrap_err(), StartError::InvalidProxyListen);
    config.proxy_listen = "127.0.0.1:1080".to_owned();
    config.dns_server = "nameserver".to_owned();
    assert_eq!(
        proxy_settings(&config, "not an address", 1280).unwrap_err(),
        StartError::InvalidDnsServer("nameserver".to_owned())
    );
    config.dns_server = String::new();
    assert_eq!(proxy_settings(&config, "10.0.0.1", 1280).unwrap_err(), StartError::InvalidNodeAddress);
    assert_eq!(
        StartError::InvalidProxyListen.message(),
        "invalid proxy listen address: invalid socket address syntax"
    );
}

#[test]
fn peer_status_keeps_the_last_report_of_each_peer() {
    let reports = vec![
        ("tls://a:1?sni=x".to_owned(), true),
        ("tcp://b:2".to_owned(), true),
        ("tls://a:1".to_owned(), false),
    ];
    let status = peer_status(&reports);
    assert_eq!(status.len(), 2);
    assert_eq!(status[0], ("tls://a:1".to_owned(), false));
    assert_eq!(status[1], ("tcp://b:2".to_owned(), true));
}

#[test]
fn peer_failures_name_the_operation() {
    assert_eq!(peer_failure_message(true, "boom"), "Failed to add peer: boom");
    assert_eq!(peer_failure_message(false, "boom"), "Failed to remove peer: boom");
}

fn tun_config() -> GuiConfig {
    let mut config = GuiConfig::default();
    config.mode = ConnectionMode::Tun;
    config
}

#[test]
fn remote_events_of_other_sessions_are_ignored() {
    let mut state = BackendState::new();
    let route = ActiveNode::Privileged { session: 7 };
    state.next_remote_session = 7;
    state.finish_start(route, true);
    let events = state.remote_event(
        6,
        RemoteEvent::Worker(WorkerEvent::Started { address: "a".to_owned(), subnet: "s".to_owned() }),
    );
    assert!(events.is_empty());
    assert_eq!(state.node, Some(ActiveNode::Privileged { session: 7 }));

    let events = state.remote_event(
        7,
        RemoteEvent::Worker(WorkerEvent::Started { address: "a".to_owned(), subnet: "s".to_owned() }),
    );
    assert_eq!(events.len(), 1);
    assert!(matches!(
        &events[0],
        BackendEvent::Started { address, subnet, mode: NodeMode::Tun } if address == "a" && subnet == "s"
    ));
}

#[test]
fn a_lost_worker_stops_the_node() {
    let mut state = BackendState::new();
    state.next_remote_session = 3;
    state.finish_start(ActiveNode::Privileged { session: 3 }, true);
    let events = state.remote_event(3, RemoteEvent::Disconnected { error: Some("gone".to_owned()) });
    assert_eq!(events.len(), 2);
    assert!(matches!(events[0], BackendEvent::Stopped));
    assert!(matches!(&events[1], BackendEvent::Failed(message) if message == "gone"));
    assert_eq!(state.node, None);

    state.finish_start(ActiveNode::Privileged { session: 3 }, true);
    let events = state.remote_event(3, RemoteEvent::Disconnected { error: None });
    assert!(events.is_empty());
    assert_eq!(state.node, None);
}

#[test]
fn starts_without_tun_run_locally() {
    let mut state = BackendState::new();
    state.finish_start(ActiveNode::Local, true);
    assert_eq!(state.begin_start(&tun_config(), false), ActiveNode::Local);
    assert_eq!(state.node, None);
    assert_eq!(state.next_remote_session, 0);
    assert_eq!(state.begin_start(&GuiConfig::default(), false), ActiveNode::Local);
    state.finish_start(ActiveNode::Local, false);
    assert_eq!(state.node, None);
    state.finish_start(ActiveNode::Local, true);
    assert!(matches!(state.stop(), BackendEvent::Stopped));
    assert_eq!(state.node, None);
}

#[test]
fn worker_failures_reach_the_front_end() {
    let mut state = BackendState::new();
    state.next_remote_session = 9;
    state.finish_start(ActiveNode::Privileged { session: 9 }, true);
    let events = state.remote_event(9, RemoteEvent::Worker(WorkerEvent::StartFailed { message: "no".to_owned() }));
    assert!(matches!(&events[0], BackendEvent::Failed(m) if m == "no"));
    let events = state.remote_event(
        9,
        RemoteEvent::Worker(WorkerEvent::PeerStatus { statuses: vec![("tcp://a:1".to_owned(), true)] }),
    );
    assert!(matches!(&events[0], BackendEvent::PeerStatus(s) if s.len() == 1));
    let _ = IpAddress::V4([127, 0, 0, 1]);
}

#[test]
fn tun_starts_run_in_the_worker_where_tun_is_built() {
    let mut state = BackendState::new();
    assert_eq!(state.begin_start(&tun_config(), true), ActiveNode::Privileged { session: 1 });
    assert_eq!(state.next_remote_session, 1);
    assert_eq!(state.node, None);
    state.finish_start(ActiveNode::Privileged { session: 1 }, true);
    assert_eq!(state.node, Some(ActiveNode::Privileged { session: 1 }));
    assert_eq!(state.begin_start(&tun_config(), true), ActiveNode::Privileged { session: 2 });
    assert_eq!(state.node, None);
    let mut proxy = GuiConfig::default();
    proxy.mode = ConnectionMode::Proxy;
    assert_eq!(state.begin_start(&proxy, true), ActiveNode::Local);
    assert_eq!(state.next_remote_session, 2);
}

#[test]
fn commands_drive_the_backend() {
    let mut state = BackendState::new();
    assert!(matches!(
        state.on_command(BackendCommand::AddPeer { peer: "tcp://a:1".to_owned() }, true),
        BackendAction::Nothing
    ));
    assert!(matches!(
        state.on_command(BackendCommand::Start { config: tun_config() }, true),
        BackendAction::Start { route: ActiveNode::Privileged { session: 1 } }
    ));
    state.finish_start(ActiveNode::Privileged { session: 1 }, true);
    match state.on_command(BackendCommand::RemovePeer { peer: "tcp://a:1".to_owned() }, true) {
        BackendAction::WorkerPeer { adding, peer } => {
            assert!(!adding);
            assert_eq!(peer, "tcp://a:1");
        }
        other => panic!("unexpected {other:?}"),
    }
    assert!(matches!(
        state.on_command(BackendCommand::Start { config: tun_config() }, false),
        BackendAction::Start { route: ActiveNode::Local }
    ));
    assert_eq!(state.node, None);
    assert_eq!(state.next_remote_session, 1);
    state.finish_start(ActiveNode::Local, true);
    match state.on_command(BackendCommand::AddPeer { peer: "tls://b:2".to_owned() }, true) {
        BackendAction::LocalPeer { adding, peer } => {
            assert!(adding);
            assert_eq!(peer, "tls://b:2");
        }
        other => panic!("unexpected {other:?}"),
    }
    match state.on_command(BackendCommand::Discover { id: 7, protocols: vec!["tcp".to_owned()] }, true) {
        BackendAction::Discover { id, protocols } => {
            assert_eq!(id, 7);
            assert_eq!(protocols, vec!["tcp".to_owned()]);
        }
        other => panic!("unexpected {other:?}"),
    }
    assert!(matches!(
        state.on_command(BackendCommand::Stop, true),
        BackendAction::Stop { event: BackendEvent::Stopped }
    ));
    assert_eq!(state.node, None);
    assert!(matches!(state.on_command(BackendCommand::Shutdown, true), BackendAction::Shutdown));
}
