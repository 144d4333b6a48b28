use drosophila::net::parse_socket_address;
use drosophila::system_proxy::{
    check_applied, check_loopback, check_state_version, is_owned, local_proxy, recovery_state, should_restore,
    windows_check_applied, windows_is_owned, windows_local_proxy, Snapshot, SystemProxyError, WindowsSnapshot,
    STATE_VERSION,
};

fn desktop() -> Snapshot {
    Snapshot {
        mode: "none".to_owned(),
        use_same_proxy: true,
        ignore_hosts: vec!["localhost".to_owned()],
        http_host: String::new(),
        http_port: 8080,
        https_host: String::new(),
        https_port: 0,
        socks_host: String::new(),
        socks_port: 0,
    }
}

#[test]
fn local_proxy_points_every_protocol_at_the_listener() {
    let listen = parse_socket_address("127.0.0.1:1080").unwrap();
    let settings = local_proxy(&listen);
    assert_eq!(settings.mode, "manual");
    assert!(!settings.use_same_proxy);
    assert_eq!(settings.ignore_hosts, vec!["localhost", "127.0.0.0/8", "::1"]);
    assert_eq!(settings.http_host, "127.0.0.1");
    assert_eq!(settings.https_host, "127.0.0.1");
    assert_eq!(settings.socks_host, "127.0.0.1");
    assert_eq!(settings.http_port, 1080);
    assert_eq!(settings.socks_port, 1080);
    let v6 = local_proxy(&parse_socket_address("[::1]:9050").unwrap());
    assert_eq!(v6.http_host, "::1");
}

#[test]
fn ownership_survives_partial_changes_only() {
    let listen = parse_socket_address("127.0.0.1:1080").unwrap();
    let expected = local_proxy(&listen);
    assert!(is_owned(&expected, &expected));
    let mut changed = expected.clone();
    changed.http_host = "proxy.example".to_owned();
    changed.ignore_hosts.clear();
    assert!(is_owned(&changed, &expected));
    changed.https_port = 1;
    changed.socks_port = 1;
    assert!(!is_owned(&changed, &expected));
    let mut off = expected.clone();
    off.mode = "none".to_owned();
    assert!(!is_owned(&off, &expected));
    assert!(!is_owned(&desktop(), &expected));
}

#[test]
fn recovery_state_needs_a_loopback_listener() {
    let state = recovery_state(&parse_socket_address("127.0.0.1:1080").unwrap(), desktop()).unwrap();
    assert_eq!(state.version, STATE_VERSION);
    assert_eq!(state.original, desktop());
    assert_eq!(state.expected.mode, "manual");
    assert_eq!(
        recovery_state(&parse_socket_address("0.0.0.0:1080").unwrap(), desktop()).unwrap_err(),
        SystemProxyError::NotLoopback
    );
    assert_eq!(
        SystemProxyError::NotLoopback.message(),
        "the system proxy must listen on a loopback address"
    );
    assert_eq!(check_applied(&state.expected, &state), Ok(()));
    assert_eq!(check_applied(&desktop(), &state), Err(SystemProxyError::Rejected));
    assert!(should_restore(&state.expected, &state));
    assert!(!should_restore(&desktop(), &state));
}

#[test]
fn recorded_states_of_other_versions_are_refused() {
    assert_eq!(check_state_version(STATE_VERSION), Ok(()));
    assert_eq!(check_state_version(2), Err(SystemProxyError::UnsupportedVersion(2)));
    assert_eq!(
        SystemProxyError::UnsupportedVersion(2).message(),
        "unsupported system proxy state version 2"
    );
}

#[test]
fn windows_proxy_server_lists_every_protocol() {
    let original = WindowsSnapshot {
        flags: 1,
        proxy_server: None,
        proxy_bypass: None,
        autoconfig_url: Some("http://wpad/wpad.dat".to_owned()),
    };
    let v4 = windows_local_proxy(&parse_socket_address("127.0.0.1:1080").unwrap(), &original);
    assert_eq!(v4.flags, 3);
    assert_eq!(
        v4.proxy_server.as_deref(),
        Some("http=127.0.0.1:1080;https=127.0.0.1:1080;socks=127.0.0.1:1080")
    );
    assert_eq!(v4.proxy_bypass.as_deref(), Some("<local>;localhost;127.*;[::1]"));
    assert_eq!(v4.autoconfig_url, original.autoconfig_url);
    let v6 = windows_local_proxy(&parse_socket_address("[::1]:9050").unwrap(), &original);
    assert_eq!(v6.proxy_server.as_deref(), Some("http=[::1]:9050;https=[::1]:9050;socks=[::1]:9050"));

    assert!(windows_is_owned(&v4, &v4));
    let mut changed = v4.clone();
    changed.proxy_bypass = None;
    assert!(windows_is_owned(&changed, &v4));
    changed.flags = 1;
    assert!(!windows_is_owned(&changed, &v4));
    assert!(!windows_is_owned(&original, &v4));
    assert_eq!(windows_check_applied(&v4, &v4), Ok(()));
    assert_eq!(windows_check_applied(&original, &v4), Err(SystemProxyError::Rejected));
}

#[test]
fn the_system_proxy_needs_a_loopback_listener() {
    assert_eq!(check_loopback(&parse_socket_address("127.0.0.1:1080").unwrap()), Ok(()));
    assert_eq!(check_loopback(&parse_socket_address("[::1]:1080").unwrap()), Ok(()));
    assert_eq!(
        check_loopback(&parse_socket_address("0.0.0.0:1080").unwrap()),
        Err(SystemProxyError::NotLoopback)
    );
}
