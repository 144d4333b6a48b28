use drosophila::config::{
    default_mode_for, is_flatpak, ConnectionMode, GuiConfig, GuiConfigWire, TUN_SUPPORTED,
};

#[test]
fn legacy_proxy_switch_migrates_to_connection_mode() {
    let proxy = GuiConfig::from_wire(GuiConfigWire { proxy_enabled: Some(true), ..GuiConfigWire::default() });
    let tun = GuiConfig::from_wire(GuiConfigWire { proxy_enabled: Some(false), ..GuiConfigWire::default() });

    assert_eq!(proxy.mode, ConnectionMode::Proxy);
    assert_eq!(tun.mode, ConnectionMode::Tun);
}

#[test]
fn userspace_proxy_remains_available_without_tun() {
    let mut config = GuiConfig {
        mode: ConnectionMode::Proxy,
        ..GuiConfig::default()
    };
    assert_eq!(config.effective_mode_for(false), ConnectionMode::Proxy);

    config.mode = ConnectionMode::Tun;
    assert_eq!(config.effective_mode_for(false), ConnectionMode::SystemProxy);
}

#[test]
fn explicit_mode_wins_over_the_legacy_switch() {
    let config = GuiConfig::from_wire(GuiConfigWire {
        mode: Some(ConnectionMode::SystemProxy),
        proxy_enabled: Some(true),
        ..GuiConfigWire::default()
    });
    assert_eq!(config.mode, ConnectionMode::SystemProxy);
}

#[test]
fn absent_fields_take_their_defaults() {
    let config = GuiConfig::from_wire_for(GuiConfigWire::default(), true);
    assert_eq!(config.mode, ConnectionMode::SystemProxy);
    assert_eq!(config.proxy_listen, "127.0.0.1:1080");
    assert_eq!(config.dns_server, "");
    assert_eq!(config.dns_port, 53);
    assert!(TUN_SUPPORTED);
    let config = GuiConfig::from_wire_for(GuiConfigWire::default(), false);
    assert_eq!(config.mode, ConnectionMode::Tun);
    let config = GuiConfig::from_wire(GuiConfigWire::default());
    assert_eq!(config.mode, ConnectionMode::default());

    let config = GuiConfig::from_wire(GuiConfigWire {
        proxy_listen: Some("127.0.0.1:9050".to_owned()),
        dns_server: Some("200::53".to_owned()),
        dns_port: Some(5353),
        ..GuiConfigWire::default()
    });
    assert_eq!(config.proxy_listen, "127.0.0.1:9050");
    assert_eq!(config.dns_server, "200::53");
    assert_eq!(config.dns_port, 5353);
}

#[test]
fn default_settings() {
    let config = GuiConfig::default();
    assert_eq!(config.mode, ConnectionMode::default());
    assert_eq!(config.mode, default_mode_for(TUN_SUPPORTED, is_flatpak()));
    assert_eq!(config.effective_mode(), config.mode);
}

#[test]
fn tun_availability_decides_the_mode() {
    assert_eq!(default_mode_for(true, false), ConnectionMode::Tun);
    assert_eq!(default_mode_for(true, true), ConnectionMode::SystemProxy);
    assert_eq!(default_mode_for(false, false), ConnectionMode::SystemProxy);
    let config = GuiConfig { mode: ConnectionMode::Tun, ..GuiConfig::default() };
    assert_eq!(config.effective_mode_for(true), ConnectionMode::Tun);
    assert_eq!(config.effective_mode_for(false), ConnectionMode::SystemProxy);
    let proxy = GuiConfig { mode: ConnectionMode::Proxy, ..GuiConfig::default() };
    assert_eq!(proxy.effective_mode_for(false), ConnectionMode::Proxy);
}
