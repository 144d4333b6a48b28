//! The front end's settings, stored next to the node's own settings: the
//! connection mode and the local proxy's endpoints.
use vstd::prelude::*;

verus! {

/// How the node exposes the overlay network to the desktop.
#[derive(Clone, Copy, Debug, PartialEq, Eq, Structural)]
pub enum ConnectionMode {
    /// The local proxy, with the desktop's proxy settings pointed at it.
    SystemProxy,
    /// The local proxy only.
    Proxy,
    /// A TUN interface.
    Tun,
}

/// This library is built with the TUN transport, as the program's default
/// build is; the decisions that depend on it also take it as an argument.
pub const TUN_SUPPORTED: bool = true;

impl Default for ConnectionMode {
    /// TUN where this build has it and the process runs outside Flatpak, the
    /// system proxy otherwise. Whether the process runs inside Flatpak is
    /// asked of the file system, so either answer may have been used.
    fn default() -> (mode: Self)
        ensures
            mode == spec_default_mode_for(TUN_SUPPORTED, true) || mode == spec_default_mode_for(
                TUN_SUPPORTED,
                false,
            ),
    {
        if TUN_SUPPORTED {
            default_mode_for(TUN_SUPPORTED, is_flatpak())
        } else {
            default_mode_for(TUN_SUPPORTED, false)
        }
    }
}

/// The settings of the graphical front end.
#[derive(Clone, Debug, PartialEq, Eq)]
pub struct GuiConfig {
    pub mode: ConnectionMode,
    /// Where the local HTTP/SOCKS5 proxy listens.
    pub proxy_listen: String,
    /// An overlay DNS server for names that the proxy resolves (may be empty).
    pub dns_server: String,
    pub dns_port: u16,
}

impl Default for GuiConfig {
    /// The default mode, a proxy on `127.0.0.1:1080`, no DNS server, port 53.
    fn default() -> (c: Self)
        ensures
            c.mode == spec_default_mode_for(TUN_SUPPORTED, true) || c.mode
                == spec_default_mode_for(TUN_SUPPORTED, false),
            c.proxy_listen@ == "127.0.0.1:1080"@,
            c.dns_server@ == Seq::<char>::empty(),
            c.dns_port == 53,
    {
        GuiConfig {
            mode: ConnectionMode::default(),
            proxy_listen: String::from_str("127.0.0.1:1080"),
            dns_server: String::new(),
            dns_port: 53,
        }
    }
}

/// The mode that is used for a configured mode, in a build with or without
/// the TUN transport: without it, TUN falls back to the system proxy.
pub open spec fn spec_effective_mode_for(mode: ConnectionMode, tun_built: bool) -> ConnectionMode {
    if mode == ConnectionMode::Tun && !tun_built {
        ConnectionMode::SystemProxy
    } else {
        mode
    }
}

/// The mode that is used for a configured mode in this build.
pub open spec fn spec_effective_mode(mode: ConnectionMode) -> ConnectionMode {
    spec_effective_mode_for(mode, TUN_SUPPORTED)
}

/// The mode of fresh settings in a build with or without the TUN transport:
/// TUN where it is built and the process runs outside Flatpak, the system
/// proxy otherwise.
pub open spec fn spec_default_mode_for(tun_built: bool, flatpak: bool) -> ConnectionMode {
    if tun_built && !flatpak {
        ConnectionMode::Tun
    } else {
        ConnectionMode::SystemProxy
    }
}

/// The mode of fresh settings in a build with or without the TUN transport.
pub fn default_mode_for(tun_built: bool, flatpak: bool) -> (mode: ConnectionMode)
    ensures
        mode == spec_default_mode_for(tun_built, flatpak),
{
    if tun_built && !flatpak {
        ConnectionMode::Tun
    } else {
        ConnectionMode::SystemProxy
    }
}

impl GuiConfig {
    /// The connection mode that starting the node uses in this build.
    pub fn effective_mode(&self) -> (mode: ConnectionMode)
        ensures
            mode == spec_effective_mode(self.mode),
    {
        self.effective_mode_for(TUN_SUPPORTED)
    }

    /// The connection mode that starting the node uses in a build with or
    /// without the TUN transport.
    pub fn effective_mode_for(&self, tun_built: bool) -> (mode: ConnectionMode)
        ensures
            mode == spec_effective_mode_for(self.mode, tun_built),
    {
        match self.mode {
            ConnectionMode::Tun if !tun_built => ConnectionMode::SystemProxy,
            mode => mode,
        }
    }

    /// The settings that a stored table describes, given whether the process
    /// runs inside Flatpak: each absent field takes its default. Where `mode`
    /// is absent, the `proxy_enabled` switch of older versions decides: on
    /// meant the userspace proxy, off the TUN interface.
    pub fn from_wire_for(wire: GuiConfigWire, flatpak: bool) -> (c: GuiConfig)
        ensures
            c.mode == spec_wire_mode(wire.mode, wire.proxy_enabled, flatpak),
            c.proxy_listen@ == (match wire.proxy_listen {
                Some(s) => s@,
                None => "127.0.0.1:1080"@,
            }),
            c.dns_server@ == (match wire.dns_server {
                Some(s) => s@,
                None => Seq::<char>::empty(),
            }),
            c.dns_port == (match wire.dns_port {
                Some(p) => p,
                None => 53,
            }),
    {
        let mode = match wire.mode {
            Some(mode) => mode,
            None => match wire.proxy_enabled {
                Some(true) => ConnectionMode::Proxy,
                Some(false) => ConnectionMode::Tun,
                None => default_mode_for(TUN_SUPPORTED, flatpak),
            },
        };
        GuiConfig {
            mode,
            proxy_listen: match wire.proxy_listen {
                Some(s) => s,
                None => String::from_str("127.0.0.1:1080"),
            },
            dns_server: match wire.dns_server {
                Some(s) => s,
                None => String::new(),
            },
            dns_port: match wire.dns_port {
                Some(p) => p,
                None => 53,
            },
        }
    }

    /// The settings that a stored table describes in this process, which may
    /// or may not run inside Flatpak; only a default mode depends on that.
    pub fn from_wire(wire: GuiConfigWire) -> (c: GuiConfig)
        ensures
            c.mode == spec_wire_mode(wire.mode, wire.proxy_enabled, true) || c.mode
                == spec_wire_mode(wire.mode, wire.proxy_enabled, false),
            c.proxy_listen@ == (match wire.proxy_listen {
                Some(s) => s@,
                None => "127.0.0.1:1080"@,
            }),
            c.dns_server@ == (match wire.dns_server {
                Some(s) => s@,
                None => Seq::<char>::empty(),
            }),
            c.dns_port == (match wire.dns_port {
                Some(p) => p,
                None => 53,
            }),
    {
        let flatpak = if TUN_SUPPORTED {
            is_flatpak()
        } else {
            false
        };
        GuiConfig::from_wire_for(wire, flatpak)
    }
}

/// The front end's stored settings as read, each field possibly absent.
#[derive(Clone, Debug, Default)]
pub struct GuiConfigWire {
    pub mode: Option<ConnectionMode>,
    /// The userspace proxy switch of version 2.0.
    pub proxy_enabled: Option<bool>,
    pub proxy_listen: Option<String>,
    pub dns_server: Option<String>,
    pub dns_port: Option<u16>,
}

/// The mode that stored settings select, given whether the process runs
/// inside Flatpak.
pub open spec fn spec_wire_mode(
    mode: Option<ConnectionMode>,
    proxy_enabled: Option<bool>,
    flatpak: bool,
) -> ConnectionMode {
    match mode {
        Some(m) => m,
        None => match proxy_enabled {
            Some(true) => ConnectionMode::Proxy,
            Some(false) => ConnectionMode::Tun,
            None => spec_default_mode_for(TUN_SUPPORTED, flatpak),
        },
    }
}

/// Without TUN support every configured mode runs as one of the proxy modes
/// and the userspace proxy mode is kept as it is; with it, every mode runs as
/// configured. Either way the mode that runs is its own effective mode.
pub proof fn lemma_effective_mode(mode: ConnectionMode, tun_built: bool)
    ensures
        !tun_built ==> spec_effective_mode_for(mode, tun_built) != ConnectionMode::Tun,
        mode != ConnectionMode::Tun ==> spec_effective_mode_for(mode, tun_built) == mode,
        tun_built ==> spec_effective_mode_for(mode, tun_built) == mode,
        spec_effective_mode_for(spec_effective_mode_for(mode, tun_built), tun_built)
            == spec_effective_mode_for(mode, tun_built),
{
}

/// Settings written by version 2.0 keep their meaning: an enabled proxy
/// switch selects the userspace proxy, a disabled one the TUN interface, and
/// an explicit mode always wins over the switch.
pub proof fn lemma_legacy_switch_migrates(mode: Option<ConnectionMode>, enabled: bool, flatpak: bool)
    ensures
        spec_wire_mode(None, Some(enabled), flatpak) == (if enabled {
            ConnectionMode::Proxy
        } else {
            ConnectionMode::Tun
        }),
        mode matches Some(m) ==> spec_wire_mode(mode, Some(enabled), flatpak) == m,
{
}

/// Whether this process runs inside a Flatpak sandbox: calls `Path::is_file`
/// on `/.flatpak-info`. Nothing is claimed of the answer, which depends on
/// the file system.
#[verifier::external_body]
pub fn is_flatpak() -> bool {
    std::path::Path::new("/.flatpak-info").is_file()
}

} // verus!
