//! The desktop's proxy settings while the system proxy mode runs: what they
//! are set to, when they still belong to this program, and when a recorded
//! state is restored.
use vstd::prelude::*;
use crate::discovery::string_views;
use crate::net::{IpAddress, SocketAddress, is_loopback, spec_is_loopback};
use crate::text::chars_eq;

verus! {

/// The version of the recorded recovery state.
pub const STATE_VERSION: u32 = 1;

/// The GNOME proxy settings (`org.gnome.system.proxy` and its `http`,
/// `https` and `socks` children).
#[derive(Clone, Debug, PartialEq, Eq)]
pub struct Snapshot {
    pub mode: String,
    pub use_same_proxy: bool,
    pub ignore_hosts: Vec<String>,
    pub http_host: String,
    pub http_port: i32,
    pub https_host: String,
    pub https_port: i32,
    pub socks_host: String,
    pub socks_port: i32,
}

/// A snapshot as plain values.
pub struct SnapshotView {
    pub mode: Seq<char>,
    pub use_same_proxy: bool,
    pub ignore_hosts: Seq<Seq<char>>,
    pub http_host: Seq<char>,
    pub http_port: i32,
    pub https_host: Seq<char>,
    pub https_port: i32,
    pub socks_host: Seq<char>,
    pub socks_port: i32,
}

impl View for Snapshot {
    type V = SnapshotView;

    open spec fn view(&self) -> SnapshotView {
        SnapshotView {
            mode: self.mode@,
            use_same_proxy: self.use_same_proxy,
            ignore_hosts: string_views(self.ignore_hosts@),
            http_host: self.http_host@,
            http_port: self.http_port,
            https_host: self.https_host@,
            https_port: self.https_port,
            socks_host: self.socks_host@,
            socks_port: self.socks_port,
        }
    }
}

/// What `Display` writes for an IP address (dotted decimal for IPv4, the
/// canonical compressed form for IPv6).
pub uninterp spec fn ip_text(ip: IpAddress) -> Seq<char>;

/// Calls `core::net::IpAddr`'s `to_string`; the contract claims only that
/// the text is the one named by `ip_text` for the address.
#[verifier::external_body]
fn ip_to_string(ip: &IpAddress) -> (r: String)
    ensures
        r@ == ip_text(*ip),
{
    match ip {
        IpAddress::V4(o) => core::net::Ipv4Addr::from(*o).to_string(),
        IpAddress::V6(o) => core::net::Ipv6Addr::from(*o).to_string(),
    }
}

/// The settings that point the desktop at the local proxy: manual mode,
/// HTTP, HTTPS and SOCKS on the listen address, local hosts bypassed.
pub open spec fn spec_local_proxy(listen: SocketAddress) -> SnapshotView {
    SnapshotView {
        mode: "manual"@,
        use_same_proxy: false,
        ignore_hosts: seq!["localhost"@, "127.0.0.0/8"@, "::1"@],
        http_host: ip_text(listen.ip),
        http_port: listen.port as i32,
        https_host: ip_text(listen.ip),
        https_port: listen.port as i32,
        socks_host: ip_text(listen.ip),
        socks_port: listen.port as i32,
    }
}

/// The settings that point the desktop at the local proxy.
pub fn local_proxy(listen: &SocketAddress) -> (r: Snapshot)
    ensures
        r@ == spec_local_proxy(*listen),
{
    let host = ip_to_string(&listen.ip);
    let port = listen.port as i32;
    let mut ignore_hosts: Vec<String> = Vec::new();
    ignore_hosts.push(String::from_str("localhost"));
    ignore_hosts.push(String::from_str("127.0.0.0/8"));
    ignore_hosts.push(String::from_str("::1"));
    assert(string_views(ignore_hosts@) =~= seq!["localhost"@, "127.0.0.0/8"@, "::1"@]);
    Snapshot {
        mode: String::from_str("manual"),
        use_same_proxy: false,
        ignore_hosts,
        http_host: host.clone(),
        http_port: port,
        https_host: host.clone(),
        https_port: port,
        socks_host: host,
        socks_port: port,
    }
}

/// The settings that enabling applies send every kind of traffic to the
/// local proxy: in manual mode, with separate per-protocol settings, the
/// HTTP, HTTPS and SOCKS proxies all name the listener's address and its
/// port, and local hosts are left alone.
pub proof fn lemma_local_proxy_sends_all_traffic_to_listener(listen: SocketAddress)
    ensures
        spec_local_proxy(listen).mode == "manual"@,
        !spec_local_proxy(listen).use_same_proxy,
        spec_local_proxy(listen).http_port as int == listen.port as int,
        spec_local_proxy(listen).https_port as int == listen.port as int,
        spec_local_proxy(listen).socks_port as int == listen.port as int,
        spec_local_proxy(listen).http_host == ip_text(listen.ip),
        spec_local_proxy(listen).https_host == ip_text(listen.ip),
        spec_local_proxy(listen).socks_host == ip_text(listen.ip),
        spec_local_proxy(listen).ignore_hosts.contains("localhost"@),
{
    assert(spec_local_proxy(listen).ignore_hosts[0] == "localhost"@);
}

/// Whether the desktop's settings are still this program's: unchanged, or
/// manual with one of the three proxies still on the local proxy.
pub open spec fn spec_is_owned(current: SnapshotView, expected: SnapshotView) -> bool {
    current == expected || (current.mode == "manual"@ && ((current.http_host == expected.http_host
        && current.http_port == expected.http_port) || (current.https_host == expected.https_host
        && current.https_port == expected.https_port) || (current.socks_host == expected.socks_host
        && current.socks_port == expected.socks_port)))
}

fn strings_eq(a: &String, b: &String) -> (r: bool)
    ensures
        r == (a@ == b@),
{
    *a == *b
}

fn string_lists_eq(a: &Vec<String>, b: &Vec<String>) -> (r: bool)
    ensures
        r == (string_views(a@) == string_views(b@)),
{
    if a.len() != b.len() {
        assert(string_views(a@).len() != string_views(b@).len());
        return false;
    }
    let mut i: usize = 0;
    while i < a.len()
        invariant
            a@.len() == b@.len(),
            i <= a@.len(),
            forall|k: int| 0 <= k < i ==> a@[k]@ == b@[k]@,
        decreases a.len() - i,
    {
        if !strings_eq(&a[i], &b[i]) {
            assert(string_views(a@)[i as int] != string_views(b@)[i as int]);
            return false;
        }
        i = i + 1;
    }
    assert(string_views(a@) =~= string_views(b@));
    true
}

fn snapshots_eq(a: &Snapshot, b: &Snapshot) -> (r: bool)
    ensures
        r == (a@ == b@),
{
    strings_eq(&a.mode, &b.mode) && a.use_same_proxy == b.use_same_proxy && string_lists_eq(
        &a.ignore_hosts,
        &b.ignore_hosts,
    ) && strings_eq(&a.http_host, &b.http_host) && a.http_port == b.http_port && strings_eq(
        &a.https_host,
        &b.https_host,
    ) && a.https_port == b.https_port && strings_eq(&a.socks_host, &b.socks_host) && a.socks_port
        == b.socks_port
}

/// Whether the desktop's settings are still this program's.
pub fn is_owned(current: &Snapshot, expected: &Snapshot) -> (r: bool)
    ensures
        r == spec_is_owned(current@, expected@),
{
    if snapshots_eq(current, expected) {
        return true;
    }
    let manual = chars_eq(
        crate::text::chars_of(current.mode.as_str()).as_slice(),
        crate::text::chars_of("manual").as_slice(),
    );
    manual && ((strings_eq(&current.http_host, &expected.http_host) && current.http_port
        == expected.http_port) || (strings_eq(&current.https_host, &expected.https_host)
        && current.https_port == expected.https_port) || (strings_eq(
        &current.socks_host,
        &expected.socks_host,
    ) && current.socks_port == expected.socks_port))
}

/// Settings that this program set are recognised as its own.
pub proof fn lemma_own_settings_are_owned(listen: SocketAddress)
    ensures
        spec_is_owned(spec_local_proxy(listen), spec_local_proxy(listen)),
{
}

/// The state recorded before the desktop's settings are changed, so that a
/// later run can restore them after a crash.
#[derive(Clone, Debug)]
pub struct RecoveryState {
    pub version: u32,
    pub original: Snapshot,
    pub expected: Snapshot,
}

/// Why the system proxy could not be enabled or recovered.
#[derive(Clone, Copy, Debug, PartialEq, Eq, Structural)]
pub enum SystemProxyError {
    /// The proxy does not listen on loopback.
    NotLoopback,
    /// The desktop did not keep the settings.
    Rejected,
    /// The recorded state has another version.
    UnsupportedVersion(u32),
}

impl SystemProxyError {
    /// The text of the refusal.
    pub fn message(&self) -> (r: String)
        ensures
            r@ == system_proxy_error_text(*self),
    {
        match self {
            SystemProxyError::NotLoopback => String::from_str(
                "the system proxy must listen on a loopback address",
            ),
            SystemProxyError::Rejected => String::from_str(
                "the desktop rejected the system proxy settings",
            ),
            SystemProxyError::UnsupportedVersion(v) => {
                let mut out = crate::text::chars_of("unsupported system proxy state version ");
                crate::text::extend_chars(&mut out, &crate::text::decimal_chars(*v as u64));
                crate::text::string_from_chars(&out)
            },
        }
    }
}

/// The text of each system proxy refusal.
pub open spec fn system_proxy_error_text(e: SystemProxyError) -> Seq<char> {
    match e {
        SystemProxyError::NotLoopback => "the system proxy must listen on a loopback address"@,
        SystemProxyError::Rejected => "the desktop rejected the system proxy settings"@,
        SystemProxyError::UnsupportedVersion(v) => "unsupported system proxy state version "@
            + crate::text::decimal(v as nat),
    }
}

/// The system proxy is only pointed at a proxy that listens on loopback.
pub fn check_loopback(listen: &SocketAddress) -> (r: Result<(), SystemProxyError>)
    ensures
        spec_is_loopback(listen.ip) ==> r is Ok,
        !spec_is_loopback(listen.ip) ==> r == Err::<(), SystemProxyError>(
            SystemProxyError::NotLoopback,
        ),
{
    if is_loopback(&listen.ip) {
        Ok(())
    } else {
        Err(SystemProxyError::NotLoopback)
    }
}

/// The state to record before the desktop's settings are changed: the
/// current settings and those that point at the proxy. The proxy must
/// listen on loopback.
pub fn recovery_state(listen: &SocketAddress, original: Snapshot) -> (r: Result<
    RecoveryState,
    SystemProxyError,
>)
    ensures
        !spec_is_loopback(listen.ip) ==> r == Err::<RecoveryState, SystemProxyError>(
            SystemProxyError::NotLoopback,
        ),
        spec_is_loopback(listen.ip) ==> (r matches Ok(s) && s.version == STATE_VERSION
            && s.original == original && s.expected@ == spec_local_proxy(*listen)),
{
    if !is_loopback(&listen.ip) {
        return Err(SystemProxyError::NotLoopback);
    }
    let expected = local_proxy(listen);
    Ok(RecoveryState { version: STATE_VERSION, original, expected })
}

/// After the settings were applied: they hold only if the desktop still
/// shows them as this program's.
pub fn check_applied(current: &Snapshot, state: &RecoveryState) -> (r: Result<(), SystemProxyError>)
    ensures
        r is Ok == spec_is_owned(current@, state.expected@),
        r is Err ==> r == Err::<(), SystemProxyError>(SystemProxyError::Rejected),
{
    if is_owned(current, &state.expected) {
        Ok(())
    } else {
        Err(SystemProxyError::Rejected)
    }
}

/// Whether a recorded state is restored: only while the desktop's settings
/// are still this program's; settings changed since are left alone.
pub fn should_restore(current: &Snapshot, state: &RecoveryState) -> (r: bool)
    ensures
        r == spec_is_owned(current@, state.expected@),
{
    is_owned(current, &state.expected)
}

/// A recorded state of another version is refused.
pub fn check_state_version(version: u32) -> (r: Result<(), SystemProxyError>)
    ensures
        version == STATE_VERSION ==> r is Ok,
        version != STATE_VERSION ==> r == Err::<(), SystemProxyError>(
            SystemProxyError::UnsupportedVersion(version),
        ),
{
    if version == STATE_VERSION {
        Ok(())
    } else {
        Err(SystemProxyError::UnsupportedVersion(version))
    }
}

/// The Windows internet options that the system proxy changes.
#[derive(Clone, Debug, PartialEq, Eq)]
pub struct WindowsSnapshot {
    /// The connection flags (`PROXY_TYPE_*`).
    pub flags: u32,
    pub proxy_server: Option<String>,
    pub proxy_bypass: Option<String>,
    pub autoconfig_url: Option<String>,
}

/// Reads `windows_sys`'s `PROXY_TYPE_DIRECT`; claims the value that its
/// source gives.
#[verifier::external_body]
fn proxy_type_direct() -> (r: u32)
    ensures
        r == 1,
{
    windows_sys::Win32::Networking::WinInet::PROXY_TYPE_DIRECT
}

/// Reads `windows_sys`'s `PROXY_TYPE_PROXY`; claims the value that its
/// source gives.
#[verifier::external_body]
fn proxy_type_proxy() -> (r: u32)
    ensures
        r == 2,
{
    windows_sys::Win32::Networking::WinInet::PROXY_TYPE_PROXY
}

/// The host part of a Windows proxy endpoint: IPv6 addresses bracketed.
pub open spec fn windows_host(ip: IpAddress) -> Seq<char> {
    match ip {
        IpAddress::V4(_) => ip_text(ip),
        IpAddress::V6(_) => "["@ + ip_text(ip) + "]"@,
    }
}

/// The proxy server setting that sends HTTP, HTTPS and SOCKS to the proxy.
pub open spec fn windows_proxy_server(listen: SocketAddress) -> Seq<char> {
    let endpoint = windows_host(listen.ip) + ":"@ + crate::text::decimal(listen.port as nat);
    "http="@ + endpoint + ";https="@ + endpoint + ";socks="@ + endpoint
}

/// The Windows options that point at the local proxy: a direct and proxied
/// connection through the proxy, local hosts bypassed, the automatic
/// configuration address kept.
pub fn windows_local_proxy(listen: &SocketAddress, original: &WindowsSnapshot) -> (r: WindowsSnapshot)
    ensures
        r.flags == 3,
        r.proxy_server matches Some(server) && server@ == windows_proxy_server(*listen),
        r.proxy_bypass matches Some(bypass) && bypass@ == "<local>;localhost;127.*;[::1]"@,
        r.autoconfig_url == original.autoconfig_url,
{
    let ip = crate::text::chars_of(ip_to_string(&listen.ip).as_str());
    let mut endpoint: Vec<char> = Vec::new();
    match listen.ip {
        IpAddress::V4(_) => {
            crate::text::extend_chars(&mut endpoint, &ip);
        },
        IpAddress::V6(_) => {
            crate::text::extend_chars(&mut endpoint, &crate::text::chars_of("["));
            crate::text::extend_chars(&mut endpoint, &ip);
            crate::text::extend_chars(&mut endpoint, &crate::text::chars_of("]"));
        },
    }
    crate::text::extend_chars(&mut endpoint, &crate::text::chars_of(":"));
    crate::text::extend_chars(&mut endpoint, &crate::text::decimal_chars(listen.port as u64));
    let mut server = crate::text::chars_of("http=");
    crate::text::extend_chars(&mut server, &endpoint);
    crate::text::extend_chars(&mut server, &crate::text::chars_of(";https="));
    crate::text::extend_chars(&mut server, &endpoint);
    crate::text::extend_chars(&mut server, &crate::text::chars_of(";socks="));
    crate::text::extend_chars(&mut server, &endpoint);
    let flags = proxy_type_direct() | proxy_type_proxy();
    assert((1u32 | 2u32) == 3u32) by (bit_vector);
    WindowsSnapshot {
        flags,
        proxy_server: Some(crate::text::string_from_chars(&server)),
        proxy_bypass: Some(String::from_str("<local>;localhost;127.*;[::1]")),
        autoconfig_url: original.autoconfig_url.clone(),
    }
}

fn optional_strings_eq(a: &Option<String>, b: &Option<String>) -> (r: bool)
    ensures
        r == (crate::urls::option_view(*a) == crate::urls::option_view(*b)),
{
    match (a, b) {
        (Some(x), Some(y)) => strings_eq(x, y),
        (None, None) => true,
        _ => false,
    }
}

/// The Windows options as plain values.
pub open spec fn windows_view(s: WindowsSnapshot) -> (u32, Option<Seq<char>>, Option<Seq<char>>, Option<Seq<char>>) {
    (
        s.flags,
        crate::urls::option_view(s.proxy_server),
        crate::urls::option_view(s.proxy_bypass),
        crate::urls::option_view(s.autoconfig_url),
    )
}

/// Whether the Windows options are still this program's: unchanged, or
/// still proxied through the same server.
pub open spec fn spec_windows_is_owned(current: WindowsSnapshot, expected: WindowsSnapshot) -> bool {
    windows_view(current) == windows_view(expected) || (current.flags & 2 != 0
        && crate::urls::option_view(current.proxy_server) == crate::urls::option_view(
        expected.proxy_server,
    ))
}

/// Whether the Windows options are still this program's.
pub fn windows_is_owned(current: &WindowsSnapshot, expected: &WindowsSnapshot) -> (r: bool)
    ensures
        r == spec_windows_is_owned(*current, *expected),
{
    let same = current.flags == expected.flags && optional_strings_eq(
        &current.proxy_server,
        &expected.proxy_server,
    ) && optional_strings_eq(&current.proxy_bypass, &expected.proxy_bypass)
        && optional_strings_eq(&current.autoconfig_url, &expected.autoconfig_url);
    same || (current.flags & proxy_type_proxy() != 0 && optional_strings_eq(
        &current.proxy_server,
        &expected.proxy_server,
    ))
}

/// After the Windows options were applied: they hold only if Windows still
/// shows them as this program's.
pub fn windows_check_applied(current: &WindowsSnapshot, expected: &WindowsSnapshot) -> (r: Result<
    (),
    SystemProxyError,
>)
    ensures
        r is Ok == spec_windows_is_owned(*current, *expected),
        r is Err ==> r == Err::<(), SystemProxyError>(SystemProxyError::Rejected),
{
    if windows_is_owned(current, expected) {
        Ok(())
    } else {
        Err(SystemProxyError::Rejected)
    }
}

/// Options that this program set are recognised as its own.
pub proof fn lemma_own_windows_settings_are_owned(s: WindowsSnapshot)
    ensures
        spec_windows_is_owned(s, s),
{
}

} // verus!
