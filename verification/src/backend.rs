//! The backend's decisions: which transport a start uses, the settings that
//! the local proxy is started with, how peer states are reported, and how
//! events of the privileged TUN worker reach the front end.
use vstd::prelude::*;
use crate::config::{
    ConnectionMode,
    GuiConfig,
    TUN_SUPPORTED,
    spec_effective_mode,
    spec_effective_mode_for,
};
use crate::discovery::DiscoveredPeer;
use crate::privileged::{RemoteEvent, WorkerEvent};
use crate::net::{
    SocketAddress, parse_ip_address, parse_ipv6_address, parse_socket_address,
    parsed_ip_address, parsed_ipv6_address, parsed_socket_address,
};
use crate::text::{
    chars_of, extend_chars, first_index_of, split_once, string_from_chars, trim, trimmed,
};

verus! {

/// The transport that a running node uses.
#[derive(Clone, Copy, Debug, PartialEq, Eq, Structural)]
pub enum NodeMode {
    Tun,
    SystemProxy,
    Proxy,
}

/// What the backend reports to the front end.
#[derive(Debug)]
pub enum BackendEvent {
    Starting,
    Started { address: String, subnet: String, mode: NodeMode },
    Stopped,
    Failed(String),
    /// Whether each configured peer is up, by its URI without the query.
    PeerStatus(Vec<(String, bool)>),
    DiscoveryFinished { id: u64, result: Result<Vec<DiscoveredPeer>, String> },
}

/// Why a node could not be started.
#[derive(Clone, Debug, PartialEq, Eq)]
pub enum StartError {
    /// A Flatpak sandbox cannot create a TUN interface on the host.
    FlatpakTun,
    /// This build has no TUN transport.
    TunUnsupported,
    /// The proxy's listen address is not a socket address.
    InvalidProxyListen,
    /// The DNS server is not an IP address; the trimmed text is kept.
    InvalidDnsServer(String),
    /// The node reported an address that is not an IPv6 address.
    InvalidNodeAddress,
    /// The node's MTU does not fit in a `usize`.
    MtuOutOfRange,
}

/// The text of each start error, as the front end shows it.
pub open spec fn start_error_text(e: StartError) -> Seq<char> {
    match e {
        StartError::FlatpakTun => "Flatpak cannot create a host TUN interface. Select System Proxy in Settings."@,
        StartError::TunUnsupported => "this build does not include TUN support"@,
        StartError::InvalidProxyListen => "invalid proxy listen address: invalid socket address syntax"@,
        StartError::InvalidDnsServer(host) => "invalid DNS server address "@ + host@
            + ": invalid IP address syntax"@,
        StartError::InvalidNodeAddress => "Yggdrasil-ng returned an invalid IPv6 address: invalid IPv6 address syntax"@,
        StartError::MtuOutOfRange => "Yggdrasil MTU does not fit this platform: out of range integral type conversion attempted"@,
    }
}

impl StartError {
    /// The error's text.
    pub fn message(&self) -> (r: String)
        ensures
            r@ == start_error_text(*self),
    {
        match self {
            StartError::FlatpakTun => String::from_str(
                "Flatpak cannot create a host TUN interface. Select System Proxy in Settings.",
            ),
            StartError::TunUnsupported => String::from_str("this build does not include TUN support"),
            StartError::InvalidProxyListen => String::from_str(
                "invalid proxy listen address: invalid socket address syntax",
            ),
            StartError::InvalidDnsServer(host) => {
                let mut out = chars_of("invalid DNS server address ");
                extend_chars(&mut out, &chars_of(host.as_str()));
                extend_chars(&mut out, &chars_of(": invalid IP address syntax"));
                string_from_chars(&out)
            },
            StartError::InvalidNodeAddress => String::from_str(
                "Yggdrasil-ng returned an invalid IPv6 address: invalid IPv6 address syntax",
            ),
            StartError::MtuOutOfRange => String::from_str(
                "Yggdrasil MTU does not fit this platform: out of range integral type conversion attempted",
            ),
        }
    }
}

/// A peer URI without its query: what precedes the first `?`.
pub open spec fn spec_without_query(uri: Seq<char>) -> Seq<char> {
    match split_once(uri, '?') {
        Some((base, _)) => base,
        None => uri,
    }
}

/// A peer URI without its query, the key under which a peer's state is
/// reported.
pub fn without_query(uri: &str) -> (r: &str)
    ensures
        r@ == spec_without_query(uri@),
{
    let chars = chars_of(uri);
    match first_index_of(chars.as_slice(), '?') {
        Some(i) => {
            proof {
                assert(exists|k: int| crate::text::is_first_index(uri@, '?', k));
                let k = choose|k: int| crate::text::is_first_index(uri@, '?', k);
                crate::text::lemma_first_index_unique(uri@, '?', i as int, k);
            }
            uri.substring_char(0, i)
        },
        None => {
            assert(!(exists|k: int| crate::text::is_first_index(uri@, '?', k)));
            uri
        },
    }
}

/// Peer states reach the peers they belong to: a URI reported with a query
/// has the key of the same URI without it, and a key is its own key.
pub proof fn lemma_without_query_key(base: Seq<char>, query: Seq<char>)
    requires
        !base.contains('?'),
    ensures
        spec_without_query(base) == base,
        spec_without_query(base + "?"@ + query) == base,
        spec_without_query(spec_without_query(base + "?"@ + query)) == spec_without_query(
            base + "?"@ + query,
        ),
{
    reveal_strlit("?");
    assert(!(exists|k: int| crate::text::is_first_index(base, '?', k))) by {
        if exists|k: int| crate::text::is_first_index(base, '?', k) {
            let k = choose|k: int| crate::text::is_first_index(base, '?', k);
            assert(base[k] == '?');
        }
    }
    let full = base + "?"@ + query;
    let n = base.len() as int;
    assert(crate::text::is_first_index(full, '?', n)) by {
        assert(full[n] == '?');
        assert forall|j: int| 0 <= j < n implies full[j] != '?' by {
            assert(full[j] == base[j]);
        }
    }
    let k = choose|k: int| crate::text::is_first_index(full, '?', k);
    crate::text::lemma_first_index_unique(full, '?', n, k);
    assert(full.take(n) =~= base);
}

/// The node mode for a connection mode.
pub open spec fn spec_node_mode(mode: ConnectionMode) -> NodeMode {
    match mode {
        ConnectionMode::SystemProxy => NodeMode::SystemProxy,
        ConnectionMode::Proxy => NodeMode::Proxy,
        ConnectionMode::Tun => NodeMode::Tun,
    }
}

/// The transport that starting a node with these settings uses, in a build
/// with or without the TUN transport, or why it cannot start: TUN is refused
/// inside Flatpak and in a build without TUN.
pub open spec fn spec_start_mode(config_mode: ConnectionMode, flatpak: bool, tun_built: bool) -> Result<
    NodeMode,
    StartError,
> {
    let mode = spec_node_mode(spec_effective_mode_for(config_mode, tun_built));
    if mode == NodeMode::Tun && flatpak {
        Err(StartError::FlatpakTun)
    } else if mode == NodeMode::Tun && !tun_built {
        Err(StartError::TunUnsupported)
    } else {
        Ok(mode)
    }
}

/// Decides the transport of a start, given whether this process runs inside
/// Flatpak and whether the build has the TUN transport.
pub fn start_mode(config: &GuiConfig, flatpak: bool, tun_built: bool) -> (r: Result<NodeMode, StartError>)
    ensures
        r == spec_start_mode(config.mode, flatpak, tun_built),
{
    let mode = match config.effective_mode_for(tun_built) {
        ConnectionMode::SystemProxy => NodeMode::SystemProxy,
        ConnectionMode::Proxy => NodeMode::Proxy,
        ConnectionMode::Tun => NodeMode::Tun,
    };
    if mode == NodeMode::Tun && flatpak {
        Err(StartError::FlatpakTun)
    } else if mode == NodeMode::Tun && !tun_built {
        Err(StartError::TunUnsupported)
    } else {
        Ok(mode)
    }
}

/// Decides the transport of a start in this process and this build, which
/// may or may not run inside Flatpak; a mode other than TUN does not depend
/// on that.
pub fn node_start_mode(config: &GuiConfig) -> (r: Result<NodeMode, StartError>)
    ensures
        r == spec_start_mode(config.mode, true, TUN_SUPPORTED) || r == spec_start_mode(
            config.mode,
            false,
            TUN_SUPPORTED,
        ),
        spec_effective_mode(config.mode) != ConnectionMode::Tun ==> r == Ok::<NodeMode, StartError>(
            spec_node_mode(spec_effective_mode(config.mode)),
        ),
{
    start_mode(config, crate::config::is_flatpak(), TUN_SUPPORTED)
}

/// The node's interface name: created automatically for TUN, none otherwise.
pub fn interface_name(mode: NodeMode) -> (r: String)
    ensures
        r@ == (if mode == NodeMode::Tun {
            "auto"@
        } else {
            "none"@
        }),
{
    if mode == NodeMode::Tun {
        String::from_str("auto")
    } else {
        String::from_str("none")
    }
}

/// The TUN interface's MTU: the smallest of the configured MTU, the node's
/// MTU and 65535.
pub fn tun_mtu(configured: u64, node_mtu: u64) -> (r: u16)
    ensures
        r as int == vstd::math::min(vstd::math::min(configured as int, node_mtu as int), 65535),
{
    let smaller = if configured < node_mtu {
        configured
    } else {
        node_mtu
    };
    if smaller < 65535 {
        smaller as u16
    } else {
        65535
    }
}

/// The socket address of a DNS server given as a host and a port: `Some(None)`
/// for an empty (or blank) host, `None` where the trimmed host is not an IP
/// address.
pub open spec fn spec_dns_server(host: Seq<char>, port: u16) -> Option<Option<SocketAddress>> {
    let h = trim(host);
    if h.len() == 0 {
        Some(None)
    } else {
        match parsed_ip_address(h) {
            Some(ip) => Some(Some(SocketAddress { ip, port })),
            None => None,
        }
    }
}

/// Reads the DNS server setting: a bare IPv4 or IPv6 address (no brackets)
/// and a port.
pub fn parse_dns_server(host: &str, port: u16) -> (r: Result<Option<SocketAddress>, StartError>)
    ensures
        match r {
            Ok(a) => spec_dns_server(host@, port) == Some(a),
            Err(e) => {
                &&& spec_dns_server(host@, port) is None
                &&& e matches StartError::InvalidDnsServer(h) && h@ == trim(host@)
            },
        },
{
    let h = trimmed(&chars_of(host));
    if h.len() == 0 {
        return Ok(None);
    }
    let text = string_from_chars(&h);
    match parse_ip_address(text.as_str()) {
        Some(ip) => Ok(Some(SocketAddress { ip, port })),
        None => Err(StartError::InvalidDnsServer(text)),
    }
}

/// What the local proxy is started with.
#[derive(Clone, Copy, Debug, PartialEq, Eq)]
pub struct ProxySettings {
    pub listen: SocketAddress,
    pub dns: Option<SocketAddress>,
    /// The node's own overlay address.
    pub address: [u8; 16],
    pub mtu: usize,
}

/// Reads the proxy's settings: the listen address, then the DNS server,
/// then the node's address, then its MTU; the first that fails decides.
pub fn proxy_settings(config: &GuiConfig, address: &str, mtu: u64) -> (r: Result<
    ProxySettings,
    StartError,
>)
    ensures
        match parsed_socket_address(config.proxy_listen@) {
            None => r == Err::<ProxySettings, StartError>(StartError::InvalidProxyListen),
            Some(listen) => match spec_dns_server(config.dns_server@, config.dns_port) {
                None => r matches Err(StartError::InvalidDnsServer(h)) && h@ == trim(
                    config.dns_server@,
                ),
                Some(dns) => match parsed_ipv6_address(address@) {
                    None => r == Err::<ProxySettings, StartError>(StartError::InvalidNodeAddress),
                    Some(ip) => if mtu <= usize::MAX {
                        r == Ok::<ProxySettings, StartError>(
                            ProxySettings { listen, dns, address: ip, mtu: mtu as usize },
                        )
                    } else {
                        r == Err::<ProxySettings, StartError>(StartError::MtuOutOfRange)
                    },
                },
            },
        },
{
    let listen = match parse_socket_address(config.proxy_listen.as_str()) {
        Some(listen) => listen,
        None => return Err(StartError::InvalidProxyListen),
    };
    let dns = match parse_dns_server(config.dns_server.as_str(), config.dns_port) {
        Ok(dns) => dns,
        Err(e) => return Err(e),
    };
    let ip = match parse_ipv6_address(address) {
        Some(ip) => ip,
        None => return Err(StartError::InvalidNodeAddress),
    };
    if mtu <= usize::MAX as u64 {
        Ok(ProxySettings { listen, dns, address: ip, mtu: mtu as usize })
    } else {
        Err(StartError::MtuOutOfRange)
    }
}

/// The state of each peer by its URI without the query, as a list of peer
/// reports gives it: a later report of the same peer wins.
pub open spec fn status_map(peers: Seq<(String, bool)>) -> Map<Seq<char>, bool>
    decreases peers.len(),
{
    if peers.len() == 0 {
        Map::empty()
    } else {
        status_map(peers.drop_last()).insert(spec_without_query(peers.last().0@), peers.last().1)
    }
}

/// The map that a list of keyed entries holds.
pub open spec fn entries_map(entries: Seq<(String, bool)>) -> Map<Seq<char>, bool>
    decreases entries.len(),
{
    if entries.len() == 0 {
        Map::empty()
    } else {
        entries_map(entries.drop_last()).insert(entries.last().0@, entries.last().1)
    }
}

/// No key occurs twice.
pub open spec fn distinct_keys(entries: Seq<(String, bool)>) -> bool {
    forall|i: int, j: int|
        0 <= i < j < entries.len() ==> #[trigger] entries[i].0@ != #[trigger] entries[j].0@
}

proof fn lemma_entries_map_update(entries: Seq<(String, bool)>, j: int, e: (String, bool))
    requires
        distinct_keys(entries),
        0 <= j < entries.len(),
        entries[j].0@ == e.0@,
    ensures
        entries_map(entries.update(j, e)) == entries_map(entries).insert(e.0@, e.1),
    decreases entries.len(),
{
    let updated = entries.update(j, e);
    if j == entries.len() - 1 {
        assert(updated.drop_last() =~= entries.drop_last());
        assert(entries_map(updated) =~= entries_map(entries).insert(e.0@, e.1));
    } else {
        assert(updated.drop_last() =~= entries.drop_last().update(j, e));
        lemma_entries_map_update(entries.drop_last(), j, e);
        assert(entries[j].0@ != entries[entries.len() - 1].0@);
        assert(entries_map(updated) =~= entries_map(entries).insert(e.0@, e.1));
    }
}

/// The peer states to report: one entry per peer, keyed by its URI without
/// the query, holding the state of the peer's last report.
pub fn peer_status(peers: &[(String, bool)]) -> (r: Vec<(String, bool)>)
    ensures
        distinct_keys(r@),
        entries_map(r@) == status_map(peers@),
{
    let mut r: Vec<(String, bool)> = Vec::new();
    let mut i: usize = 0;
    while i < peers.len()
        invariant
            i <= peers@.len(),
            distinct_keys(r@),
            entries_map(r@) == status_map(peers@.take(i as int)),
        decreases peers.len() - i,
    {
        let key = without_query(peers[i].0.as_str()).to_owned();
        let up = peers[i].1;
        let mut j: usize = 0;
        while j < r.len() && r[j].0 != key
            invariant
                j <= r@.len(),
                forall|q: int| 0 <= q < j ==> r@[q].0@ != key@,
            decreases r.len() - j,
        {
            j = j + 1;
        }
        let ghost before = r@;
        assert(peers@.take(i + 1).drop_last() =~= peers@.take(i as int));
        if j < r.len() {
            r.set(j, (key, up));
            proof {
                lemma_entries_map_update(before, j as int, (key, up));
                assert(r@ =~= before.update(j as int, (key, up)));
            }
        } else {
            r.push((key, up));
            assert(r@.drop_last() =~= before);
        }
        i = i + 1;
    }
    assert(peers@.take(i as int) =~= peers@);
    r
}

/// The text of a failed peer change.
pub open spec fn peer_failure_text(adding: bool, error: Seq<char>) -> Seq<char> {
    (if adding {
        "Failed to add peer: "@
    } else {
        "Failed to remove peer: "@
    }) + error
}

/// The message of a failed peer change.
pub fn peer_failure_message(adding: bool, error: &str) -> (r: String)
    ensures
        r@ == peer_failure_text(adding, error@),
{
    let mut out = if adding {
        chars_of("Failed to add peer: ")
    } else {
        chars_of("Failed to remove peer: ")
    };
    extend_chars(&mut out, &chars_of(error));
    string_from_chars(&out)
}

/// The node that the backend runs.
#[derive(Clone, Copy, Debug, PartialEq, Eq, Structural)]
pub enum ActiveNode {
    /// A node in this process.
    Local,
    /// A node in the privileged worker, whose events carry the session.
    Privileged { session: u64 },
}

/// What the backend's decisions keep between events.
#[derive(Clone, Copy, Debug, PartialEq, Eq)]
pub struct BackendState {
    pub node: Option<ActiveNode>,
    /// The session of the latest privileged start.
    pub next_remote_session: u64,
}

/// The session after `session`: one more, wrapping.
pub open spec fn successor(session: u64) -> u64 {
    if session == u64::MAX {
        0
    } else {
        (session + 1) as u64
    }
}

impl BackendState {
    /// A privileged node always runs under the latest session.
    pub open spec fn wf(self) -> bool {
        self.node matches Some(ActiveNode::Privileged { session }) ==> session
            == self.next_remote_session
    }

    /// No node, and no session used yet.
    pub fn new() -> (r: BackendState)
        ensures
            r.wf(),
            r.node is None,
            r.next_remote_session == 0,
    {
        BackendState { node: None, next_remote_session: 0 }
    }

    /// A start: the current node (which the caller closes) is forgotten,
    /// and the start runs in the worker under a new session where the
    /// settings select TUN in a build that has it, here otherwise.
    pub fn begin_start(&mut self, config: &GuiConfig, tun_built: bool) -> (route: ActiveNode)
        requires
            old(self).wf(),
        ensures
            final(self).wf(),
            final(self).node is None,
            spec_effective_mode_for(config.mode, tun_built) == ConnectionMode::Tun ==> {
                &&& final(self).next_remote_session == successor(old(self).next_remote_session)
                &&& route == ActiveNode::Privileged { session: final(self).next_remote_session }
            },
            spec_effective_mode_for(config.mode, tun_built) != ConnectionMode::Tun ==> {
                &&& final(self).next_remote_session == old(self).next_remote_session
                &&& route == ActiveNode::Local
            },
    {
        self.node = None;
        if config.effective_mode_for(tun_built) == ConnectionMode::Tun {
            let next = if self.next_remote_session == u64::MAX {
                0
            } else {
                self.next_remote_session + 1
            };
            self.next_remote_session = next;
            ActiveNode::Privileged { session: next }
        } else {
            ActiveNode::Local
        }
    }

    /// The outcome of a start: the node runs if it started.
    pub fn finish_start(&mut self, route: ActiveNode, started: bool)
        requires
            old(self).wf(),
            route matches ActiveNode::Privileged { session } ==> session
                == old(self).next_remote_session,
        ensures
            final(self).wf(),
            final(self).node == (if started {
                Some(route)
            } else {
                None
            }),
            final(self).next_remote_session == old(self).next_remote_session,
    {
        self.node = if started {
            Some(route)
        } else {
            None
        };
    }

    /// A stop: the node (which the caller closes) is forgotten.
    pub fn stop(&mut self) -> (r: BackendEvent)
        requires
            old(self).wf(),
        ensures
            final(self).wf(),
            final(self).node is None,
            final(self).next_remote_session == old(self).next_remote_session,
            r == BackendEvent::Stopped,
    {
        self.node = None;
        BackendEvent::Stopped
    }

    /// What an event of a worker connection gives: nothing unless it comes
    /// from the session of the node that runs; a lost worker is forgotten,
    /// and where its loss was an error the front end learns that the node
    /// stopped and why.
    pub fn remote_event(&mut self, session: u64, event: RemoteEvent) -> (r: Vec<BackendEvent>)
        requires
            old(self).wf(),
        ensures
            final(self).wf(),
            final(self).next_remote_session == old(self).next_remote_session,
            old(self).node != Some(ActiveNode::Privileged { session }) ==> {
                &&& r@.len() == 0
                &&& *final(self) == *old(self)
            },
            old(self).node == Some(ActiveNode::Privileged { session }) ==> match event {
                RemoteEvent::Worker(WorkerEvent::Started { address, subnet }) => {
                    &&& r@ == seq![BackendEvent::Started { address, subnet, mode: NodeMode::Tun }]
                    &&& *final(self) == *old(self)
                },
                RemoteEvent::Worker(WorkerEvent::StartFailed { message }) => {
                    &&& r@ == seq![BackendEvent::Failed(message)]
                    &&& *final(self) == *old(self)
                },
                RemoteEvent::Worker(WorkerEvent::OperationFailed { message }) => {
                    &&& r@ == seq![BackendEvent::Failed(message)]
                    &&& *final(self) == *old(self)
                },
                RemoteEvent::Worker(WorkerEvent::PeerStatus { statuses }) => {
                    &&& r@ == seq![BackendEvent::PeerStatus(statuses)]
                    &&& *final(self) == *old(self)
                },
                RemoteEvent::Disconnected { error } => {
                    &&& final(self).node is None
                    &&& r@ == match error {
                        Some(e) => seq![BackendEvent::Stopped, BackendEvent::Failed(e)],
                        None => Seq::empty(),
                    }
                },
            },
    {
        let matching = match self.node {
            Some(ActiveNode::Privileged { session: current }) => current == session,
            _ => false,
        };
        let mut out: Vec<BackendEvent> = Vec::new();
        if !matching {
            return out;
        }
        match event {
            RemoteEvent::Worker(WorkerEvent::Started { address, subnet }) => {
                out.push(BackendEvent::Started { address, subnet, mode: NodeMode::Tun });
            },
            RemoteEvent::Worker(WorkerEvent::StartFailed { message }) => {
                out.push(BackendEvent::Failed(message));
            },
            RemoteEvent::Worker(WorkerEvent::OperationFailed { message }) => {
                out.push(BackendEvent::Failed(message));
            },
            RemoteEvent::Worker(WorkerEvent::PeerStatus { statuses }) => {
                out.push(BackendEvent::PeerStatus(statuses));
            },
            RemoteEvent::Disconnected { error } => {
                self.node = None;
                if let Some(e) = error {
                    out.push(BackendEvent::Stopped);
                    out.push(BackendEvent::Failed(e));
                }
            },
        }
        out
    }
}

/// A command of the front end to the backend; a start carries the front
/// end's settings (the node's own settings travel beside them).
#[derive(Clone, Debug, PartialEq, Eq)]
pub enum BackendCommand {
    Start { config: GuiConfig },
    Stop,
    AddPeer { peer: String },
    RemovePeer { peer: String },
    Discover { id: u64, protocols: Vec<String> },
    Shutdown,
}

/// What the backend does on a command.
#[derive(Debug)]
pub enum BackendAction {
    /// Close the node that runs, report that a node is starting, and start
    /// one on the route.
    Start { route: ActiveNode },
    /// Close the node that runs and report the event.
    Stop { event: BackendEvent },
    /// Change a peer of the node in this process (adding it, or removing it);
    /// a failure is reported with `peer_failure_message`.
    LocalPeer { adding: bool, peer: String },
    /// Pass the peer change on to the worker.
    WorkerPeer { adding: bool, peer: String },
    /// No node runs, so there is no peer to change.
    Nothing,
    /// Look for public peers and report the result under the id.
    Discover { id: u64, protocols: Vec<String> },
    /// End the backend; the node that runs is closed.
    Shutdown,
}

/// Where a peer change goes: to the node that runs here or in the worker;
/// nowhere where no node runs.
pub open spec fn peer_action(node: Option<ActiveNode>, adding: bool, peer: String) -> BackendAction {
    match node {
        Some(ActiveNode::Local) => BackendAction::LocalPeer { adding, peer },
        Some(ActiveNode::Privileged { .. }) => BackendAction::WorkerPeer { adding, peer },
        None => BackendAction::Nothing,
    }
}

/// A peer change keeps its direction and its peer, and goes where the node
/// runs: to the node in this process, to the worker, or nowhere.
pub proof fn lemma_peer_changes_keep_their_direction(
    node: Option<ActiveNode>,
    adding: bool,
    peer: String,
)
    ensures
        match peer_action(node, adding, peer) {
            BackendAction::LocalPeer { adding: a, peer: p } => a == adding && p == peer && node
                == Some(ActiveNode::Local),
            BackendAction::WorkerPeer { adding: a, peer: p } => a == adding && p == peer
                && node matches Some(ActiveNode::Privileged { .. }),
            BackendAction::Nothing => node is None,
            _ => false,
        },
{
}

impl BackendState {
    /// The step of the backend on a command of the front end, in a build with
    /// or without the TUN transport.
    pub fn on_command(&mut self, command: BackendCommand, tun_built: bool) -> (action: BackendAction)
        requires
            old(self).wf(),
        ensures
            final(self).wf(),
            match command {
                BackendCommand::Start { config } => {
                    &&& final(self).node is None
                    &&& spec_effective_mode_for(config.mode, tun_built) == ConnectionMode::Tun ==> {
                        &&& final(self).next_remote_session == successor(
                            old(self).next_remote_session,
                        )
                        &&& action == (BackendAction::Start {
                            route: ActiveNode::Privileged { session: final(self).next_remote_session },
                        })
                    }
                    &&& spec_effective_mode_for(config.mode, tun_built) != ConnectionMode::Tun ==> {
                        &&& final(self).next_remote_session == old(self).next_remote_session
                        &&& action == (BackendAction::Start { route: ActiveNode::Local })
                    }
                },
                BackendCommand::Stop => {
                    &&& final(self).node is None
                    &&& final(self).next_remote_session == old(self).next_remote_session
                    &&& action == (BackendAction::Stop { event: BackendEvent::Stopped })
                },
                BackendCommand::AddPeer { peer } => {
                    &&& *final(self) == *old(self)
                    &&& action == peer_action(old(self).node, true, peer)
                    &&& action matches BackendAction::LocalPeer { adding: a, peer: p } ==> a && p
                        == peer
                    &&& action matches BackendAction::WorkerPeer { adding: a, peer: p } ==> a && p
                        == peer
                },
                BackendCommand::RemovePeer { peer } => {
                    &&& *final(self) == *old(self)
                    &&& action == peer_action(old(self).node, false, peer)
                    &&& action matches BackendAction::LocalPeer { adding: a, peer: p } ==> !a && p
                        == peer
                    &&& action matches BackendAction::WorkerPeer { adding: a, peer: p } ==> !a
                        && p == peer
                },
                BackendCommand::Discover { id, protocols } => {
                    &&& *final(self) == *old(self)
                    &&& action == (BackendAction::Discover { id, protocols })
                },
                BackendCommand::Shutdown => {
                    &&& *final(self) == *old(self)
                    &&& action == BackendAction::Shutdown
                },
            },
    {
        match command {
            BackendCommand::Start { config } => {
                let route = self.begin_start(&config, tun_built);
                BackendAction::Start { route }
            },
            BackendCommand::Stop => {
                let event = self.stop();
                BackendAction::Stop { event }
            },
            BackendCommand::AddPeer { peer } => match self.node {
                Some(ActiveNode::Local) => BackendAction::LocalPeer { adding: true, peer },
                Some(ActiveNode::Privileged { .. }) => BackendAction::WorkerPeer { adding: true, peer },
                None => BackendAction::Nothing,
            },
            BackendCommand::RemovePeer { peer } => match self.node {
                Some(ActiveNode::Local) => BackendAction::LocalPeer { adding: false, peer },
                Some(ActiveNode::Privileged { .. }) => BackendAction::WorkerPeer { adding: false, peer },
                None => BackendAction::Nothing,
            },
            BackendCommand::Discover { id, protocols } => BackendAction::Discover { id, protocols },
            BackendCommand::Shutdown => BackendAction::Shutdown,
        }
    }
}

/// Once a worker of a new privileged start runs, events of the worker of the
/// previous start are ignored: the new session (the successor of the latest
/// one, which the previous worker ran under) differs from it, also where the
/// counter wraps.
pub proof fn lemma_restart_ignores_earlier_worker(before: BackendState, after: BackendState, session: u64)
    requires
        before.wf(),
        before.node == Some(ActiveNode::Privileged { session }),
        after.next_remote_session == successor(before.next_remote_session),
        after.node == Some(ActiveNode::Privileged { session: after.next_remote_session }),
    ensures
        after.wf(),
        after.node != Some(ActiveNode::Privileged { session }),
{
}

} // verus!
