//! The front end's decisions, apart from its widgets: the connection mode
//! selector, the settings it accepts, the configured peer list, and what the
//! window shows for the backend's events.
use vstd::prelude::*;
use crate::backend::{BackendEvent, NodeMode, entries_map, successor};
use crate::config::{ConnectionMode, spec_effective_mode_for};
use crate::discovery::{
    DiscoveredPeer, PeerOrder, filter_by_protocol, sort_peers, sorted_by, string_views, ties,
};
use crate::peers::{
    DiscoveryCache, build_peer_uri, format_endpoint, peer_uri_text, protocol_key, spec_format_endpoint,
    valid_hostname, validate_endpoint,
};
use crate::urls::{pairs_view, parse_url, url_parse};
use crate::peers::regex_match;
use crate::privileged::is_hex_digit;
use crate::text::{
    chars_eq, chars_of, decimal, decimal_chars, extend_chars, parse_port, parse_u16,
    string_from_chars, text_le, to_uppercase, trim, trimmed, uppercase,
};
use crate::text::{chars_le, lemma_text_le_total, lemma_text_le_transitive};

verus! {

broadcast use vstd::seq_lib::group_to_multiset_ensures;

/// The peer protocols that the dialogs offer, in their order.
pub open spec fn protocol_names() -> Seq<Seq<char>> {
    seq!["tcp"@, "tls"@, "ws"@, "wss"@, "quic"@]
}

/// The peer protocols that the dialogs offer, in their order.
pub fn protocols() -> (r: Vec<&'static str>)
    ensures
        r@.len() == 5,
        forall|i: int| 0 <= i < 5 ==> #[trigger] r@[i]@ == protocol_names()[i],
{
    let mut v: Vec<&'static str> = Vec::new();
    v.push("tcp");
    v.push("tls");
    v.push("ws");
    v.push("wss");
    v.push("quic");
    v
}

/// The position of a protocol in the dialogs' list; the first for one that
/// is not offered.
pub fn protocol_index(protocol: &str) -> (r: u32)
    ensures
        r < 5,
        protocol_names().contains(protocol@) ==> protocol_names()[r as int] == protocol@,
        !protocol_names().contains(protocol@) ==> r == 0,
{
    let names = protocols();
    let wanted = chars_of(protocol);
    let mut i: usize = 0;
    while i < 5
        invariant
            i <= 5,
            names@.len() == 5,
            forall|k: int| 0 <= k < 5 ==> #[trigger] names@[k]@ == protocol_names()[k],
            wanted@ == protocol@,
            forall|k: int| 0 <= k < i ==> protocol_names()[k] != protocol@,
        decreases 5 - i,
    {
        if chars_eq(chars_of(names[i]).as_slice(), wanted.as_slice()) {
            return i as u32;
        }
        i = i + 1;
    }
    assert(!protocol_names().contains(protocol@)) by {
        if protocol_names().contains(protocol@) {
            let k = choose|k: int| 0 <= k < protocol_names().len() && protocol_names()[k] == protocol@;
            assert(protocol_names()[k] != protocol@);
        }
    }
    0
}

/// The mode that a position of the mode selector stands for, in a build with
/// or without the TUN transport. Without TUN the selector offers the proxy and
/// the system proxy.
pub open spec fn spec_mode_for_selection(selected: u32, tun_built: bool) -> ConnectionMode {
    if tun_built {
        if selected == 0 {
            ConnectionMode::Tun
        } else if selected == 1 {
            ConnectionMode::Proxy
        } else {
            ConnectionMode::SystemProxy
        }
    } else if selected == 0 {
        ConnectionMode::Proxy
    } else {
        ConnectionMode::SystemProxy
    }
}

/// The position of the mode selector that shows a mode, in a build with or
/// without the TUN transport.
pub open spec fn spec_selection_for_mode(mode: ConnectionMode, tun_built: bool) -> u32 {
    if tun_built {
        match mode {
            ConnectionMode::Tun => 0,
            ConnectionMode::Proxy => 1,
            ConnectionMode::SystemProxy => 2,
        }
    } else {
        match mode {
            ConnectionMode::Proxy => 0,
            ConnectionMode::SystemProxy | ConnectionMode::Tun => 1,
        }
    }
}

/// The mode that a position of the mode selector stands for, in a build with
/// or without the TUN transport.
pub fn mode_for_selection(selected: u32, tun_built: bool) -> (r: ConnectionMode)
    ensures
        r == spec_mode_for_selection(selected, tun_built),
{
    if tun_built {
        if selected == 0 {
            ConnectionMode::Tun
        } else if selected == 1 {
            ConnectionMode::Proxy
        } else {
            ConnectionMode::SystemProxy
        }
    } else if selected == 0 {
        ConnectionMode::Proxy
    } else {
        ConnectionMode::SystemProxy
    }
}

/// The position of the mode selector that shows a mode, in a build with or
/// without the TUN transport.
pub fn selection_for_mode(mode: ConnectionMode, tun_built: bool) -> (r: u32)
    ensures
        r == spec_selection_for_mode(mode, tun_built),
{
    if tun_built {
        match mode {
            ConnectionMode::Tun => 0,
            ConnectionMode::Proxy => 1,
            ConnectionMode::SystemProxy => 2,
        }
    } else {
        match mode {
            ConnectionMode::Proxy => 0,
            ConnectionMode::SystemProxy | ConnectionMode::Tun => 1,
        }
    }
}

/// The selector shows the mode that a start uses, and choosing the shown
/// position keeps that mode; every position the selector offers stands for
/// a mode that shows at that position.
pub proof fn lemma_selector_round_trip(mode: ConnectionMode, selected: u32, tun_built: bool)
    requires
        selected < (if tun_built {
            3u32
        } else {
            2u32
        }),
    ensures
        spec_mode_for_selection(spec_selection_for_mode(mode, tun_built), tun_built)
            == spec_effective_mode_for(mode, tun_built),
        spec_selection_for_mode(spec_mode_for_selection(selected, tun_built), tun_built) == selected,
{
}

/// A private key as the settings accept it: 128 hexadecimal digits once
/// surrounding whitespace is dropped.
pub open spec fn is_private_key(text: Seq<char>) -> bool {
    let key = trim(text);
    key.len() == 128 && forall|i: int| 0 <= i < key.len() ==> is_hex_digit(#[trigger] key[i])
}

/// The private key that an edited text holds, trimmed, if it is one.
pub fn private_key_from_text(text: &str) -> (r: Option<String>)
    ensures
        is_private_key(text@) ==> (r matches Some(k) && k@ == trim(text@)),
        !is_private_key(text@) ==> r is None,
{
    let key = trimmed(&chars_of(text));
    if key.len() != 128 {
        return None;
    }
    let mut i: usize = 0;
    while i < key.len()
        invariant
            i <= key@.len(),
            key@ == trim(text@),
            key@.len() == 128,
            forall|k: int| 0 <= k < i ==> is_hex_digit(#[trigger] key@[k]),
        decreases key.len() - i,
    {
        let c = key[i];
        if !(('0' <= c && c <= '9') || ('a' <= c && c <= 'f') || ('A' <= c && c <= 'F')) {
            return None;
        }
        i = i + 1;
    }
    Some(string_from_chars(&key))
}

/// The DNS port that an edited text holds: a port number other than 0 once
/// surrounding whitespace is dropped.
pub fn dns_port_from_text(text: &str) -> (r: Option<u16>)
    ensures
        r == (match parse_u16(trim(text@)) {
            Some(p) => if p != 0 {
                Some(p)
            } else {
                None
            },
            None => None,
        }),
{
    match parse_port(&trimmed(&chars_of(text))) {
        Some(p) => if p != 0 {
            Some(p)
        } else {
            None
        },
        None => None,
    }
}

/// Whether the proxy settings are shown, in a build with or without the TUN
/// transport: for every mode that a start uses but TUN.
pub fn proxy_card_visible(mode: ConnectionMode, tun_built: bool) -> (r: bool)
    ensures
        r == (spec_effective_mode_for(mode, tun_built) != ConnectionMode::Tun),
{
    match mode {
        ConnectionMode::Tun => !tun_built,
        _ => true,
    }
}

/// The title of the proxy settings, in a build with or without the TUN
/// transport.
pub fn proxy_card_title(mode: ConnectionMode, tun_built: bool) -> (r: &'static str)
    ensures
        r@ == (if spec_effective_mode_for(mode, tun_built) == ConnectionMode::SystemProxy {
            "System Proxy Details"@
        } else {
            "Proxy Details"@
        }),
{
    let effective = match mode {
        ConnectionMode::Tun if !tun_built => ConnectionMode::SystemProxy,
        m => m,
    };
    match effective {
        ConnectionMode::SystemProxy => "System Proxy Details",
        _ => "Proxy Details",
    }
}

/// The subtitle of the proxy settings.
pub fn proxy_card_subtitle(listen: &str) -> (r: String)
    ensures
        r@ == "HTTP and SOCKS5 on "@ + listen@,
{
    let mut out = chars_of("HTTP and SOCKS5 on ");
    extend_chars(&mut out, &chars_of(listen));
    string_from_chars(&out)
}

/// The description of the peer list for a number of configured peers.
pub open spec fn spec_peers_description(count: nat) -> Seq<char> {
    if count == 0 {
        "No peers configured"@
    } else if count == 1 {
        decimal(count) + " peer node"@
    } else {
        decimal(count) + " peer nodes"@
    }
}

/// The description of the peer list for a number of configured peers.
pub fn peers_description(count: usize) -> (r: String)
    ensures
        r@ == spec_peers_description(count as nat),
{
    if count == 0 {
        return String::from_str("No peers configured");
    }
    let mut out = decimal_chars(count as u64);
    if count == 1 {
        extend_chars(&mut out, &chars_of(" peer node"));
    } else {
        extend_chars(&mut out, &chars_of(" peer nodes"));
    }
    string_from_chars(&out)
}

/// The configured peers after an addition: unchanged where the peer is
/// already configured, else with the peer at the end.
pub open spec fn spec_add_peer(peers: Seq<Seq<char>>, peer: Seq<char>) -> Seq<Seq<char>> {
    if peers.contains(peer) {
        peers
    } else {
        peers.push(peer)
    }
}

/// The configured peers after a removal: every copy of the peer is gone,
/// the others keep their order.
pub open spec fn spec_remove_peer(peers: Seq<Seq<char>>, peer: Seq<char>) -> Seq<Seq<char>> {
    peers.filter(other_than(peer))
}

/// Whether a peer is another one than `peer`.
pub open spec fn other_than(peer: Seq<char>) -> spec_fn(Seq<char>) -> bool {
    |p: Seq<char>| p != peer
}

fn contains_peer(peers: &Vec<String>, peer: &str) -> (r: bool)
    ensures
        r == string_views(peers@).contains(peer@),
{
    let wanted = chars_of(peer);
    let mut i: usize = 0;
    while i < peers.len()
        invariant
            i <= peers@.len(),
            wanted@ == peer@,
            forall|k: int| 0 <= k < i ==> peers@[k]@ != peer@,
        decreases peers.len() - i,
    {
        if chars_eq(chars_of(peers[i].as_str()).as_slice(), wanted.as_slice()) {
            assert(string_views(peers@)[i as int] == peer@);
            return true;
        }
        i = i + 1;
    }
    assert(!string_views(peers@).contains(peer@)) by {
        if string_views(peers@).contains(peer@) {
            let k = choose|k: int| 0 <= k < string_views(peers@).len() && string_views(peers@)[k]
                == peer@;
            assert(peers@[k]@ == peer@);
        }
    }
    false
}

/// Adds a peer to the configured ones unless it is there already; tells
/// whether it was added, so that a running node learns of it.
pub fn add_peer(peers: &mut Vec<String>, peer: String) -> (added: bool)
    ensures
        string_views(final(peers)@) == spec_add_peer(string_views(old(peers)@), peer@),
        added == !string_views(old(peers)@).contains(peer@),
{
    if contains_peer(peers, peer.as_str()) {
        return false;
    }
    let ghost before = peers@;
    let ghost v = peer@;
    peers.push(peer);
    assert(string_views(peers@) =~= string_views(before).push(v));
    true
}

/// Removes every copy of a peer from the configured ones.
pub fn remove_peer(peers: &mut Vec<String>, peer: &str)
    ensures
        string_views(final(peers)@) == spec_remove_peer(string_views(old(peers)@), peer@),
{
    let ghost original = string_views(old(peers)@);
    let ghost pred = other_than(peer@);
    let mut kept: Vec<String> = Vec::new();
    let wanted = chars_of(peer);
    let mut i: usize = 0;
    assert(original.take(0).filter(pred) =~= Seq::<Seq<char>>::empty());
    while i < peers.len()
        invariant
            i <= peers@.len(),
            original == string_views(peers@),
            pred == other_than(peer@),
            wanted@ == peer@,
            string_views(kept@) == original.take(i as int).filter(pred),
        decreases peers.len() - i,
    {
        reveal_with_fuel(Seq::<_>::filter, 1);
        assert(original.take(i + 1).drop_last() =~= original.take(i as int));
        assert(original.take(i + 1).last() == peers@[i as int]@);
        if !chars_eq(chars_of(peers[i].as_str()).as_slice(), wanted.as_slice()) {
            let ghost before = kept@;
            let item = peers[i].clone();
            kept.push(item);
            assert(string_views(kept@) =~= string_views(before).push(peers@[i as int]@));
        }
        i = i + 1;
    }
    assert(original.take(i as int) =~= original);
    *peers = kept;
}

/// Adding a peer and then removing it leaves a list that did not hold it as
/// it was; adding a peer twice adds it once; a removed peer is gone and the
/// other peers stay.
pub proof fn lemma_peer_list_edits(peers: Seq<Seq<char>>, peer: Seq<char>, other: Seq<char>)
    ensures
        !peers.contains(peer) ==> spec_remove_peer(spec_add_peer(peers, peer), peer) == spec_remove_peer(peers, peer),
        !peers.contains(peer) ==> spec_remove_peer(peers, peer) == peers,
        spec_add_peer(spec_add_peer(peers, peer), peer) == spec_add_peer(peers, peer),
        spec_add_peer(peers, peer).contains(peer),
        !spec_remove_peer(peers, peer).contains(peer),
        other != peer ==> (spec_remove_peer(peers, peer).contains(other) == peers.contains(other)),
{
    let pred = other_than(peer);
    if other != peer {
        if spec_remove_peer(peers, peer).contains(other) {
            peers.lemma_filter_contains_rev(pred, other);
        }
        if peers.contains(other) {
            let k = choose|k: int| 0 <= k < peers.len() && peers[k] == other;
            peers.lemma_filter_contains(pred, k);
        }
    }
    if spec_remove_peer(peers, peer).contains(peer) {
        let i = choose|i: int|
            0 <= i < spec_remove_peer(peers, peer).len() && spec_remove_peer(peers, peer)[i] == peer;
        peers.lemma_filter_pred(pred, i);
    }
    if !peers.contains(peer) {
        assert(peers.push(peer).drop_last() =~= peers);
        reveal_with_fuel(Seq::<_>::filter, 1);
        lemma_filter_keeps_all(peers, peer);
        assert(spec_remove_peer(peers.push(peer), peer) =~= spec_remove_peer(peers, peer));
    }
    assert(spec_add_peer(peers, peer).contains(peer)) by {
        if !peers.contains(peer) {
            assert(peers.push(peer)[peers.len() as int] == peer);
        }
    }
}

proof fn lemma_filter_keeps_all(peers: Seq<Seq<char>>, peer: Seq<char>)
    requires
        !peers.contains(peer),
    ensures
        spec_remove_peer(peers, peer) == peers,
    decreases peers.len(),
{
    reveal_with_fuel(Seq::<_>::filter, 1);
    if peers.len() > 0 {
        assert(!peers.drop_last().contains(peer)) by {
            if peers.drop_last().contains(peer) {
                let k = choose|k: int| 0 <= k < peers.drop_last().len() && peers.drop_last()[k] == peer;
                assert(peers[k] == peer);
            }
        }
        lemma_filter_keeps_all(peers.drop_last(), peer);
        assert(peers[peers.len() - 1] != peer);
        assert(peers.drop_last().push(peers.last()) =~= peers);
    } else {
        assert(spec_remove_peer(peers, peer) =~= peers);
    }
}

/// What the node card says of a running node.
pub open spec fn spec_running_subtitle(mode: NodeMode) -> Seq<char> {
    match mode {
        NodeMode::Tun => "Running"@,
        NodeMode::SystemProxy => "System proxy running"@,
        NodeMode::Proxy => "Proxy running"@,
    }
}

/// What the node card says of a running node.
pub fn running_subtitle(mode: NodeMode) -> (r: &'static str)
    ensures
        r@ == spec_running_subtitle(mode),
{
    match mode {
        NodeMode::Tun => "Running",
        NodeMode::SystemProxy => "System proxy running",
        NodeMode::Proxy => "Proxy running",
    }
}

/// What a flip of the node switch asks for.
#[derive(Clone, Copy, Debug, PartialEq, Eq, Structural)]
pub enum SwitchAction {
    /// Nothing: the switch was set by the window itself, or already shows
    /// the node's state.
    Ignore,
    /// Put the switch back to this state: a start or stop is under way.
    Revert(bool),
    Start,
    Stop,
}

/// How the window shows a backend event.
#[derive(Clone, Copy, Debug, PartialEq, Eq, Structural)]
pub enum EventView {
    /// The node is starting: controls are locked.
    Starting,
    /// The node runs: the switch is on and the card says how.
    Started(NodeMode),
    /// The node stopped: the switch is off and the addresses are cleared.
    Stopped,
    /// An error dialog, after showing the node stopped where a start or a
    /// stop was under way.
    Failed { stopped: bool },
    /// The peers' icons follow the reported states.
    PeerStatus,
    /// A discovery result, for the discovery dialog with this request.
    Discovery(u64),
}

/// What the window keeps of the node's state.
#[derive(Clone, Copy, Debug, PartialEq, Eq, Structural)]
pub struct UiState {
    pub running: bool,
    /// A start or a stop is under way.
    pub transitioning: bool,
    /// The window itself just changed the switch.
    pub suppress_switch: bool,
}

impl UiState {
    /// Stopped, nothing under way.
    pub fn new() -> (r: UiState)
        ensures
            !r.running,
            !r.transitioning,
            !r.suppress_switch,
    {
        UiState { running: false, transitioning: false, suppress_switch: false }
    }

    /// Sets the switch to a state; tells whether it has to change, in which
    /// case the change it makes is not taken for the user's.
    pub fn set_switch(&mut self, shown: bool, enabled: bool) -> (change: bool)
        ensures
            change == (shown != enabled),
            final(self).suppress_switch == (old(self).suppress_switch || change),
            final(self).running == old(self).running,
            final(self).transitioning == old(self).transitioning,
    {
        if shown != enabled {
            self.suppress_switch = true;
            true
        } else {
            false
        }
    }

    /// The switch was flipped to `desired`.
    pub fn on_switch(&mut self, desired: bool) -> (r: SwitchAction)
        ensures
            old(self).suppress_switch ==> r == SwitchAction::Ignore && *final(self) == (UiState {
                suppress_switch: false,
                ..*old(self)
            }),
            !old(self).suppress_switch && old(self).transitioning ==> r == SwitchAction::Revert(
                old(self).running,
            ) && *final(self) == *old(self),
            !old(self).suppress_switch && !old(self).transitioning && desired == old(self).running
                ==> r == SwitchAction::Ignore && *final(self) == *old(self),
            !old(self).suppress_switch && !old(self).transitioning && desired != old(self).running
                ==> r == (if desired {
                SwitchAction::Start
            } else {
                SwitchAction::Stop
            }) && *final(self) == (UiState { transitioning: true, ..*old(self) }),
    {
        if self.suppress_switch {
            self.suppress_switch = false;
            return SwitchAction::Ignore;
        }
        if self.transitioning {
            return SwitchAction::Revert(self.running);
        }
        if desired == self.running {
            return SwitchAction::Ignore;
        }
        self.transitioning = true;
        if desired {
            SwitchAction::Start
        } else {
            SwitchAction::Stop
        }
    }

    /// Takes in a backend event.
    pub fn on_event(&mut self, event: &BackendEvent) -> (r: EventView)
        ensures
            final(self).suppress_switch == old(self).suppress_switch,
            match *event {
                BackendEvent::Starting => r == EventView::Starting && final(self).transitioning
                    && final(self).running == old(self).running,
                BackendEvent::Started { mode, .. } => r == EventView::Started(mode)
                    && final(self).running && !final(self).transitioning,
                BackendEvent::Stopped => r == EventView::Stopped && !final(self).running
                    && !final(self).transitioning,
                BackendEvent::Failed(_) => r == (EventView::Failed {
                    stopped: old(self).transitioning,
                }) && if old(self).transitioning {
                    !final(self).running && !final(self).transitioning
                } else {
                    *final(self) == *old(self)
                },
                BackendEvent::PeerStatus(_) => r == EventView::PeerStatus && *final(self)
                    == *old(self),
                BackendEvent::DiscoveryFinished { id, .. } => r == EventView::Discovery(id)
                    && *final(self) == *old(self),
            },
    {
        match event {
            BackendEvent::Starting => {
                self.transitioning = true;
                EventView::Starting
            },
            BackendEvent::Started { mode, .. } => {
                self.running = true;
                self.transitioning = false;
                EventView::Started(*mode)
            },
            BackendEvent::Stopped => {
                self.running = false;
                self.transitioning = false;
                EventView::Stopped
            },
            BackendEvent::Failed(_) => {
                let stopped = self.transitioning;
                if stopped {
                    self.running = false;
                    self.transitioning = false;
                }
                EventView::Failed { stopped }
            },
            BackendEvent::PeerStatus(_) => EventView::PeerStatus,
            BackendEvent::DiscoveryFinished { id, .. } => EventView::Discovery(*id),
        }
    }

    /// Whether the connection settings can be edited: not while the node
    /// runs, and not while the controls are locked.
    pub fn connection_editable(&self, sensitive: bool) -> (r: bool)
        ensures
            r == (sensitive && !self.running),
    {
        sensitive && !self.running
    }

    /// The notice for a setting that only a restart applies: shown while the
    /// node runs.
    pub fn restart_notice(&self, key_changed: bool) -> (r: Option<&'static str>)
        ensures
            !self.running ==> r is None,
            self.running ==> (r matches Some(t) && t@ == (if key_changed {
                "The new key will be applied after restarting Yggdrasil"@
            } else {
                "Connection mode will be applied after restarting Yggdrasil"@
            })),
    {
        if !self.running {
            None
        } else if key_changed {
            Some("The new key will be applied after restarting Yggdrasil")
        } else {
            Some("Connection mode will be applied after restarting Yggdrasil")
        }
    }
}

/// The icon of a configured peer: its own while it is up or while the node
/// does not run, an error icon for a peer that is not up on a running node.
pub fn peer_state_icon(up: Option<bool>, running: bool, own_icon: &'static str) -> (r: &'static str)
    ensures
        r@ == (if up == Some(true) || !running {
            own_icon@
        } else {
            "network-error-symbolic"@
        }),
{
    if up == Some(true) {
        own_icon
    } else if running {
        "network-error-symbolic"
    } else {
        own_icon
    }
}

proof fn lemma_entries_map_tail(entries: Seq<(String, bool)>, i: int, key: Seq<char>)
    requires
        0 <= i <= entries.len(),
        forall|k: int| i <= k < entries.len() ==> #[trigger] entries[k].0@ != key,
    ensures
        entries_map(entries).contains_key(key) == entries_map(entries.take(i)).contains_key(key),
        entries_map(entries).contains_key(key) ==> entries_map(entries)[key] == entries_map(
            entries.take(i),
        )[key],
    decreases entries.len() - i,
{
    if i < entries.len() {
        assert(entries.drop_last().take(i) =~= entries.take(i));
        lemma_entries_map_tail(entries.drop_last(), i, key);
    } else {
        assert(entries.take(i) =~= entries);
    }
}

/// The reported state of a peer: the last report under its key.
pub fn reported_state(status: &[(String, bool)], key: &str) -> (r: Option<bool>)
    ensures
        r == entries_map(status@).get(key@) ,
{
    let wanted = chars_of(key);
    let mut i: usize = status.len();
    while i > 0
        invariant
            i <= status@.len(),
            wanted@ == key@,
            forall|k: int| i <= k < status@.len() ==> #[trigger] status@[k].0@ != key@,
        decreases i,
    {
        if chars_eq(chars_of(status[i - 1].0.as_str()).as_slice(), wanted.as_slice()) {
            proof {
                lemma_entries_map_tail(status@, i as int, key@);
                assert(status@.take(i as int).drop_last() =~= status@.take(i - 1));
            }
            return Some(status[i - 1].1);
        }
        i = i - 1;
    }
    proof {
        lemma_entries_map_tail(status@, 0, key@);
    }
    None
}

/// Whether a copy row has something to copy.
pub fn copyable(text: &str) -> (r: bool)
    ensures
        r == (text@.len() > 0 && text@ != "\u{2013}"@),
{
    let chars = chars_of(text);
    chars.len() > 0 && !chars_eq(chars.as_slice(), chars_of("\u{2013}").as_slice())
}

/// What opening or refreshing the discovery dialog does.
#[derive(Debug)]
pub enum DiscoveryPlan {
    /// No protocol is selected.
    NoProtocols,
    /// The results of an earlier search for these protocols.
    Cached(Vec<DiscoveredPeer>),
    /// A new search, under this request number.
    Search { id: u64 },
}

fn copy_peers(peers: &[DiscoveredPeer]) -> (r: Vec<DiscoveredPeer>)
    ensures
        r@ == peers@,
{
    let mut out: Vec<DiscoveredPeer> = Vec::new();
    let mut i: usize = 0;
    while i < peers.len()
        invariant
            i <= peers@.len(),
            out@ == peers@.take(i as int),
        decreases peers.len() - i,
    {
        out.push(peers[i].clone());
        i = i + 1;
        assert(out@ =~= peers@.take(i as int));
    }
    assert(peers@.take(i as int) =~= peers@);
    out
}

/// Decides what a discovery does: nothing without a protocol, the cached
/// results unless a refresh was asked for, else a search under a new
/// request number.
pub fn plan_discovery(
    protocols: &[String],
    refresh: bool,
    cache: &DiscoveryCache,
    next_id: &mut u64,
) -> (r: DiscoveryPlan)
    ensures
        protocols@.len() == 0 ==> (r matches DiscoveryPlan::NoProtocols) && *final(next_id) == *old(
            next_id,
        ),
        protocols@.len() > 0 && !refresh && cache@.contains_key(protocol_key(protocols@)) ==> (
        r matches DiscoveryPlan::Cached(p) && p@ == cache@[protocol_key(protocols@)])
            && *final(next_id) == *old(next_id),
        protocols@.len() > 0 && (refresh || !cache@.contains_key(protocol_key(protocols@))) ==> (
        r matches DiscoveryPlan::Search { id } && id == *old(next_id)) && *final(next_id)
            == successor(*old(next_id)),
{
    if protocols.len() == 0 {
        return DiscoveryPlan::NoProtocols;
    }
    if !refresh {
        match cache.get(protocols) {
            Some(peers) => {
                return DiscoveryPlan::Cached(copy_peers(peers));
            },
            None => {},
        }
    }
    let id = *next_id;
    *next_id = if id == u64::MAX {
        0
    } else {
        id + 1
    };
    DiscoveryPlan::Search { id }
}

/// Takes in a search's result: found peers are cached for the request's
/// protocols and shown, a failed search forgets what was cached for them.
pub fn record_discovery(
    cache: &mut DiscoveryCache,
    protocols: &[String],
    result: Result<Vec<DiscoveredPeer>, String>,
) -> (r: Option<Vec<DiscoveredPeer>>)
    ensures
        match result {
            Ok(peers) => (r matches Some(p) && p@ == peers@) && final(cache)@ == old(cache)@.insert(
                protocol_key(protocols@),
                peers@,
            ),
            Err(_) => r is None && final(cache)@ == old(cache)@.remove(protocol_key(protocols@)),
        },
{
    match result {
        Ok(peers) => {
            let kept = copy_peers(peers.as_slice());
            cache.insert(protocols, peers);
            Some(kept)
        },
        Err(_) => {
            cache.remove(protocols);
            None
        },
    }
}

/// The order that a position of the discovery dialog's sort selector picks:
/// by country at the second position, by round trip otherwise.
pub open spec fn selected_order(sort_selected: u32) -> PeerOrder {
    if sort_selected == 1 {
        PeerOrder::ByCountry
    } else {
        PeerOrder::ByPing
    }
}

/// The peers the discovery dialog lists: those of the enabled protocols,
/// by country (the selector's second position) or by round trip.
pub fn visible_peers(peers: &Vec<DiscoveredPeer>, enabled: &Vec<String>, sort_selected: u32) -> (r:
    Vec<DiscoveredPeer>)
    ensures
        r@.to_multiset() == peers@.filter(
            |p: DiscoveredPeer| string_views(enabled@).contains(p.protocol@),
        ).to_multiset(),
        sorted_by(selected_order(sort_selected), r@),
        forall|q: DiscoveredPeer|
            #[trigger] r@.filter(
                ties(
                    selected_order(sort_selected),
                    q,
                ),
            ) == peers@.filter(
                |p: DiscoveredPeer| string_views(enabled@).contains(p.protocol@),
            ).filter(
                ties(
                    selected_order(sort_selected),
                    q,
                ),
            ),
{
    let shown = filter_by_protocol(peers, enabled);
    let order = if sort_selected == 1 {
        PeerOrder::ByCountry
    } else {
        PeerOrder::ByPing
    };
    sort_peers(shown, order)
}

/// The discovery dialog's status line for a number of listed peers.
pub open spec fn spec_discovery_status(count: nat) -> Seq<char> {
    if count == 0 {
        "No peers available"@
    } else {
        "Shown "@ + decimal(count) + " peers"@
    }
}

/// The discovery dialog's status line for a number of listed peers.
pub fn discovery_status(count: usize) -> (r: String)
    ensures
        r@ == spec_discovery_status(count as nat),
{
    if count == 0 {
        return String::from_str("No peers available");
    }
    let mut out = chars_of("Shown ");
    extend_chars(&mut out, &decimal_chars(count as u64));
    extend_chars(&mut out, &chars_of(" peers"));
    string_from_chars(&out)
}

/// A listed peer's round trip: `–` when unknown.
pub fn ping_label(ping: Option<u64>) -> (r: String)
    ensures
        r@ == (match ping {
            Some(ms) => decimal(ms as nat) + " ms"@,
            None => "\u{2013}"@,
        }),
{
    match ping {
        Some(ms) => {
            let mut out = decimal_chars(ms);
            extend_chars(&mut out, &chars_of(" ms"));
            string_from_chars(&out)
        },
        None => String::from_str("\u{2013}"),
    }
}

/// A listed peer's subtitle: its protocol in capitals and its country.
pub fn peer_row_subtitle(protocol: &str, country: &str) -> (r: String)
    ensures
        r@ == uppercase(protocol@) + " \u{2022} "@ + country@,
{
    let mut out = chars_of(to_uppercase(protocol).as_str());
    extend_chars(&mut out, &chars_of(" \u{2022} "));
    extend_chars(&mut out, &chars_of(country));
    string_from_chars(&out)
}

/// The value of the last query pair with this key.
pub open spec fn last_value(pairs: Seq<(Seq<char>, Seq<char>)>, key: Seq<char>) -> Option<Seq<char>>
    decreases pairs.len(),
{
    if pairs.len() == 0 {
        None
    } else if pairs.last().0 == key {
        Some(pairs.last().1)
    } else {
        last_value(pairs.drop_last(), key)
    }
}

/// What the add-peer dialog starts with for a discovered peer.
#[derive(Debug)]
pub struct PeerDialogFields {
    /// The position of the peer's protocol in the protocol selector.
    pub protocol: u32,
    pub endpoint: String,
    /// The peer URI's `sni` query value, if it has one.
    pub sni: Option<String>,
    /// The peer URI's `password` query value, if it has one.
    pub password: Option<String>,
}

/// Fills the add-peer dialog from a discovered peer: its protocol, its
/// endpoint, and the SNI and password of its URI's query.
pub fn dialog_fields(peer: &DiscoveredPeer) -> (r: PeerDialogFields)
    ensures
        protocol_names().contains(peer.protocol@) ==> protocol_names()[r.protocol as int]
            == peer.protocol@,
        !protocol_names().contains(peer.protocol@) ==> r.protocol == 0,
        r.endpoint@ == spec_format_endpoint(peer.host@, peer.port),
        match url_parse(peer.address@) {
            Some(u) => crate::urls::option_view(r.sni) == last_value(u.query_pairs, "sni"@)
                && crate::urls::option_view(r.password) == last_value(u.query_pairs, "password"@),
            None => r.sni is None && r.password is None,
        },
{
    let protocol = protocol_index(peer.protocol.as_str());
    let endpoint = format_endpoint(peer.host.as_str(), peer.port);
    let mut sni: Option<String> = None;
    let mut password: Option<String> = None;
    match parse_url(peer.address.as_str()) {
        Some(u) => {
            let ghost pv = pairs_view(u.query_pairs@);
            let sni_key = chars_of("sni");
            let password_key = chars_of("password");
            proof {
                reveal_strlit("sni");
                reveal_strlit("password");
            }
            assert("sni"@ != "password"@) by {
                assert("sni"@.len() == 3);
                assert("password"@.len() == 8);
            }
            let mut i: usize = 0;
            while i < u.query_pairs.len()
                invariant
                    i <= u.query_pairs@.len(),
                    pv == pairs_view(u.query_pairs@),
                    sni_key@ == "sni"@,
                    password_key@ == "password"@,
                    "sni"@ != "password"@,
                    crate::urls::option_view(sni) == last_value(pv.take(i as int), "sni"@),
                    crate::urls::option_view(password) == last_value(pv.take(i as int), "password"@),
                decreases u.query_pairs.len() - i,
            {
                let key = chars_of(u.query_pairs[i].0.as_str());
                assert(pv.take(i + 1).drop_last() =~= pv.take(i as int));
                assert(pv.take(i + 1).last() == (u.query_pairs@[i as int].0@, u.query_pairs@[i as int].1@));
                if chars_eq(key.as_slice(), sni_key.as_slice()) {
                    sni = Some(u.query_pairs[i].1.clone());
                } else if chars_eq(key.as_slice(), password_key.as_slice()) {
                    password = Some(u.query_pairs[i].1.clone());
                }
                i = i + 1;
            }
            assert(pv.take(i as int) =~= pv);
        },
        None => {},
    }
    PeerDialogFields { protocol, endpoint, sni, password }
}

/// A setting as it is stored: the edited text without surrounding whitespace.
pub fn trimmed_text(text: &str) -> (r: String)
    ensures
        r@ == trim(text@),
{
    string_from_chars(&trimmed(&chars_of(text)))
}

/// The state of the add-peer dialog's checks.
#[derive(Clone, Copy, Debug, PartialEq, Eq, Structural)]
pub struct PeerDialogCheck {
    /// The endpoint makes a URI with a host and a port.
    pub endpoint_ok: bool,
    /// The endpoint's error is shown: it is wrong and not empty.
    pub endpoint_error: bool,
    /// The SNI field is shown: for TLS only.
    pub sni_shown: bool,
    /// The SNI is empty, a host name, or not asked for.
    pub sni_ok: bool,
    /// The peer can be added.
    pub can_add: bool,
}

/// Checks the add-peer dialog's fields for the selected protocol.
pub fn check_peer_dialog(protocol: &str, endpoint: &str, sni: &str) -> (r: PeerDialogCheck)
    ensures
        r.endpoint_ok == (url_parse(peer_uri_text(protocol@, trim(endpoint@))) matches Some(u)
            && u.host.is_some() && u.port.is_some()),
        r.endpoint_error == (!r.endpoint_ok && endpoint@.len() > 0),
        r.sni_shown == (protocol@ == "tls"@),
        r.sni_ok == (protocol@ != "tls"@ || trim(sni@).len() == 0 || regex_match(
            "^(?:[A-Za-z0-9](?:[A-Za-z0-9-]{0,61}[A-Za-z0-9])?\\.)+[A-Za-z]{2,63}$"@,
            trim(sni@),
        ) == Some(true)),
        r.can_add == (r.endpoint_ok && r.sni_ok),
{
    let endpoint_text = trimmed_text(endpoint);
    let endpoint_ok = validate_endpoint(protocol, endpoint_text.as_str());
    let endpoint_error = !endpoint_ok && !endpoint.is_empty();
    let tls = chars_eq(chars_of(protocol).as_slice(), chars_of("tls").as_slice());
    let sni_text = trimmed_text(sni);
    let sni_ok = !tls || sni_text.as_str().is_empty() || valid_hostname(sni_text.as_str());
    PeerDialogCheck { endpoint_ok, endpoint_error, sni_shown: tls, sni_ok, can_add: endpoint_ok && sni_ok }
}

/// The peer URI that the add-peer dialog's fields make, each field trimmed.
pub fn dialog_peer_uri(protocol: &str, endpoint: &str, sni: &str, password: &str) -> (r: Option<
    String,
>)
    ensures
        r.is_some() == url_parse(peer_uri_text(protocol@, trim(endpoint@))).is_some(),
        match r {
            Some(uri) => crate::urls::url_with_pairs(
                peer_uri_text(protocol@, trim(endpoint@)),
                crate::peers::peer_query_pairs(protocol@, trim(sni@), trim(password@)),
            ) matches Some(t) && uri@ == crate::text::trim_suffix_repeatedly(t, "/"@),
            None => true,
        },
{
    let e = trimmed_text(endpoint);
    let s = trimmed_text(sni);
    let p = trimmed_text(password);
    build_peer_uri(protocol, e.as_str(), s.as_str(), p.as_str())
}

/// The command line without `--debug`, and whether `--debug` was given.
pub fn split_debug_flag(arguments: Vec<String>) -> (r: (Vec<String>, bool))
    ensures
        string_views(r.0@) == spec_remove_peer(string_views(arguments@), "--debug"@),
        r.1 == string_views(arguments@).contains("--debug"@),
{
    let ghost original = string_views(arguments@);
    let ghost pred = other_than("--debug"@);
    let flag = chars_of("--debug");
    let mut kept: Vec<String> = Vec::new();
    let mut debug = false;
    let mut i: usize = 0;
    assert(original.take(0).filter(pred) =~= Seq::<Seq<char>>::empty());
    while i < arguments.len()
        invariant
            i <= arguments@.len(),
            original == string_views(arguments@),
            pred == other_than("--debug"@),
            flag@ == "--debug"@,
            string_views(kept@) == original.take(i as int).filter(pred),
            debug == original.take(i as int).contains("--debug"@),
        decreases arguments.len() - i,
    {
        reveal_with_fuel(Seq::<_>::filter, 1);
        let ghost before_prefix = original.take(i as int);
        assert(original.take(i + 1).drop_last() =~= before_prefix);
        assert(original.take(i + 1) =~= before_prefix.push(arguments@[i as int]@));
        if chars_eq(chars_of(arguments[i].as_str()).as_slice(), flag.as_slice()) {
            debug = true;
            assert(original.take(i + 1)[i as int] == "--debug"@);
        } else {
            let ghost before = kept@;
            kept.push(arguments[i].clone());
            assert(string_views(kept@) =~= string_views(before).push(arguments@[i as int]@));
            assert(original.take(i + 1).contains("--debug"@) == before_prefix.contains("--debug"@))
                by {
                let longer = original.take(i + 1);
                if longer.contains("--debug"@) {
                    let k = choose|k: int| 0 <= k < longer.len() && #[trigger] longer[k] == "--debug"@;
                    if k < i {
                        assert(before_prefix[k] == "--debug"@);
                    }
                }
            }
        }
        i = i + 1;
    }
    assert(original.take(i as int) =~= original);
    (kept, debug)
}

/// Texts in `text_le` order.
pub open spec fn sorted_texts(s: Seq<String>) -> bool {
    forall|i: int, j: int| 0 <= i < j < s.len() ==> text_le(#[trigger] s[i]@, #[trigger] s[j]@)
}

/// The configured peers in the order they are listed: sorted as strings.
pub fn sorted_peers(peers: Vec<String>) -> (r: Vec<String>)
    ensures
        r@.to_multiset() == peers@.to_multiset(),
        sorted_texts(r@),
{
    let ghost all = peers@.to_multiset();
    let mut input = peers;
    let mut out: Vec<String> = Vec::new();
    while input.len() > 0
        invariant
            out@.to_multiset().add(input@.to_multiset()) == all,
            sorted_texts(out@),
        decreases input.len(),
    {
        let ghost before_input = input@;
        let p = input.pop().unwrap();
        assert(before_input =~= input@.push(p));
        let pv = chars_of(p.as_str());
        let mut pos: usize = 0;
        while pos < out.len() && chars_le(chars_of(out[pos].as_str()).as_slice(), pv.as_slice())
            invariant
                pos <= out@.len(),
                pv@ == p@,
                forall|k: int| 0 <= k < pos ==> text_le(#[trigger] out@[k]@, p@),
            decreases out.len() - pos,
        {
            pos = pos + 1;
        }
        proof {
            if pos < out@.len() {
                lemma_text_le_total(out@[pos as int]@, p@);
                assert forall|k: int| pos <= k < out@.len() implies text_le(
                    p@,
                    #[trigger] out@[k]@,
                ) by {
                    if k > pos {
                        lemma_text_le_transitive(p@, out@[pos as int]@, out@[k]@);
                    }
                }
            }
        }
        let ghost old_out = out@;
        out.insert(pos, p);
        assert(out@ == old_out.insert(pos as int, p));
        assert forall|i: int, j: int| 0 <= i < j < out@.len() implies text_le(
            #[trigger] out@[i]@,
            #[trigger] out@[j]@,
        ) by {
            if j < pos {
                assert(out@[i] == old_out[i] && out@[j] == old_out[j]);
            } else if j == pos {
                assert(out@[i] == old_out[i]);
            } else if i == pos {
                assert(out@[j] == old_out[j - 1]);
            } else if i < pos {
                assert(out@[i] == old_out[i] && out@[j] == old_out[j - 1]);
            } else {
                assert(out@[i] == old_out[i - 1] && out@[j] == old_out[j - 1]);
            }
        }
        assert(out@.to_multiset().add(input@.to_multiset()) =~= all);
    }
    out
}

} // verus!
