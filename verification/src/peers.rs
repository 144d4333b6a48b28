//! Peer URIs as the front end handles them: endpoints, the URI a peer dialog
//! builds, how a configured peer is displayed, and the cache of discovery
//! results by requested protocols.
use vstd::prelude::*;
use vstd::multiset::Multiset;
use crate::discovery::{DiscoveredPeer, string_views};
use crate::text::{
    chars_eq, chars_of, decimal, decimal_chars, extend_chars, first_index_of, string_from_chars,
    to_uppercase, trim_end_matching, trim_suffix_repeatedly, uppercase,
};
use crate::urls::{UrlView, parse_url, serialize_url_with_pairs, url_parse, url_with_pairs};

verus! {

broadcast use vstd::seq_lib::group_to_multiset_ensures;

/// A host and port as an endpoint: IPv6 literals are bracketed.
pub open spec fn spec_format_endpoint(host: Seq<char>, port: u16) -> Seq<char> {
    if host.contains(':') && !(host.len() > 0 && host[0] == '[') {
        "["@ + host + "]:"@ + decimal(port as nat)
    } else {
        host + ":"@ + decimal(port as nat)
    }
}

fn format_endpoint_chars(host: &[char], port: u16) -> (r: Vec<char>)
    ensures
        r@ == spec_format_endpoint(host@, port),
{
    let mut out: Vec<char> = Vec::new();
    let has_colon = match first_index_of(host, ':') {
        Some(i) => {
            assert(host@[i as int] == ':');
            true
        },
        None => false,
    };
    let bracketed = host.len() > 0 && host[0] == '[';
    let digits = decimal_chars(port as u64);
    if has_colon && !bracketed {
        extend_chars(&mut out, &chars_of("["));
        extend_chars(&mut out, host);
        extend_chars(&mut out, &chars_of("]:"));
    } else {
        extend_chars(&mut out, host);
        extend_chars(&mut out, &chars_of(":"));
    }
    extend_chars(&mut out, &digits);
    out
}

/// Writes a host and a port as `host:port`, bracketing IPv6 literals.
pub fn format_endpoint(host: &str, port: u16) -> (r: String)
    ensures
        r@ == spec_format_endpoint(host@, port),
{
    string_from_chars(&format_endpoint_chars(&chars_of(host), port))
}

/// The URI text that a protocol and an endpoint make.
pub open spec fn peer_uri_text(protocol: Seq<char>, endpoint: Seq<char>) -> Seq<char> {
    protocol + "://"@ + endpoint
}

fn uri_text(protocol: &str, endpoint: &str) -> (r: String)
    ensures
        r@ == peer_uri_text(protocol@, endpoint@),
{
    let mut out = chars_of(protocol);
    extend_chars(&mut out, &chars_of("://"));
    extend_chars(&mut out, &chars_of(endpoint));
    string_from_chars(&out)
}

/// Whether a peer dialog's endpoint makes a URI with a host and a port (a
/// known default port counts).
pub fn validate_endpoint(protocol: &str, endpoint: &str) -> (r: bool)
    ensures
        r == (url_parse(peer_uri_text(protocol@, endpoint@)) matches Some(u) && u.host.is_some()
            && u.port.is_some()),
{
    let text = uri_text(protocol, endpoint);
    match parse_url(text.as_str()) {
        Some(u) => u.host.is_some() && u.port.is_some(),
        None => false,
    }
}

/// What the `regex` crate's `Regex::new(pattern)` and `is_match(text)` give:
/// `None` where the pattern does not compile.
pub uninterp spec fn regex_match(pattern: Seq<char>, text: Seq<char>) -> Option<bool>;

/// Calls `regex::Regex::new` and `Regex::is_match`; the contract claims only
/// that the result is the one named by `regex_match`.
#[verifier::external_body]
fn regex_is_match(pattern: &str, text: &str) -> (r: Option<bool>)
    ensures
        r == regex_match(pattern@, text@),
{
    regex::Regex::new(pattern).ok().map(|re| re.is_match(text))
}

/// A dotted host name of letter-digit-hyphen labels ending in a label of
/// letters, as an SNI value must be.
pub fn valid_hostname(value: &str) -> (r: bool)
    ensures
        r == (regex_match(
            "^(?:[A-Za-z0-9](?:[A-Za-z0-9-]{0,61}[A-Za-z0-9])?\\.)+[A-Za-z]{2,63}$"@,
            value@,
        ) == Some(true)),
{
    match regex_is_match(
        "^(?:[A-Za-z0-9](?:[A-Za-z0-9-]{0,61}[A-Za-z0-9])?\\.)+[A-Za-z]{2,63}$",
        value,
    ) {
        Some(matched) => matched,
        None => false,
    }
}

/// The query pairs of a peer URI: the SNI of a TLS peer and the password,
/// each when given.
pub open spec fn peer_query_pairs(protocol: Seq<char>, sni: Seq<char>, password: Seq<char>) -> Seq<
    (Seq<char>, Seq<char>),
> {
    (if protocol == "tls"@ && sni.len() > 0 {
        seq![("sni"@, sni)]
    } else {
        Seq::empty()
    }) + (if password.len() > 0 {
        seq![("password"@, password)]
    } else {
        Seq::empty()
    })
}

/// Builds the URI of a peer from the dialog's fields: the endpoint with the
/// protocol's scheme, the SNI (TLS only) and the password as form-encoded
/// query pairs, and no trailing slashes. `None` where the URI does not parse.
pub fn build_peer_uri(protocol: &str, endpoint: &str, sni: &str, password: &str) -> (r: Option<
    String,
>)
    ensures
        r.is_some() == url_parse(peer_uri_text(protocol@, endpoint@)).is_some(),
        match r {
            Some(uri) => url_with_pairs(
                peer_uri_text(protocol@, endpoint@),
                peer_query_pairs(protocol@, sni@, password@),
            ) matches Some(t) && uri@ == trim_suffix_repeatedly(t, "/"@),
            None => true,
        },
{
    let text = uri_text(protocol, endpoint);
    let mut pairs: Vec<(String, String)> = Vec::new();
    let is_tls = chars_eq(&chars_of(protocol), &chars_of("tls"));
    if is_tls && !sni.is_empty() {
        pairs.push((String::from_str("sni"), String::from_str(sni)));
    }
    if !password.is_empty() {
        pairs.push((String::from_str("password"), String::from_str(password)));
    }
    assert(crate::urls::pairs_view(pairs@) =~= peer_query_pairs(protocol@, sni@, password@));
    match serialize_url_with_pairs(text.as_str(), &pairs) {
        Some(uri) => {
            let trimmed = trim_end_matching(&chars_of(uri.as_str()), &chars_of("/"));
            Some(string_from_chars(&trimmed))
        },
        None => None,
    }
}

/// The labels that a peer's query pairs add to its description.
pub open spec fn query_labels(pairs: Seq<(Seq<char>, Seq<char>)>) -> Seq<Seq<char>>
    decreases pairs.len(),
{
    if pairs.len() == 0 {
        seq![]
    } else {
        query_labels(pairs.drop_last()) + if pairs.last().0 == "sni"@ {
            seq!["SNI: "@ + pairs.last().1]
        } else if pairs.last().0 == "password"@ {
            seq!["Password"@]
        } else {
            Seq::<Seq<char>>::empty()
        }
    }
}

/// The parts joined by a separator.
pub open spec fn join(parts: Seq<Seq<char>>, sep: Seq<char>) -> Seq<char>
    decreases parts.len(),
{
    if parts.len() == 0 {
        seq![]
    } else if parts.len() == 1 {
        parts[0]
    } else {
        join(parts.drop_last(), sep) + sep + parts.last()
    }
}

/// The icon of a peer by its scheme.
pub open spec fn peer_icon(scheme: Seq<char>) -> Seq<char> {
    if scheme == "quic"@ {
        "network-transmit-receive-symbolic"@
    } else if scheme == "ws"@ || scheme == "wss"@ {
        "web-browser-symbolic"@
    } else {
        "network-wired-symbolic"@
    }
}

/// The title of a parsed peer: its endpoint, or its host alone when it has
/// no port.
pub open spec fn peer_title(u: UrlView) -> Seq<char> {
    let host = match u.host_str {
        Some(h) => h,
        None => "Unknown"@,
    };
    match u.port {
        Some(port) => spec_format_endpoint(host, port),
        None => host,
    }
}

/// How a configured peer is listed: a title, a subtitle and an icon name.
pub open spec fn spec_peer_display(peer: Seq<char>) -> (Seq<char>, Seq<char>, Seq<char>) {
    match url_parse(peer) {
        None => (peer, "Invalid peer URI"@, "network-error-symbolic"@),
        Some(u) => (
            peer_title(u),
            join(seq![uppercase(u.scheme)] + query_labels(u.query_pairs), " \u{2022} "@),
            peer_icon(u.scheme),
        ),
    }
}

/// Describes a configured peer: its endpoint, its scheme in capitals with
/// its SNI and whether it has a password, and an icon for its transport.
pub fn peer_display(peer: &str) -> (r: (String, String, &'static str))
    ensures
        (r.0@, r.1@, r.2@) == spec_peer_display(peer@),
{
    let u = match parse_url(peer) {
        Some(u) => u,
        None => {
            return (String::from_str(peer), String::from_str("Invalid peer URI"), "network-error-symbolic");
        },
    };
    let host = match &u.host_str {
        Some(h) => chars_of(h.as_str()),
        None => chars_of("Unknown"),
    };
    let title = match u.port {
        Some(port) => format_endpoint_chars(&host, port),
        None => host,
    };
    let sep = chars_of(" \u{2022} ");
    let mut subtitle = chars_of(to_uppercase(u.scheme.as_str()).as_str());
    let ghost first = subtitle@;
    let sni = chars_of("sni");
    let password = chars_of("password");
    let sni_label = chars_of("SNI: ");
    let password_label = chars_of("Password");
    let mut i: usize = 0;
    let ghost pv = crate::urls::pairs_view(u.query_pairs@);
    assert(pv.take(0) =~= Seq::<(Seq<char>, Seq<char>)>::empty());
    assert(join(seq![first], sep@) == first);
    assert(seq![first] + query_labels(pv.take(0)) =~= seq![first]);
    while i < u.query_pairs.len()
        invariant
            i <= u.query_pairs@.len(),
            pv == crate::urls::pairs_view(u.query_pairs@),
            sep@ == " \u{2022} "@,
            sni@ == "sni"@,
            password@ == "password"@,
            sni_label@ == "SNI: "@,
            password_label@ == "Password"@,
            subtitle@ == join(seq![first] + query_labels(pv.take(i as int)), sep@),
        decreases u.query_pairs.len() - i,
    {
        let (key, value) = &u.query_pairs[i];
        let key_chars = chars_of(key.as_str());
        let ghost labels = seq![first] + query_labels(pv.take(i as int));
        assert(pv.take(i + 1).drop_last() =~= pv.take(i as int));
        assert(pv.take(i + 1).last() == (key@, value@));
        if chars_eq(&key_chars, &sni) {
            let mut label = sni_label.clone();
            extend_chars(&mut label, &chars_of(value.as_str()));
            extend_chars(&mut subtitle, &sep);
            extend_chars(&mut subtitle, &label);
            assert(seq![first] + query_labels(pv.take(i + 1)) =~= labels.push(label@));
            assert(labels.push(label@).drop_last() =~= labels);
        } else if chars_eq(&key_chars, &password) {
            extend_chars(&mut subtitle, &sep);
            extend_chars(&mut subtitle, &password_label);
            assert(seq![first] + query_labels(pv.take(i + 1)) =~= labels.push(password_label@));
            assert(labels.push(password_label@).drop_last() =~= labels);
        } else {
            assert(seq![first] + query_labels(pv.take(i + 1)) =~= labels);
        }
        i = i + 1;
    }
    assert(pv.take(i as int) =~= pv);
    let scheme = chars_of(u.scheme.as_str());
    let icon = if chars_eq(&scheme, &chars_of("quic")) {
        "network-transmit-receive-symbolic"
    } else if chars_eq(&scheme, &chars_of("ws")) || chars_eq(&scheme, &chars_of("wss")) {
        "web-browser-symbolic"
    } else {
        "network-wired-symbolic"
    };
    (string_from_chars(&title), string_from_chars(&subtitle), icon)
}

/// A discovery request's protocols, regardless of their order.
pub open spec fn protocol_key(protocols: Seq<String>) -> Multiset<Seq<char>> {
    string_views(protocols).to_multiset()
}

/// Entries without the ones requested with the given protocols.
pub open spec fn other_entries(
    entries: Seq<(Vec<String>, Vec<DiscoveredPeer>)>,
    key: Multiset<Seq<char>>,
) -> Seq<(Vec<String>, Vec<DiscoveredPeer>)>
    decreases entries.len(),
{
    if entries.len() == 0 {
        seq![]
    } else {
        (if protocol_key(entries[0].0@) == key {
            Seq::empty()
        } else {
            seq![entries[0]]
        }) + other_entries(entries.drop_first(), key)
    }
}

/// The results that the entries hold, by request; an earlier entry wins.
pub open spec fn cache_map(entries: Seq<(Vec<String>, Vec<DiscoveredPeer>)>) -> Map<
    Multiset<Seq<char>>,
    Seq<DiscoveredPeer>,
>
    decreases entries.len(),
{
    if entries.len() == 0 {
        Map::empty()
    } else {
        cache_map(entries.drop_first()).insert(protocol_key(entries[0].0@), entries[0].1@)
    }
}

/// Discovery results by the set of protocols that were requested.
pub struct DiscoveryCache {
    entries: Vec<(Vec<String>, Vec<DiscoveredPeer>)>,
}

impl View for DiscoveryCache {
    type V = Map<Multiset<Seq<char>>, Seq<DiscoveredPeer>>;

    closed spec fn view(&self) -> Self::V {
        cache_map(self.entries@)
    }
}

impl Default for DiscoveryCache {
    fn default() -> (c: Self)
        ensures
            c@ == Map::<Multiset<Seq<char>>, Seq<DiscoveredPeer>>::empty(),
    {
        DiscoveryCache { entries: Vec::new() }
    }
}

proof fn lemma_string_views_push(v: Seq<String>, i: int)
    requires
        0 <= i < v.len(),
    ensures
        string_views(v.take(i + 1)) == string_views(v.take(i)).push(v[i]@),
{
    assert(string_views(v.take(i + 1)) =~= string_views(v.take(i)).push(v[i]@));
}

/// Whether two requests name the same protocols, in any order.
pub fn same_protocols(a: &[String], b: &[String]) -> (r: bool)
    ensures
        r == (protocol_key(a@) == protocol_key(b@)),
{
    if a.len() != b.len() {
        assert(protocol_key(a@).len() == string_views(a@).len());
        assert(protocol_key(b@).len() == string_views(b@).len());
        return false;
    }
    let mut rest: Vec<String> = Vec::new();
    let mut k: usize = 0;
    while k < b.len()
        invariant
            k <= b@.len(),
            rest@ == b@.take(k as int),
        decreases b.len() - k,
    {
        rest.push(b[k].clone());
        k = k + 1;
        assert(rest@ =~= b@.take(k as int));
    }
    assert(b@.take(k as int) =~= b@);
    let mut i: usize = 0;
    assert(string_views(a@.take(0)) =~= Seq::<Seq<char>>::empty());
    assert(string_views(a@.take(0)).to_multiset() =~= Multiset::<Seq<char>>::empty());
    while i < a.len()
        invariant
            a@.len() == b@.len(),
            i <= a@.len(),
            rest@.len() + i == b@.len(),
            string_views(a@.take(i as int)).to_multiset().add(string_views(rest@).to_multiset())
                == protocol_key(b@),
        decreases a.len() - i,
    {
        let mut j: usize = 0;
        while j < rest.len() && rest[j] != a[i]
            invariant
                j <= rest@.len(),
                i < a@.len(),
                forall|q: int| 0 <= q < j ==> rest@[q]@ != a@[i as int]@,
            decreases rest.len() - j,
        {
            j = j + 1;
        }
        proof {
            lemma_string_views_push(a@, i as int);
        }
        if j == rest.len() {
            proof {
                let x = a@[i as int]@;
                assert(!string_views(rest@).contains(x)) by {
                    if string_views(rest@).contains(x) {
                        let q = choose|q: int|
                            0 <= q < rest@.len() && string_views(rest@)[q] == x;
                        assert(rest@[q]@ == x);
                    }
                }
                let prefix = string_views(a@.take(i + 1));
                assert(string_views(a@) =~= prefix + string_views(a@.skip(i + 1)));
                vstd::seq_lib::lemma_multiset_commutative(prefix, string_views(a@.skip(i + 1)));
                assert(protocol_key(a@).count(x) >= prefix.to_multiset().count(x));
                assert(protocol_key(a@) != protocol_key(b@));
            }
            return false;
        }
        let ghost old_rest = string_views(rest@);
        assert(old_rest[j as int] == a@[i as int]@);
        rest.remove(j);
        assert(string_views(rest@) =~= old_rest.remove(j as int));
        i = i + 1;
        assert(string_views(a@.take(i as int)).to_multiset().add(string_views(rest@).to_multiset())
            =~= protocol_key(b@));
    }
    assert(a@.take(i as int) =~= a@);
    assert(string_views(rest@).len() == 0);
    assert(string_views(rest@) =~= Seq::<Seq<char>>::empty());
    assert(string_views(rest@).to_multiset() =~= Multiset::<Seq<char>>::empty());
    assert(protocol_key(a@).add(Multiset::empty()) =~= protocol_key(a@));
    true
}

proof fn lemma_cache_skip(
    entries: Seq<(Vec<String>, Vec<DiscoveredPeer>)>,
    idx: int,
    key: Multiset<Seq<char>>,
)
    requires
        0 <= idx <= entries.len(),
        forall|j: int| 0 <= j < idx ==> protocol_key(#[trigger] entries[j].0@) != key,
    ensures
        cache_map(entries).contains_key(key) == cache_map(entries.skip(idx)).contains_key(key),
        cache_map(entries).contains_key(key) ==> cache_map(entries)[key] == cache_map(
            entries.skip(idx),
        )[key],
    decreases idx,
{
    if idx > 0 {
        assert(entries.drop_first().skip(idx - 1) =~= entries.skip(idx));
        assert forall|j: int| 0 <= j < idx - 1 implies protocol_key(
            #[trigger] entries.drop_first()[j].0@,
        ) != key by {
            assert(entries.drop_first()[j] == entries[j + 1]);
        }
        lemma_cache_skip(entries.drop_first(), idx - 1, key);
    } else {
        assert(entries.skip(0) =~= entries);
    }
}

proof fn lemma_other_entries(
    entries: Seq<(Vec<String>, Vec<DiscoveredPeer>)>,
    key: Multiset<Seq<char>>,
)
    ensures
        cache_map(other_entries(entries, key)) == cache_map(entries).remove(key),
    decreases entries.len(),
{
    if entries.len() == 0 {
        assert(cache_map(entries).remove(key) =~= Map::empty());
    } else {
        lemma_other_entries(entries.drop_first(), key);
        let rest = other_entries(entries.drop_first(), key);
        if protocol_key(entries[0].0@) == key {
            assert(other_entries(entries, key) =~= rest);
            assert(cache_map(entries).remove(key) =~= cache_map(entries.drop_first()).remove(key));
        } else {
            let kept = seq![entries[0]] + rest;
            assert(other_entries(entries, key) =~= kept);
            assert(kept.drop_first() =~= rest);
            assert(cache_map(kept) =~= cache_map(entries).remove(key));
        }
    }
}

impl DiscoveryCache {
    /// The results cached for the same protocols, in any order.
    pub fn get(&self, protocols: &[String]) -> (r: Option<&[DiscoveredPeer]>)
        ensures
            match r {
                Some(peers) => self@.contains_key(protocol_key(protocols@)) && peers@ == self@[protocol_key(
                    protocols@,
                )],
                None => !self@.contains_key(protocol_key(protocols@)),
            },
    {
        let ghost key = protocol_key(protocols@);
        let mut i: usize = 0;
        while i < self.entries.len()
            invariant
                i <= self.entries@.len(),
                key == protocol_key(protocols@),
                forall|j: int| 0 <= j < i ==> protocol_key(#[trigger] self.entries@[j].0@) != key,
            decreases self.entries.len() - i,
        {
            let same = same_protocols(self.entries[i].0.as_slice(), protocols);
            assert(same == (protocol_key(self.entries@[i as int].0@) == key));
            if same {
                proof {
                    lemma_cache_skip(self.entries@, i as int, key);
                    assert(self.entries@.skip(i as int).drop_first() =~= self.entries@.skip(i + 1));
                    assert(self.entries@.skip(i as int)[0] == self.entries@[i as int]);
                }
                return Some(self.entries[i].1.as_slice());
            }
            i = i + 1;
        }
        proof {
            lemma_cache_skip(self.entries@, i as int, key);
            assert(self.entries@.skip(i as int) =~= Seq::<(Vec<String>, Vec<DiscoveredPeer>)>::empty());
        }
        None
    }

    /// Forgets the results cached for the same protocols, in any order.
    pub fn remove(&mut self, protocols: &[String])
        ensures
            final(self)@ == old(self)@.remove(protocol_key(protocols@)),
    {
        let ghost key = protocol_key(protocols@);
        let ghost original = self.entries@;
        let mut old_entries: Vec<(Vec<String>, Vec<DiscoveredPeer>)> = Vec::new();
        core::mem::swap(&mut old_entries, &mut self.entries);
        let mut kept: Vec<(Vec<String>, Vec<DiscoveredPeer>)> = Vec::new();
        assert(kept@ + other_entries(old_entries@, key) =~= other_entries(original, key));
        while old_entries.len() > 0
            invariant
                key == protocol_key(protocols@),
                kept@ + other_entries(old_entries@, key) == other_entries(original, key),
            decreases old_entries.len(),
        {
            let ghost before = old_entries@;
            let entry = old_entries.remove(0);
            assert(before.drop_first() =~= old_entries@);
            assert(entry == before[0]);
            let same = same_protocols(entry.0.as_slice(), protocols);
            assert(same == (protocol_key(before[0].0@) == key));
            let ghost kept_before = kept@;
            if !same {
                kept.push(entry);
                assert(kept@ =~= kept_before + seq![before[0]]);
            } else {
                assert(kept@ =~= kept_before + Seq::empty());
            }
            assert(other_entries(before, key) =~= (if protocol_key(before[0].0@) == key {
                Seq::empty()
            } else {
                seq![before[0]]
            }) + other_entries(old_entries@, key));
            assert(kept@ + other_entries(old_entries@, key) =~= other_entries(original, key));
        }
        assert(kept@ =~= other_entries(original, key));
        self.entries = kept;
        proof {
            lemma_other_entries(original, key);
        }
    }

    /// Caches the results of a request, replacing earlier results for the
    /// same protocols.
    pub fn insert(&mut self, protocols: &[String], peers: Vec<DiscoveredPeer>)
        ensures
            final(self)@ == old(self)@.insert(protocol_key(protocols@), peers@),
    {
        self.remove(protocols);
        let mut key: Vec<String> = Vec::new();
        let mut k: usize = 0;
        while k < protocols.len()
            invariant
                k <= protocols@.len(),
                key@ == protocols@.take(k as int),
            decreases protocols.len() - k,
        {
            key.push(protocols[k].clone());
            k = k + 1;
            assert(key@ =~= protocols@.take(k as int));
        }
        assert(key@ =~= protocols@);
        let ghost before = self.entries@;
        self.entries.insert(0, (key, peers));
        assert(self.entries@.drop_first() =~= before);
        assert(cache_map(self.entries@) =~= old(self)@.remove(protocol_key(protocols@)).insert(
            protocol_key(protocols@),
            peers@,
        ));
    }
}

/// Requests that name the same protocols in another order have the same key.
pub proof fn lemma_reordered_request_same_key(a: Seq<String>, b: Seq<String>)
    requires
        a.to_multiset() == b.to_multiset(),
    ensures
        protocol_key(a) == protocol_key(b),
    decreases a.len(),
{
    broadcast use vstd::multiset::group_multiset_axioms;

    if a.len() == 0 {
        assert(a.to_multiset().len() == 0);
        assert(b.to_multiset().len() == b.len());
        assert(b.len() == 0);
        assert(string_views(a) =~= string_views(b));
    } else {
        let x = a.last();
        let rest = a.drop_last();
        assert(a =~= rest.push(x));
        assert(b.to_multiset().count(x) > 0);
        assert(b.contains(x));
        let j = choose|j: int| 0 <= j < b.len() && b[j] == x;
        let others = b.remove(j);
        assert(b.remove(j).to_multiset() == b.to_multiset().remove(b[j]));
        assert(rest.to_multiset() =~= others.to_multiset());
        lemma_reordered_request_same_key(rest, others);
        assert(string_views(a) =~= string_views(rest).push(x@));
        assert(string_views(others) =~= string_views(b).remove(j));
        assert(string_views(b)[j] == x@);
        assert(string_views(b).remove(j).to_multiset() == string_views(b).to_multiset().remove(
            string_views(b)[j],
        ));
        assert(string_views(b).to_multiset().count(x@) > 0) by {
            assert(string_views(b).contains(x@));
        }
        assert(protocol_key(b) =~= protocol_key(others).insert(x@));
    }
}

/// The results cached for a request are found again under any order of its
/// protocols, and forgetting it under any order forgets them.
pub proof fn lemma_cache_ignores_protocol_order(
    cache: Map<Multiset<Seq<char>>, Seq<DiscoveredPeer>>,
    a: Seq<String>,
    b: Seq<String>,
    peers: Seq<DiscoveredPeer>,
)
    requires
        a.to_multiset() == b.to_multiset(),
    ensures
        cache.insert(protocol_key(a), peers).contains_key(protocol_key(b)),
        cache.insert(protocol_key(a), peers)[protocol_key(b)] == peers,
        !cache.remove(protocol_key(b)).contains_key(protocol_key(a)),
{
    lemma_reordered_request_same_key(a, b);
}

/// Forgetting one request keeps the results of every other request, and a
/// request's results are found after they are cached.
pub proof fn lemma_cache_insert_remove(
    cache: Map<Multiset<Seq<char>>, Seq<DiscoveredPeer>>,
    a: Seq<String>,
    b: Seq<String>,
    peers: Seq<DiscoveredPeer>,
)
    requires
        protocol_key(a) != protocol_key(b),
    ensures
        cache.insert(protocol_key(a), peers)[protocol_key(a)] == peers,
        !cache.remove(protocol_key(a)).contains_key(protocol_key(a)),
        cache.remove(protocol_key(a)).contains_key(protocol_key(b)) == cache.contains_key(
            protocol_key(b),
        ),
        cache.contains_key(protocol_key(b)) ==> cache.remove(protocol_key(a))[protocol_key(b)]
            == cache[protocol_key(b)],
{
}

} // verus!
