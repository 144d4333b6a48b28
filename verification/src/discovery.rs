//! Public peer discovery: which entries of the public peer lists become
//! candidates, and the order in which reachable peers are offered.
use vstd::prelude::*;
use crate::text::{
    chars_eq, chars_le, chars_of, lemma_text_le_antisymmetric, lemma_text_le_total,
    lemma_text_le_transitive, lowercase, string_from_chars, text_le, to_lowercase,
    trim_end_matching, trim_suffix_repeatedly,
};
use crate::urls::{parse_url, url_parse};

verus! {

broadcast use vstd::seq_lib::group_to_multiset_ensures;

/// A public peer offered to the user.
#[derive(Debug, PartialEq, Eq)]
pub struct DiscoveredPeer {
    /// The peer's URI as the list gives it.
    pub address: String,
    /// The URI scheme: `tcp`, `tls`, `ws`, `wss` or `quic`.
    pub protocol: String,
    pub host: String,
    pub port: u16,
    pub country: String,
    /// The measured or reported round trip, when known.
    pub ping_ms: Option<u64>,
}

/// What a public peer list reports about a peer.
#[derive(Clone, Copy, Debug, Default, PartialEq, Eq, Structural)]
pub struct PeerMetadata {
    pub up: bool,
    pub response_ms: u64,
}

/// One entry of a public peer list: the region file it is listed in (such
/// as `DE.md`), its URI and its metadata.
#[derive(Clone, Debug)]
pub struct PublicNode {
    pub region: String,
    pub address: String,
    pub metadata: PeerMetadata,
}

pub struct DiscoveredPeerView {
    pub address: Seq<char>,
    pub protocol: Seq<char>,
    pub host: Seq<char>,
    pub port: u16,
    pub country: Seq<char>,
    pub ping_ms: Option<u64>,
}

impl View for DiscoveredPeer {
    type V = DiscoveredPeerView;

    open spec fn view(&self) -> DiscoveredPeerView {
        DiscoveredPeerView {
            address: self.address@,
            protocol: self.protocol@,
            host: self.host@,
            port: self.port,
            country: self.country@,
            ping_ms: self.ping_ms,
        }
    }
}

/// The views of a sequence of peers.
pub open spec fn peer_views(v: Seq<DiscoveredPeer>) -> Seq<DiscoveredPeerView> {
    v.map_values(|p: DiscoveredPeer| p@)
}

/// The views of a sequence of strings.
pub open spec fn string_views(v: Seq<String>) -> Seq<Seq<char>> {
    v.map_values(|s: String| s@)
}

/// The country of a region file name: the name without its `.md` suffixes.
pub open spec fn country_of(region: Seq<char>) -> Seq<char> {
    trim_suffix_repeatedly(region, ".md"@)
}

/// The candidate that an entry of a listed peer becomes, if its URI parses,
/// uses a wanted scheme, and has a host and a port.
pub open spec fn candidate(node: PublicNode, wanted: Seq<Seq<char>>) -> Option<DiscoveredPeerView> {
    match url_parse(node.address@) {
        None => None,
        Some(u) => if !wanted.contains(u.scheme) {
            None
        } else {
            match (u.host_str, u.port) {
                (Some(host), Some(port)) => Some(
                    DiscoveredPeerView {
                        address: node.address@,
                        protocol: u.scheme,
                        host,
                        port,
                        country: country_of(node.region@),
                        ping_ms: if node.metadata.response_ms > 0 {
                            Some(node.metadata.response_ms)
                        } else {
                            None
                        },
                    },
                ),
                _ => None,
            }
        },
    }
}

/// An earlier entry that is up lists the same URI.
pub open spec fn listed_before(nodes: Seq<PublicNode>, address: Seq<char>) -> bool {
    exists|j: int| 0 <= j < nodes.len() && nodes[j].metadata.up && #[trigger] nodes[j].address@ == address
}

/// The candidates among the entries, in order: entries that are up, whose
/// URI no earlier entry that is up listed, and that make a candidate.
pub open spec fn candidates(nodes: Seq<PublicNode>, wanted: Seq<Seq<char>>) -> Seq<DiscoveredPeerView>
    decreases nodes.len(),
{
    if nodes.len() == 0 {
        seq![]
    } else {
        let earlier = candidates(nodes.drop_last(), wanted);
        let node = nodes.last();
        if !node.metadata.up || listed_before(nodes.drop_last(), node.address@) {
            earlier
        } else {
            match candidate(node, wanted) {
                Some(p) => earlier.push(p),
                None => earlier,
            }
        }
    }
}

/// Every candidate comes from an entry that is up, uses a wanted protocol,
/// and no two candidates share a URI.
pub proof fn lemma_candidates_are_distinct_and_wanted(nodes: Seq<PublicNode>, wanted: Seq<Seq<char>>)
    ensures
        forall|i: int|
            0 <= i < candidates(nodes, wanted).len() ==> wanted.contains(
                #[trigger] candidates(nodes, wanted)[i].protocol,
            ),
        forall|i: int|
            0 <= i < candidates(nodes, wanted).len() ==> listed_before(
                nodes,
                #[trigger] candidates(nodes, wanted)[i].address,
            ),
        forall|i: int, j: int|
            0 <= i < j < candidates(nodes, wanted).len() ==> #[trigger] candidates(nodes, wanted)[i].address
                != #[trigger] candidates(nodes, wanted)[j].address,
    decreases nodes.len(),
{
    if nodes.len() > 0 {
        let rest = nodes.drop_last();
        lemma_candidates_are_distinct_and_wanted(rest, wanted);
        let earlier = candidates(rest, wanted);
        let c = candidates(nodes, wanted);
        assert forall|i: int| 0 <= i < earlier.len() implies listed_before(
            nodes,
            #[trigger] earlier[i].address,
        ) by {
            assert(listed_before(rest, earlier[i].address));
            let j = choose|j: int|
                0 <= j < rest.len() && rest[j].metadata.up && #[trigger] rest[j].address@
                    == earlier[i].address;
            assert(nodes[j] == rest[j]);
        }
        let node = nodes.last();
        if node.metadata.up && !listed_before(rest, node.address@) {
            if let Some(p) = candidate(node, wanted) {
                assert(c == earlier.push(p));
                assert(nodes[nodes.len() - 1].address@ == p.address);
                assert(listed_before(nodes, p.address));
                assert forall|i: int| 0 <= i < earlier.len() implies #[trigger] earlier[i].address
                    != p.address by {
                    assert(listed_before(rest, earlier[i].address));
                }
            }
        }
    }
}

fn contains_string(list: &Vec<String>, s: &String) -> (r: bool)
    ensures
        r == string_views(list@).contains(s@),
{
    let mut i: usize = 0;
    while i < list.len()
        invariant
            i <= list@.len(),
            forall|j: int| 0 <= j < i ==> list@[j]@ != s@,
        decreases list.len() - i,
    {
        if list[i] == *s {
            assert(string_views(list@)[i as int] == s@);
            return true;
        }
        i = i + 1;
    }
    assert(!string_views(list@).contains(s@)) by {
        if string_views(list@).contains(s@) {
            let j = choose|j: int| 0 <= j < list@.len() && string_views(list@)[j] == s@;
            assert(list@[j]@ == s@);
        }
    }
    false
}

/// The peers that the entries of the public lists offer for the wanted
/// protocols, in the order of the entries.
pub fn build_candidates(nodes: Vec<PublicNode>, protocols: &Vec<String>) -> (r: Vec<DiscoveredPeer>)
    ensures
        peer_views(r@) == candidates(nodes@, string_views(protocols@)),
{
    let ghost wanted = string_views(protocols@);
    let mut seen: Vec<String> = Vec::new();
    let mut peers: Vec<DiscoveredPeer> = Vec::new();
    let md = chars_of(".md");
    let mut i: usize = 0;
    assert(peer_views(peers@) =~= Seq::<DiscoveredPeerView>::empty());
    while i < nodes.len()
        invariant
            i <= nodes@.len(),
            md@ == ".md"@,
            wanted == string_views(protocols@),
            peer_views(peers@) == candidates(nodes@.take(i as int), wanted),
            forall|a: Seq<char>|
                string_views(seen@).contains(a) <==> listed_before(nodes@.take(i as int), a),
        decreases nodes.len() - i,
    {
        let node = &nodes[i];
        let ghost prefix = nodes@.take(i as int);
        assert(nodes@.take(i + 1).drop_last() =~= prefix);
        assert(nodes@.take(i + 1).last() == *node);
        let ghost before = peer_views(peers@);
        if node.metadata.up && !contains_string(&seen, &node.address) {
            let ghost seen_before = string_views(seen@);
            seen.push(node.address.clone());
            assert(string_views(seen@) =~= seen_before.push(node.address@));
            let ghost seen_now = string_views(seen@);
            assert(seen_now.len() == seen_before.len() + 1);
            assert(seen_now[seen_before.len() as int] == node.address@);
            assert forall|a: Seq<char>|
                seen_now.contains(a) <==> listed_before(nodes@.take(i + 1), a) by {
                if listed_before(nodes@.take(i + 1), a) {
                    let j = choose|j: int|
                        0 <= j < i + 1 && nodes@.take(i + 1)[j].metadata.up
                            && #[trigger] nodes@.take(i + 1)[j].address@ == a;
                    if j < i {
                        assert(prefix[j] == nodes@.take(i + 1)[j]);
                        assert(listed_before(prefix, a));
                        assert(seen_before.contains(a));
                        let q = choose|q: int| 0 <= q < seen_before.len() && seen_before[q] == a;
                        assert(seen_now[q] == a);
                    } else {
                        assert(nodes@.take(i + 1)[j] == *node);
                        assert(seen_now[seen_before.len() as int] == a);
                    }
                }
                if seen_now.contains(a) {
                    let q = choose|q: int| 0 <= q < seen_now.len() && seen_now[q] == a;
                    if q < seen_before.len() {
                        assert(seen_before[q] == a);
                        assert(seen_before.contains(a));
                        assert(listed_before(prefix, a));
                        let k = choose|k: int|
                            0 <= k < prefix.len() && prefix[k].metadata.up
                                && #[trigger] prefix[k].address@ == a;
                        assert(nodes@.take(i + 1)[k] == prefix[k]);
                    } else {
                        assert(a == node.address@);
                        assert(nodes@.take(i + 1)[i as int] == *node);
                    }
                }
            }
            match parse_url(node.address.as_str()) {
                Some(url) => {
                    if contains_string(protocols, &url.scheme) {
                        match (&url.host_str, url.port) {
                            (Some(host), Some(port)) => {
                                let country = trim_end_matching(
                                    &chars_of(node.region.as_str()),
                                    &md,
                                );
                                let peer = DiscoveredPeer {
                                    address: node.address.clone(),
                                    protocol: url.scheme.clone(),
                                    host: host.clone(),
                                    port,
                                    country: string_from_chars(&country),
                                    ping_ms: if node.metadata.response_ms > 0 {
                                        Some(node.metadata.response_ms)
                                    } else {
                                        None
                                    },
                                };
                                peers.push(peer);
                                assert(peer_views(peers@) =~= before.push(peer@));
                            },
                            _ => {},
                        }
                    }
                },
                None => {},
            }
        } else {
            assert forall|a: Seq<char>|
                string_views(seen@).contains(a) <==> listed_before(nodes@.take(i + 1), a) by {
                if listed_before(nodes@.take(i + 1), a) {
                    let j = choose|j: int|
                        0 <= j < i + 1 && nodes@.take(i + 1)[j].metadata.up
                            && #[trigger] nodes@.take(i + 1)[j].address@ == a;
                    if j < i {
                        assert(prefix[j] == nodes@.take(i + 1)[j]);
                        assert(listed_before(prefix, a));
                    } else {
                        assert(nodes@.take(i + 1)[j] == *node);
                    }
                }
                if listed_before(prefix, a) {
                    let k = choose|k: int|
                        0 <= k < prefix.len() && prefix[k].metadata.up
                            && #[trigger] prefix[k].address@ == a;
                    assert(nodes@.take(i + 1)[k] == prefix[k]);
                }
            }
        }
        i = i + 1;
    }
    assert(nodes@.take(i as int) =~= nodes@);
    peers
}


impl Clone for DiscoveredPeer {
    fn clone(&self) -> (r: Self)
        ensures
            r == *self,
    {
        DiscoveredPeer {
            address: self.address.clone(),
            protocol: self.protocol.clone(),
            host: self.host.clone(),
            port: self.port,
            country: self.country.clone(),
            ping_ms: self.ping_ms,
        }
    }
}

/// The orders in which peers are listed.
#[derive(Clone, Copy, Debug, PartialEq, Eq, Structural)]
pub enum PeerOrder {
    /// By round trip, unknown last, then by country.
    ByPing,
    /// By lower-cased country, then by round trip, unknown first.
    ByCountry,
}

/// A round trip for sorting: unknown sorts as the largest.
pub open spec fn ping_rank(ping: Option<u64>) -> u64 {
    match ping {
        Some(ms) => ms,
        None => u64::MAX,
    }
}

/// `Option`'s order: `None` before every `Some`.
pub open spec fn option_le(a: Option<u64>, b: Option<u64>) -> bool {
    match (a, b) {
        (None, _) => true,
        (Some(_), None) => false,
        (Some(x), Some(y)) => x <= y,
    }
}

/// Whether `a` may come before `b`.
pub open spec fn peer_le(order: PeerOrder, a: DiscoveredPeer, b: DiscoveredPeer) -> bool {
    match order {
        PeerOrder::ByPing => ping_rank(a.ping_ms) < ping_rank(b.ping_ms) || (ping_rank(a.ping_ms)
            == ping_rank(b.ping_ms) && text_le(a.country@, b.country@)),
        PeerOrder::ByCountry => {
            let la = lowercase(a.country@);
            let lb = lowercase(b.country@);
            (text_le(la, lb) && la != lb) || (la == lb && option_le(a.ping_ms, b.ping_ms))
        },
    }
}

/// Every peer may come before each later one in the given order.
pub open spec fn sorted_by(order: PeerOrder, s: Seq<DiscoveredPeer>) -> bool {
    forall|i: int, j: int| 0 <= i < j < s.len() ==> peer_le(order, #[trigger] s[i], #[trigger] s[j])
}

/// Of any two peers, one may come before the other, in either order.
pub proof fn lemma_peer_le_total(order: PeerOrder, a: DiscoveredPeer, b: DiscoveredPeer)
    ensures
        peer_le(order, a, b) || peer_le(order, b, a),
{
    lemma_text_le_total(a.country@, b.country@);
    lemma_text_le_total(lowercase(a.country@), lowercase(b.country@));
}

/// The orders of peers are transitive.
pub proof fn lemma_peer_le_transitive(
    order: PeerOrder,
    a: DiscoveredPeer,
    b: DiscoveredPeer,
    c: DiscoveredPeer,
)
    requires
        peer_le(order, a, b),
        peer_le(order, b, c),
    ensures
        peer_le(order, a, c),
{
    let (la, lb, lc) = (lowercase(a.country@), lowercase(b.country@), lowercase(c.country@));
    match order {
        PeerOrder::ByPing => {
            if text_le(a.country@, b.country@) && text_le(b.country@, c.country@) {
                lemma_text_le_transitive(a.country@, b.country@, c.country@);
            }
        },
        PeerOrder::ByCountry => {
            if text_le(la, lb) && text_le(lb, lc) {
                lemma_text_le_transitive(la, lb, lc);
                if la == lc {
                    lemma_text_le_antisymmetric(la, lb);
                }
            }
        },
    }
}

/// Compares two peers in the given order.
pub fn peer_precedes(order: PeerOrder, a: &DiscoveredPeer, b: &DiscoveredPeer) -> (r: bool)
    ensures
        r == peer_le(order, *a, *b),
{
    match order {
        PeerOrder::ByPing => {
            let pa = match a.ping_ms {
                Some(ms) => ms,
                None => u64::MAX,
            };
            let pb = match b.ping_ms {
                Some(ms) => ms,
                None => u64::MAX,
            };
            if pa != pb {
                pa < pb
            } else {
                chars_le(&chars_of(a.country.as_str()), &chars_of(b.country.as_str()))
            }
        },
        PeerOrder::ByCountry => {
            let la = chars_of(to_lowercase(a.country.as_str()).as_str());
            let lb = chars_of(to_lowercase(b.country.as_str()).as_str());
            if chars_eq(&la, &lb) {
                match (a.ping_ms, b.ping_ms) {
                    (None, _) => true,
                    (Some(_), None) => false,
                    (Some(x), Some(y)) => x <= y,
                }
            } else {
                chars_le(&la, &lb)
            }
        },
    }
}

/// Peers that the order puts level with `q`: each may come before the other.
pub open spec fn ties(order: PeerOrder, q: DiscoveredPeer) -> spec_fn(DiscoveredPeer) -> bool {
    |p: DiscoveredPeer| peer_le(order, p, q) && peer_le(order, q, p)
}

proof fn lemma_filter_around(s: Seq<DiscoveredPeer>, pos: int, p: DiscoveredPeer, f: spec_fn(DiscoveredPeer) -> bool)
    requires
        0 <= pos <= s.len(),
    ensures
        s.insert(pos, p).filter(f) == s.take(pos).filter(f) + (if f(p) {
            seq![p]
        } else {
            Seq::empty()
        }) + s.skip(pos).filter(f),
        s.filter(f) == s.take(pos).filter(f) + s.skip(pos).filter(f),
{
    broadcast use Seq::filter_distributes_over_add;
    broadcast use Seq::lemma_filter_push;

    assert(s.insert(pos, p) =~= s.take(pos) + seq![p] + s.skip(pos));
    assert(s =~= s.take(pos) + s.skip(pos));
    assert(seq![p] =~= Seq::<DiscoveredPeer>::empty().push(p));
    assert(Seq::<DiscoveredPeer>::empty().filter(f) =~= Seq::<DiscoveredPeer>::empty()) by {
        reveal_with_fuel(Seq::<_>::filter, 1);
    }
    assert(seq![p].filter(f) =~= (if f(p) {
        seq![p]
    } else {
        Seq::<DiscoveredPeer>::empty()
    }));
}

/// The peers rearranged into the given order; peers that the order puts
/// level keep the order they came in.
pub fn sort_peers(peers: Vec<DiscoveredPeer>, order: PeerOrder) -> (r: Vec<DiscoveredPeer>)
    ensures
        r@.to_multiset() == peers@.to_multiset(),
        sorted_by(order, r@),
        forall|q: DiscoveredPeer|
            #[trigger] r@.filter(ties(order, q)) == peers@.filter(ties(order, q)),
{
    let mut out: Vec<DiscoveredPeer> = Vec::new();
    let mut i: usize = 0;
    assert(peers@.take(0) =~= Seq::<DiscoveredPeer>::empty());
    assert forall|q: DiscoveredPeer| #[trigger] out@.filter(ties(order, q)) == peers@.take(
        0,
    ).filter(ties(order, q)) by {
        reveal_with_fuel(Seq::<_>::filter, 1);
        assert(out@ =~= peers@.take(0));
    }
    while i < peers.len()
        invariant
            i <= peers@.len(),
            out@.to_multiset() == peers@.take(i as int).to_multiset(),
            sorted_by(order, out@),
            forall|q: DiscoveredPeer|
                #[trigger] out@.filter(ties(order, q)) == peers@.take(i as int).filter(
                    ties(order, q),
                ),
        decreases peers.len() - i,
    {
        let p = peers[i].clone();
        assert(peers@.take(i + 1) =~= peers@.take(i as int).push(p));
        let mut pos: usize = 0;
        while pos < out.len() && peer_precedes(order, &out[pos], &p)
            invariant
                pos <= out@.len(),
                forall|k: int| 0 <= k < pos ==> peer_le(order, #[trigger] out@[k], p),
            decreases out.len() - pos,
        {
            pos = pos + 1;
        }
        proof {
            if pos < out@.len() {
                lemma_peer_le_total(order, out@[pos as int], p);
                assert forall|k: int| pos <= k < out@.len() implies peer_le(
                    order,
                    p,
                    #[trigger] out@[k],
                ) by {
                    if k > pos {
                        lemma_peer_le_transitive(order, p, out@[pos as int], out@[k]);
                    }
                }
                assert forall|k: int| pos <= k < out@.len() implies !peer_le(
                    order,
                    #[trigger] out@[k],
                    p,
                ) by {
                    if k > pos && peer_le(order, out@[k], p) {
                        lemma_peer_le_transitive(order, out@[pos as int], out@[k], p);
                    }
                }
            }
        }
        let ghost old_out = out@;
        let ghost before = peers@.take(i as int);
        out.insert(pos, p);
        assert(out@ == old_out.insert(pos as int, p));
        assert forall|a: int, b: int| 0 <= a < b < out@.len() implies peer_le(
            order,
            #[trigger] out@[a],
            #[trigger] out@[b],
        ) by {
            if b < pos {
                assert(out@[a] == old_out[a] && out@[b] == old_out[b]);
            } else if b == pos {
                assert(out@[a] == old_out[a]);
            } else if a == pos {
                assert(out@[b] == old_out[b - 1]);
            } else if a < pos {
                assert(out@[a] == old_out[a] && out@[b] == old_out[b - 1]);
            } else {
                assert(out@[a] == old_out[a - 1] && out@[b] == old_out[b - 1]);
            }
        }
        proof {
            assert(old_out.insert(pos as int, p).to_multiset() == old_out.to_multiset().insert(p));
            assert(before.push(p).to_multiset() == before.to_multiset().insert(p));
            assert forall|q: DiscoveredPeer| #[trigger] out@.filter(ties(order, q))
                == peers@.take(i + 1).filter(ties(order, q)) by {
                let f = ties(order, q);
                lemma_filter_around(old_out, pos as int, p, f);
                before.lemma_filter_push(p, f);
                assert(old_out.filter(f) == before.filter(f));
                if f(p) {
                    let rest = old_out.skip(pos as int);
                    assert forall|k: int| 0 <= k < rest.len() implies !f(#[trigger] rest[k]) by {
                        assert(rest[k] == old_out[pos + k]);
                        if f(rest[k]) {
                            lemma_peer_le_transitive(order, rest[k], q, p);
                        }
                    }
                    assert(rest.all(|x: DiscoveredPeer| !f(x)));
                    rest.lemma_all_neg_filter_empty(f);
                    assert(rest.filter(f) =~= Seq::<DiscoveredPeer>::empty());
                    assert(out@.filter(f) =~= before.filter(f).push(p));
                } else {
                    assert(out@.filter(f) =~= old_out.filter(f));
                }
            }
        }
        i = i + 1;
    }
    assert(peers@.take(i as int) =~= peers@);
    out
}

/// What probing does to a candidate: a QUIC peer is offered unprobed; any
/// other is offered with the measured round trip where it answered, and
/// dropped where it did not.
pub open spec fn probe_result(p: DiscoveredPeer, outcome: Option<u64>) -> Option<DiscoveredPeer> {
    if p.protocol@ == "quic"@ {
        Some(p)
    } else {
        match outcome {
            Some(ms) => Some(DiscoveredPeer { ping_ms: Some(ms), ..p }),
            None => None,
        }
    }
}

/// The probe outcome of the `i`th candidate: none where no outcome is given.
pub open spec fn outcome_at(outcomes: Seq<Option<u64>>, i: int) -> Option<u64> {
    if 0 <= i < outcomes.len() {
        outcomes[i]
    } else {
        None
    }
}

/// The candidates that probing keeps, in candidate order, where the `i`th
/// outcome is the round trip of a connection to the `i`th candidate.
pub open spec fn probed(peers: Seq<DiscoveredPeer>, outcomes: Seq<Option<u64>>) -> Seq<DiscoveredPeer>
    decreases peers.len(),
{
    if peers.len() == 0 {
        seq![]
    } else {
        let n = peers.len() - 1;
        let earlier = probed(peers.take(n), outcomes);
        match probe_result(peers[n], outcome_at(outcomes, n)) {
            Some(p) => earlier.push(p),
            None => earlier,
        }
    }
}

/// The peers that discovery offers: the candidates that probing keeps, with
/// their measured round trips, ordered by round trip and then by country.
pub fn discovered_peers(candidates: &Vec<DiscoveredPeer>, outcomes: &Vec<Option<u64>>) -> (r: Vec<
    DiscoveredPeer,
>)
    ensures
        r@.to_multiset() == probed(candidates@, outcomes@).to_multiset(),
        sorted_by(PeerOrder::ByPing, r@),
        forall|q: DiscoveredPeer|
            #[trigger] r@.filter(ties(PeerOrder::ByPing, q)) == probed(candidates@, outcomes@).filter(
                ties(PeerOrder::ByPing, q),
            ),
{
    let mut kept: Vec<DiscoveredPeer> = Vec::new();
    let mut i: usize = 0;
    assert(candidates@.take(0).len() == 0);
    while i < candidates.len()
        invariant
            i <= candidates@.len(),
            kept@ == probed(candidates@.take(i as int), outcomes@),
        decreases candidates.len() - i,
    {
        let ghost next = candidates@.take(i + 1);
        assert(next.take(i as int) =~= candidates@.take(i as int));
        assert(next[i as int] == candidates@[i as int]);
        let peer = &candidates[i];
        if !needs_probe(peer.protocol.as_str()) {
            kept.push(peer.clone());
        } else {
            let outcome = if i < outcomes.len() {
                outcomes[i]
            } else {
                None
            };
            match outcome {
                Some(ms) => {
                    let mut answered = peer.clone();
                    answered.ping_ms = Some(ms);
                    kept.push(answered);
                },
                None => {},
            }
        }
        i = i + 1;
    }
    assert(candidates@.take(i as int) =~= candidates@);
    sort_peers(kept, PeerOrder::ByPing)
}

/// Each peer that probing keeps is a candidate with at most its round trip
/// changed, and probing keeps distinct URIs distinct.
proof fn lemma_probed(peers: Seq<DiscoveredPeer>, outcomes: Seq<Option<u64>>)
    ensures
        forall|i: int|
            0 <= i < probed(peers, outcomes).len() ==> exists|k: int|
                0 <= k < peers.len() && #[trigger] probed(peers, outcomes)[i].address
                    == peers[k].address && probed(peers, outcomes)[i].protocol
                    == peers[k].protocol,
        (forall|a: int, b: int|
            0 <= a < b < peers.len() ==> #[trigger] peers[a].address@ != #[trigger] peers[b].address@)
            ==> (forall|i: int, j: int|
            0 <= i < j < probed(peers, outcomes).len() ==> #[trigger] probed(peers, outcomes)[i].address@
                != #[trigger] probed(peers, outcomes)[j].address@),
    decreases peers.len(),
{
    if peers.len() > 0 {
        let n = peers.len() - 1;
        let front = peers.take(n);
        lemma_probed(front, outcomes);
        let earlier = probed(front, outcomes);
        let all = probed(peers, outcomes);
        assert forall|i: int| 0 <= i < earlier.len() implies exists|k: int|
            0 <= k < n && #[trigger] earlier[i].address == peers[k].address && earlier[i].protocol
                == peers[k].protocol by {
            let k = choose|k: int|
                0 <= k < front.len() && #[trigger] earlier[i].address == front[k].address
                    && earlier[i].protocol == front[k].protocol;
            assert(front[k] == peers[k]);
        }
        match probe_result(peers[n], outcome_at(outcomes, n)) {
            Some(p) => {
                assert(all == earlier.push(p));
                assert(p.address == peers[n].address && p.protocol == peers[n].protocol);
                assert forall|i: int| 0 <= i < all.len() implies exists|k: int|
                    0 <= k < peers.len() && #[trigger] all[i].address == peers[k].address
                        && all[i].protocol == peers[k].protocol by {
                    if i < earlier.len() {
                        assert(all[i] == earlier[i]);
                    } else {
                        assert(all[i] == p);
                    }
                }
                if forall|a: int, b: int|
                    0 <= a < b < peers.len() ==> #[trigger] peers[a].address@
                        != #[trigger] peers[b].address@ {
                    assert forall|a: int, b: int|
                        0 <= a < b < front.len() implies #[trigger] front[a].address@
                        != #[trigger] front[b].address@ by {
                        assert(front[a] == peers[a] && front[b] == peers[b]);
                    }
                    assert forall|i: int, j: int| 0 <= i < j < all.len() implies #[trigger] all[i].address@
                        != #[trigger] all[j].address@ by {
                        assert(all[i] == earlier[i]);
                        if j < earlier.len() {
                            assert(all[j] == earlier[j]);
                        } else {
                            assert(all[j] == p);
                            let k = choose|k: int|
                                0 <= k < n && earlier[i].address == peers[k].address
                                    && earlier[i].protocol == peers[k].protocol;
                            assert(peers[k].address@ != peers[n].address@);
                        }
                    }
                }
            },
            None => {
                assert(all == earlier);
                if forall|a: int, b: int|
                    0 <= a < b < peers.len() ==> #[trigger] peers[a].address@
                        != #[trigger] peers[b].address@ {
                    assert forall|a: int, b: int|
                        0 <= a < b < front.len() implies #[trigger] front[a].address@
                        != #[trigger] front[b].address@ by {
                        assert(front[a] == peers[a] && front[b] == peers[b]);
                    }
                }
                assert forall|i: int| 0 <= i < all.len() implies exists|k: int|
                    0 <= k < peers.len() && #[trigger] all[i].address == peers[k].address
                        && all[i].protocol == peers[k].protocol by {
                    assert(all[i] == earlier[i]);
                }
            },
        }
    }
}

/// What discovery offers from the candidates of a peer list: no URI twice,
/// only peers of the wanted protocols, and only candidates that probing kept.
pub proof fn lemma_discovered_peers(
    nodes: Seq<PublicNode>,
    wanted: Seq<Seq<char>>,
    found: Seq<DiscoveredPeer>,
    outcomes: Seq<Option<u64>>,
    offered: Seq<DiscoveredPeer>,
)
    requires
        peer_views(found) == candidates(nodes, wanted),
        offered.to_multiset() == probed(found, outcomes).to_multiset(),
    ensures
        forall|i: int, j: int|
            0 <= i < j < offered.len() ==> #[trigger] offered[i].address@
                != #[trigger] offered[j].address@,
        forall|i: int| 0 <= i < offered.len() ==> wanted.contains(#[trigger] offered[i].protocol@),
        forall|i: int| 0 <= i < offered.len() ==> probed(found, outcomes).contains(#[trigger] offered[i]),
{
    let kept = probed(found, outcomes);
    lemma_candidates_are_distinct_and_wanted(nodes, wanted);
    let views = candidates(nodes, wanted);
    assert forall|a: int, b: int| 0 <= a < b < found.len() implies #[trigger] found[a].address@
        != #[trigger] found[b].address@ by {
        assert(views.len() == found.len());
        assert(views[a] == found[a]@ && views[b] == found[b]@);
        assert(views[a].address != views[b].address);
    }
    lemma_probed(found, outcomes);
    assert(kept.no_duplicates()) by {
        assert forall|i: int, j: int| 0 <= i < kept.len() && 0 <= j < kept.len() && i != j implies kept[i]
            != kept[j] by {
            if i < j {
                assert(kept[i].address@ != kept[j].address@);
            } else {
                assert(kept[j].address@ != kept[i].address@);
            }
        }
    }
    kept.lemma_multiset_has_no_duplicates();
    offered.lemma_multiset_has_no_duplicates_conv();
    assert forall|i: int| 0 <= i < offered.len() implies kept.contains(#[trigger] offered[i]) by {
        assert(offered.to_multiset().count(offered[i]) > 0);
    }
    assert forall|i: int, j: int| 0 <= i < j < offered.len() implies #[trigger] offered[i].address@
        != #[trigger] offered[j].address@ by {
        assert(kept.contains(offered[i]) && kept.contains(offered[j]));
        let k = choose|k: int| 0 <= k < kept.len() && kept[k] == offered[i];
        let l = choose|l: int| 0 <= l < kept.len() && kept[l] == offered[j];
        assert(offered[i] != offered[j]);
        if k < l {
            assert(kept[k].address@ != kept[l].address@);
        } else {
            assert(kept[l].address@ != kept[k].address@);
        }
    }
    assert forall|i: int| 0 <= i < offered.len() implies wanted.contains(#[trigger] offered[i].protocol@) by {
        assert(kept.contains(offered[i]));
        let k = choose|k: int| 0 <= k < kept.len() && kept[k] == offered[i];
        let m = choose|m: int|
            0 <= m < found.len() && #[trigger] kept[k].address == found[m].address && kept[k].protocol
                == found[m].protocol;
        assert(views.len() == found.len());
        assert(views[m] == found[m]@);
        assert(wanted.contains(views[m].protocol));
    }
}

/// The peers whose protocol is among the enabled ones, in order.
pub fn filter_by_protocol(peers: &Vec<DiscoveredPeer>, enabled: &Vec<String>) -> (r: Vec<
    DiscoveredPeer,
>)
    ensures
        r@ == peers@.filter(|p: DiscoveredPeer| string_views(enabled@).contains(p.protocol@)),
{
    let ghost pred = |p: DiscoveredPeer| string_views(enabled@).contains(p.protocol@);
    let mut out: Vec<DiscoveredPeer> = Vec::new();
    let mut i: usize = 0;
    assert(peers@.take(0).filter(pred) =~= Seq::<DiscoveredPeer>::empty());
    while i < peers.len()
        invariant
            i <= peers@.len(),
            pred == (|p: DiscoveredPeer| string_views(enabled@).contains(p.protocol@)),
            out@ == peers@.take(i as int).filter(pred),
        decreases peers.len() - i,
    {
        reveal_with_fuel(Seq::<_>::filter, 1);
        assert(peers@.take(i + 1).drop_last() =~= peers@.take(i as int));
        if contains_string(enabled, &peers[i].protocol) {
            out.push(peers[i].clone());
        }
        i = i + 1;
    }
    assert(peers@.take(i as int) =~= peers@);
    out
}

/// QUIC peers are offered without a TCP probe.
pub fn needs_probe(protocol: &str) -> (r: bool)
    ensures
        r == (protocol@ != "quic"@),
{
    !chars_eq(&chars_of(protocol), &chars_of("quic"))
}

/// A measured round trip in milliseconds, saturated to `u64`.
pub fn ping_from_elapsed(millis: u128) -> (r: u64)
    ensures
        r == (if millis <= u64::MAX as u128 {
            millis as u64
        } else {
            u64::MAX
        }),
{
    if millis <= u64::MAX as u128 {
        millis as u64
    } else {
        u64::MAX
    }
}

/// The public peer lists, tried in this order.
pub fn public_peer_sources() -> (r: Vec<&'static str>)
    ensures
        r@.len() == 2,
        r@[0]@ == "https://publicpeers.neilalexander.dev/publicnodes.json"@,
        r@[1]@ == "https://peers.yggdrasil.link/publicnodes.json"@,
{
    let mut v: Vec<&'static str> = Vec::new();
    v.push("https://publicpeers.neilalexander.dev/publicnodes.json");
    v.push("https://peers.yggdrasil.link/publicnodes.json");
    v
}

} // verus!
