//! URLs as plain values: what the `url` crate's parser reports about a URL
//! text, and its serializer for appended query pairs.
use vstd::prelude::*;
use url::Host;

verus! {

/// The host of a parsed URL.
#[derive(Clone, Debug, PartialEq, Eq)]
pub enum UrlHost {
    Domain(String),
    V4([u8; 4]),
    V6([u8; 16]),
}

/// The parts of a parsed URL that this library reads.
#[derive(Clone, Debug)]
pub struct UrlParts {
    /// `Url::scheme`.
    pub scheme: String,
    /// `Url::host`.
    pub host: Option<UrlHost>,
    /// `Url::host_str`.
    pub host_str: Option<String>,
    /// `Url::port_or_known_default`.
    pub port: Option<u16>,
    /// `Url::path`.
    pub path: String,
    /// `Url::query`.
    pub query: Option<String>,
    /// `Url::query_pairs`, decoded.
    pub query_pairs: Vec<(String, String)>,
}

pub enum UrlHostView {
    Domain(Seq<char>),
    V4([u8; 4]),
    V6([u8; 16]),
}

pub struct UrlView {
    pub scheme: Seq<char>,
    pub host: Option<UrlHostView>,
    pub host_str: Option<Seq<char>>,
    pub port: Option<u16>,
    pub path: Seq<char>,
    pub query: Option<Seq<char>>,
    pub query_pairs: Seq<(Seq<char>, Seq<char>)>,
}

/// The view of an optional string.
pub open spec fn option_view(o: Option<String>) -> Option<Seq<char>> {
    match o {
        Some(s) => Some(s@),
        None => None,
    }
}

/// The views of string pairs.
pub open spec fn pairs_view(v: Seq<(String, String)>) -> Seq<(Seq<char>, Seq<char>)> {
    v.map_values(|p: (String, String)| (p.0@, p.1@))
}

impl View for UrlHost {
    type V = UrlHostView;

    open spec fn view(&self) -> UrlHostView {
        match self {
            UrlHost::Domain(d) => UrlHostView::Domain(d@),
            UrlHost::V4(a) => UrlHostView::V4(*a),
            UrlHost::V6(a) => UrlHostView::V6(*a),
        }
    }
}

impl View for UrlParts {
    type V = UrlView;

    open spec fn view(&self) -> UrlView {
        UrlView {
            scheme: self.scheme@,
            host: match self.host {
                Some(h) => Some(h@),
                None => None,
            },
            host_str: option_view(self.host_str),
            port: self.port,
            path: self.path@,
            query: option_view(self.query),
            query_pairs: pairs_view(self.query_pairs@),
        }
    }
}

/// What `url::Url::parse` reports for a text: `None` where it fails.
pub uninterp spec fn url_parse(input: Seq<char>) -> Option<UrlView>;

/// What `url::Url::parse` followed by appending these query pairs with
/// `form_urlencoded::Serializer::extend_pairs` serializes to.
pub uninterp spec fn url_with_pairs(
    input: Seq<char>,
    pairs: Seq<(Seq<char>, Seq<char>)>,
) -> Option<Seq<char>>;

/// Calls `url::Url::parse` and reads the URL's parts through its getters. The
/// contract claims only that the result is the one named by `url_parse`.
#[verifier::external_body]
pub fn parse_url(input: &str) -> (r: Option<UrlParts>)
    ensures
        match r {
            Some(u) => url_parse(input@) == Some(u@),
            None => url_parse(input@).is_none(),
        },
{
    let u = url::Url::parse(input).ok()?;
    let host = u.host().map(|h| match h {
        Host::Domain(d) => UrlHost::Domain(d.to_owned()),
        Host::Ipv4(a) => UrlHost::V4(a.octets()),
        Host::Ipv6(a) => UrlHost::V6(a.octets()),
    });
    Some(UrlParts {
        scheme: u.scheme().to_owned(),
        host,
        host_str: u.host_str().map(str::to_owned),
        port: u.port_or_known_default(),
        path: u.path().to_owned(),
        query: u.query().map(str::to_owned),
        query_pairs: u.query_pairs().into_owned().collect(),
    })
}

/// Calls `form_urlencoded::Serializer::extend_pairs` on the query of the URL
/// that `url::Url::parse` makes of `input`, and serializes the URL. The
/// contract claims that the result is the one named by `url_with_pairs`, and
/// that it exists exactly when the text parses as a URL (parsing is the one
/// step that can fail).
#[verifier::external_body]
pub fn serialize_url_with_pairs(input: &str, pairs: &Vec<(String, String)>) -> (r: Option<String>)
    ensures
        option_view(r) == url_with_pairs(input@, pairs_view(pairs@)),
        r.is_some() == url_parse(input@).is_some(),
{
    let mut u = url::Url::parse(input).ok()?;
    u.query_pairs_mut().extend_pairs(pairs.iter().map(|(k, v)| (k.as_str(), v.as_str())));
    Some(u.to_string())
}

} // verus!
