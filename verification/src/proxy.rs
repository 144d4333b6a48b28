//! The local proxy's protocol logic: HTTP proxy requests (CONNECT tunnels and
//! absolute-URL forwarding), the SOCKS5 handshake, and the choice between the
//! overlay network and a direct connection.
use vstd::prelude::*;
use vstd::string::StringSliceAdditionalSpecFns;
use vstd::utf8::{decode_utf8, encode_utf8, valid_utf8};
use crate::net::{
    IpAddress, SocketAddress, is_overlay_address, parse_socket_address, parsed_socket_address,
    spec_is_overlay,
};
use crate::text::{
    chars_eq, chars_of, crlf_lines, eq_ignore_ascii_case, eq_ignore_case, extend_chars,
    first_crlf, first_index_of, parse_port, parse_u16, rsplit_once, rsplit_once_at, slice_range,
    split_crlf, split_once, split_once_at, split_words, string_from_chars, utf8_bytes, utf8_chars,
    views, words,
};
use crate::urls::{UrlHost, UrlHostView, UrlView, parse_url, url_parse};

verus! {

/// Bytes that the proxy buffers at most while waiting for request headers.
pub const HTTP_HEADER_LIMIT: usize = 65536;

pub const SOCKS_VERSION: u8 = 5;

pub const SOCKS_CONNECT: u8 = 1;

pub const ADDRESS_IPV4: u8 = 1;

pub const ADDRESS_DOMAIN: u8 = 3;

pub const ADDRESS_IPV6: u8 = 4;

/// Where a proxy client wants to connect.
#[derive(Clone, Debug, PartialEq, Eq)]
pub enum TargetHost {
    Address(IpAddress),
    Domain(String),
}

#[derive(Clone, Debug, PartialEq, Eq)]
pub struct ProxyTarget {
    pub host: TargetHost,
    pub port: u16,
}

#[derive(Clone, Copy, Debug, PartialEq, Eq, Structural)]
pub enum HttpRequestKind {
    /// `CONNECT`: the client's bytes are relayed unchanged.
    Tunnel,
    /// An absolute-URL request that is rewritten to origin form.
    Forward,
}

/// A parsed HTTP proxy request.
#[derive(Clone, Debug)]
pub struct HttpRequest {
    pub target: ProxyTarget,
    pub kind: HttpRequestKind,
    /// The request line and headers to send upstream (empty for a tunnel).
    pub forwarded_head: Vec<u8>,
    /// Bytes that arrived after the headers.
    pub buffered_body: Vec<u8>,
}

/// Why a proxy request was refused.
#[derive(Clone, Copy, Debug, PartialEq, Eq, Structural)]
pub enum ProxyError {
    HeadersNotUtf8,
    MissingMethod,
    MissingTarget,
    MissingVersion,
    UnsupportedVersion,
    ExtraRequestLineParts,
    NotAbsoluteUrl,
    UnsupportedScheme,
    MissingPort,
    MissingHost,
    AuthorityWithoutPort,
    InvalidAuthorityPort,
    InvalidAuthorityHost,
    InvalidSocksGreeting,
    NoAcceptableAuthMethod,
    OverlayDnsNotIpv6,
    InvalidDnsName,
    RandomUnavailable,
}

/// The text of each refusal, as it is logged.
pub open spec fn proxy_error_text(e: ProxyError) -> Seq<char> {
    match e {
        ProxyError::HeadersNotUtf8 => "HTTP proxy headers are not UTF-8"@,
        ProxyError::MissingMethod => "HTTP proxy request has no method"@,
        ProxyError::MissingTarget => "HTTP proxy request has no target"@,
        ProxyError::MissingVersion => "HTTP proxy request has no version"@,
        ProxyError::UnsupportedVersion => "unsupported HTTP proxy protocol version"@,
        ProxyError::ExtraRequestLineParts => "invalid HTTP proxy request line"@,
        ProxyError::NotAbsoluteUrl => "HTTP proxy target is not an absolute URL"@,
        ProxyError::UnsupportedScheme => "only HTTP URLs and CONNECT tunnels are supported"@,
        ProxyError::MissingPort => "HTTP proxy target has no port"@,
        ProxyError::MissingHost => "HTTP proxy target has no host"@,
        ProxyError::AuthorityWithoutPort => "HTTP CONNECT target has no port"@,
        ProxyError::InvalidAuthorityPort => "HTTP CONNECT target has an invalid port"@,
        ProxyError::InvalidAuthorityHost => "HTTP CONNECT target has an invalid host"@,
        ProxyError::InvalidSocksGreeting => "invalid SOCKS5 greeting"@,
        ProxyError::NoAcceptableAuthMethod => "SOCKS5 client does not support no-auth mode"@,
        ProxyError::OverlayDnsNotIpv6 => "the overlay DNS server must be an IPv6 address"@,
        ProxyError::InvalidDnsName => "invalid DNS name"@,
        ProxyError::RandomUnavailable => "could not draw a random DNS query id"@,
    }
}

impl ProxyError {
    /// The text of the refusal.
    pub fn message(&self) -> (r: &'static str)
        ensures
            r@ == proxy_error_text(*self),
    {
        match self {
            ProxyError::HeadersNotUtf8 => "HTTP proxy headers are not UTF-8",
            ProxyError::MissingMethod => "HTTP proxy request has no method",
            ProxyError::MissingTarget => "HTTP proxy request has no target",
            ProxyError::MissingVersion => "HTTP proxy request has no version",
            ProxyError::UnsupportedVersion => "unsupported HTTP proxy protocol version",
            ProxyError::ExtraRequestLineParts => "invalid HTTP proxy request line",
            ProxyError::NotAbsoluteUrl => "HTTP proxy target is not an absolute URL",
            ProxyError::UnsupportedScheme => "only HTTP URLs and CONNECT tunnels are supported",
            ProxyError::MissingPort => "HTTP proxy target has no port",
            ProxyError::MissingHost => "HTTP proxy target has no host",
            ProxyError::AuthorityWithoutPort => "HTTP CONNECT target has no port",
            ProxyError::InvalidAuthorityPort => "HTTP CONNECT target has an invalid port",
            ProxyError::InvalidAuthorityHost => "HTTP CONNECT target has an invalid host",
            ProxyError::InvalidSocksGreeting => "invalid SOCKS5 greeting",
            ProxyError::NoAcceptableAuthMethod => "SOCKS5 client does not support no-auth mode",
            ProxyError::OverlayDnsNotIpv6 => "the overlay DNS server must be an IPv6 address",
            ProxyError::InvalidDnsName => "invalid DNS name",
            ProxyError::RandomUnavailable => "could not draw a random DNS query id",
        }
    }
}

pub enum TargetHostView {
    Address(IpAddress),
    Domain(Seq<char>),
}

pub struct ProxyTargetView {
    pub host: TargetHostView,
    pub port: u16,
}

pub struct HttpRequestView {
    pub target: ProxyTargetView,
    pub kind: HttpRequestKind,
    pub forwarded_head: Seq<u8>,
    pub buffered_body: Seq<u8>,
}

impl View for TargetHost {
    type V = TargetHostView;

    open spec fn view(&self) -> TargetHostView {
        match self {
            TargetHost::Address(a) => TargetHostView::Address(*a),
            TargetHost::Domain(d) => TargetHostView::Domain(d@),
        }
    }
}

impl View for ProxyTarget {
    type V = ProxyTargetView;

    open spec fn view(&self) -> ProxyTargetView {
        ProxyTargetView { host: self.host@, port: self.port }
    }
}

impl View for HttpRequest {
    type V = HttpRequestView;

    open spec fn view(&self) -> HttpRequestView {
        HttpRequestView {
            target: self.target@,
            kind: self.kind,
            forwarded_head: self.forwarded_head@,
            buffered_body: self.buffered_body@,
        }
    }
}

/// The blank line that ends HTTP headers starts at `p`.
pub open spec fn blank_line_at(b: Seq<u8>, p: int) -> bool {
    &&& 0 <= p
    &&& p + 4 <= b.len()
    &&& b[p] == 13
    &&& b[p + 1] == 10
    &&& b[p + 2] == 13
    &&& b[p + 3] == 10
}

/// `end` is just past the first blank line of `b`.
pub open spec fn is_header_end(b: Seq<u8>, end: int) -> bool {
    &&& blank_line_at(b, end - 4)
    &&& forall|p: int| 0 <= p < end - 4 ==> !blank_line_at(b, p)
}

/// Finds where the request headers end: just past the first `"\r\n\r\n"`.
pub fn find_header_end(bytes: &[u8]) -> (r: Option<usize>)
    ensures
        match r {
            Some(end) => is_header_end(bytes@, end as int),
            None => forall|p: int| !blank_line_at(bytes@, p),
        },
{
    let n = bytes.len();
    if n < 4 {
        return None;
    }
    let mut p: usize = 0;
    while p <= n - 4
        invariant
            n == bytes@.len(),
            n >= 4,
            p <= n - 3,
            forall|q: int| 0 <= q < p ==> !blank_line_at(bytes@, q),
        decreases n - p,
    {
        if bytes[p] == 13 && bytes[p + 1] == 10 && bytes[p + 2] == 13 && bytes[p + 3] == 10 {
            return Some(p + 4);
        }
        p = p + 1;
    }
    None
}

/// What waiting for request headers has come to.
#[derive(Clone, Copy, Debug, PartialEq, Eq, Structural)]
pub enum HeadStatus {
    /// The headers end at this offset.
    Complete(usize),
    /// The headers have reached the size limit without ending.
    TooLarge,
    /// More bytes are needed.
    Incomplete,
}

/// Decides what to do with the bytes received so far from an HTTP client.
pub fn http_head_status(bytes: &[u8]) -> (r: HeadStatus)
    ensures
        match r {
            HeadStatus::Complete(end) => is_header_end(bytes@, end as int),
            HeadStatus::TooLarge => (forall|p: int| !blank_line_at(bytes@, p)) && bytes@.len()
                >= HTTP_HEADER_LIMIT,
            HeadStatus::Incomplete => (forall|p: int| !blank_line_at(bytes@, p)) && bytes@.len()
                < HTTP_HEADER_LIMIT,
        },
{
    match find_header_end(bytes) {
        Some(end) => HeadStatus::Complete(end),
        None => if bytes.len() >= HTTP_HEADER_LIMIT {
            HeadStatus::TooLarge
        } else {
            HeadStatus::Incomplete
        },
    }
}

/// The protocol versions that the proxy speaks.
pub open spec fn is_supported_version(v: Seq<char>) -> bool {
    v == "HTTP/1.0"@ || v == "HTTP/1.1"@
}

/// Accepts `HTTP/1.0` and `HTTP/1.1` only.
pub fn ensure_http_version(version: &str) -> (r: Result<(), ProxyError>)
    ensures
        r is Ok <==> is_supported_version(version@),
        r matches Err(e) ==> e == ProxyError::UnsupportedVersion,
{
    let v = chars_of(version);
    let v10 = chars_of("HTTP/1.0");
    let v11 = chars_of("HTTP/1.1");
    if chars_eq(&v, &v10) || chars_eq(&v, &v11) {
        Ok(())
    } else {
        Err(ProxyError::UnsupportedVersion)
    }
}

/// A request line has exactly three parts: fails when a fourth one follows.
pub fn ensure_no_extra_request_line_parts(next_part: Option<&Vec<char>>) -> (r: Result<
    (),
    ProxyError,
>)
    ensures
        r is Ok <==> next_part.is_none(),
        r matches Err(e) ==> e == ProxyError::ExtraRequestLineParts,
{
    match next_part {
        None => Ok(()),
        Some(_) => Err(ProxyError::ExtraRequestLineParts),
    }
}

/// The target of a `CONNECT` request: a socket address, or a host name and a
/// port separated by the last colon.
pub open spec fn spec_parse_authority(a: Seq<char>) -> Result<ProxyTargetView, ProxyError> {
    match parsed_socket_address(a) {
        Some(sa) => Ok(ProxyTargetView { host: TargetHostView::Address(sa.ip), port: sa.port }),
        None => match rsplit_once(a, ':') {
            None => Err(ProxyError::AuthorityWithoutPort),
            Some((host, port)) => match parse_u16(port) {
                None => Err(ProxyError::InvalidAuthorityPort),
                Some(p) => if host.len() == 0 || host.contains(':') {
                    Err(ProxyError::InvalidAuthorityHost)
                } else {
                    Ok(ProxyTargetView { host: TargetHostView::Domain(host), port: p })
                },
            },
        },
    }
}

/// Parses the authority form of a `CONNECT` target.
pub fn parse_authority(authority: &str) -> (r: Result<ProxyTarget, ProxyError>)
    ensures
        match r {
            Ok(t) => spec_parse_authority(authority@) == Ok::<ProxyTargetView, ProxyError>(t@),
            Err(e) => spec_parse_authority(authority@) == Err::<ProxyTargetView, ProxyError>(e),
        },
{
    if let Some(address) = parse_socket_address(authority) {
        return Ok(ProxyTarget { host: TargetHost::Address(address.ip), port: address.port });
    }
    let chars = chars_of(authority);
    let (host, port_text) = match rsplit_once_at(&chars, ':') {
        Some(halves) => halves,
        None => {
            return Err(ProxyError::AuthorityWithoutPort);
        },
    };
    let port = match parse_port(&port_text) {
        Some(port) => port,
        None => {
            return Err(ProxyError::InvalidAuthorityPort);
        },
    };
    if host.len() == 0 {
        return Err(ProxyError::InvalidAuthorityHost);
    }
    if let Some(i) = first_index_of(&host, ':') {
        assert(host@.contains(':')) by {
            assert(host@[i as int] == ':');
        }
        return Err(ProxyError::InvalidAuthorityHost);
    }
    Ok(ProxyTarget { host: TargetHost::Domain(string_from_chars(&host)), port })
}

/// The name of a header line: the text before its first colon.
pub open spec fn header_name(line: Seq<char>) -> Seq<char> {
    match split_once(line, ':') {
        Some((name, _)) => name,
        None => line,
    }
}

/// Headers that the proxy does not pass on: it manages the connection itself.
pub open spec fn is_hop_header(line: Seq<char>) -> bool {
    eq_ignore_ascii_case(header_name(line), "proxy-connection"@) || eq_ignore_ascii_case(
        header_name(line),
        "connection"@,
    )
}

/// The header lines that are passed on, each ended by CRLF.
pub open spec fn kept_headers(lines: Seq<Seq<char>>) -> Seq<char>
    decreases lines.len(),
{
    if lines.len() == 0 {
        seq![]
    } else {
        kept_headers(lines.drop_last()) + if is_hop_header(lines.last()) {
            Seq::<char>::empty()
        } else {
            lines.last() + "\r\n"@
        }
    }
}

/// A header line that the proxy passes on: any whose name is neither
/// `Proxy-Connection` nor `Connection`, compared ignoring ASCII case.
pub open spec fn passed_on(line: Seq<char>) -> bool {
    !eq_ignore_ascii_case(header_name(line), "proxy-connection"@) && !eq_ignore_ascii_case(
        header_name(line),
        "connection"@,
    )
}

/// The kept header text is exactly the header lines that are passed on, in
/// their order and unchanged, each ended by CRLF: a `Content-Length` or any
/// other end-to-end header reaches the upstream server as the client wrote
/// it, and only the connection headers are dropped.
pub proof fn lemma_kept_headers_pass_on_end_to_end_lines(lines: Seq<Seq<char>>)
    ensures
        kept_headers(lines) == lines.filter(|l: Seq<char>| passed_on(l)).map_values(
            |l: Seq<char>| l + "\r\n"@,
        ).flatten(),
    decreases lines.len(),
{
    let f = |l: Seq<char>| passed_on(l);
    let g = |l: Seq<char>| l + "\r\n"@;
    if lines.len() == 0 {
        assert(lines.filter(f) =~= Seq::<Seq<char>>::empty()) by {
            reveal_with_fuel(Seq::<_>::filter, 1);
        }
        assert(lines.filter(f).map_values(g) =~= Seq::<Seq<char>>::empty());
    } else {
        let front = lines.drop_last();
        let last = lines.last();
        lemma_kept_headers_pass_on_end_to_end_lines(front);
        assert(lines =~= front.push(last));
        front.lemma_filter_push(last, f);
        if f(last) {
            assert(lines.filter(f) == front.filter(f).push(last));
            assert(lines.filter(f).map_values(g) =~= front.filter(f).map_values(g).push(g(last)));
            front.filter(f).map_values(g).lemma_flatten_push(g(last));
        } else {
            assert(lines.filter(f) == front.filter(f));
        }
    }
}

/// The origin form of an absolute URL: its path (`/` when empty) and query.
pub open spec fn origin_form(u: UrlView) -> Seq<char> {
    let path = if u.path.len() == 0 {
        "/"@
    } else {
        u.path
    };
    match u.query {
        Some(q) => path + "?"@ + q,
        None => path,
    }
}

/// The head of a forwarded request: the request line in origin form, the
/// kept headers, and `Connection: close`, so that each upstream connection
/// carries one request.
pub open spec fn forwarded_head_text(
    method: Seq<char>,
    origin: Seq<char>,
    version: Seq<char>,
    header_lines: Seq<Seq<char>>,
) -> Seq<char> {
    method + " "@ + origin + " "@ + version + "\r\n"@ + kept_headers(header_lines)
        + "Connection: close\r\n\r\n"@
}

/// The target that a URL's host and port name.
pub open spec fn target_of(host: UrlHostView, port: u16) -> ProxyTargetView {
    ProxyTargetView {
        host: match host {
            UrlHostView::Domain(d) => TargetHostView::Domain(d),
            UrlHostView::V4(a) => TargetHostView::Address(IpAddress::V4(a)),
            UrlHostView::V6(a) => TargetHostView::Address(IpAddress::V6(a)),
        },
        port,
    }
}

/// The request of a forwarded absolute-form request line.
pub open spec fn spec_forward_request(
    parts: Seq<Seq<char>>,
    lines: Seq<Seq<char>>,
    body: Seq<u8>,
) -> Result<HttpRequestView, ProxyError> {
    match url_parse(parts[1]) {
        None => Err(ProxyError::NotAbsoluteUrl),
        Some(u) => if u.scheme != "http"@ {
            Err(ProxyError::UnsupportedScheme)
        } else {
            match u.port {
                None => Err(ProxyError::MissingPort),
                Some(port) => match u.host {
                    None => Err(ProxyError::MissingHost),
                    Some(h) => Ok(
                        HttpRequestView {
                            target: target_of(h, port),
                            kind: HttpRequestKind::Forward,
                            forwarded_head: encode_utf8(
                                forwarded_head_text(
                                    parts[0],
                                    origin_form(u),
                                    parts[2],
                                    lines.skip(1),
                                ),
                            ),
                            buffered_body: body,
                        },
                    ),
                },
            }
        },
    }
}

/// The meaning of the bytes of a proxy request whose headers end at
/// `header_end`.
pub open spec fn spec_parse_http_request(bytes: Seq<u8>, header_end: int) -> Result<
    HttpRequestView,
    ProxyError,
> {
    let head = bytes.take(header_end - 4);
    let body = bytes.skip(header_end);
    if !valid_utf8(bytes.take(header_end)) {
        Err(ProxyError::HeadersNotUtf8)
    } else {
        let lines = crlf_lines(decode_utf8(head));
        let parts = words(lines[0]);
        if parts.len() == 0 {
            Err(ProxyError::MissingMethod)
        } else if parts.len() == 1 {
            Err(ProxyError::MissingTarget)
        } else if parts.len() == 2 {
            Err(ProxyError::MissingVersion)
        } else if !is_supported_version(parts[2]) {
            Err(ProxyError::UnsupportedVersion)
        } else if parts.len() > 3 {
            Err(ProxyError::ExtraRequestLineParts)
        } else if eq_ignore_ascii_case(parts[0], "CONNECT"@) {
            match spec_parse_authority(parts[1]) {
                Ok(t) => Ok(
                    HttpRequestView {
                        target: t,
                        kind: HttpRequestKind::Tunnel,
                        forwarded_head: Seq::empty(),
                        buffered_body: body,
                    },
                ),
                Err(e) => Err(e),
            }
        } else {
            spec_forward_request(parts, lines, body)
        }
    }
}

/// Splitting at CRLF always gives at least one line.
pub proof fn lemma_crlf_lines_nonempty(s: Seq<char>)
    ensures
        crlf_lines(s).len() >= 1,
    decreases s.len(),
{
    if exists|i: int| first_crlf(s, i) {
        let i = choose|i: int| first_crlf(s, i);
        lemma_crlf_lines_nonempty(s.skip(i + 2));
    }
}

/// The kept header lines among `lines[1..]`, each ended by CRLF.
fn kept_header_text(lines: &Vec<Vec<char>>) -> (r: Vec<char>)
    requires
        lines@.len() >= 1,
    ensures
        r@ == kept_headers(views(lines@).skip(1)),
{
    let mut out: Vec<char> = Vec::new();
    let ghost lv = views(lines@);
    let crlf = chars_of("\r\n");
    let proxy_connection = chars_of("proxy-connection");
    let connection = chars_of("connection");
    let mut i: usize = 1;
    assert(lv.subrange(1, 1) =~= Seq::<Seq<char>>::empty());
    while i < lines.len()
        invariant
            lv == views(lines@),
            1 <= i <= lines@.len(),
            crlf@ == "\r\n"@,
            proxy_connection@ == "proxy-connection"@,
            connection@ == "connection"@,
            out@ == kept_headers(lv.subrange(1, i as int)),
        decreases lines.len() - i,
    {
        let line = &lines[i];
        let name = match split_once_at(line, ':') {
            Some((name, _)) => name,
            None => line.clone(),
        };
        assert(name@ == header_name(line@));
        let hop = eq_ignore_case(&name, &proxy_connection) || eq_ignore_case(&name, &connection);
        if !hop {
            extend_chars(&mut out, line);
            extend_chars(&mut out, &crlf);
        }
        assert(lv.subrange(1, i + 1).drop_last() =~= lv.subrange(1, i as int));
        assert(lv[i as int] == line@);
        i = i + 1;
    }
    assert(lv.subrange(1, lines@.len() as int) =~= lv.skip(1));
    out
}

/// Parses an HTTP proxy request whose headers end at `header_end` (just
/// after the blank line that closes them): a `CONNECT` tunnel to an
/// authority, or an absolute `http` URL whose request is forwarded in
/// origin form. The last four bytes of the headers are dropped, which must
/// leave whole characters of a head that is UTF-8.
pub fn parse_http_request(bytes: Vec<u8>, header_end: usize) -> (r: Result<
    HttpRequest,
    ProxyError,
>)
    requires
        header_end <= bytes@.len(),
        valid_utf8(bytes@.take(header_end as int)) ==> header_end >= 4 && valid_utf8(
            bytes@.take(header_end - 4),
        ),
    ensures
        match r {
            Ok(request) => spec_parse_http_request(bytes@, header_end as int) == Ok::<
                HttpRequestView,
                ProxyError,
            >(request@),
            Err(e) => spec_parse_http_request(bytes@, header_end as int) == Err::<
                HttpRequestView,
                ProxyError,
            >(e),
        },
{
    let body = slice_range(&bytes, header_end, bytes.len());
    assert(body@ =~= bytes@.skip(header_end as int));
    let whole = slice_range(&bytes, 0, header_end);
    assert(whole@ =~= bytes@.take(header_end as int));
    if utf8_chars(&whole).is_none() {
        return Err(ProxyError::HeadersNotUtf8);
    }
    let head = slice_range(&bytes, 0, header_end - 4);
    assert(head@ =~= bytes@.take(header_end - 4));
    let text = match utf8_chars(&head) {
        Some(text) => text,
        None => {
            return Err(ProxyError::HeadersNotUtf8);
        },
    };
    let lines = split_crlf(&text);
    let ghost lv = views(lines@);
    proof {
        lemma_crlf_lines_nonempty(text@);
    }
    let parts = split_words(&lines[0]);
    let ghost pv = views(parts@);
    assert(lv[0] == lines@[0]@);
    if parts.len() == 0 {
        return Err(ProxyError::MissingMethod);
    }
    if parts.len() == 1 {
        return Err(ProxyError::MissingTarget);
    }
    if parts.len() == 2 {
        return Err(ProxyError::MissingVersion);
    }
    let version = string_from_chars(&parts[2]);
    assert(pv[2] == parts@[2]@);
    ensure_http_version(version.as_str())?;
    let next_part = if parts.len() > 3 {
        Some(&parts[3])
    } else {
        None
    };
    ensure_no_extra_request_line_parts(next_part)?;
    let method = &parts[0];
    let request_target = string_from_chars(&parts[1]);
    assert(pv[0] == parts@[0]@);
    assert(pv[1] == parts@[1]@);
    let connect = chars_of("CONNECT");
    if eq_ignore_case(method, &connect) {
        let target = parse_authority(request_target.as_str())?;
        let request = HttpRequest {
            target,
            kind: HttpRequestKind::Tunnel,
            forwarded_head: Vec::new(),
            buffered_body: body,
        };
        assert(request@.forwarded_head =~= Seq::<u8>::empty());
        return Ok(request);
    }
    let url = match parse_url(request_target.as_str()) {
        Some(url) => url,
        None => {
            return Err(ProxyError::NotAbsoluteUrl);
        },
    };
    let scheme = chars_of(url.scheme.as_str());
    let http = chars_of("http");
    if !chars_eq(&scheme, &http) {
        return Err(ProxyError::UnsupportedScheme);
    }
    let port = match url.port {
        Some(port) => port,
        None => {
            return Err(ProxyError::MissingPort);
        },
    };
    let target = match &url.host {
        None => {
            return Err(ProxyError::MissingHost);
        },
        Some(UrlHost::Domain(d)) => ProxyTarget {
            host: TargetHost::Domain(d.clone()),
            port,
        },
        Some(UrlHost::V4(a)) => ProxyTarget { host: TargetHost::Address(IpAddress::V4(*a)), port },
        Some(UrlHost::V6(a)) => ProxyTarget { host: TargetHost::Address(IpAddress::V6(*a)), port },
    };
    let mut head_text: Vec<char> = Vec::new();
    extend_chars(&mut head_text, method);
    let space = chars_of(" ");
    extend_chars(&mut head_text, &space);
    let path = chars_of(url.path.as_str());
    let origin_path = if path.len() == 0 {
        chars_of("/")
    } else {
        path
    };
    extend_chars(&mut head_text, &origin_path);
    match &url.query {
        Some(q) => {
            let question = chars_of("?");
            extend_chars(&mut head_text, &question);
            let qc = chars_of(q.as_str());
            extend_chars(&mut head_text, &qc);
        },
        None => {},
    }
    extend_chars(&mut head_text, &space);
    extend_chars(&mut head_text, &parts[2]);
    let crlf = chars_of("\r\n");
    extend_chars(&mut head_text, &crlf);
    let kept = kept_header_text(&lines);
    extend_chars(&mut head_text, &kept);
    let close = chars_of("Connection: close\r\n\r\n");
    extend_chars(&mut head_text, &close);
    assert(head_text@ =~= forwarded_head_text(pv[0], origin_form(url@), pv[2], lv.skip(1)));
    let forwarded_head = utf8_bytes(&head_text);
    Ok(HttpRequest { target, kind: HttpRequestKind::Forward, forwarded_head, buffered_body: body })
}


/// The two protocols that share the proxy's listening port.
#[derive(Clone, Copy, Debug, PartialEq, Eq, Structural)]
pub enum ClientProtocol {
    Socks,
    Http,
}

/// Tells the protocols apart by the first byte the client sent: SOCKS5
/// clients open with the version byte 5. `None` when the client closed
/// before sending anything.
pub fn client_protocol(peeked: usize, first: u8) -> (r: Option<ClientProtocol>)
    ensures
        peeked == 0 ==> r.is_none(),
        peeked > 0 && first == SOCKS_VERSION ==> r == Some(ClientProtocol::Socks),
        peeked > 0 && first != SOCKS_VERSION ==> r == Some(ClientProtocol::Http),
{
    if peeked == 0 {
        None
    } else if first == SOCKS_VERSION {
        Some(ClientProtocol::Socks)
    } else {
        Some(ClientProtocol::Http)
    }
}

/// The number of authentication methods that a SOCKS5 greeting announces.
pub fn greeting_method_count(header: &[u8]) -> (r: Result<usize, ProxyError>)
    requires
        header@.len() == 2,
    ensures
        match r {
            Ok(n) => header@[0] == SOCKS_VERSION && header@[1] != 0 && n == header@[1],
            Err(e) => e == ProxyError::InvalidSocksGreeting && (header@[0] != SOCKS_VERSION
                || header@[1] == 0),
        },
{
    if header[0] != SOCKS_VERSION || header[1] == 0 {
        Err(ProxyError::InvalidSocksGreeting)
    } else {
        Ok(header[1] as usize)
    }
}

/// The method the proxy picks: "no authentication" (0) when offered, else
/// "no acceptable method" (0xff).
pub open spec fn selected_method(methods: Seq<u8>) -> u8 {
    if methods.contains(0u8) {
        0
    } else {
        0xff
    }
}

/// The reply to the offered methods, and whether the handshake goes on.
pub fn negotiation_reply(methods: &[u8]) -> (r: (Vec<u8>, Result<(), ProxyError>))
    ensures
        r.0@ == seq![SOCKS_VERSION, selected_method(methods@)],
        r.1 is Ok <==> selected_method(methods@) == 0,
        r.1 matches Err(e) ==> e == ProxyError::NoAcceptableAuthMethod,
{
    let mut i: usize = 0;
    let mut found = false;
    while i < methods.len()
        invariant
            i <= methods@.len(),
            found == (exists|j: int| 0 <= j < i && methods@[j] == 0u8),
        decreases methods.len() - i,
    {
        if methods[i] == 0 {
            found = true;
        }
        i = i + 1;
    }
    let selected: u8 = if found {
        0
    } else {
        0xff
    };
    let mut reply: Vec<u8> = Vec::new();
    reply.push(SOCKS_VERSION);
    reply.push(selected);
    assert(reply@ =~= seq![SOCKS_VERSION, selected_method(methods@)]);
    if found {
        (reply, Ok(()))
    } else {
        (reply, Err(ProxyError::NoAcceptableAuthMethod))
    }
}

/// How far a SOCKS5 connection request has been received.
#[derive(Clone, Debug, PartialEq, Eq)]
pub enum SocksRequestStatus {
    /// The request needs this many bytes in all.
    Incomplete(usize),
    /// The request is refused with this reply code.
    Rejected(u8),
    /// The domain name is not UTF-8.
    InvalidDomain,
    Complete(ProxyTarget),
}

/// A big-endian 16-bit field.
pub open spec fn be16_at(b: Seq<u8>, i: int) -> int {
    b[i] * 256 + b[i + 1]
}

/// What the bytes of a SOCKS5 request received so far decide, except the
/// target of a complete request: `Ok(())` when it is complete.
pub open spec fn socks_request_progress(b: Seq<u8>) -> Result<(), SocksProgress> {
    if b.len() < 4 {
        Err(SocksProgress::Need(4))
    } else if b[0] != SOCKS_VERSION || b[1] != SOCKS_CONNECT || b[2] != 0 {
        Err(SocksProgress::Reject(7))
    } else if b[3] == ADDRESS_IPV4 {
        if b.len() < 10 {
            Err(SocksProgress::Need(10))
        } else {
            Ok(())
        }
    } else if b[3] == ADDRESS_IPV6 {
        if b.len() < 22 {
            Err(SocksProgress::Need(22))
        } else {
            Ok(())
        }
    } else if b[3] == ADDRESS_DOMAIN {
        if b.len() < 5 {
            Err(SocksProgress::Need(5))
        } else if b.len() < 5 + b[4] {
            Err(SocksProgress::Need(5 + b[4]))
        } else if !valid_utf8(b.subrange(5, 5 + b[4])) {
            Err(SocksProgress::BadDomain)
        } else if b.len() < 7 + b[4] {
            Err(SocksProgress::Need(7 + b[4]))
        } else {
            Ok(())
        }
    } else {
        Err(SocksProgress::Reject(8))
    }
}

pub enum SocksProgress {
    Need(int),
    Reject(u8),
    BadDomain,
}

/// The target that a complete SOCKS5 request names.
pub open spec fn socks_target(b: Seq<u8>, t: ProxyTargetView) -> bool {
    if b[3] == ADDRESS_IPV4 {
        &&& t.host matches TargetHostView::Address(IpAddress::V4(a)) && a@ == b.subrange(4, 8)
        &&& t.port == be16_at(b, 8)
    } else if b[3] == ADDRESS_IPV6 {
        &&& t.host matches TargetHostView::Address(IpAddress::V6(a)) && a@ == b.subrange(4, 20)
        &&& t.port == be16_at(b, 20)
    } else {
        &&& t.host == TargetHostView::Domain(decode_utf8(b.subrange(5, 5 + b[4])))
        &&& t.port == be16_at(b, 5 + b[4])
    }
}

/// The target of a complete SOCKS5 request: the address bytes that follow
/// the address type (4 for IPv4, 16 for IPv6, or a length byte and that many
/// bytes of a domain), then the port as the big-endian 16-bit value of the
/// two bytes right after them.
pub proof fn lemma_socks_target_reads_address_then_port(b: Seq<u8>, t: ProxyTargetView)
    requires
        socks_request_progress(b) is Ok,
        socks_target(b, t),
    ensures
        b[3] == 1 ==> b.len() >= 10 && t.port == b[8] * 256 + b[9] && (t.host matches TargetHostView::Address(
            IpAddress::V4(a),
        ) && forall|i: int| 0 <= i < 4 ==> a[i] == b[4 + i]),
        b[3] == 4 ==> b.len() >= 22 && t.port == b[20] * 256 + b[21] && (t.host matches TargetHostView::Address(
            IpAddress::V6(a),
        ) && forall|i: int| 0 <= i < 16 ==> a[i] == b[4 + i]),
        b[3] == 3 ==> b.len() >= 7 + b[4] && t.port == b[5 + b[4]] * 256 + b[6 + b[4]]
            && t.host == TargetHostView::Domain(decode_utf8(b.subrange(5, 5 + b[4]))),
        b[3] == 1 || b[3] == 3 || b[3] == 4,
{
    if b[3] == 1 {
        if let TargetHostView::Address(IpAddress::V4(a)) = t.host {
            assert forall|i: int| 0 <= i < 4 implies a[i] == b[4 + i] by {
                assert(a@[i] == b.subrange(4, 8)[i]);
            }
        }
    }
    if b[3] == 4 {
        if let TargetHostView::Address(IpAddress::V6(a)) = t.host {
            assert forall|i: int| 0 <= i < 16 implies a[i] == b[4 + i] by {
                assert(a@[i] == b.subrange(4, 20)[i]);
            }
        }
    }
}

fn copy_octets4(b: &[u8], from: usize) -> (a: [u8; 4])
    requires
        from + 4 <= b@.len(),
    ensures
        a@ == b@.subrange(from as int, from + 4),
{
    let a = [b[from], b[from + 1], b[from + 2], b[from + 3]];
    assert(a@ =~= b@.subrange(from as int, from + 4));
    a
}

fn copy_octets16(b: &[u8], from: usize) -> (a: [u8; 16])
    requires
        from + 16 <= b@.len(),
    ensures
        a@ == b@.subrange(from as int, from + 16),
{
    let mut a = [0u8; 16];
    let mut j: usize = 0;
    let n = b.len();
    while j < 16
        invariant
            n == b@.len(),
            from + 16 <= b@.len(),
            j <= 16,
            forall|q: int| 0 <= q < j ==> a[q] == b@[from + q],
        decreases 16 - j,
    {
        a[j] = b[from + j];
        j = j + 1;
    }
    assert(a@ =~= b@.subrange(from as int, from + 16));
    a
}

fn be16_of(b: &[u8], i: usize) -> (r: u16)
    requires
        i + 1 < b@.len(),
    ensures
        r == be16_at(b@, i as int),
{
    (b[i] as u16) * 256 + (b[i + 1] as u16)
}

/// Reads a SOCKS5 `CONNECT` request from the bytes received so far: how many
/// bytes it needs in all, the reply code that refuses it (7 for another
/// command, 8 for an unknown address type), or its target.
pub fn socks_request_status(b: &[u8]) -> (r: SocksRequestStatus)
    ensures
        match r {
            SocksRequestStatus::Incomplete(n) => socks_request_progress(b@) == Err::<
                (),
                SocksProgress,
            >(SocksProgress::Need(n as int)) && n > b@.len(),
            SocksRequestStatus::Rejected(code) => socks_request_progress(b@) == Err::<
                (),
                SocksProgress,
            >(SocksProgress::Reject(code)),
            SocksRequestStatus::InvalidDomain => socks_request_progress(b@) == Err::<
                (),
                SocksProgress,
            >(SocksProgress::BadDomain),
            SocksRequestStatus::Complete(t) => socks_request_progress(b@) is Ok && socks_target(
                b@,
                t@,
            ),
        },
{
    let n = b.len();
    if n < 4 {
        return SocksRequestStatus::Incomplete(4);
    }
    if b[0] != SOCKS_VERSION || b[1] != SOCKS_CONNECT || b[2] != 0 {
        return SocksRequestStatus::Rejected(7);
    }
    if b[3] == ADDRESS_IPV4 {
        if n < 10 {
            return SocksRequestStatus::Incomplete(10);
        }
        let a = copy_octets4(b, 4);
        let port = be16_of(b, 8);
        SocksRequestStatus::Complete(ProxyTarget { host: TargetHost::Address(IpAddress::V4(a)), port })
    } else if b[3] == ADDRESS_IPV6 {
        if n < 22 {
            return SocksRequestStatus::Incomplete(22);
        }
        let a = copy_octets16(b, 4);
        let port = be16_of(b, 20);
        SocksRequestStatus::Complete(ProxyTarget { host: TargetHost::Address(IpAddress::V6(a)), port })
    } else if b[3] == ADDRESS_DOMAIN {
        if n < 5 {
            return SocksRequestStatus::Incomplete(5);
        }
        let length = b[4] as usize;
        if n < 5 + length {
            return SocksRequestStatus::Incomplete(5 + length);
        }
        let name = slice_range(b, 5, 5 + length);
        let chars = match utf8_chars(&name) {
            Some(chars) => chars,
            None => {
                return SocksRequestStatus::InvalidDomain;
            },
        };
        if n < 7 + length {
            return SocksRequestStatus::Incomplete(7 + length);
        }
        let port = be16_of(b, 5 + length);
        SocksRequestStatus::Complete(
            ProxyTarget { host: TargetHost::Domain(string_from_chars(&chars)), port },
        )
    } else {
        SocksRequestStatus::Rejected(8)
    }
}

/// The reply to a SOCKS5 request: version, status, a reserved byte and an
/// all-zero IPv6 bound address and port.
pub open spec fn socks_reply_bytes(status: u8) -> Seq<u8> {
    seq![SOCKS_VERSION, status, 0u8, ADDRESS_IPV6] + Seq::new(18, |i: int| 0u8)
}

/// A SOCKS5 reply with the given status and an all-zero IPv6 bound address.
pub fn socks_reply(status: u8) -> (r: Vec<u8>)
    ensures
        r@ == socks_reply_bytes(status),
{
    let mut reply: Vec<u8> = Vec::new();
    reply.push(SOCKS_VERSION);
    reply.push(status);
    reply.push(0);
    reply.push(ADDRESS_IPV6);
    let mut i: usize = 0;
    while i < 18
        invariant
            i <= 18,
            reply@ == seq![SOCKS_VERSION, status, 0u8, ADDRESS_IPV6] + Seq::new(
                i as nat,
                |k: int| 0u8,
            ),
        decreases 18 - i,
    {
        reply.push(0);
        i = i + 1;
        assert(reply@ =~= seq![SOCKS_VERSION, status, 0u8, ADDRESS_IPV6] + Seq::new(
            i as nat,
            |k: int| 0u8,
        ));
    }
    reply
}

/// What is written once the upstream connection is open: to the client (the
/// tunnel's acknowledgement) and upstream (the buffered bytes, after the
/// rewritten head of a forwarded request).
pub fn http_preamble(request: &HttpRequest) -> (r: (Vec<u8>, Vec<u8>))
    ensures
        request.kind == HttpRequestKind::Tunnel ==> r.0@ == encode_utf8(
            "HTTP/1.1 200 Connection Established\r\n\r\n"@,
        ) && r.1@ == request.buffered_body@,
        request.kind == HttpRequestKind::Forward ==> r.0@ == Seq::<u8>::empty() && r.1@
            == request.forwarded_head@ + request.buffered_body@,
{
    match request.kind {
        HttpRequestKind::Tunnel => {
            let ack = vstd::slice::slice_to_vec(
                "HTTP/1.1 200 Connection Established\r\n\r\n".as_bytes(),
            );
            (ack, request.buffered_body.clone())
        },
        HttpRequestKind::Forward => {
            let mut upstream = request.forwarded_head.clone();
            let mut body = request.buffered_body.clone();
            upstream.append(&mut body);
            (Vec::new(), upstream)
        },
    }
}

/// The answer to a client whose upstream connection failed.
pub fn bad_gateway_response() -> (r: Vec<u8>)
    ensures
        r@ == encode_utf8(
            "HTTP/1.1 502 Bad Gateway\r\nConnection: close\r\nContent-Length: 0\r\n\r\n"@,
        ),
{
    vstd::slice::slice_to_vec(
        "HTTP/1.1 502 Bad Gateway\r\nConnection: close\r\nContent-Length: 0\r\n\r\n".as_bytes(),
    )
}

/// How a target is reached.
#[derive(Clone, Debug, PartialEq, Eq)]
pub enum OverlayRoute {
    /// An overlay address: through the node.
    Overlay(SocketAddress),
    /// Another address: directly.
    Direct,
    /// A domain: through the node only if it resolves to an overlay address.
    Resolve(String),
}

/// How a target is reached: overlay addresses through the node, other
/// addresses directly, domains after resolution.
pub fn overlay_route(target: &ProxyTarget) -> (r: OverlayRoute)
    ensures
        match target.host {
            TargetHost::Address(IpAddress::V6(a)) => if spec_is_overlay(a) {
                r == OverlayRoute::Overlay(
                    SocketAddress { ip: IpAddress::V6(a), port: target.port },
                )
            } else {
                r == OverlayRoute::Direct
            },
            TargetHost::Address(IpAddress::V4(_)) => r == OverlayRoute::Direct,
            TargetHost::Domain(d) => r matches OverlayRoute::Resolve(name) && name@ == d@,
        },
{
    match &target.host {
        TargetHost::Address(IpAddress::V6(a)) => if is_overlay_address(*a) {
            OverlayRoute::Overlay(SocketAddress { ip: IpAddress::V6(*a), port: target.port })
        } else {
            OverlayRoute::Direct
        },
        TargetHost::Address(IpAddress::V4(_)) => OverlayRoute::Direct,
        TargetHost::Domain(d) => OverlayRoute::Resolve(d.clone()),
    }
}

/// The overlay socket address that an overlay DNS answer gives, if the
/// answer is an overlay address.
pub fn overlay_from_dns(answer: Option<[u8; 16]>, port: u16) -> (r: Option<SocketAddress>)
    ensures
        match answer {
            Some(a) => if spec_is_overlay(a) {
                r == Some(SocketAddress { ip: IpAddress::V6(a), port })
            } else {
                r.is_none()
            },
            None => r.is_none(),
        },
{
    match answer {
        Some(a) => if is_overlay_address(a) {
            Some(SocketAddress { ip: IpAddress::V6(a), port })
        } else {
            None
        },
        None => None,
    }
}

/// A socket address on the overlay network.
pub open spec fn is_overlay_socket(a: SocketAddress) -> bool {
    a.ip matches IpAddress::V6(o) && spec_is_overlay(o)
}

/// The first overlay address among the system resolver's answers.
pub fn first_overlay_address(addresses: &[SocketAddress]) -> (r: Option<SocketAddress>)
    ensures
        match r {
            Some(a) => exists|i: int|
                0 <= i < addresses@.len() && addresses@[i] == a && is_overlay_socket(a) && (
                forall|j: int| 0 <= j < i ==> !is_overlay_socket(#[trigger] addresses@[j])),
            None => forall|i: int|
                0 <= i < addresses@.len() ==> !is_overlay_socket(#[trigger] addresses@[i]),
        },
{
    let mut i: usize = 0;
    while i < addresses.len()
        invariant
            i <= addresses@.len(),
            forall|j: int| 0 <= j < i ==> !is_overlay_socket(#[trigger] addresses@[j]),
        decreases addresses.len() - i,
    {
        let a = addresses[i];
        match a.ip {
            IpAddress::V6(o) => if is_overlay_address(o) {
                assert(addresses@[i as int] == a);
                return Some(a);
            },
            IpAddress::V4(_) => {},
        }
        i = i + 1;
    }
    None
}

/// The message id and bytes of the AAAA query sent to an overlay DNS server,
/// which must have an IPv6 address. The id is drawn from the system's random
/// source, big-endian from two bytes; where that source fails, no query is
/// made.
pub fn overlay_dns_query(server: &SocketAddress, domain: &str) -> (r: Result<
    (u16, Vec<u8>),
    ProxyError,
>)
    ensures
        match r {
            Ok((id, query)) => server.ip is V6 && crate::dns::spec_aaaa_query(
                id,
                domain.spec_bytes(),
            ) == Some(query@),
            Err(e) => (e == ProxyError::OverlayDnsNotIpv6 && server.ip is V4) || (e
                == ProxyError::RandomUnavailable && server.ip is V6) || (e
                == ProxyError::InvalidDnsName && server.ip is V6 && forall|id: u16|
                crate::dns::spec_aaaa_query(id, domain.spec_bytes()).is_none()),
        },
{
    if let IpAddress::V4(_) = server.ip {
        return Err(ProxyError::OverlayDnsNotIpv6);
    }
    let mut bytes: Vec<u8> = vec![0u8; 2];
    if !crate::privileged::fill_random(&mut bytes) {
        return Err(ProxyError::RandomUnavailable);
    }
    let id: u16 = (bytes[0] as u16) * 256 + (bytes[1] as u16);
    match crate::dns::build_aaaa_query(id, domain) {
        Ok(query) => Ok((id, query)),
        Err(_) => Err(ProxyError::InvalidDnsName),
    }
}

} // verus!
