use drosophila::dns::{build_aaaa_query, parse_aaaa_response, skip_dns_name, DnsError};
use drosophila::net::{is_overlay_address, parse_ip_address, parse_ipv6_address, parse_socket_address, IpAddress};
use drosophila::proxy::{
    bad_gateway_response, client_protocol, ensure_http_version, ensure_no_extra_request_line_parts,
    find_header_end, first_overlay_address, greeting_method_count, http_head_status, http_preamble,
    negotiation_reply, overlay_dns_query, overlay_from_dns, overlay_route, parse_authority,
    parse_http_request, socks_reply, socks_request_status, ClientProtocol, HeadStatus,
    HttpRequestKind, OverlayRoute, ProxyError, ProxyTarget, SocksRequestStatus, TargetHost,
    HTTP_HEADER_LIMIT,
};

fn v6(text: &str) -> [u8; 16] {
    parse_ipv6_address(text).unwrap()
}

#[test]
fn dns_query_encodes_aaaa_question() {
    let query = build_aaaa_query(0x1234, "example.test").unwrap();
    assert_eq!(&query[..2], &[0x12, 0x34]);
    assert!(query.windows(7).any(|window| window == b"example"));
    assert_eq!(&query[query.len() - 4..], &[0, 28, 0, 1]);
}

#[test]
fn proxy_dns_query_encodes_aaaa_question() {
    let query = build_aaaa_query(0x1234, "example.test").unwrap();
    assert_eq!(&query[..2], &[0x12, 0x34]);
    assert!(query.windows(7).any(|window| window == b"example"));
    assert_eq!(&query[query.len() - 4..], &[0, 28, 0, 1]);
}

#[test]
fn yggdrasil_range_is_selected_for_overlay_routing() {
    assert!(is_overlay_address(v6("200:db8::1")));
    assert!(is_overlay_address(v6("3ff:ffff::1")));
    assert!(!is_overlay_address(v6("400::1")));
    assert!(!is_overlay_address(v6("2001:db8::1")));
}

#[test]
fn proxy_yggdrasil_range_is_selected_for_overlay_routing() {
    assert!(is_overlay_address(v6("200:db8::1")));
    assert!(is_overlay_address(v6("3ff:ffff::1")));
    assert!(!is_overlay_address(v6("400::1")));
    assert!(!is_overlay_address(v6("2001:db8::1")));
}

fn check_authorities() {
    assert_eq!(
        parse_authority("example.test:443").unwrap(),
        ProxyTarget {
            host: TargetHost::Domain("example.test".to_owned()),
            port: 443,
        }
    );
    assert_eq!(
        parse_authority("[200:db8::1]:8443").unwrap(),
        ProxyTarget {
            host: TargetHost::Address(parse_ip_address("200:db8::1").unwrap()),
            port: 8443,
        }
    );
}

#[test]
fn http_connect_accepts_domain_and_ipv6_authorities() {
    check_authorities();
}

#[test]
fn proxy_http_connect_accepts_domain_and_ipv6_authorities() {
    check_authorities();
}

#[test]
fn connect_authorities_need_a_port_and_a_plain_host() {
    assert_eq!(parse_authority("example.test").unwrap_err(), ProxyError::AuthorityWithoutPort);
    assert_eq!(parse_authority("example.test:http").unwrap_err(), ProxyError::InvalidAuthorityPort);
    assert_eq!(parse_authority(":443").unwrap_err(), ProxyError::InvalidAuthorityHost);
    assert_eq!(parse_authority("a:b:443").unwrap_err(), ProxyError::InvalidAuthorityHost);
    assert_eq!(
        parse_authority("10.0.0.1:80").unwrap(),
        ProxyTarget { host: TargetHost::Address(IpAddress::V4([10, 0, 0, 1])), port: 80 }
    );
}

#[test]
fn http_forward_request_uses_origin_form_and_keeps_buffered_body() {
    let bytes = b"POST http://example.test:8080/path?q=1 HTTP/1.1\r\nHost: example.test\r\nProxy-Connection: keep-alive\r\nContent-Length: 4\r\n\r\ntest".to_vec();
    let header_end = find_header_end(&bytes).unwrap();
    let request = parse_http_request(bytes, header_end).unwrap();

    assert_eq!(request.kind, HttpRequestKind::Forward);
    assert_eq!(request.target.port, 8080);
    assert_eq!(request.buffered_body, b"test");
    let head = String::from_utf8(request.forwarded_head).unwrap();
    assert!(head.starts_with("POST /path?q=1 HTTP/1.1\r\n"));
    assert!(!head.to_ascii_lowercase().contains("proxy-connection"));
}

#[test]
fn http_forward_request_uses_origin_form_and_disables_connection_reuse() {
    let bytes = b"POST http://example.test:8080/path?q=1 HTTP/1.1\r\nHost: example.test\r\nConnection: keep-alive\r\nProxy-Connection: keep-alive\r\nContent-Length: 4\r\n\r\ntest".to_vec();
    let header_end = find_header_end(&bytes).unwrap();
    let request = parse_http_request(bytes, header_end).unwrap();

    assert_eq!(request.kind, HttpRequestKind::Forward);
    assert_eq!(request.target.port, 8080);
    assert_eq!(request.buffered_body, b"test");
    let head = String::from_utf8(request.forwarded_head).unwrap();
    assert!(head.starts_with("POST /path?q=1 HTTP/1.1\r\n"));
    assert!(!head.to_ascii_lowercase().contains("proxy-connection"));
    assert!(!head.to_ascii_lowercase().contains("connection: keep-alive"));
    assert!(head.ends_with("Connection: close\r\n\r\n"));
}

#[test]
fn forwarded_head_is_exact() {
    let bytes = b"GET http://example.test HTTP/1.0\r\nHost: example.test\r\nAccept: */*\r\n\r\n".to_vec();
    let header_end = find_header_end(&bytes).unwrap();
    let request = parse_http_request(bytes, header_end).unwrap();
    assert_eq!(request.target.port, 80);
    assert_eq!(
        String::from_utf8(request.forwarded_head).unwrap(),
        "GET / HTTP/1.0\r\nHost: example.test\r\nAccept: */*\r\nConnection: close\r\n\r\n"
    );
    assert!(request.buffered_body.is_empty());
}

#[test]
fn connect_requests_tunnel_with_buffered_bytes() {
    let bytes = b"connect example.test:443 HTTP/1.1\r\nHost: x\r\n\r\n\x16\x03".to_vec();
    let header_end = find_header_end(&bytes).unwrap();
    let request = parse_http_request(bytes, header_end).unwrap();
    assert_eq!(request.kind, HttpRequestKind::Tunnel);
    assert_eq!(request.target.host, TargetHost::Domain("example.test".to_owned()));
    assert!(request.forwarded_head.is_empty());
    assert_eq!(request.buffered_body, vec![0x16, 0x03]);
    let (to_client, upstream) = http_preamble(&request);
    assert_eq!(to_client, b"HTTP/1.1 200 Connection Established\r\n\r\n");
    assert_eq!(upstream, vec![0x16, 0x03]);
}

fn parse(text: &[u8]) -> Result<HttpRequestKind, ProxyError> {
    let bytes = text.to_vec();
    let end = find_header_end(&bytes).unwrap();
    parse_http_request(bytes, end).map(|r| r.kind)
}

#[test]
fn malformed_requests_are_refused_with_their_reason() {
    assert_eq!(parse(b"\r\n\r\n"), Err(ProxyError::MissingMethod));
    assert_eq!(parse(b"GET\r\n\r\n"), Err(ProxyError::MissingTarget));
    assert_eq!(parse(b"GET http://a/\r\n\r\n"), Err(ProxyError::MissingVersion));
    assert_eq!(parse(b"GET http://a/ HTTP/2\r\n\r\n"), Err(ProxyError::UnsupportedVersion));
    assert_eq!(parse(b"GET http://a/ HTTP/1.1 x\r\n\r\n"), Err(ProxyError::ExtraRequestLineParts));
    assert_eq!(parse(b"GET /a HTTP/1.1\r\n\r\n"), Err(ProxyError::NotAbsoluteUrl));
    assert_eq!(parse(b"GET https://a/ HTTP/1.1\r\n\r\n"), Err(ProxyError::UnsupportedScheme));
    assert_eq!(parse(b"GET \xff HTTP/1.1\r\n\r\n"), Err(ProxyError::HeadersNotUtf8));
    assert_eq!(ensure_http_version("HTTP/1.0"), Ok(()));
    assert_eq!(ensure_http_version("http/1.1"), Err(ProxyError::UnsupportedVersion));
    assert_eq!(ensure_no_extra_request_line_parts(None), Ok(()));
    assert_eq!(
        ensure_no_extra_request_line_parts(Some(&vec!['x'])),
        Err(ProxyError::ExtraRequestLineParts)
    );
}

#[test]
fn header_end_is_found_after_the_blank_line() {
    assert_eq!(find_header_end(b"GET / HTTP/1.1\r\n\r\nbody"), Some(18));
    assert_eq!(find_header_end(b"GET / HTTP/1.1\r\n"), None);
    assert_eq!(http_head_status(b"a\r\n\r\n"), HeadStatus::Complete(5));
    assert_eq!(http_head_status(b"partial"), HeadStatus::Incomplete);
    assert_eq!(http_head_status(&vec![b'a'; HTTP_HEADER_LIMIT]), HeadStatus::TooLarge);
}

#[test]
fn socks_handshake() {
    assert_eq!(client_protocol(0, 5), None);
    assert_eq!(client_protocol(1, 5), Some(ClientProtocol::Socks));
    assert_eq!(client_protocol(1, b'G'), Some(ClientProtocol::Http));
    assert_eq!(greeting_method_count(&[5, 2]), Ok(2));
    assert_eq!(greeting_method_count(&[4, 2]), Err(ProxyError::InvalidSocksGreeting));
    assert_eq!(greeting_method_count(&[5, 0]), Err(ProxyError::InvalidSocksGreeting));
    assert_eq!(negotiation_reply(&[2, 0]), (vec![5, 0], Ok(())));
    assert_eq!(negotiation_reply(&[2]), (vec![5, 0xff], Err(ProxyError::NoAcceptableAuthMethod)));
    let reply = socks_reply(5);
    assert_eq!(reply.len(), 22);
    assert_eq!(&reply[..4], &[5, 5, 0, 4]);
    assert!(reply[4..].iter().all(|b| *b == 0));
}

#[test]
fn socks_requests_are_read_as_they_arrive() {
    assert_eq!(socks_request_status(&[5, 1]), SocksRequestStatus::Incomplete(4));
    assert_eq!(socks_request_status(&[5, 2, 0, 1]), SocksRequestStatus::Rejected(7));
    assert_eq!(socks_request_status(&[5, 1, 0, 9]), SocksRequestStatus::Rejected(8));
    assert_eq!(socks_request_status(&[5, 1, 0, 1, 10, 0]), SocksRequestStatus::Incomplete(10));
    assert_eq!(
        socks_request_status(&[5, 1, 0, 1, 10, 0, 0, 1, 0x1f, 0x90]),
        SocksRequestStatus::Complete(ProxyTarget {
            host: TargetHost::Address(IpAddress::V4([10, 0, 0, 1])),
            port: 8080
        })
    );
    let mut domain = vec![5, 1, 0, 3, 4];
    domain.extend_from_slice(b"host");
    assert_eq!(socks_request_status(&domain), SocksRequestStatus::Incomplete(11));
    domain.extend_from_slice(&[0, 80]);
    assert_eq!(
        socks_request_status(&domain),
        SocksRequestStatus::Complete(ProxyTarget { host: TargetHost::Domain("host".to_owned()), port: 80 })
    );
    assert_eq!(socks_request_status(&[5, 1, 0, 3, 1, 0xff, 0, 80]), SocksRequestStatus::InvalidDomain);
}

#[test]
fn overlay_routing_decisions() {
    let overlay = ProxyTarget { host: TargetHost::Address(IpAddress::V6(v6("200::1"))), port: 80 };
    assert_eq!(overlay_route(&overlay), OverlayRoute::Overlay(parse_socket_address("[200::1]:80").unwrap()));
    let other = ProxyTarget { host: TargetHost::Address(IpAddress::V6(v6("2001:db8::1"))), port: 80 };
    assert_eq!(overlay_route(&other), OverlayRoute::Direct);
    let named = ProxyTarget { host: TargetHost::Domain("example.test".to_owned()), port: 80 };
    assert_eq!(overlay_route(&named), OverlayRoute::Resolve("example.test".to_owned()));
    assert_eq!(overlay_from_dns(Some(v6("300::5")), 443), parse_socket_address("[300::5]:443"));
    assert_eq!(overlay_from_dns(Some(v6("2001:db8::5")), 443), None);
    assert_eq!(overlay_from_dns(None, 443), None);
    let answers = vec![
        parse_socket_address("10.0.0.1:80").unwrap(),
        parse_socket_address("[2001:db8::1]:80").unwrap(),
        parse_socket_address("[201::1]:80").unwrap(),
        parse_socket_address("[202::1]:80").unwrap(),
    ];
    assert_eq!(first_overlay_address(&answers), parse_socket_address("[201::1]:80"));
    assert_eq!(first_overlay_address(&answers[..2]), None);
    assert_eq!(
        bad_gateway_response(),
        b"HTTP/1.1 502 Bad Gateway\r\nConnection: close\r\nContent-Length: 0\r\n\r\n"
    );
}

#[test]
fn overlay_dns_queries_need_an_ipv6_server_and_a_valid_name() {
    let v4 = parse_socket_address("10.0.0.53:53").unwrap();
    assert_eq!(overlay_dns_query(&v4, "example.test").unwrap_err(), ProxyError::OverlayDnsNotIpv6);
    let v6server = parse_socket_address("[200::53]:53").unwrap();
    let (id, query) = overlay_dns_query(&v6server, "example.test").unwrap();
    assert_eq!(query, build_aaaa_query(id, "example.test").unwrap());
    assert_eq!(overlay_dns_query(&v6server, "a..b").unwrap_err(), ProxyError::InvalidDnsName);
}

#[test]
fn dns_names_are_checked_and_responses_read_back() {
    assert_eq!(build_aaaa_query(1, "").unwrap_err(), DnsError::InvalidName);
    assert_eq!(build_aaaa_query(1, &"a".repeat(64)).unwrap_err(), DnsError::InvalidName);
    let query = build_aaaa_query(7, "example.test.").unwrap();
    assert_eq!(query, build_aaaa_query(7, "example.test").unwrap());

    let mut response = query.clone();
    response[2] = 0x81;
    response[3] = 0x80;
    response[7] = 1;
    response.extend_from_slice(&[0xc0, 12, 0, 28, 0, 1, 0, 0, 0, 60, 0, 16]);
    let address = v6("200:1:2:3::4");
    response.extend_from_slice(&address);
    assert_eq!(parse_aaaa_response(7, &response), Some(address));
    assert_eq!(parse_aaaa_response(8, &response), None);
    assert_eq!(parse_aaaa_response(7, &response[..response.len() - 1]), None);

    let mut offset = 12;
    assert_eq!(skip_dns_name(&query, &mut offset), Some(()));
    assert_eq!(offset, query.len() - 4);
    let mut offset = 0;
    assert_eq!(skip_dns_name(&[0xc0], &mut offset), None);
}
