use axum::http::HeaderMap;
use cause::ip::{parse_ip, IpAddr};
use cause::net::{canonical_client_ip, normalize_ip, resolve_client_ip, resolve_from_values};

fn ip(s: &str) -> IpAddr {
    parse_ip(s).unwrap()
}

fn peer(s: &str) -> IpAddr {
    ip(s)
}

#[test]
fn test_resolve_client_ip_untrusted_peer_ignores_headers() {
    let mut headers = HeaderMap::new();
    headers.insert("x-forwarded-for", "1.2.3.4".parse().unwrap());
    headers.insert("x-real-ip", "5.6.7.8".parse().unwrap());
    let trusted = [ip("10.0.0.1")];
    assert_eq!(resolve_client_ip(peer("9.9.9.9"), &headers, &trusted), ip("9.9.9.9"));
}

#[test]
fn test_resolve_client_ip_forwarded_for_from_trusted_proxy() {
    let mut headers = HeaderMap::new();
    headers.insert("x-forwarded-for", "1.2.3.4, 10.0.0.1".parse().unwrap());
    let trusted = [ip("10.0.0.1")];
    assert_eq!(resolve_client_ip(peer("10.0.0.1"), &headers, &trusted), ip("1.2.3.4"));
}

#[test]
fn test_resolve_client_ip_real_ip_fallback() {
    let mut headers = HeaderMap::new();
    headers.insert("x-real-ip", "5.6.7.8".parse().unwrap());
    let trusted = [ip("10.0.0.1")];
    assert_eq!(resolve_client_ip(peer("10.0.0.1"), &headers, &trusted), ip("5.6.7.8"));
}

#[test]
fn test_resolve_client_ip_real_ip_rejects_trusted_proxy_value() {
    let mut headers = HeaderMap::new();
    headers.insert("x-real-ip", "10.0.0.1".parse().unwrap());
    let trusted = [ip("10.0.0.1")];
    assert_eq!(resolve_client_ip(peer("10.0.0.1"), &headers, &trusted), ip("10.0.0.1"));
}

#[test]
fn test_resolve_client_ip_forwarded_for_all_trusted_falls_back_to_real_ip() {
    let mut headers = HeaderMap::new();
    headers.insert("x-forwarded-for", "10.0.0.2, 10.0.0.1".parse().unwrap());
    headers.insert("x-real-ip", "5.6.7.8".parse().unwrap());
    let trusted = [ip("10.0.0.1"), ip("10.0.0.2")];
    assert_eq!(resolve_client_ip(peer("10.0.0.1"), &headers, &trusted), ip("5.6.7.8"));
}

#[test]
fn test_resolve_client_ip_forwarded_for_multiple_instances_ignores_spoofed_first() {
    let mut headers = HeaderMap::new();
    headers.append("x-forwarded-for", "6.6.6.6".parse().unwrap());
    headers.append("x-forwarded-for", "1.2.3.4".parse().unwrap());
    let trusted = [ip("10.0.0.1")];
    assert_eq!(resolve_client_ip(peer("10.0.0.1"), &headers, &trusted), ip("1.2.3.4"));
}

#[test]
fn test_resolve_client_ip_forwarded_for_multiple_instances_all_trusted_walks_back() {
    let mut headers = HeaderMap::new();
    headers.append("x-forwarded-for", "6.6.6.6, 1.2.3.4".parse().unwrap());
    headers.append("x-forwarded-for", "10.0.0.2, 10.0.0.1".parse().unwrap());
    let trusted = [ip("10.0.0.1"), ip("10.0.0.2")];
    assert_eq!(resolve_client_ip(peer("10.0.0.1"), &headers, &trusted), ip("1.2.3.4"));
}

#[test]
fn test_resolve_client_ip_real_ip_multiple_instances_rejected() {
    let mut headers = HeaderMap::new();
    headers.append("x-real-ip", "6.6.6.6".parse().unwrap());
    headers.append("x-real-ip", "5.6.7.8".parse().unwrap());
    let trusted = [ip("10.0.0.1")];
    assert_eq!(resolve_client_ip(peer("10.0.0.1"), &headers, &trusted), ip("10.0.0.1"));
}

#[test]
fn test_resolve_client_ip_no_headers_returns_peer() {
    let headers = HeaderMap::new();
    let trusted = [ip("10.0.0.1")];
    assert_eq!(resolve_client_ip(peer("10.0.0.1"), &headers, &trusted), ip("10.0.0.1"));
}

#[test]
fn test_normalize_ip_v4_unchanged() {
    assert_eq!(normalize_ip(ip("192.0.2.1")), ip("192.0.2.1"));
}

#[test]
fn test_normalize_ip_v6_truncated_to_64() {
    assert_eq!(normalize_ip(ip("2001:db8:1:2:3:4:5:6")), ip("2001:db8:1:2::"));
    assert_eq!(
        normalize_ip(ip("2001:db8:1:2:ffff:ffff:ffff:ffff")),
        normalize_ip(ip("2001:db8:1:2::1"))
    );
    assert_ne!(normalize_ip(ip("2001:db8:1:2::1")), normalize_ip(ip("2001:db8:1:3::1")));
}

#[test]
fn normalizing_twice_is_normalizing_once() {
    for s in ["1.2.3.4", "2001:db8:1:2:3:4:5:6", "::1"] {
        assert_eq!(normalize_ip(normalize_ip(ip(s))), normalize_ip(ip(s)));
    }
}

#[test]
fn addresses_are_numbers() {
    assert_eq!(ip("1.2.3.4"), IpAddr::V4(0x01020304));
    assert_eq!(ip("255.255.255.255"), IpAddr::V4(u32::MAX));
    assert_eq!(ip("::"), IpAddr::V6(0));
    assert_eq!(ip("::1"), IpAddr::V6(1));
    assert_eq!(ip("2001:db8::"), IpAddr::V6(0x2001_0db8_0000_0000_0000_0000_0000_0000));
    assert_eq!(ip("1:2:3:4:5:6:7:8"), IpAddr::V6(0x0001_0002_0003_0004_0005_0006_0007_0008));
    assert_eq!(ip("::ffff:1.2.3.4"), IpAddr::V6(0xffff_0102_0304));
    assert_eq!(ip("1:2:3:4:5:6:1.2.3.4"), IpAddr::V6(0x0001_0002_0003_0004_0005_0006_0102_0304));
    assert_eq!(ip("ABCD::"), ip("abcd::"));
}

#[test]
fn text_that_is_no_address_is_refused() {
    for s in [
        "", ".", "1.2.3", "1.2.3.4.5", "256.1.1.1", "1.2.3.4 ", " 1.2.3.4", "01.2.3.4", "0.0.0.00",
        "1.2.3.0004", "1..2.3", "1.2.3.-4", "+1.2.3.4", "1.2.3.4:80", ":", ":::", "1::2::3", "1:", ":1",
        "1:2:3:4:5:6:7", "1:2:3:4:5:6:7:8:9", "1:2:3:4::5:6:7:8", "12345::", "g::", "1.2.3.4::",
        "1:2:3:4:5:6:7:1.2.3.4", "::1.2.3", "::256.1.1.1", "::ffff:01.2.3.4", "fe80::1%eth0", "[::1]",
    ] {
        assert_eq!(parse_ip(s), None, "{:?}", s);
    }
}

#[test]
fn one_gap_stands_for_zeros() {
    assert_eq!(ip("1:2:3:4:5:6:7::"), ip("1:2:3:4:5:6:7:0"));
    assert_eq!(ip("::2:3:4:5:6:7:8"), ip("0:2:3:4:5:6:7:8"));
    assert_eq!(ip("1::3:4:5:6:7:8"), ip("1:0:3:4:5:6:7:8"));
    assert_eq!(ip("1::8"), ip("1:0:0:0:0:0:0:8"));
    assert_eq!(ip("::1.2.3.4"), ip("::102:304"));
    assert_eq!(ip("1::1.2.3.4"), ip("1:0:0:0:0:0:102:304"));
}

#[test]
fn malformed_hops_are_passed_over() {
    let mut headers = HeaderMap::new();
    headers.append("x-forwarded-for", "1.2.3.4, unknown, , 10.0.0.1".parse().unwrap());
    let trusted = [ip("10.0.0.1")];
    assert_eq!(resolve_client_ip(peer("10.0.0.1"), &headers, &trusted), ip("1.2.3.4"));
}

#[test]
fn invisible_header_values_are_passed_over() {
    let mut headers = HeaderMap::new();
    headers.append("x-forwarded-for", "1.2.3.4".parse().unwrap());
    headers.append(
        "x-forwarded-for",
        axum::http::HeaderValue::from_bytes(b"5.6.7.8\xff").unwrap(),
    );
    let trusted = [ip("10.0.0.1")];
    assert_eq!(resolve_client_ip(peer("10.0.0.1"), &headers, &trusted), ip("1.2.3.4"));
}

#[test]
fn hops_may_be_padded() {
    let mut headers = HeaderMap::new();
    headers.append("x-forwarded-for", "9.9.9.9,\t2001:db8::7  ".parse().unwrap());
    let trusted = [ip("10.0.0.1")];
    assert_eq!(resolve_client_ip(peer("10.0.0.1"), &headers, &trusted), ip("2001:db8::7"));
}

#[test]
fn comma_and_header_line_append_alike() {
    let trusted = [ip("10.0.0.1"), ip("10.0.0.2")];
    let mut joined = HeaderMap::new();
    joined.append("x-forwarded-for", "1.2.3.4,10.0.0.2".parse().unwrap());
    let mut apart = HeaderMap::new();
    apart.append("x-forwarded-for", "1.2.3.4".parse().unwrap());
    apart.append("x-forwarded-for", "10.0.0.2".parse().unwrap());
    let peer = peer("10.0.0.1");
    assert_eq!(resolve_client_ip(peer, &joined, &trusted), ip("1.2.3.4"));
    assert_eq!(resolve_client_ip(peer, &apart, &trusted), ip("1.2.3.4"));
}

#[test]
fn header_names_do_not_depend_on_case() {
    let mut headers = HeaderMap::new();
    headers.append(
        axum::http::HeaderName::from_bytes(b"X-Real-IP").unwrap(),
        "5.6.7.8".parse().unwrap(),
    );
    let trusted = [ip("10.0.0.1")];
    assert_eq!(resolve_client_ip(peer("10.0.0.1"), &headers, &trusted), ip("5.6.7.8"));
}

#[test]
fn canonical_client_is_the_normalized_one() {
    let mut headers = HeaderMap::new();
    headers.append("x-forwarded-for", "2001:db8:1:2:3:4:5:6".parse().unwrap());
    let trusted = [ip("10.0.0.1")];
    assert_eq!(canonical_client_ip(peer("10.0.0.1"), &headers, &trusted), ip("2001:db8:1:2::"));
}

#[test]
fn header_values_may_be_handed_over_as_they_are() {
    let proxy = ip("10.0.0.1");
    let values = |texts: &[&str]| texts.iter().map(|text| text.as_bytes().to_vec()).collect();
    let resolve = |forwarded: &[&str], real_ips: &[&str]| {
        resolve_from_values(proxy, values(forwarded), values(real_ips), &[proxy])
    };
    assert_eq!(resolve(&["6.6.6.6", "1.2.3.4, 10.0.0.1"], &["5.6.7.8"]), ip("1.2.3.4"));
    assert_eq!(resolve(&["10.0.0.1"], &["5.6.7.8"]), ip("5.6.7.8"));
    assert_eq!(resolve(&[], &["5.6.7.8", "5.6.7.8"]), proxy);
    let peer = ip("9.9.9.9");
    assert_eq!(resolve_from_values(peer, values(&["1.2.3.4"]), vec![], &[proxy]), peer);
}
