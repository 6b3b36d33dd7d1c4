use axum::http::HeaderMap;
use cause::ip::{parse_ip, IpAddr};
use cause::rate_limit::{rate_limited, TrustedProxyKeyExtractor};

fn ip(s: &str) -> IpAddr {
    parse_ip(s).unwrap()
}

#[test]
fn test_key_extractor_no_connect_info_fails() {
    let extractor = TrustedProxyKeyExtractor { trusted_proxies: vec![] };
    assert!(extractor.extract(None, &HeaderMap::new()).is_err());
}

#[test]
fn test_key_extractor_untrusted_peer_ignores_headers() {
    let extractor = TrustedProxyKeyExtractor { trusted_proxies: vec![ip("10.0.0.1")] };
    let mut headers = HeaderMap::new();
    headers.append("x-forwarded-for", "1.2.3.4".parse().unwrap());
    assert_eq!(extractor.extract(Some(ip("9.9.9.9")), &headers).unwrap(), ip("9.9.9.9"));
}

#[test]
fn test_key_extractor_trusted_peer_uses_forwarded_for() {
    let extractor = TrustedProxyKeyExtractor { trusted_proxies: vec![ip("10.0.0.1")] };
    let mut headers = HeaderMap::new();
    headers.append("x-forwarded-for", "1.2.3.4, 10.0.0.1".parse().unwrap());
    assert_eq!(extractor.extract(Some(ip("10.0.0.1")), &headers).unwrap(), ip("1.2.3.4"));
}

#[test]
fn test_key_extractor_normalizes_ipv6_to_64() {
    let extractor = TrustedProxyKeyExtractor { trusted_proxies: vec![] };
    let peer = Some(ip("2001:db8:1:2:3:4:5:6"));
    assert_eq!(extractor.extract(peer, &HeaderMap::new()).unwrap(), ip("2001:db8:1:2::"));
}

#[test]
fn sustained_rate_gives_the_interval() {
    assert_eq!(rate_limited(2, 5, 600).interval_nanos, 500_000_000);
    assert_eq!(rate_limited(1, 5, 600).interval_nanos, 1_000_000_000);
    assert_eq!(rate_limited(3, 5, 600).interval_nanos, 333_333_333);
    assert_eq!(rate_limited(1_000_000_000, 5, 600).interval_nanos, 1);
    assert_eq!(rate_limited(u64::MAX, 5, 600).interval_nanos, 1);
    let limit = rate_limited(2, 5, 600);
    assert_eq!(limit.burst_size, 5);
    assert_eq!(limit.cleanup_interval, 600);
}
