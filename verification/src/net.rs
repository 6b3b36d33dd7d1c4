//! Which client a request comes from.

use crate::headers;
use crate::ip;
use crate::ip::{holds_ip, ip_from_chars, IpAddr};
use crate::text;
use crate::text::{chars_of, split_chars, text_of_visible, trim_chars};
use axum::http::HeaderMap;
use vstd::prelude::*;

verus! {

/// The number of addresses in an IPv6 /64 network.
pub const V6_NETWORK_SIZE: u128 = 0x1_0000_0000_0000_0000;

/// The address under which a client is counted: an IPv4 address itself, the /64 network of an
/// IPv6 address.
pub open spec fn normalized(ip: IpAddr) -> IpAddr {
    match ip {
        IpAddr::V4(_) => ip,
        IpAddr::V6(bits) => IpAddr::V6((bits - bits % V6_NETWORK_SIZE) as u128),
    }
}

/// Calling this twice is calling it once.
pub proof fn law_normalized_idempotent(ip: IpAddr)
    ensures
        normalized(normalized(ip)) == normalized(ip),
{
}

/// Two IPv6 addresses are counted as one exactly where their first 64 bits agree.
pub proof fn law_normalized_v6(a: u128, b: u128)
    ensures
        normalized(IpAddr::V6(a)) == normalized(IpAddr::V6(b)) <==> a / V6_NETWORK_SIZE == b
            / V6_NETWORK_SIZE,
{
}

/// Normalizes an IP for blocking and rate limiting. IPv4 addresses are returned as they are;
/// IPv6 addresses are truncated to their /64.
pub fn normalize_ip(ip: IpAddr) -> (r: IpAddr)
    ensures
        r == normalized(ip),
{
    match ip {
        IpAddr::V4(_) => ip,
        IpAddr::V6(bits) => {
            let masked = bits & 0xffff_ffff_ffff_ffff_0000_0000_0000_0000u128;
            assert(bits & 0xffff_ffff_ffff_ffff_0000_0000_0000_0000u128 == bits - bits
                % 0x1_0000_0000_0000_0000u128) by (bit_vector);
            IpAddr::V6(masked)
        },
    }
}

/// The comma-separated hops of one `X-Forwarded-For` value; none where it is not visible ASCII.
pub open spec fn value_hops(value: Seq<u8>) -> Seq<Seq<char>> {
    match text::visible_text(value) {
        Some(text) => text::split(text, ','),
        None => Seq::empty(),
    }
}

/// The hops of all `X-Forwarded-For` values as one chain, each value appended to those before it.
pub open spec fn hops(values: Seq<Seq<u8>>) -> Seq<Seq<char>>
    decreases values.len(),
{
    if values.len() == 0 {
        Seq::empty()
    } else {
        hops(values.drop_last()) + value_hops(values.last())
    }
}

/// The address that text names, unless it is that of a trusted proxy.
pub open spec fn untrusted_ip(text: Seq<char>, trusted: Seq<IpAddr>) -> Option<IpAddr> {
    match ip::ip_from_text(text::trim(text)) {
        Some(ip) => if trusted.contains(ip) {
            None
        } else {
            Some(ip)
        },
        None => None,
    }
}

/// The rightmost hop that is an address and not a trusted proxy.
pub open spec fn client_hop(chain: Seq<Seq<char>>, trusted: Seq<IpAddr>) -> Option<IpAddr>
    decreases chain.len(),
{
    if chain.len() == 0 {
        None
    } else {
        match untrusted_ip(chain.last(), trusted) {
            Some(ip) => Some(ip),
            None => client_hop(chain.drop_last(), trusted),
        }
    }
}

/// The address in `X-Real-IP`, which counts only where it is the header's one value.
pub open spec fn real_ip(values: Seq<Seq<u8>>, trusted: Seq<IpAddr>) -> Option<IpAddr> {
    if values.len() == 1 {
        match text::visible_text(values[0]) {
            Some(text) => untrusted_ip(text, trusted),
            None => None,
        }
    } else {
        None
    }
}

/// The client behind a request: the peer itself unless it is a trusted proxy, else what
/// `X-Forwarded-For` names, else what `X-Real-IP` names, else the peer.
pub open spec fn resolved(
    peer: IpAddr,
    forwarded: Seq<Seq<u8>>,
    real_ips: Seq<Seq<u8>>,
    trusted: Seq<IpAddr>,
) -> IpAddr {
    if trusted.contains(peer) {
        match client_hop(hops(forwarded), trusted) {
            Some(ip) => ip,
            None => match real_ip(real_ips, trusted) {
                Some(ip) => ip,
                None => peer,
            },
        }
    } else {
        peer
    }
}

/// The client that `resolve_client_ip` names for a request with these headers.
pub open spec fn client_of(peer: IpAddr, headers: HeaderMap, trusted: Seq<IpAddr>) -> IpAddr {
    resolved(
        peer,
        headers::header_values(headers, "x-forwarded-for"@),
        headers::header_values(headers, "x-real-ip"@),
        trusted,
    )
}

/// In a chain, the right part decides where it names a client at all.
proof fn lemma_client_hop_concat(
    left: Seq<Seq<char>>,
    right: Seq<Seq<char>>,
    trusted: Seq<IpAddr>,
)
    ensures
        client_hop(left + right, trusted) == match client_hop(right, trusted) {
            Some(ip) => Some(ip),
            None => client_hop(left, trusted),
        },
    decreases right.len(),
{
    if right.len() == 0 {
        assert(left + right =~= left);
    } else {
        assert((left + right).drop_last() =~= left + right.drop_last());
        assert((left + right).last() == right.last());
        lemma_client_hop_concat(left, right.drop_last(), trusted);
    }
}

proof fn lemma_hops_concat(left: Seq<Seq<u8>>, right: Seq<Seq<u8>>)
    ensures
        hops(left + right) == hops(left) + hops(right),
    decreases right.len(),
{
    if right.len() == 0 {
        assert(left + right =~= left);
        assert(hops(left) + hops(right) =~= hops(left));
    } else {
        assert((left + right).drop_last() =~= left + right.drop_last());
        assert((left + right).last() == right.last());
        lemma_hops_concat(left, right.drop_last());
        assert(hops(left + right) =~= hops(left) + hops(right));
    }
}

proof fn lemma_client_hop_untrusted(chain: Seq<Seq<char>>, trusted: Seq<IpAddr>)
    ensures
        client_hop(chain, trusted) matches Some(ip) ==> !trusted.contains(ip),
    decreases chain.len(),
{
    if chain.len() > 0 {
        lemma_client_hop_untrusted(chain.drop_last(), trusted);
    }
}

/// The headers of a peer that is no trusted proxy do not matter.
pub proof fn law_untrusted_peer_speaks_for_itself(
    peer: IpAddr,
    headers: HeaderMap,
    trusted: Seq<IpAddr>,
)
    requires
        !trusted.contains(peer),
    ensures
        client_of(peer, headers, trusted) == peer,
{
}

/// A trusted proxy is never taken for the client, except where it is the peer and names nobody.
pub proof fn law_client_is_no_proxy(
    peer: IpAddr,
    forwarded: Seq<Seq<u8>>,
    real_ips: Seq<Seq<u8>>,
    trusted: Seq<IpAddr>,
)
    ensures
        ({
            let client = resolved(peer, forwarded, real_ips, trusted);
            client == peer || !trusted.contains(client)
        }),
{
    lemma_client_hop_untrusted(hops(forwarded), trusted);
}

/// What stands further left in the chain of forwarding headers cannot change the client once
/// later values name one: values that an attacker supplied in front are ignored.
pub proof fn law_leading_values_ignored(
    peer: IpAddr,
    leading: Seq<Seq<u8>>,
    appended: Seq<Seq<u8>>,
    real_ips: Seq<Seq<u8>>,
    trusted: Seq<IpAddr>,
)
    requires
        client_hop(hops(appended), trusted) is Some,
    ensures
        resolved(peer, leading + appended, real_ips, trusted) == resolved(
            peer,
            appended,
            real_ips,
            trusted,
        ),
{
    lemma_hops_concat(leading, appended);
    lemma_client_hop_concat(hops(leading), hops(appended), trusted);
}

/// It makes no difference whether a proxy appends a hop to the last value after a comma or as a
/// header line of its own.
pub proof fn law_comma_and_line_append_alike(
    peer: IpAddr,
    values: Seq<Seq<u8>>,
    last: Seq<u8>,
    appended: Seq<u8>,
    real_ips: Seq<Seq<u8>>,
    trusted: Seq<IpAddr>,
)
    requires
        text::visible_text(last) is Some,
        text::visible_text(appended) is Some,
    ensures
        resolved(peer, values.push(last.push(44u8) + appended), real_ips, trusted) == resolved(
            peer,
            values.push(last).push(appended),
            real_ips,
            trusted,
        ),
{
    let joined = last.push(44u8) + appended;
    let (a, b) = (text::visible_text(last).unwrap(), text::visible_text(appended).unwrap());
    assert forall|i: int| 0 <= i < joined.len() implies text::is_visible(
        #[trigger] joined[i],
    ) by {
        if i < last.len() {
            assert(joined[i] == last[i]);
        } else if i > last.len() {
            assert(joined[i] == appended[i - last.len() - 1]);
        }
    }
    assert(text::visible_text(joined).unwrap() =~= a.push(',') + b);
    text::lemma_split_concat(a, ',', b);
    assert(values.push(joined).drop_last() =~= values);
    assert(values.push(last).push(appended).drop_last() =~= values.push(last));
    assert(values.push(last).drop_last() =~= values);
    reveal_with_fuel(hops, 3);
    assert(hops(values.push(joined)) =~= hops(values.push(last).push(appended)));
}

/// The address that text names, unless it is that of a trusted proxy.
fn read_untrusted_ip(text: &[char], trusted_proxies: &[IpAddr]) -> (r: Option<IpAddr>)
    ensures
        r == untrusted_ip(text@, trusted_proxies@),
{
    match ip_from_chars(trim_chars(text)) {
        Some(ip) => if holds_ip(trusted_proxies, ip) {
            None
        } else {
            Some(ip)
        },
        None => None,
    }
}

/// Walks a chain of forwarding headers from right to left.
fn find_client_hop(values: Vec<Vec<u8>>, trusted_proxies: &[IpAddr]) -> (r: Option<IpAddr>)
    ensures
        r == client_hop(hops(headers::bytes_of(values@)), trusted_proxies@),
{
    let ghost all = headers::bytes_of(values@);
    let ghost trusted = trusted_proxies@;
    let mut left = values;
    assert(all.take(all.len() as int) =~= all);
    while left.len() > 0
        invariant
            trusted == trusted_proxies@,
            all == headers::bytes_of(values@),
            left@.len() <= all.len(),
            headers::bytes_of(left@) == all.take(left@.len() as int),
            client_hop(hops(all), trusted) == client_hop(hops(headers::bytes_of(left@)), trusted),
        decreases left@.len(),
    {
        let ghost before = headers::bytes_of(left@);
        let value = left.pop().unwrap();
        assert(headers::bytes_of(left@) =~= before.drop_last());
        assert(before.drop_last() =~= all.take(left@.len() as int));
        assert(before.last() == value@);
        proof {
            lemma_client_hop_concat(hops(before.drop_last()), value_hops(value@), trusted);
        }
        if let Some(text) = text_of_visible(value) {
            let mut pieces = split_chars(chars_of(text.as_str()).as_slice(), ',');
            let ghost chain = text::texts(pieces@);
            while pieces.len() > 0
                invariant
                    trusted == trusted_proxies@,
                    client_hop(chain, trusted) == client_hop(text::texts(pieces@), trusted),
                    client_hop(chain, trusted) is Some ==> client_hop(hops(all), trusted)
                        == client_hop(chain, trusted),
                    all == headers::bytes_of(values@),
                decreases pieces@.len(),
            {
                let ghost before_piece = text::texts(pieces@);
                let piece = pieces.pop().unwrap();
                assert(text::texts(pieces@) =~= before_piece.drop_last());
                assert(before_piece.last() == piece@);
                if let Some(ip) = read_untrusted_ip(piece.as_slice(), trusted_proxies) {
                    return Some(ip);
                }
            }
            assert(client_hop(chain, trusted) is None);
        }
    }
    None
}

/// Resolves the effective client IP from the TCP peer address and the values of the proxy headers,
/// `X-Forwarded-For` and `X-Real-IP`, as bytes.
pub fn resolve_from_values(
    peer_ip: IpAddr,
    forwarded: Vec<Vec<u8>>,
    real_ips: Vec<Vec<u8>>,
    trusted_proxies: &[IpAddr],
) -> (client: IpAddr)
    ensures
        client == resolved(
            peer_ip,
            headers::bytes_of(forwarded@),
            headers::bytes_of(real_ips@),
            trusted_proxies@,
        ),
{
    if !holds_ip(trusted_proxies, peer_ip) {
        return peer_ip;
    }
    if let Some(ip) = find_client_hop(forwarded, trusted_proxies) {
        return ip;
    }
    let mut real_ips = real_ips;
    let ghost values = headers::bytes_of(real_ips@);
    if real_ips.len() == 1 {
        let value = real_ips.pop().unwrap();
        assert(values[0] == value@);
        if let Some(text) = text_of_visible(value) {
            let chars = chars_of(text.as_str());
            if let Some(ip) = read_untrusted_ip(chars.as_slice(), trusted_proxies) {
                return ip;
            }
        }
    }
    peer_ip
}

/// Resolves the effective client IP from the TCP peer address and proxy headers:
/// `X-Forwarded-For`, then `X-Real-IP`, then the TCP peer address.
///
/// When using `X-Real-IP`, the reverse proxy must overwrite it, not append to it or pass it
/// through.
pub fn resolve_client_ip(
    peer_ip: IpAddr,
    headers: &HeaderMap,
    trusted_proxies: &[IpAddr],
) -> (client: IpAddr)
    ensures
        client == client_of(peer_ip, *headers, trusted_proxies@),
{
    let forwarded = headers::get_all(headers, "x-forwarded-for");
    let real_ips = headers::get_all(headers, "x-real-ip");
    resolve_from_values(peer_ip, forwarded, real_ips, trusted_proxies)
}

/// The address under which the client of a request is counted: the resolved client IP,
/// normalized.
pub fn canonical_client_ip(
    peer_ip: IpAddr,
    headers: &HeaderMap,
    trusted_proxies: &[IpAddr],
) -> (client: IpAddr)
    ensures
        client == normalized(client_of(peer_ip, *headers, trusted_proxies@)),
{
    normalize_ip(resolve_client_ip(peer_ip, headers, trusted_proxies))
}

} // verus!
