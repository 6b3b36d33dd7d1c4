//! Which address a client is counted under, and how the proxy headers name a client.

use crate::headers;
use crate::ip;
use crate::ip::IpAddr;
use crate::net;
use crate::text;
use crate::text_laws;
use axum::http::HeaderMap;
use vstd::prelude::*;

verus! {

/// An IPv4 address is counted as itself.
pub proof fn law_ipv4_is_counted_as_itself(a: u32)
    ensures
        net::normalized(IpAddr::V4(a)) == IpAddr::V4(a),
{
}

/// An IPv6 address is counted as the first address of its /64: the first 64 bits stay, the last 64
/// bits are zero.
pub proof fn law_ipv6_is_counted_as_its_network(a: u128)
    ensures
        net::normalized(IpAddr::V6(a)) matches IpAddr::V6(b) && b / 0x1_0000_0000_0000_0000 == a
            / 0x1_0000_0000_0000_0000 && b % 0x1_0000_0000_0000_0000 == 0,
{
}

/// Two addresses are counted as one exactly where they are the same, or are IPv6 addresses that
/// agree in their first 64 bits. No IPv4 address is counted as another or as an IPv6 one.
pub proof fn law_only_one_network_is_counted_as_one(a: IpAddr, b: IpAddr)
    ensures
        net::normalized(a) == net::normalized(b) <==> match (a, b) {
            (IpAddr::V4(x), IpAddr::V4(y)) => x == y,
            (IpAddr::V6(x), IpAddr::V6(y)) => x / 0x1_0000_0000_0000_0000 == y
                / 0x1_0000_0000_0000_0000,
            _ => false,
        },
{
}

/// A text that names an address, with white space around it or none.
pub open spec fn names(
    hop: Seq<char>,
    left: Seq<char>,
    address: Seq<char>,
    right: Seq<char>,
    named: IpAddr,
) -> bool {
    &&& hop == left + address + right
    &&& text_laws::all_white(left) && text_laws::all_white(right)
    &&& text_laws::no_white_ends(address)
    &&& ip::ip_from_text(address) == Some(named)
}

/// A text that names nobody: without the white space around it, it is no address, or that of a
/// trusted proxy.
pub open spec fn names_nobody(hop: Seq<char>, trusted: Seq<IpAddr>) -> bool {
    match ip::ip_from_text(text::trim(hop)) {
        Some(named) => trusted.contains(named),
        None => true,
    }
}

/// The chain of forwarding values, whose last one ends with a hop after a comma or is that hop.
proof fn lemma_last_hop(values: Seq<Seq<u8>>, value: Seq<u8>, before: Seq<char>, hop: Seq<char>)
    requires
        text::visible_text(value) == Some(hop) || text::visible_text(value) == Some(
            before.push(',') + hop,
        ),
        !hop.contains(','),
    ensures
        net::hops(values.push(value)).len() > 0,
        net::hops(values.push(value)).last() == hop,
        text::visible_text(value) == Some(hop) ==> net::hops(values.push(value)).drop_last()
            == net::hops(values),
        text::visible_text(value) == Some(before.push(',') + hop) ==> net::hops(
            values.push(value),
        ).drop_last() == net::hops(values) + text::split(before, ','),
{
    let chain = net::hops(values.push(value));
    assert(values.push(value).drop_last() =~= values);
    text_laws::lemma_one_piece(hop, ',');
    text::lemma_split_concat(before, ',', hop);
    if text::visible_text(value) == Some(hop) {
        assert(chain =~= net::hops(values).push(hop));
        assert(chain.drop_last() =~= net::hops(values));
        if text::visible_text(value) == Some(before.push(',') + hop) {
            assert((before.push(',') + hop)[before.len() as int] == ',');
            assert(hop.contains(','));
        }
    } else {
        assert(chain =~= (net::hops(values) + text::split(before, ',')).push(hop));
        assert(chain.drop_last() =~= net::hops(values) + text::split(before, ','));
    }
}

/// Behind a trusted peer, the last hop of the forwarding headers is the client wherever it names an
/// address that is not a trusted proxy's, whatever address that is and whatever stands before it.
pub proof fn law_last_hop_is_the_client(
    peer: IpAddr,
    values: Seq<Seq<u8>>,
    value: Seq<u8>,
    before: Seq<char>,
    hop: Seq<char>,
    left: Seq<char>,
    address: Seq<char>,
    right: Seq<char>,
    client: IpAddr,
    real_ips: Seq<Seq<u8>>,
    trusted: Seq<IpAddr>,
)
    requires
        trusted.contains(peer),
        text::visible_text(value) == Some(hop) || text::visible_text(value) == Some(
            before.push(',') + hop,
        ),
        !hop.contains(','),
        names(hop, left, address, right, client),
        !trusted.contains(client),
    ensures
        net::resolved(peer, values.push(value), real_ips, trusted) == client,
{
    lemma_last_hop(values, value, before, hop);
    text_laws::law_trim_takes_white_ends_only(left, address, right);
}

/// A hop that is no address, or that of a trusted proxy, is passed over: the client is the one that
/// is named without it. A value that is not visible ASCII is passed over whole.
pub proof fn law_hop_that_names_nobody_is_passed_over(
    peer: IpAddr,
    values: Seq<Seq<u8>>,
    value: Seq<u8>,
    shorter: Seq<u8>,
    before: Seq<char>,
    hop: Seq<char>,
    real_ips: Seq<Seq<u8>>,
    trusted: Seq<IpAddr>,
)
    requires
        !hop.contains(','),
        names_nobody(hop, trusted),
    ensures
        text::visible_text(value) is None ==> net::resolved(
            peer,
            values.push(value),
            real_ips,
            trusted,
        ) == net::resolved(peer, values, real_ips, trusted),
        text::visible_text(value) == Some(hop) ==> net::resolved(
            peer,
            values.push(value),
            real_ips,
            trusted,
        ) == net::resolved(peer, values, real_ips, trusted),
        text::visible_text(value) == Some(before.push(',') + hop) && text::visible_text(shorter)
            == Some(before) ==> net::resolved(peer, values.push(value), real_ips, trusted)
            == net::resolved(peer, values.push(shorter), real_ips, trusted),
{
    assert(values.push(value).drop_last() =~= values);
    assert(values.push(shorter).drop_last() =~= values);
    if text::visible_text(value) is None {
        assert(net::hops(values.push(value)) =~= net::hops(values));
    } else if text::visible_text(value) == Some(hop) || text::visible_text(value) == Some(
        before.push(',') + hop,
    ) {
        lemma_last_hop(values, value, before, hop);
    }
}

/// Where no hop names a client, the one value of `X-Real-IP` does, wherever it names an address
/// that is not a trusted proxy's, whatever address that is.
pub proof fn law_single_real_ip_is_the_client(
    peer: IpAddr,
    forwarded: Seq<Seq<u8>>,
    value: Seq<u8>,
    left: Seq<char>,
    address: Seq<char>,
    right: Seq<char>,
    client: IpAddr,
    trusted: Seq<IpAddr>,
)
    requires
        trusted.contains(peer),
        forall|i: int|
            0 <= i < net::hops(forwarded).len() ==> names_nobody(
                #[trigger] net::hops(forwarded)[i],
                trusted,
            ),
        text::visible_text(value) == Some(left + address + right),
        names(left + address + right, left, address, right, client),
        !trusted.contains(client),
    ensures
        net::resolved(peer, forwarded, seq![value], trusted) == client,
        forall|real_ips: Seq<Seq<u8>>|
            real_ips.len() != 1 ==> #[trigger] net::resolved(peer, forwarded, real_ips, trusted)
                == peer,
{
    lemma_nobody(net::hops(forwarded), trusted);
    text_laws::law_trim_takes_white_ends_only(left, address, right);
}

/// Where neither the hops nor a single value of `X-Real-IP` name anybody, the client is the peer.
pub proof fn law_nobody_named_is_the_peer(
    peer: IpAddr,
    forwarded: Seq<Seq<u8>>,
    real_ips: Seq<Seq<u8>>,
    trusted: Seq<IpAddr>,
)
    requires
        forall|i: int|
            0 <= i < net::hops(forwarded).len() ==> names_nobody(
                #[trigger] net::hops(forwarded)[i],
                trusted,
            ),
        real_ips.len() != 1 || (match text::visible_text(real_ips[0]) {
            Some(t) => names_nobody(t, trusted),
            None => true,
        }),
    ensures
        net::resolved(peer, forwarded, real_ips, trusted) == peer,
{
    lemma_nobody(net::hops(forwarded), trusted);
}

proof fn lemma_nobody(chain: Seq<Seq<char>>, trusted: Seq<IpAddr>)
    requires
        forall|i: int| 0 <= i < chain.len() ==> names_nobody(#[trigger] chain[i], trusted),
    ensures
        net::client_hop(chain, trusted) is None,
    decreases chain.len(),
{
    if chain.len() > 0 {
        let front = chain.drop_last();
        assert(names_nobody(chain[chain.len() - 1], trusted));
        assert forall|i: int| 0 <= i < front.len() implies names_nobody(
            #[trigger] front[i],
            trusted,
        ) by {
            assert(front[i] == chain[i]);
        }
        lemma_nobody(front, trusted);
    }
}

/// The hops of a chain are those of its values, each the parts between the commas of its text, in
/// the order of the values.
pub proof fn law_hops_are_the_parts_of_all_values(
    values: Seq<Seq<u8>>,
    value: Seq<u8>,
    parts: Seq<Seq<char>>,
)
    requires
        parts.len() > 0,
        forall|i: int| 0 <= i < parts.len() ==> !(#[trigger] parts[i]).contains(','),
        text::visible_text(value) == Some(text_laws::joined(parts, ',')),
    ensures
        net::hops(Seq::empty()) == Seq::<Seq<char>>::empty(),
        net::hops(values.push(value)) == net::hops(values) + parts,
{
    assert(values.push(value).drop_last() =~= values);
    text_laws::law_split_undoes_join(parts, ',');
}

/// What decides on the client of a request are its peer, the values of `X-Forwarded-For` and those
/// of `X-Real-IP`: two requests that agree in them come from the same client.
pub proof fn law_two_headers_decide(
    peer: IpAddr,
    a: HeaderMap,
    b: HeaderMap,
    trusted: Seq<IpAddr>,
)
    requires
        headers::header_values(a, "x-forwarded-for"@) == headers::header_values(
            b,
            "x-forwarded-for"@,
        ),
        headers::header_values(a, "x-real-ip"@) == headers::header_values(b, "x-real-ip"@),
    ensures
        net::client_of(peer, a, trusted) == net::client_of(peer, b, trusted),
        net::client_of(peer, a, trusted) == net::resolved(
            peer,
            headers::header_values(a, "x-forwarded-for"@),
            headers::header_values(a, "x-real-ip"@),
            trusted,
        ),
{
}

/// The case of ASCII letters in a header's name does not matter, and nothing else in it is changed.
pub proof fn law_header_name_case_does_not_matter(
    contents: Map<Seq<char>, Seq<Seq<u8>>>,
    a: Seq<char>,
    b: Seq<char>,
)
    requires
        a.len() == b.len(),
        forall|i: int|
            0 <= i < a.len() ==> (#[trigger] a[i]) == b[i] || (0x41 <= a[i] as int <= 0x5a
                && b[i] as int == a[i] as int + 32),
    ensures
        headers::values_under(contents, a) == headers::values_under(contents, b),
        (forall|i: int| 0 <= i < b.len() ==> !(0x41 <= (#[trigger] b[i]) as int <= 0x5a))
            ==> headers::lower_case(a) == b,
{
    assert(headers::lower_case(a) =~= headers::lower_case(b));
    if forall|i: int| 0 <= i < b.len() ==> !(0x41 <= (#[trigger] b[i]) as int <= 0x5a) {
        assert(headers::lower_case(b) =~= b);
    }
}

/// Under a name in lower case stand the values that are held under it, all of them and in their
/// order; under a name that is not held stands none.
pub proof fn law_header_values_are_those_held(
    contents: Map<Seq<char>, Seq<Seq<u8>>>,
    name: Seq<char>,
)
    requires
        forall|i: int| 0 <= i < name.len() ==> !(0x41 <= (#[trigger] name[i]) as int <= 0x5a),
    ensures
        contents.contains_key(name) ==> headers::values_under(contents, name) == contents[name],
        !contents.contains_key(name) ==> headers::values_under(contents, name).len() == 0,
{
    law_header_name_case_does_not_matter(contents, name, name);
}

} // verus!
