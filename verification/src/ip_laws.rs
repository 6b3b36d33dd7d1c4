//! Which texts are addresses, and of which number.

use crate::ip;
use crate::ip::IpAddr;
use crate::text;
use crate::text_laws;
use vstd::prelude::*;

verus! {

/// Four numbers in decimal with dots between them.
pub open spec fn dotted(a: u8, b: u8, c: u8, d: u8) -> Seq<char> {
    text_laws::joined(
        seq![
            text::decimal(a as nat),
            text::decimal(b as nat),
            text::decimal(c as nat),
            text::decimal(d as nat),
        ],
        '.',
    )
}

/// The number of an IPv4 address, the first byte highest.
pub open spec fn v4_number(a: u8, b: u8, c: u8, d: u8) -> int {
    ((a * 256 + b) * 256 + c) * 256 + d
}

proof fn lemma_digits_are_a_number(digits: Seq<char>)
    requires
        forall|i: int|
            0 <= i < digits.len() ==> 0x30 <= (#[trigger] digits[i]) as int <= 0x39,
    ensures
        ip::number(digits, 10) == Some(text_laws::read_back(digits)),
    decreases digits.len(),
{
    if digits.len() > 0 {
        let front = digits.drop_last();
        assert forall|i: int| 0 <= i < front.len() implies 0x30 <= (#[trigger] front[i]) as int
            <= 0x39 by {
            assert(front[i] == digits[i]);
        }
        lemma_digits_are_a_number(front);
        assert(0x30 <= digits[digits.len() - 1] as int <= 0x39);
    }
}

proof fn lemma_byte_is_an_octet(n: u8)
    ensures
        ip::octet(text::decimal(n as nat)) == Some(n as int),
        !text::decimal(n as nat).contains('.'),
        !text::decimal(n as nat).contains(':'),
{
    let digits = text::decimal(n as nat);
    text_laws::law_decimal_reads_back(n as nat);
    lemma_digits_are_a_number(digits);
    reveal_with_fuel(text::decimal, 4);
}

/// What is written in digits alone, without a leading zero, is the number in decimal.
proof fn lemma_number_is_its_decimal(digits: Seq<char>, n: int)
    requires
        ip::number(digits, 10) == Some(n),
        digits.len() > 0,
        digits.len() == 1 || digits[0] != '0',
    ensures
        n >= 0,
        digits[0] != '0' ==> n > 0,
        digits == text::decimal(n as nat),
    decreases digits.len(),
{
    let front = digits.drop_last();
    let low = ip::digit_value(digits.last(), 10)->0;
    reveal_with_fuel(ip::number, 2);
    if front.len() == 0 {
        assert(digits =~= seq![text::digit_char(n)]);
    } else {
        let high = ip::number(front, 10)->0;
        assert(front[0] == digits[0]);
        lemma_number_is_its_decimal(front, high);
        assert(n == high * 10 + low);
        assert(n / 10 == high && n % 10 == low);
        assert(digits =~= front.push(text::digit_char(low)));
    }
}

/// Every IPv4 address has its dotted text: four numbers below 256 with dots between them are the
/// address of these four bytes.
pub proof fn law_dotted_decimal_is_its_address(a: u8, b: u8, c: u8, d: u8)
    ensures
        ip::ip_from_text(dotted(a, b, c, d)) == Some(IpAddr::V4(v4_number(a, b, c, d) as u32)),
        0 <= v4_number(a, b, c, d) <= u32::MAX,
{
    lemma_dotted(a, b, c, d);
}

proof fn lemma_dotted(a: u8, b: u8, c: u8, d: u8)
    ensures
        ip::ipv4(dotted(a, b, c, d)) == Some(v4_number(a, b, c, d)),
{
    let parts = seq![
        text::decimal(a as nat),
        text::decimal(b as nat),
        text::decimal(c as nat),
        text::decimal(d as nat),
    ];
    lemma_byte_is_an_octet(a);
    lemma_byte_is_an_octet(b);
    lemma_byte_is_an_octet(c);
    lemma_byte_is_an_octet(d);
    text_laws::law_split_undoes_join(parts, '.');
}

/// An IPv4 address has no other text: what is taken for one is its dotted text, without a leading
/// zero or anything else before, between or behind the numbers.
pub proof fn law_only_dotted_decimal_is_ipv4(s: Seq<char>, number: u32) -> (bytes: (u8, u8, u8, u8))
    requires
        ip::ip_from_text(s) == Some(IpAddr::V4(number)),
    ensures
        s == dotted(bytes.0, bytes.1, bytes.2, bytes.3),
        number == v4_number(bytes.0, bytes.1, bytes.2, bytes.3),
{
    lemma_ipv4_is_dotted(s, ip::ipv4(s)->0)
}

proof fn lemma_ipv4_is_dotted(s: Seq<char>, number: int) -> (bytes: (u8, u8, u8, u8))
    requires
        ip::ipv4(s) == Some(number),
    ensures
        s == dotted(bytes.0, bytes.1, bytes.2, bytes.3),
        number == v4_number(bytes.0, bytes.1, bytes.2, bytes.3),
{
    let parts = text::split(s, '.');
    let a = ip::octet(parts[0])->0;
    let b = ip::octet(parts[1])->0;
    let c = ip::octet(parts[2])->0;
    let d = ip::octet(parts[3])->0;
    lemma_number_is_its_decimal(parts[0], a);
    lemma_number_is_its_decimal(parts[1], b);
    lemma_number_is_its_decimal(parts[2], c);
    lemma_number_is_its_decimal(parts[3], d);
    text_laws::law_join_undoes_split(s, '.');
    assert(parts =~= seq![
        text::decimal(a as nat),
        text::decimal(b as nat),
        text::decimal(c as nat),
        text::decimal(d as nat),
    ]);
    (a as u8, b as u8, c as u8, d as u8)
}

/// The value of a hexadecimal digit of either case.
pub open spec fn hex_digit(c: char) -> int {
    let code = c as int;
    if 0x30 <= code <= 0x39 {
        code - 0x30
    } else if 0x61 <= code <= 0x66 {
        code - 0x57
    } else if 0x41 <= code <= 0x46 {
        code - 0x37
    } else {
        -1
    }
}

/// The number that hexadecimal digits write.
pub open spec fn hex_value(digits: Seq<char>) -> int
    decreases digits.len(),
{
    if digits.len() == 0 {
        0
    } else {
        hex_value(digits.drop_last()) * 16 + hex_digit(digits.last())
    }
}

/// One to four hexadecimal digits.
pub open spec fn is_group(s: Seq<char>) -> bool {
    1 <= s.len() <= 4 && forall|i: int| 0 <= i < s.len() ==> hex_digit(#[trigger] s[i]) >= 0
}

/// Every part is one to four hexadecimal digits.
pub open spec fn are_groups(parts: Seq<Seq<char>>) -> bool {
    forall|i: int| 0 <= i < parts.len() ==> is_group(#[trigger] parts[i])
}

/// The number of an IPv6 address, or of a part of one: sixteen bits for each group, the first group
/// highest.
pub open spec fn v6_number(parts: Seq<Seq<char>>) -> int
    decreases parts.len(),
{
    if parts.len() == 0 {
        0
    } else {
        v6_number(parts.drop_last()) * 65536 + hex_value(parts.last())
    }
}

proof fn lemma_hex_number(s: Seq<char>)
    ensures
        match ip::number(s, 16) {
            Some(n) => n == hex_value(s) && forall|i: int|
                0 <= i < s.len() ==> hex_digit(#[trigger] s[i]) >= 0,
            None => exists|i: int| 0 <= i < s.len() && hex_digit(#[trigger] s[i]) < 0,
        },
    decreases s.len(),
{
    if s.len() > 0 {
        let front = s.drop_last();
        lemma_hex_number(front);
        if ip::number(s, 16) is Some {
            assert forall|i: int| 0 <= i < s.len() implies hex_digit(#[trigger] s[i]) >= 0 by {
                if i < front.len() {
                    assert(front[i] == s[i]);
                }
            }
        } else if ip::number(front, 16) is None {
            let i = choose|i: int| 0 <= i < front.len() && hex_digit(#[trigger] front[i]) < 0;
            assert(hex_digit(s[i]) < 0);
        } else {
            assert(hex_digit(s[s.len() - 1]) < 0);
        }
    }
}

proof fn lemma_group(s: Seq<char>)
    ensures
        ip::hextet(s) is Some <==> is_group(s),
        is_group(s) ==> ip::hextet(s) == Some(hex_value(s)),
        is_group(s) ==> !s.contains(':') && !s.contains('.'),
{
    lemma_hex_number(s);
}

/// The values of groups.
spec fn values(parts: Seq<Seq<char>>) -> Seq<int> {
    parts.map_values(|part: Seq<char>| hex_value(part))
}

proof fn lemma_groups(parts: Seq<Seq<char>>)
    ensures
        ip::hextets(parts) is Some <==> are_groups(parts),
        are_groups(parts) ==> ip::hextets(parts) == Some(values(parts)),
        ip::groups_value(values(parts)) == v6_number(parts),
    decreases parts.len(),
{
    if parts.len() > 0 {
        let front = parts.drop_last();
        lemma_groups(front);
        lemma_group(parts.last());
        assert(values(parts).drop_last() =~= values(front));
        if are_groups(parts) {
            assert forall|i: int| 0 <= i < front.len() implies is_group(#[trigger] front[i]) by {
                assert(front[i] == parts[i]);
            }
            assert(is_group(parts[parts.len() - 1]));
            assert(values(parts) =~= values(front).push(hex_value(parts.last())));
        } else if are_groups(front) {
            let i = choose|i: int| 0 <= i < parts.len() && !is_group(#[trigger] parts[i]);
            if i < front.len() {
                assert(is_group(front[i]));
            }
        } else {
            let i = choose|i: int| 0 <= i < front.len() && !is_group(#[trigger] front[i]);
            assert(!is_group(parts[i]));
        }
    } else {
        assert(values(parts) =~= Seq::empty());
    }
}

/// Where no piece between colons is empty, no two colons stand together.
proof fn lemma_no_gap(s: Seq<char>)
    requires
        forall|i: int|
            0 <= i < text::split(s, ':').len() ==> (#[trigger] text::split(s, ':')[i]).len() > 0,
    ensures
        forall|k: int| !ip::is_gap(s, k),
        forall|k: int| 0 <= k < s.len() - 1 ==> !(#[trigger] s[k] == ':' && s[k + 1] == ':'),
        s.len() > 0,
        s[0] != ':',
        s.last() != ':',
{
    let none = Seq::<char>::empty();
    assert(text::split(none, ':') =~= seq![none]);
    text::lemma_split_nonempty(s, ':');
    if s.len() == 0 {
        assert(s =~= none);
        assert(text::split(s, ':')[0].len() == 0);
    }
    if s.last() == ':' {
        let front = s.drop_last();
        text::lemma_split_nonempty(front, ':');
        assert(front.push(':') =~= s);
        text::lemma_split_complete(front, ':');
        let last = text::split(s, ':').len() - 1;
        assert(text::split(s, ':')[last].len() == 0);
    }
    if s[0] == ':' {
        let rest = s.drop_first();
        assert(none.push(':') + rest =~= s);
        text::lemma_split_concat(none, ':', rest);
        assert(text::split(s, ':')[0].len() == 0);
    }
    assert forall|k: int| 0 <= k < s.len() - 1 implies !(#[trigger] s[k] == ':' && s[k + 1]
        == ':') by {
        if s[k] == ':' && s[k + 1] == ':' {
            let rest = s.skip(k + 2);
            let tail = none.push(':') + rest;
            assert(s.take(k).push(':') + tail =~= s);
            text::lemma_split_concat(s.take(k), ':', tail);
            text::lemma_split_concat(none, ':', rest);
            let at = text::split(s.take(k), ':').len() as int;
            assert(text::split(s, ':')[at].len() == 0);
        }
    }
}

/// Groups with colons between them.
pub open spec fn colons(parts: Seq<Seq<char>>) -> Seq<char> {
    text_laws::joined(parts, ':')
}

proof fn lemma_split_groups(parts: Seq<Seq<char>>)
    requires
        are_groups(parts),
        parts.len() > 0,
    ensures
        text::split(colons(parts), ':') == parts,
        !colons(parts).contains('.'),
{
    assert forall|i: int| 0 <= i < parts.len() implies !(#[trigger] parts[i]).contains(':') by {
        lemma_group(parts[i]);
    }
    text_laws::law_split_undoes_join(parts, ':');
    lemma_no_dot(parts);
}

proof fn lemma_no_dot(parts: Seq<Seq<char>>)
    requires
        are_groups(parts),
    ensures
        !colons(parts).contains('.'),
    decreases parts.len(),
{
    if parts.len() == 1 {
        lemma_group(parts[0]);
    } else if parts.len() > 1 {
        let front = parts.drop_last();
        assert forall|i: int| 0 <= i < front.len() implies is_group(#[trigger] front[i]) by {
            assert(front[i] == parts[i]);
        }
        lemma_no_dot(front);
        assert(is_group(parts[parts.len() - 1]));
        lemma_group(parts.last());
        let s = colons(parts);
        if s.contains('.') {
            let k = choose|k: int| 0 <= k < s.len() && s[k] == '.';
            let n = colons(front).len();
            if k < n {
                assert(colons(front)[k] == '.');
            } else if k > n {
                assert(parts.last()[k - n - 1] == '.');
            }
        }
    }
}

/// What `groups` reads of groups with colons between them.
proof fn lemma_read_groups(parts: Seq<Seq<char>>, tail: bool)
    requires
        are_groups(parts),
    ensures
        ip::groups(colons(parts), tail) == Some(values(parts)),
        parts.len() > 0 ==> colons(parts).len() > 0,
{
    lemma_groups(parts);
    if parts.len() == 0 {
        assert(values(parts) =~= Seq::empty());
    } else {
        lemma_split_groups(parts);
        assert forall|i: int|
            0 <= i < text::split(colons(parts), ':').len() implies (#[trigger] text::split(
            colons(parts),
            ':',
        )[i]).len() > 0 by {
            assert(is_group(parts[i]));
        }
        lemma_no_gap(colons(parts));
    }
}

/// A text without a dot is no IPv4 address.
proof fn lemma_dotless(s: Seq<char>)
    requires
        !s.contains('.'),
    ensures
        ip::ipv4(s) is None,
{
    text_laws::lemma_one_piece(s, '.');
}

/// Sixteen bits for each of `n` groups.
spec fn room(n: nat) -> int
    decreases n,
{
    if n == 0 {
        1
    } else {
        room((n - 1) as nat) * 65536
    }
}

proof fn lemma_hex_bound(s: Seq<char>)
    requires
        is_group(s),
    ensures
        0 <= hex_value(s) < 65536,
{
    reveal_with_fuel(hex_value, 5);
    let a = s.drop_last();
    let b = a.drop_last();
    let c = b.drop_last();
    assert(hex_digit(s[s.len() - 1]) >= 0);
    if s.len() > 1 {
        assert(a.last() == s[s.len() - 2]);
    }
    if s.len() > 2 {
        assert(b.last() == s[s.len() - 3]);
    }
    if s.len() > 3 {
        assert(c.last() == s[s.len() - 4]);
    }
}

proof fn lemma_v6_room(parts: Seq<Seq<char>>)
    requires
        are_groups(parts),
    ensures
        0 <= v6_number(parts) < room(parts.len()),
    decreases parts.len(),
{
    if parts.len() > 0 {
        let front = parts.drop_last();
        assert forall|i: int| 0 <= i < front.len() implies is_group(#[trigger] front[i]) by {
            assert(front[i] == parts[i]);
        }
        lemma_v6_room(front);
        assert(is_group(parts[parts.len() - 1]));
        lemma_hex_bound(parts.last());
    }
}

proof fn lemma_v6_bound(parts: Seq<Seq<char>>)
    requires
        are_groups(parts),
        parts.len() == 8,
    ensures
        0 <= v6_number(parts) <= u128::MAX,
{
    lemma_v6_room(parts);
    reveal_with_fuel(room, 9);
}

/// Eight groups of one to four hexadecimal digits, of either case, with colons between them are the
/// IPv6 address of these eight numbers.
pub proof fn law_eight_groups_are_their_address(parts: Seq<Seq<char>>)
    requires
        are_groups(parts),
        parts.len() == 8,
    ensures
        ip::ip_from_text(colons(parts)) matches Some(IpAddr::V6(bits)) && bits == v6_number(parts),
{
    lemma_v6_bound(parts);
    let s = colons(parts);
    lemma_split_groups(parts);
    lemma_dotless(s);
    lemma_read_groups(parts, true);
    lemma_groups(parts);
    assert forall|i: int| 0 <= i < text::split(s, ':').len() implies (#[trigger] text::split(
        s,
        ':',
    )[i]).len() > 0 by {
        assert(is_group(parts[i]));
    }
    lemma_no_gap(s);
}

/// Where the first two colons that stand together are put, there is the gap.
proof fn lemma_gap_at(head: Seq<char>, tail: Seq<char>)
    requires
        head.len() > 0 ==> head.last() != ':',
        forall|k: int| 0 <= k < head.len() - 1 ==> !(#[trigger] head[k] == ':' && head[k + 1]
            == ':'),
    ensures
        ({
            let s = head.push(':').push(':') + tail;
            let k = choose|k: int| ip::is_gap(s, k);
            &&& exists|k: int| ip::is_gap(s, k)
            &&& s.take(k) == head
            &&& s.skip(k + 2) == tail
        }),
{
    let s = head.push(':').push(':') + tail;
    let at = head.len() as int;
    assert forall|j: int| 0 <= j < at implies !(#[trigger] s[j] == ':' && s[j + 1] == ':') by {
        assert(s[j] == head[j]);
        if j < at - 1 {
            assert(s[j + 1] == head[j + 1]);
        }
    }
    assert(ip::is_gap(s, at));
    let k = choose|k: int| ip::is_gap(s, k);
    assert(k == at) by {
        if k < at {
            assert(!(s[k] == ':' && s[k + 1] == ':'));
        } else if at < k {
            assert(!(s[at] == ':' && s[at + 1] == ':'));
        }
    }
    assert(s.take(k) =~= head);
    assert(s.skip(k + 2) =~= tail);
}

proof fn lemma_groups_have_no_gap(parts: Seq<Seq<char>>)
    requires
        are_groups(parts),
    ensures
        ({
            let s = colons(parts);
            &&& s.len() > 0 ==> s.last() != ':'
            &&& forall|k: int| 0 <= k < s.len() - 1 ==> !(#[trigger] s[k] == ':' && s[k + 1] == ':')
        }),
{
    if parts.len() > 0 {
        let s = colons(parts);
        lemma_split_groups(parts);
        assert forall|i: int| 0 <= i < text::split(s, ':').len() implies (#[trigger] text::split(
            s,
            ':',
        )[i]).len() > 0 by {
            assert(is_group(parts[i]));
        }
        lemma_no_gap(s);
    }
}

/// Groups of a single zero.
pub open spec fn zeros(n: nat) -> Seq<Seq<char>> {
    Seq::new(n, |i: int| seq!['0'])
}

/// What a text reads as with `::` in it, given the groups before and behind it.
proof fn lemma_read_gap(head: Seq<Seq<char>>, tail: Seq<char>, behind: Seq<int>)
    requires
        are_groups(head),
        ip::groups(tail, true) == Some(behind),
    ensures
        ip::ipv6_groups(colons(head).push(':').push(':') + tail) == if head.len() + behind.len()
            <= 7 {
            Some(
                values(head) + Seq::new((8 - head.len() - behind.len()) as nat, |i: int| 0int)
                    + behind,
            )
        } else {
            None
        },
{
    lemma_groups_have_no_gap(head);
    lemma_gap_at(colons(head), tail);
    lemma_read_groups(head, false);
}

/// `::` stands for the groups of zeros that are missing of eight: with it, an address is the same
/// as with these groups written out, wherever it stands. Where none is missing it may not stand.
pub proof fn law_double_colon_stands_for_zeros(head: Seq<Seq<char>>, tail: Seq<Seq<char>>)
    requires
        are_groups(head),
        are_groups(tail),
    ensures
        ({
            let s = colons(head).push(':').push(':') + colons(tail);
            if head.len() + tail.len() <= 7 {
                ip::ip_from_text(s) == ip::ip_from_text(
                    colons(head + zeros((8 - head.len() - tail.len()) as nat) + tail),
                ) && ip::ip_from_text(s) is Some
            } else {
                ip::ip_from_text(s) is None
            }
        }),
{
    let s = colons(head).push(':').push(':') + colons(tail);
    lemma_no_dot(head);
    lemma_no_dot(tail);
    assert(!s.contains('.')) by {
        if s.contains('.') {
            let k = choose|k: int| 0 <= k < s.len() && s[k] == '.';
            let n = colons(head).len();
            if k < n {
                assert(colons(head)[k] == '.');
            } else if k > n + 1 {
                assert(colons(tail)[k - n - 2] == '.');
            }
        }
    }
    lemma_dotless(s);
    lemma_read_groups(tail, true);
    lemma_read_gap(head, colons(tail), values(tail));
    if head.len() + tail.len() <= 7 {
        let n = (8 - head.len() - tail.len()) as nat;
        let all = head + zeros(n) + tail;
        assert forall|i: int| 0 <= i < all.len() implies is_group(#[trigger] all[i]) by {
            if i < head.len() {
                assert(all[i] == head[i]);
            } else if i < head.len() + n {
                assert(all[i] == seq!['0']);
            } else {
                assert(all[i] == tail[i - head.len() - n]);
            }
        }
        law_eight_groups_are_their_address(all);
        lemma_groups(all);
        reveal_with_fuel(hex_value, 2);
        assert(seq!['0'].drop_last().len() == 0);
        assert(hex_value(seq!['0']) == 0);
        assert(values(all) =~= values(head) + Seq::new(n, |i: int| 0int) + values(tail));
    }
}

/// Groups with colons between them, and an IPv4 address behind one more.
pub open spec fn colons_and_dotted(
    parts: Seq<Seq<char>>,
    a: u8,
    b: u8,
    c: u8,
    d: u8,
) -> Seq<char> {
    text_laws::joined(parts.push(dotted(a, b, c, d)), ':')
}

proof fn lemma_dotted_chars(a: u8, b: u8, c: u8, d: u8)
    ensures
        !dotted(a, b, c, d).contains(':'),
        dotted(a, b, c, d).contains('.'),
        dotted(a, b, c, d).len() > 0,
{
    let parts = seq![
        text::decimal(a as nat),
        text::decimal(b as nat),
        text::decimal(c as nat),
        text::decimal(d as nat),
    ];
    lemma_byte_is_an_octet(a);
    lemma_byte_is_an_octet(b);
    lemma_byte_is_an_octet(c);
    lemma_byte_is_an_octet(d);
    lemma_joined_chars(parts, '.', ':');
    let front = text_laws::joined(parts.drop_last(), '.');
    assert(dotted(a, b, c, d)[front.len() as int] == '.');
}

proof fn lemma_joined_chars(parts: Seq<Seq<char>>, sep: char, x: char)
    requires
        sep != x,
        forall|i: int| 0 <= i < parts.len() ==> !(#[trigger] parts[i]).contains(x),
    ensures
        !text_laws::joined(parts, sep).contains(x),
    decreases parts.len(),
{
    let s = text_laws::joined(parts, sep);
    if parts.len() > 1 {
        let front = parts.drop_last();
        assert forall|i: int| 0 <= i < front.len() implies !(#[trigger] front[i]).contains(x) by {
            assert(front[i] == parts[i]);
        }
        lemma_joined_chars(front, sep, x);
        assert(!parts[parts.len() - 1].contains(x));
        let before = text_laws::joined(front, sep);
        if s.contains(x) {
            let k = choose|k: int| 0 <= k < s.len() && s[k] == x;
            let n = before.len();
            if k < n {
                assert(before[k] == x);
            } else if k > n {
                assert(parts.last()[k - n - 1] == x);
            }
        }
    } else if parts.len() == 1 {
        assert(!parts[0].contains(x));
    }
}

/// A text with a colon is no IPv4 address.
proof fn lemma_colon(s: Seq<char>)
    requires
        s.contains(':'),
    ensures
        ip::ipv4(s) is None,
{
    if ip::ipv4(s) is Some {
        let (a, b, c, d) = lemma_ipv4_is_dotted(s, ip::ipv4(s)->0);
        lemma_dotted_chars(a, b, c, d);
    }
}

proof fn lemma_read_mixed(parts: Seq<Seq<char>>, a: u8, b: u8, c: u8, d: u8)
    requires
        are_groups(parts),
    ensures
        ({
            let s = colons_and_dotted(parts, a, b, c, d);
            &&& ip::groups(s, true) == Some(values(parts).push(a * 256 + b).push(c * 256 + d))
            &&& forall|k: int| !ip::is_gap(s, k)
        }),
{
    let last = dotted(a, b, c, d);
    let all = parts.push(last);
    let s = colons_and_dotted(parts, a, b, c, d);
    lemma_dotted_chars(a, b, c, d);
    lemma_dotted(a, b, c, d);
    assert forall|i: int| 0 <= i < all.len() implies !(#[trigger] all[i]).contains(':')
        && all[i].len() > 0 by {
        if i < parts.len() {
            assert(all[i] == parts[i]);
            lemma_group(parts[i]);
        }
    }
    text_laws::law_split_undoes_join(all, ':');
    lemma_groups(parts);
    lemma_groups(all);
    lemma_group(last);
    assert(!is_group(all[parts.len() as int]));
    assert(all.drop_last() =~= parts);
    assert forall|i: int| 0 <= i < text::split(s, ':').len() implies (#[trigger] text::split(
        s,
        ':',
    )[i]).len() > 0 by {
        assert(all[i].len() > 0);
    }
    lemma_no_gap(s);
    let v4 = v4_number(a, b, c, d);
    assert(v4 / 0x1_0000 == a * 256 + b && v4 % 0x1_0000 == c * 256 + d);
}

/// The last two groups of an IPv6 address may be written as an IPv4 address: six groups and a
/// dotted text are the address with the number of the groups in its first 96 bits and that of the
/// IPv4 address in its last 32. With `::` before them, zeros stand for the groups left out.
pub proof fn law_dotted_tail_is_two_groups(
    head: Seq<Seq<char>>,
    tail: Seq<Seq<char>>,
    a: u8,
    b: u8,
    c: u8,
    d: u8,
)
    requires
        are_groups(head),
        are_groups(tail),
        head.len() + tail.len() < 6 || (head.len() == 6 && tail.len() == 0),
    ensures
        ({
            let s = if head.len() == 6 {
                colons_and_dotted(head, a, b, c, d)
            } else {
                colons(head).push(':').push(':') + colons_and_dotted(tail, a, b, c, d)
            };
            let groups = head + zeros((6 - head.len() - tail.len()) as nat) + tail;
            ip::ip_from_text(s) matches Some(IpAddr::V6(bits)) && bits == v6_number(groups)
                * 0x1_0000_0000 + v4_number(a, b, c, d)
        }),
{
    let n = (6 - head.len() - tail.len()) as nat;
    let groups = head + zeros(n) + tail;
    let behind = values(tail).push(a * 256 + b).push(c * 256 + d);
    assert forall|i: int| 0 <= i < groups.len() implies is_group(#[trigger] groups[i]) by {
        if i < head.len() {
            assert(groups[i] == head[i]);
        } else if i < head.len() + n {
            assert(groups[i] == seq!['0']);
        } else {
            assert(groups[i] == tail[i - head.len() - n]);
        }
    }
    lemma_v6_room(groups);
    reveal_with_fuel(room, 7);
    lemma_groups(groups);
    reveal_with_fuel(hex_value, 2);
    assert(seq!['0'].drop_last().len() == 0);
    assert(hex_value(seq!['0']) == 0);
    assert(values(groups) =~= values(head) + Seq::new(n, |i: int| 0int) + values(tail));
    let all = values(groups).push(a * 256 + b).push(c * 256 + d);
    reveal_with_fuel(ip::groups_value, 3);
    assert(all.drop_last() =~= values(groups).push(a * 256 + b));
    assert(all.drop_last().drop_last() =~= values(groups));
    assert(ip::groups_value(all) == v6_number(groups) * 0x1_0000_0000 + v4_number(a, b, c, d));
    lemma_read_mixed(head, a, b, c, d);
    lemma_read_mixed(tail, a, b, c, d);
    if head.len() == 6 {
        let s = colons_and_dotted(head, a, b, c, d);
        let before = text_laws::joined(head, ':');
        assert(head.push(dotted(a, b, c, d)).drop_last() =~= head);
        assert(s[before.len() as int] == ':');
        lemma_colon(s);
        assert(groups =~= head);
    } else {
        let s = colons(head).push(':').push(':') + colons_and_dotted(tail, a, b, c, d);
        assert(s[colons(head).len() as int] == ':');
        lemma_colon(s);
        lemma_read_gap(head, colons_and_dotted(tail, a, b, c, d), behind);
        assert(values(head) + Seq::new(n, |i: int| 0int) + behind =~= all);
    }
}

/// An IPv6 address in text: groups, the last two of which may be an IPv4 address, and `::`
/// somewhere among them where any are left out.
pub struct V6Text {
    /// What stands before `::`.
    pub head: Seq<Seq<char>>,
    pub gap: bool,
    pub tail: Seq<Seq<char>>,
    pub dotted: Option<(u8, u8, u8, u8)>,
}

impl V6Text {
    /// How many groups are written.
    pub open spec fn count(self) -> nat {
        self.head.len() + self.tail.len() + if self.dotted is Some {
            2nat
        } else {
            0
        }
    }

    /// Eight groups, or fewer with `::`.
    pub open spec fn wf(self) -> bool {
        &&& are_groups(self.head) && are_groups(self.tail)
        &&& self.gap ==> self.count() < 8
        &&& !self.gap ==> self.count() == 8 && self.head.len() == 0
    }

    /// The text behind `::`, or all of it.
    pub open spec fn end(self) -> Seq<char> {
        match self.dotted {
            Some((a, b, c, d)) => colons_and_dotted(self.tail, a, b, c, d),
            None => colons(self.tail),
        }
    }

    /// The text.
    pub open spec fn text(self) -> Seq<char> {
        if self.gap {
            colons(self.head).push(':').push(':') + self.end()
        } else {
            self.end()
        }
    }
}

proof fn lemma_groups_are_written(s: Seq<char>, tail: bool) -> (written: V6Text)
    requires
        ip::groups(s, tail) is Some,
    ensures
        s == written.end(),
        are_groups(written.tail),
        written.head.len() == 0 && !written.gap,
        written.count() == ip::groups(s, tail)->0.len(),
        written.dotted is Some ==> tail,
{
    let none = Seq::<Seq<char>>::empty();
    if s.len() == 0 {
        assert(s =~= colons(none));
        V6Text { head: none, gap: false, tail: none, dotted: None }
    } else {
        let parts = text::split(s, ':');
        text_laws::law_join_undoes_split(s, ':');
        lemma_groups(parts);
        if ip::hextets(parts) is Some {
            V6Text { head: none, gap: false, tail: parts, dotted: None }
        } else {
            let front = parts.drop_last();
            lemma_groups(front);
            let (a, b, c, d) = lemma_ipv4_is_dotted(parts.last(), ip::ipv4(parts.last())->0);
            assert(front.push(parts.last()) =~= parts);
            V6Text { head: none, gap: false, tail: front, dotted: Some((a, b, c, d)) }
        }
    }
}

/// An IPv6 address has no text of another form: what is taken for one is made of groups of one to
/// four hexadecimal digits with single colons between them, eight of them, or fewer with one `::`;
/// in the place of the last two an IPv4 address may stand.
pub proof fn law_only_groups_are_ipv6(s: Seq<char>, bits: u128) -> (written: V6Text)
    requires
        ip::ip_from_text(s) == Some(IpAddr::V6(bits)),
    ensures
        written.wf(),
        s == written.text(),
{
    if exists|k: int| ip::is_gap(s, k) {
        let k = choose|k: int| ip::is_gap(s, k);
        let head = lemma_groups_are_written(s.take(k), false);
        let tail = lemma_groups_are_written(s.skip(k + 2), true);
        assert(s =~= s.take(k).push(':').push(':') + s.skip(k + 2));
        V6Text { head: head.tail, gap: true, ..tail }
    } else {
        lemma_groups_are_written(s, true)
    }
}

} // verus!
