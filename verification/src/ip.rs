//! IP addresses and their textual forms.

use crate::text;
use crate::text::{chars_of, split_chars};
use vstd::prelude::*;
use vstd::slice::slice_subrange;

verus! {

/// An IP address, as the number that its bytes make in network order.
#[derive(Clone, Copy, Debug, Hash, PartialEq, Eq, Structural)]
pub enum IpAddr {
    V4(u32),
    V6(u128),
}

/// The value of a digit, where `c` is a digit of the given radix.
pub open spec fn digit_value(c: char, radix: int) -> Option<int> {
    let value = if '0' <= c <= '9' {
        c as int - '0' as int
    } else if 'a' <= c <= 'f' {
        c as int - 'a' as int + 10
    } else if 'A' <= c <= 'F' {
        c as int - 'A' as int + 10
    } else {
        radix
    };
    if value < radix {
        Some(value)
    } else {
        None
    }
}

/// The number that `s` writes in the given radix; `None` where `s` holds anything but digits.
pub open spec fn number(s: Seq<char>, radix: int) -> Option<int>
    decreases s.len(),
{
    if s.len() == 0 {
        Some(0)
    } else {
        match (number(s.drop_last(), radix), digit_value(s.last(), radix)) {
            (Some(high), Some(low)) => Some(high * radix + low),
            _ => None,
        }
    }
}

/// A decimal octet: one to three digits, no leading zero, at most 255.
pub open spec fn octet(s: Seq<char>) -> Option<int> {
    if 1 <= s.len() <= 3 && (s.len() == 1 || s[0] != '0') {
        match number(s, 10) {
            Some(n) => if n <= 255 {
                Some(n)
            } else {
                None
            },
            None => None,
        }
    } else {
        None
    }
}

/// Four decimal octets separated by dots.
pub open spec fn ipv4(s: Seq<char>) -> Option<int> {
    let parts = text::split(s, '.');
    if parts.len() == 4 {
        match (octet(parts[0]), octet(parts[1]), octet(parts[2]), octet(parts[3])) {
            (Some(a), Some(b), Some(c), Some(d)) => Some(
                a * 0x100_0000 + b * 0x1_0000 + c * 0x100 + d,
            ),
            _ => None,
        }
    } else {
        None
    }
}

/// A group of an IPv6 address: one to four hexadecimal digits.
pub open spec fn hextet(s: Seq<char>) -> Option<int> {
    if 1 <= s.len() <= 4 {
        number(s, 16)
    } else {
        None
    }
}

/// The groups that parts write; `None` where one of them is no group.
pub open spec fn hextets(parts: Seq<Seq<char>>) -> Option<Seq<int>>
    decreases parts.len(),
{
    if parts.len() == 0 {
        Some(Seq::empty())
    } else {
        match (hextets(parts.drop_last()), hextet(parts.last())) {
            (Some(front), Some(last)) => Some(front.push(last)),
            _ => None,
        }
    }
}

/// The groups that colon-separated text writes. Where `tail` is set, the last part may be an
/// IPv4 address, which makes two groups.
pub open spec fn groups(s: Seq<char>, tail: bool) -> Option<Seq<int>> {
    if s.len() == 0 {
        Some(Seq::empty())
    } else {
        let parts = text::split(s, ':');
        match hextets(parts) {
            Some(all) => Some(all),
            None => match (tail, hextets(parts.drop_last()), ipv4(parts.last())) {
                (true, Some(front), Some(v4)) => Some(
                    front.push(v4 / 0x1_0000).push(v4 % 0x1_0000),
                ),
                _ => None,
            },
        }
    }
}

/// `::` stands first at `k`.
pub open spec fn is_gap(s: Seq<char>, k: int) -> bool {
    &&& 0 <= k < s.len() - 1
    &&& s[k] == ':' && s[k + 1] == ':'
    &&& forall|j: int| 0 <= j < k ==> !(#[trigger] s[j] == ':' && s[j + 1] == ':')
}

/// The number that groups of sixteen bits make, the first one highest.
pub open spec fn groups_value(g: Seq<int>) -> int
    decreases g.len(),
{
    if g.len() == 0 {
        0
    } else {
        groups_value(g.drop_last()) * 0x1_0000 + g.last()
    }
}

/// Eight groups, or fewer with one `::` that stands for the groups of zeros left out, of which
/// there is at least one.
pub open spec fn ipv6_groups(s: Seq<char>) -> Option<Seq<int>> {
    if exists|k: int| is_gap(s, k) {
        let k = choose|k: int| is_gap(s, k);
        match (groups(s.take(k), false), groups(s.skip(k + 2), true)) {
            (Some(head), Some(tail)) => if head.len() + tail.len() <= 7 {
                Some(head + Seq::new((8 - head.len() - tail.len()) as nat, |i: int| 0int) + tail)
            } else {
                None
            },
            _ => None,
        }
    } else {
        match groups(s, true) {
            Some(g) => if g.len() == 8 {
                Some(g)
            } else {
                None
            },
            None => None,
        }
    }
}

/// The IP address that `s` writes, in dotted decimal or in the colon-separated form.
pub open spec fn ip_from_text(s: Seq<char>) -> Option<IpAddr> {
    match ipv4(s) {
        Some(a) => Some(IpAddr::V4(a as u32)),
        None => match ipv6_groups(s) {
            Some(g) => Some(IpAddr::V6(groups_value(g) as u128)),
            None => None,
        },
    }
}

proof fn lemma_number_bound(s: Seq<char>, radix: int)
    requires
        radix == 10 || radix == 16,
    ensures
        number(s, radix) matches Some(n) ==> {
            &&& 0 <= n
            &&& s.len() <= 1 ==> n < 16
            &&& s.len() <= 2 ==> n < 256
            &&& s.len() <= 3 ==> n < 4096
            &&& s.len() <= 4 ==> n < 65536
        },
    decreases s.len(),
{
    if s.len() > 0 {
        lemma_number_bound(s.drop_last(), radix);
    }
}

/// Where every part is a group, so is every group below 2^16.
proof fn lemma_hextets_bound(parts: Seq<Seq<char>>)
    ensures
        hextets(parts) matches Some(g) ==> g.len() == parts.len() && forall|i: int|
            0 <= i < g.len() ==> 0 <= #[trigger] g[i] < 0x1_0000,
    decreases parts.len(),
{
    if parts.len() > 0 {
        lemma_hextets_bound(parts.drop_last());
        lemma_number_bound(parts.last(), 16);
    }
}

spec fn pow16(n: nat) -> int
    decreases n,
{
    if n == 0 {
        1
    } else {
        pow16((n - 1) as nat) * 0x1_0000
    }
}

proof fn lemma_groups_value_bound(g: Seq<int>)
    requires
        forall|i: int| 0 <= i < g.len() ==> 0 <= #[trigger] g[i] < 0x1_0000,
    ensures
        0 <= groups_value(g) < pow16(g.len()),
    decreases g.len(),
{
    if g.len() > 0 {
        let front = g.drop_last();
        assert forall|i: int| 0 <= i < front.len() implies 0 <= #[trigger] front[i] < 0x1_0000 by {
            assert(front[i] == g[i]);
        }
        lemma_groups_value_bound(front);
    }
}

proof fn lemma_pow16_8()
    ensures
        pow16(8) == 0x1_0000_0000_0000_0000_0000_0000_0000_0000,
{
    reveal_with_fuel(pow16, 9);
}

proof fn lemma_pow16_monotonic(i: nat, n: nat)
    requires
        i <= n,
    ensures
        0 < pow16(i) <= pow16(n),
    decreases n,
{
    if i < n {
        lemma_pow16_monotonic(i, (n - 1) as nat);
    } else if n > 0 {
        lemma_pow16_monotonic((n - 1) as nat, (n - 1) as nat);
    }
}

/// Whether `ips` holds `ip`.
pub fn holds_ip(ips: &[IpAddr], ip: IpAddr) -> (r: bool)
    ensures
        r == ips@.contains(ip),
{
    for i in 0..ips.len()
        invariant
            forall|j: int| 0 <= j < i ==> ips@[j] != ip,
    {
        if ips[i] == ip {
            return true;
        }
    }
    false
}

fn read_digit(c: char, radix: u32) -> (r: Option<u32>)
    requires
        radix == 10 || radix == 16,
    ensures
        match r {
            Some(d) => digit_value(c, radix as int) == Some(d as int),
            None => digit_value(c, radix as int) is None,
        },
{
    let value: u32 = if '0' <= c && c <= '9' {
        c as u32 - '0' as u32
    } else if 'a' <= c && c <= 'f' {
        c as u32 - 'a' as u32 + 10
    } else if 'A' <= c && c <= 'F' {
        c as u32 - 'A' as u32 + 10
    } else {
        radix
    };
    if value < radix {
        Some(value)
    } else {
        None
    }
}

fn read_number(s: &[char], radix: u32) -> (r: Option<u32>)
    requires
        radix == 10 || radix == 16,
        s@.len() <= 4,
    ensures
        match r {
            Some(n) => number(s@, radix as int) == Some(n as int),
            None => number(s@, radix as int) is None,
        },
{
    let mut n: u32 = 0;
    for i in 0..s.len()
        invariant
            radix == 10 || radix == 16,
            s@.len() <= 4,
            number(s@.take(i as int), radix as int) == Some(n as int),
    {
        proof {
            assert(s@.take(i + 1).drop_last() =~= s@.take(i as int));
            lemma_number_bound(s@.take(i as int), radix as int);
        }
        match read_digit(s[i], radix) {
            Some(d) => {
                n = n * radix + d;
            },
            None => {
                proof {
                    lemma_number_prefix(s@, radix as int, i + 1);
                }
                return None;
            },
        }
    }
    assert(s@.take(s@.len() as int) =~= s@);
    Some(n)
}

/// Where a prefix is no number, the whole is none.
proof fn lemma_number_prefix(s: Seq<char>, radix: int, i: int)
    requires
        0 <= i <= s.len(),
        number(s.take(i), radix) is None,
    ensures
        number(s, radix) is None,
    decreases s.len(),
{
    if i < s.len() {
        assert(s.drop_last().take(i) =~= s.take(i));
        lemma_number_prefix(s.drop_last(), radix, i);
    } else {
        assert(s.take(i) =~= s);
    }
}

fn read_octet(s: &[char]) -> (r: Option<u32>)
    ensures
        match r {
            Some(n) => octet(s@) == Some(n as int) && n <= 255,
            None => octet(s@) is None,
        },
{
    if s.len() == 0 || s.len() > 3 || (s.len() > 1 && s[0] == '0') {
        return None;
    }
    match read_number(s, 10) {
        Some(n) => if n <= 255 {
            Some(n)
        } else {
            None
        },
        None => None,
    }
}

fn read_ipv4(s: &[char]) -> (r: Option<u32>)
    ensures
        match r {
            Some(n) => ipv4(s@) == Some(n as int),
            None => ipv4(s@) is None,
        },
{
    let parts = split_chars(s, '.');
    let ghost views = text::texts(parts@);
    assert(views == text::split(s@, '.'));
    if parts.len() != 4 {
        return None;
    }
    let a = read_octet(parts[0].as_slice());
    let b = read_octet(parts[1].as_slice());
    let c = read_octet(parts[2].as_slice());
    let d = read_octet(parts[3].as_slice());
    assert(views[0] == parts@[0]@ && views[1] == parts@[1]@ && views[2] == parts@[2]@ && views[3]
        == parts@[3]@);
    match (a, b, c, d) {
        (Some(a), Some(b), Some(c), Some(d)) => Some(
            a * 0x100_0000 + b * 0x1_0000 + c * 0x100 + d,
        ),
        _ => None,
    }
}

/// The groups as mathematical integers.
spec fn ints(g: Seq<u16>) -> Seq<int> {
    g.map_values(|x: u16| x as int)
}

/// Reads the first `n` parts as groups.
fn read_hextets(parts: &Vec<Vec<char>>, n: usize) -> (r: Option<Vec<u16>>)
    requires
        n <= parts@.len(),
    ensures
        match r {
            Some(g) => hextets(text::texts(parts@).take(n as int)) == Some(ints(g@)),
            None => hextets(text::texts(parts@).take(n as int)) is None,
        },
{
    let ghost views = text::texts(parts@);
    let mut g: Vec<u16> = Vec::new();
    assert(ints(g@) =~= Seq::<int>::empty());
    for i in 0..n
        invariant
            n <= parts@.len(),
            views == text::texts(parts@),
            hextets(views.take(i as int)) == Some(ints(g@)),
    {
        let part = parts[i].as_slice();
        assert(views.take(i + 1).drop_last() =~= views.take(i as int));
        assert(views.take(i + 1).last() == part@);
        let read = if 1 <= part.len() && part.len() <= 4 {
            read_number(part, 16)
        } else {
            None
        };
        match read {
            Some(x) => {
                proof {
                    lemma_number_bound(part@, 16);
                }
                let ghost before = g@;
                g.push(x as u16);
                assert(ints(g@) =~= ints(before).push(x as int));
            },
            None => {
                proof {
                    lemma_hextets_prefix(views.take(n as int), i + 1);
                    assert(views.take(n as int).take(i + 1) =~= views.take(i + 1));
                }
                return None;
            },
        }
    }
    Some(g)
}

proof fn lemma_hextets_prefix(parts: Seq<Seq<char>>, i: int)
    requires
        0 <= i <= parts.len(),
        hextets(parts.take(i)) is None,
    ensures
        hextets(parts) is None,
    decreases parts.len(),
{
    if i < parts.len() {
        assert(parts.drop_last().take(i) =~= parts.take(i));
        lemma_hextets_prefix(parts.drop_last(), i);
    } else {
        assert(parts.take(i) =~= parts);
    }
}

fn read_groups(s: &[char], tail: bool) -> (r: Option<Vec<u16>>)
    ensures
        match r {
            Some(g) => groups(s@, tail) == Some(ints(g@)),
            None => groups(s@, tail) is None,
        },
{
    if s.len() == 0 {
        let g: Vec<u16> = Vec::new();
        assert(ints(g@) =~= Seq::<int>::empty());
        return Some(g);
    }
    let parts = split_chars(s, ':');
    let ghost views = text::texts(parts@);
    proof {
        text::lemma_split_nonempty(s@, ':');
        assert(views.take(views.len() as int) =~= views);
        assert(views.take(views.len() - 1) =~= views.drop_last());
    }
    match read_hextets(&parts, parts.len()) {
        Some(g) => Some(g),
        None => {
            if !tail {
                return None;
            }
            let front = read_hextets(&parts, parts.len() - 1);
            let last = read_ipv4(parts[parts.len() - 1].as_slice());
            assert(views.last() == parts@.last()@);
            match (front, last) {
                (Some(mut g), Some(v4)) => {
                    let ghost before = g@;
                    g.push((v4 / 0x1_0000) as u16);
                    g.push((v4 % 0x1_0000) as u16);
                    assert(ints(g@) =~= ints(before).push(v4 as int / 0x1_0000).push(
                        v4 as int % 0x1_0000,
                    ));
                    Some(g)
                },
                _ => None,
            }
        },
    }
}

/// Where `::` stands first.
fn find_gap(s: &[char]) -> (r: Option<usize>)
    ensures
        match r {
            Some(k) => is_gap(s@, k as int),
            None => forall|k: int| !is_gap(s@, k),
        },
{
    let mut i: usize = 0;
    let len = s.len();
    while len - i >= 2
        invariant
            i <= len == s@.len(),
            forall|j: int| 0 <= j < i ==> !(#[trigger] s@[j] == ':' && s@[j + 1] == ':'),
        decreases s@.len() - i,
    {
        if s[i] == ':' && s[i + 1] == ':' {
            assert(is_gap(s@, i as int));
            return Some(i);
        }
        i = i + 1;
    }
    None
}

fn read_ipv6_groups(s: &[char]) -> (r: Option<Vec<u16>>)
    ensures
        match r {
            Some(g) => ipv6_groups(s@) == Some(ints(g@)) && g@.len() == 8,
            None => ipv6_groups(s@) is None,
        },
{
    match find_gap(s) {
        Some(k) => {
            proof {
                let chosen = choose|i: int| is_gap(s@, i);
                if chosen < k {
                    assert(s@[chosen] == ':' && s@[chosen + 1] == ':');
                } else if k < chosen {
                    assert(s@[k as int] == ':' && s@[k + 1] == ':');
                }
            }
            let len = s.len();
            let head = read_groups(slice_subrange(s, 0, k), false);
            let tail = read_groups(slice_subrange(s, k + 2, len), true);
            assert(s@.subrange(0, k as int) =~= s@.take(k as int));
            assert(s@.subrange(k + 2, s@.len() as int) =~= s@.skip(k + 2));
            match (head, tail) {
                (Some(mut head), Some(mut tail)) => {
                    if head.len() > 7 || tail.len() > 7 || head.len() + tail.len() > 7 {
                        return None;
                    }
                    let zeros: usize = 8 - head.len() - tail.len();
                    let ghost (h, t) = (head@, tail@);
                    for i in 0..zeros
                        invariant
                            ints(head@) == ints(h) + Seq::new(i as nat, |i: int| 0int),
                            head@.len() == h.len() + i,
                    {
                        let ghost before = head@;
                        head.push(0);
                        assert(ints(head@) =~= ints(before).push(0int));
                        assert(ints(head@) =~= ints(h) + Seq::new((i + 1) as nat, |i: int| 0int));
                    }
                    let ghost filled = head@;
                    head.append(&mut tail);
                    assert(ints(head@) =~= ints(filled) + ints(t));
                    Some(head)
                },
                _ => None,
            }
        },
        None => match read_groups(s, true) {
            Some(g) => if g.len() == 8 {
                Some(g)
            } else {
                None
            },
            None => None,
        },
    }
}

fn join_groups(g: &Vec<u16>) -> (r: u128)
    requires
        g@.len() == 8,
    ensures
        r as int == groups_value(ints(g@)),
{
    let mut value: u128 = 0;
    let ghost all = ints(g@);
    for i in 0..8
        invariant
            g@.len() == 8,
            all == ints(g@),
            value as int == groups_value(all.take(i as int)),
    {
        proof {
            lemma_groups_value_bound(all.take(i as int));
            lemma_groups_value_bound(all.take(i + 1));
            lemma_pow16_monotonic((i + 1) as nat, 8);
            lemma_pow16_8();
            assert(all.take(i + 1).drop_last() =~= all.take(i as int));
            assert(all.take(i + 1).last() == g@[i as int] as int);
        }
        value = value * 0x1_0000 + g[i] as u128;
    }
    assert(all.take(8) =~= all);
    value
}

/// Reads an IP address out of characters.
pub fn ip_from_chars(s: &[char]) -> (r: Option<IpAddr>)
    ensures
        r == ip_from_text(s@),
{
    match read_ipv4(s) {
        Some(a) => Some(IpAddr::V4(a)),
        None => match read_ipv6_groups(s) {
            Some(g) => Some(IpAddr::V6(join_groups(&g))),
            None => None,
        },
    }
}

/// Reads an IP address: four decimal octets, or eight hexadecimal groups of which a run of zeros
/// may be left out and the last two may be written as an IPv4 address.
pub fn parse_ip(text: &str) -> (r: Option<IpAddr>)
    ensures
        r == ip_from_text(text@),
{
    let chars = chars_of(text);
    ip_from_chars(chars.as_slice())
}

} // verus!
