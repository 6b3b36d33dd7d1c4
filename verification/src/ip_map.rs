//! A hash map keyed by IP address.

use crate::ip::IpAddr;
use std::collections::HashMap;
use std::hash::Hash;
use vstd::prelude::*;

verus! {

broadcast use vstd::std_specs::hash::group_hash_axioms;

/// Values by IP address. Each address family has a map of its own, keyed by the address's number.
pub struct IpMap<V> {
    v4: HashMap<u32, V>,
    v6: HashMap<u128, V>,
}

impl<V> View for IpMap<V> {
    type V = Map<IpAddr, V>;

    closed spec fn view(&self) -> Map<IpAddr, V> {
        Map::new(
            |ip: IpAddr|
                match ip {
                    IpAddr::V4(bits) => self.v4@.contains_key(bits),
                    IpAddr::V6(bits) => self.v6@.contains_key(bits),
                },
            |ip: IpAddr|
                match ip {
                    IpAddr::V4(bits) => self.v4@[bits],
                    IpAddr::V6(bits) => self.v6@[bits],
                },
        )
    }
}

impl<V: Copy> IpMap<V> {
    /// A map that holds nothing.
    pub fn new() -> (map: Self)
        ensures
            map@ == Map::<IpAddr, V>::empty(),
    {
        let map = IpMap { v4: HashMap::new(), v6: HashMap::new() };
        assert(map@ =~= Map::empty());
        map
    }

    /// The value of `ip`.
    pub fn get(&self, ip: IpAddr) -> (value: Option<V>)
        ensures
            value == (if self@.contains_key(ip) {
                Some(self@[ip])
            } else {
                None
            }),
    {
        let found = match ip {
            IpAddr::V4(bits) => self.v4.get(&bits),
            IpAddr::V6(bits) => self.v6.get(&bits),
        };
        match found {
            Some(value) => Some(*value),
            None => None,
        }
    }

    /// Sets the value of `ip`.
    pub fn insert(&mut self, ip: IpAddr, value: V)
        ensures
            final(self)@ == old(self)@.insert(ip, value),
    {
        match ip {
            IpAddr::V4(bits) => {
                self.v4.insert(bits, value);
            },
            IpAddr::V6(bits) => {
                self.v6.insert(bits, value);
            },
        }
        assert(self@ =~= old(self)@.insert(ip, value));
    }

    /// Drops what is held for `ip`.
    pub fn remove(&mut self, ip: IpAddr)
        ensures
            final(self)@ == old(self)@.remove(ip),
    {
        match ip {
            IpAddr::V4(bits) => {
                self.v4.remove(&bits);
            },
            IpAddr::V6(bits) => {
                self.v6.remove(&bits);
            },
        }
        assert(self@ =~= old(self)@.remove(ip));
    }

    /// The addresses for which there is a value.
    fn addresses(&self) -> (ips: Vec<IpAddr>)
        ensures
            forall|ip: IpAddr| #[trigger] ips@.contains(ip) <==> self@.contains_key(ip),
    {
        let v4 = keys_of(&self.v4);
        let v6 = keys_of(&self.v6);
        let mut ips: Vec<IpAddr> = Vec::new();
        for i in 0..v4.len()
            invariant
                ips@.len() == i,
                forall|j: int| 0 <= j < i ==> ips@[j] == IpAddr::V4(v4@[j]),
        {
            ips.push(IpAddr::V4(v4[i]));
        }
        for i in 0..v6.len()
            invariant
                ips@.len() == v4@.len() + i,
                forall|j: int| 0 <= j < v4@.len() ==> ips@[j] == IpAddr::V4(v4@[j]),
                forall|j: int|
                    v4@.len() <= j < ips@.len() ==> ips@[j] == IpAddr::V6(v6@[j - v4@.len()]),
        {
            ips.push(IpAddr::V6(v6[i]));
        }
        assert forall|ip: IpAddr| #[trigger] ips@.contains(ip) <==> self@.contains_key(ip) by {
            match ip {
                IpAddr::V4(bits) => {
                    assert(v4@.to_set().contains(bits) <==> self@.contains_key(ip));
                    if v4@.contains(bits) {
                        let j = choose|j: int| 0 <= j < v4@.len() && v4@[j] == bits;
                        assert(ips@[j] == ip);
                    }
                },
                IpAddr::V6(bits) => {
                    assert(v6@.to_set().contains(bits) <==> self@.contains_key(ip));
                    if v6@.contains(bits) {
                        let j = choose|j: int| 0 <= j < v6@.len() && v6@[j] == bits;
                        assert(ips@[v4@.len() + j] == ip);
                    }
                },
            }
        }
        ips
    }
}

/// The keys of a hash map.
fn keys_of<K: Copy + Eq + Hash, V>(map: &HashMap<K, V>) -> (keys: Vec<K>)
    requires
        vstd::std_specs::hash::obeys_key_model::<K>(),
    ensures
        keys@.to_set() == map@.dom(),
{
    let mut keys: Vec<K> = Vec::new();
    let ghost all = vstd::std_specs::iter::IteratorSpec::remaining(&map.keys()).unref();
    for key in it: map.keys()
        invariant
            it.seq().unref() == all,
            keys@ == all.take(it.index() as int),
    {
        keys.push(*key);
        assert(keys@ =~= all.take(it.index() + 1));
    }
    assert(keys@ =~= all);
    keys
}

/// How long ago `since` was at `now`, zero where it is still to come.
pub open spec fn elapsed(since: u128, now: u128) -> int {
    if now > since {
        now - since
    } else {
        0
    }
}

impl IpMap<u128> {
    /// Drops every address whose time lies more than `limit` before `now`.
    pub fn expire(&mut self, now: u128, limit: u128)
        ensures
            final(self)@ == old(self)@.restrict(
                Set::new(
                    |ip: IpAddr|
                        old(self)@.contains_key(ip) && elapsed(old(self)@[ip], now) <= limit,
                ),
            ),
    {
        let ips = self.addresses();
        let ghost before = self@;
        for i in 0..ips.len()
            invariant
                forall|ip: IpAddr| #[trigger]
                    self@.contains_key(ip) ==> before.contains_key(ip) && self@[ip] == before[ip],
                forall|ip: IpAddr|
                    #![trigger self@.contains_key(ip)]
                    before.contains_key(ip) && elapsed(before[ip], now) <= limit
                        ==> self@.contains_key(ip),
                forall|j: int|
                    0 <= j < i ==> (#[trigger] self@.contains_key(ips@[j]) ==> elapsed(
                        before[ips@[j]],
                        now,
                    ) <= limit),
        {
            let ip = ips[i];
            if let Some(since) = self.get(ip) {
                if now.saturating_sub(since) > limit {
                    self.remove(ip);
                }
            }
        }
        let ghost kept = Set::new(
            |ip: IpAddr| before.contains_key(ip) && elapsed(before[ip], now) <= limit,
        );
        assert forall|ip: IpAddr| #[trigger] self@.contains_key(ip) implies kept.contains(ip) by {
            assert(ips@.contains(ip));
        }
        assert(self@ =~= before.restrict(kept));
    }
}

} // verus!
