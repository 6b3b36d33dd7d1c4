//! The cache of recent failures, held by the `lru` crate.

use crate::assoc;
use crate::ip::IpAddr;
use lru::LruCache;
use std::num::NonZeroUsize;
use vstd::prelude::*;

verus! {

/// An IP address as a cache key: whether it is an IPv6 address, and its number.
pub type IpKey = (bool, u128);

/// How many failures an address has, and when the first of them was.
pub type Failures = (u32, u128);

/// A cache of failures by address.
pub type FailCache = LruCache<IpKey, Failures>;

/// The cache of the `lru` crate.
#[verifier::external_type_specification]
#[verifier::external_body]
#[verifier::reject_recursive_types(K)]
#[verifier::reject_recursive_types(V)]
#[verifier::reject_recursive_types(S)]
pub struct ExLruCache<K, V, S>(LruCache<K, V, S>);

/// The hash builder that the `lru` crate uses by default.
#[verifier::external_type_specification]
#[verifier::external_body]
pub struct ExDefaultHasher(lru::DefaultHasher);

/// What a cache holds, most recently used first.
pub uninterp spec fn cache_entries(cache: FailCache) -> Seq<(IpKey, Failures)>;

/// How many entries a cache was made to hold.
pub uninterp spec fn cache_capacity(cache: FailCache) -> nat;

/// The cache key of an address.
pub open spec fn ip_key(ip: IpAddr) -> IpKey {
    match ip {
        IpAddr::V4(bits) => (false, bits as u128),
        IpAddr::V6(bits) => (true, bits),
    }
}

/// The most buckets that a table of two pointers each, with a byte for each bucket, can have: a
/// power of two whose size in bytes can be allocated.
pub open spec fn most_buckets() -> int {
    if usize::BITS == 32 {
        0x800_0000
    } else {
        0x400_0000_0000_0000
    }
}

/// Whether a cache can be made for this many entries: at least one, and so few that the table for
/// all of them, of which seven eighths may be full, can be allocated. It is allocated at once.
pub open spec fn capacity_fits(capacity: usize) -> bool {
    0 < capacity && capacity * 8 / 7 <= most_buckets()
}

/// A cache can be made for fewer entries where it can be made for more, but not for none. On a
/// machine of 64 bits it can be made for every number below 2^55, on one of 32 bits for every one
/// below 2^26.
pub proof fn law_fewer_entries_fit(capacity: usize, fewer: usize)
    ensures
        !capacity_fits(0),
        capacity_fits(capacity) && 0 < fewer <= capacity ==> capacity_fits(fewer),
        usize::BITS == 64 && 0 < capacity < 0x80_0000_0000_0000 ==> capacity_fits(capacity),
        usize::BITS == 32 && 0 < capacity < 0x400_0000 ==> capacity_fits(capacity),
{
}

/// Each address has a key of its own.
pub proof fn law_keys_tell_addresses_apart(a: IpAddr, b: IpAddr)
    ensures
        ip_key(a) == ip_key(b) <==> a == b,
{
}

/// Whether a cache can be made with this capacity.
pub fn is_capacity(capacity: usize) -> (fits: bool)
    ensures
        fits == capacity_fits(capacity),
{
    let most: u128 = if usize::BITS == 32 {
        0x800_0000
    } else {
        0x400_0000_0000_0000
    };
    0 < capacity && capacity as u128 * 8 / 7 <= most
}

/// The cache key of an address.
pub fn key_of(ip: IpAddr) -> (key: IpKey)
    ensures
        key == ip_key(ip),
{
    match ip {
        IpAddr::V4(bits) => (false, bits as u128),
        IpAddr::V6(bits) => (true, bits),
    }
}

/// Calls `LruCache::new`: an empty cache for `capacity` entries. It allocates room for all of
/// them and panics where their size overflows.
#[verifier::external_body]
pub(crate) fn new_cache(capacity: usize) -> (cache: FailCache)
    requires
        capacity_fits(capacity),
    ensures
        cache_entries(cache) == Seq::<(IpKey, Failures)>::empty(),
        cache_capacity(cache) == capacity,
{
    LruCache::new(NonZeroUsize::new(capacity).unwrap())
}

/// Calls `LruCache::pop`: takes the entry of `key` out and returns its value, if there is one.
/// The other entries keep their order.
#[verifier::external_body]
pub(crate) fn pop(cache: &mut FailCache, key: &IpKey) -> (value: Option<Failures>)
    ensures
        value == assoc::lookup(cache_entries(*old(cache)), *key),
        cache_entries(*final(cache)) == assoc::without(cache_entries(*old(cache)), *key),
        cache_capacity(*final(cache)) == cache_capacity(*old(cache)),
{
    cache.pop(key)
}

/// Calls `LruCache::push`: puts the entry of `key` in front, replacing the one that it had. Where
/// `key` is new and the cache is full, the least recently used entry makes room for it.
#[verifier::external_body]
pub(crate) fn push(cache: &mut FailCache, key: IpKey, value: Failures)
    ensures
        cache_entries(*final(cache)) == assoc::pushed(
            cache_entries(*old(cache)),
            cache_capacity(*old(cache)),
            key,
            value,
        ),
        cache_capacity(*final(cache)) == cache_capacity(*old(cache)),
{
    cache.push(key, value);
}

/// Calls `LruCache::peek`: the value of `key`, if it has one. The order of the entries does not
/// change.
#[verifier::external_body]
pub(crate) fn peek(cache: &FailCache, key: &IpKey) -> (value: Option<Failures>)
    ensures
        value == assoc::lookup(cache_entries(*cache), *key),
{
    cache.peek(key).copied()
}

/// Calls `LruCache::iter` and copies what it iterates over: all entries, most recently used
/// first.
#[verifier::external_body]
pub(crate) fn entries(cache: &FailCache) -> (all: Vec<(IpKey, Failures)>)
    ensures
        all@ == cache_entries(*cache),
{
    cache.iter().map(|(key, value)| (*key, *value)).collect()
}

} // verus!
