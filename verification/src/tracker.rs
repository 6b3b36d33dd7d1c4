//! Counting failed authentications, and blocking the addresses that fail too often.
//!
//! Times are nanoseconds since the tracker was made; durations are nanoseconds.

use crate::assoc;
use crate::fail_cache;
use crate::fail_cache::{key_of, FailCache, Failures, IpKey};
use crate::ip::IpAddr;
use crate::ip_map;
use crate::ip_map::IpMap;
use crate::net;
use crate::net::normalize_ip;
use std::time::Instant;
use vstd::prelude::*;

verus! {

/// The monotonic clock's reading.
#[verifier::external_type_specification]
#[verifier::external_body]
pub struct ExInstant(Instant);

/// Calls `Instant::now`. Nothing is claimed of what the clock reads.
#[verifier::external_body]
fn read_clock() -> Instant {
    Instant::now()
}

/// Calls `Instant::elapsed` and turns the duration into nanoseconds. Nothing is claimed of how
/// much time has passed.
#[verifier::external_body]
fn nanos_since(epoch: &Instant) -> u128 {
    epoch.elapsed().as_nanos()
}

/// What a tracker holds and by which limits it goes.
pub struct TrackerModel {
    /// Addresses that failed and are not blocked, the most recent failure first.
    pub fails: Seq<(IpKey, Failures)>,
    /// Blocked addresses, with the time since when.
    pub blocked: Map<IpAddr, u128>,
    /// How many addresses `fails` may hold.
    pub capacity: nat,
    /// How many failures within `window` make a block.
    pub max_fails: u32,
    pub window: u128,
    pub block_duration: u128,
    /// The latest time at which anything was recorded, refreshed or pruned.
    pub latest: u128,
    /// When the clock started.
    pub origin: Instant,
}

impl TrackerModel {
    /// Addresses stand in one of the two tables at most, and each once; those not blocked have
    /// failed at least once and not as often as it takes; there is room for them. No time that is
    /// held is later than the latest.
    pub open spec fn wf(self) -> bool {
        &&& self.capacity > 0
        &&& self.fails.len() <= self.capacity
        &&& assoc::distinct(self.fails)
        &&& forall|i: int|
            0 <= i < self.fails.len() ==> 1 <= (#[trigger] self.fails[i]).1.0 < self.max_fails
                && self.fails[i].1.1 <= self.latest
        &&& forall|ip: IpAddr| #[trigger]
            self.blocked.contains_key(ip) ==> self.failures_of(ip) is None && self.blocked[ip]
                <= self.latest
    }

    /// The tracker once it has seen the time `now`.
    pub open spec fn seen(self, now: u128) -> TrackerModel {
        TrackerModel {
            latest: if now > self.latest {
                now
            } else {
                self.latest
            },
            ..self
        }
    }

    /// The tracker without the block of an address, where that is over.
    pub open spec fn lifted(self, ip: IpAddr, now: u128) -> TrackerModel {
        if self.blocked.contains_key(ip) && ip_map::elapsed(self.blocked[ip], now)
            > self.block_duration {
            TrackerModel { blocked: self.blocked.remove(ip), ..self }
        } else {
            self
        }
    }

    /// What `fails` holds of an address.
    pub open spec fn failures_of(self, ip: IpAddr) -> Option<Failures> {
        assoc::lookup(self.fails, fail_cache::ip_key(ip))
    }

    /// Whether the address of a client is blocked.
    pub open spec fn is_blocked(self, addr: IpAddr, now: u128) -> bool {
        let ip = net::normalized(addr);
        self.blocked.contains_key(ip) && ip_map::elapsed(self.blocked[ip], now)
            <= self.block_duration
    }

    /// Whether a client is blocked, or has failed within a window that is still running.
    pub open spec fn has_recent_failures(self, addr: IpAddr, now: u128) -> bool {
        self.is_blocked(addr, now) || match self.failures_of(net::normalized(addr)) {
            Some((_, since)) => ip_map::elapsed(since, now) <= self.window,
            None => false,
        }
    }

    /// The count and the start of the window after one more failure of an address: the window
    /// that the address is in goes on, or a new one starts.
    pub open spec fn next_failures(self, ip: IpAddr, now: u128) -> (int, u128) {
        match self.failures_of(ip) {
            Some((count, since)) => if ip_map::elapsed(since, now) <= self.window {
                (count + 1, since)
            } else {
                (1, now)
            },
            None => (1, now),
        }
    }

    /// What a success or a failure of a client makes of the tracker. A block that is over counts
    /// as none; while one lasts, nothing is counted.
    pub open spec fn record(self, addr: IpAddr, success: bool, now: u128) -> TrackerModel {
        let ip = net::normalized(addr);
        let key = fail_cache::ip_key(ip);
        let current = self.seen(now).lifted(ip, now);
        if current.blocked.contains_key(ip) {
            current
        } else if success {
            TrackerModel { fails: assoc::without(current.fails, key), ..current }
        } else {
            let (count, since) = current.next_failures(ip, now);
            if count >= current.max_fails {
                TrackerModel {
                    fails: assoc::without(current.fails, key),
                    blocked: current.blocked.insert(ip, now),
                    ..current
                }
            } else {
                TrackerModel {
                    fails: assoc::pushed(
                        current.fails,
                        current.capacity,
                        key,
                        (count as u32, since),
                    ),
                    ..current
                }
            }
        }
    }

    /// What a request from a blocked client makes of the tracker: its block starts anew, unless
    /// it was over.
    pub open spec fn refresh_block(self, addr: IpAddr, now: u128) -> TrackerModel {
        let ip = net::normalized(addr);
        let current = self.seen(now).lifted(ip, now);
        if current.blocked.contains_key(ip) {
            TrackerModel { blocked: current.blocked.insert(ip, now), ..current }
        } else {
            current
        }
    }

    /// The tracker without the blocks and the windows that are over.
    pub open spec fn prune(self, now: u128) -> TrackerModel {
        TrackerModel {
            fails: within_window(self.fails, now, self.window),
            blocked: self.blocked.restrict(
                Set::new(
                    |ip: IpAddr|
                        self.blocked.contains_key(ip) && ip_map::elapsed(self.blocked[ip], now)
                            <= self.block_duration,
                ),
            ),
            ..self.seen(now)
        }
    }
}

/// The entries whose window is still running, in their order.
pub open spec fn within_window(
    fails: Seq<(IpKey, Failures)>,
    now: u128,
    window: u128,
) -> Seq<(IpKey, Failures)>
    decreases fails.len(),
{
    if fails.len() == 0 {
        fails
    } else {
        let rest = within_window(fails.drop_last(), now, window);
        if ip_map::elapsed(fails.last().1.1, now) <= window {
            rest.push(fails.last())
        } else {
            rest
        }
    }
}

/// Tracks per-IP auth failures and blocks IPs exceeding the threshold. Keys are normalized.
///
/// Uses a fixed window: the timer starts on the first failure. `max_fails` must occur within
/// `window` of that first failure to trigger a block. If the window expires, the counter resets;
/// it is not a rolling window. A block that has run out counts as none: a failure after it is the
/// first of a new window.
///
/// Blocked IPs are stored separately and never evicted by capacity. Non-blocked entries use LRU
/// eviction ordered by most-recent-failure time.
pub struct FailureTracker {
    fails: FailCache,
    blocked: IpMap<u128>,
    max_fails: u32,
    window: u128,
    block_duration: u128,
    epoch: Instant,
    latest: u128,
}

impl View for FailureTracker {
    type V = TrackerModel;

    closed spec fn view(&self) -> TrackerModel {
        TrackerModel {
            fails: fail_cache::cache_entries(self.fails),
            blocked: self.blocked@,
            capacity: fail_cache::cache_capacity(self.fails),
            max_fails: self.max_fails,
            window: self.window,
            block_duration: self.block_duration,
            latest: self.latest,
            origin: self.epoch,
        }
    }
}

impl FailureTracker {
    /// A tracker that has seen no failure.
    pub fn new(max_fails: u32, window: u128, block_duration: u128, max_entries: usize) -> (tracker:
        Self)
        requires
            fail_cache::capacity_fits(max_entries),
        ensures
            tracker@ == (TrackerModel {
                fails: Seq::empty(),
                blocked: Map::empty(),
                capacity: max_entries as nat,
                max_fails,
                window,
                block_duration,
                latest: 0,
                origin: tracker@.origin,
            }),
            tracker@.wf(),
    {
        FailureTracker {
            fails: fail_cache::new_cache(max_entries),
            blocked: IpMap::new(),
            max_fails,
            window,
            block_duration,
            epoch: read_clock(),
            latest: 0,
        }
    }

    /// The time on this tracker's clock, which does not run backwards: it is not before anything
    /// that the tracker knows of.
    pub fn now(&self) -> (now: u128)
        ensures
            now >= self@.latest,
    {
        let now = nanos_since(&self.epoch);
        if now < self.latest {
            self.latest
        } else {
            now
        }
    }

    /// Takes note of the time.
    fn see(&mut self, now: u128)
        ensures
            final(self)@ == old(self)@.seen(now),
    {
        if now > self.latest {
            self.latest = now;
        }
    }

    /// Drops the block of an IP where it is over, and says whether there is one that is not.
    fn lift(&mut self, ip: IpAddr, now: u128) -> (blocked: bool)
        ensures
            final(self)@ == old(self)@.lifted(ip, now),
            blocked == final(self)@.blocked.contains_key(ip),
    {
        match self.blocked.get(ip) {
            Some(since) => if now.saturating_sub(since) > self.block_duration {
                self.blocked.remove(ip);
                false
            } else {
                true
            },
            None => false,
        }
    }

    /// Records an authentication that succeeded or failed at the time `now`.
    pub fn record_at(&mut self, addr: IpAddr, success: bool, now: u128)
        requires
            old(self)@.wf(),
        ensures
            final(self)@ == old(self)@.record(addr, success, now),
            final(self)@.wf(),
    {
        let ip = normalize_ip(addr);
        let key = key_of(ip);
        let ghost before = self@;
        proof {
            lemma_record_wf(before, addr, success, now);
        }
        self.see(now);
        if self.lift(ip, now) {
            return;
        }
        let found = fail_cache::pop(&mut self.fails, &key);
        if success {
            return;
        }
        proof {
            assoc::lemma_without(before.fails, key);
            assoc::lemma_without(assoc::without(before.fails, key), key);
            if found is Some {
                let at = assoc::lemma_lookup_found(before.fails, key);
                assert(before.fails[at].1.0 < before.max_fails);
            }
        }
        let (count, since) = match found {
            Some((count, since)) => if now.saturating_sub(since) <= self.window {
                (count + 1, since)
            } else {
                (1, now)
            },
            None => (1, now),
        };
        if count >= self.max_fails {
            self.blocked.insert(ip, now);
        } else {
            fail_cache::push(&mut self.fails, key, (count, since));
        }
    }

    /// Whether an IP is blocked at the time `now`.
    pub fn is_blocked_at(&self, addr: IpAddr, now: u128) -> (r: bool)
        ensures
            r == self@.is_blocked(addr, now),
    {
        match self.blocked.get(normalize_ip(addr)) {
            Some(since) => now.saturating_sub(since) <= self.block_duration,
            None => false,
        }
    }

    /// Whether, at the time `now`, the IP has any failure recorded within the current window.
    pub fn has_recent_failures_at(&self, addr: IpAddr, now: u128) -> (r: bool)
        ensures
            r == self@.has_recent_failures(addr, now),
    {
        if self.is_blocked_at(addr, now) {
            return true;
        }
        match fail_cache::peek(&self.fails, &key_of(normalize_ip(addr))) {
            Some((_, since)) => now.saturating_sub(since) <= self.window,
            None => false,
        }
    }

    /// Starts the block of a blocked IP anew at the time `now`, or drops a block that was over.
    pub fn refresh_block_at(&mut self, addr: IpAddr, now: u128)
        requires
            old(self)@.wf(),
        ensures
            final(self)@ == old(self)@.refresh_block(addr, now),
            final(self)@.wf(),
    {
        let ip = normalize_ip(addr);
        self.see(now);
        if self.lift(ip, now) {
            self.blocked.insert(ip, now);
        }
    }

    /// Drops the blocks and the failures whose time is over at the time `now`.
    pub fn prune_at(&mut self, now: u128)
        requires
            old(self)@.wf(),
        ensures
            final(self)@ == old(self)@.prune(now),
            final(self)@.wf(),
    {
        let ghost before = self@;
        proof {
            lemma_prune_wf(before, now);
        }
        self.see(now);
        self.blocked.expire(now, self.block_duration);
        let all = fail_cache::entries(&self.fails);
        let ghost kept = within_window(all@.take(0), now, self.window);
        assert(kept + all@.skip(0) =~= all@);
        for i in 0..all.len()
            invariant
                all@ == before.fails,
                assoc::distinct(all@),
                self@ == (TrackerModel {
                    fails: within_window(all@.take(i as int), now, before.window) + all@.skip(
                        i as int,
                    ),
                    blocked: before.prune(now).blocked,
                    ..before.seen(now)
                }),
        {
            let (key, (_, since)) = all[i];
            let ghost done = within_window(all@.take(i as int), now, before.window);
            assert(all@.take(i + 1).drop_last() =~= all@.take(i as int));
            assert(all@.skip(i as int) =~= seq![all@[i as int]] + all@.skip(i + 1));
            proof {
                lemma_within_window(all@.take(i as int), now, before.window);
                lemma_within_window_distinct(all@, i as int, now, before.window);
            }
            if now.saturating_sub(since) > self.window {
                let _ = fail_cache::pop(&mut self.fails, &key);
                proof {
                    assoc::lemma_without_at(done + all@.skip(i as int), done.len() as int);
                    assert((done + all@.skip(i as int)).remove(done.len() as int) =~= done
                        + all@.skip(i + 1));
                }
            } else {
                assert(done + all@.skip(i as int) =~= done.push(all@[i as int]) + all@.skip(i + 1));
            }
        }
        assert(all@.take(all@.len() as int) =~= all@);
        assert(within_window(all@, now, before.window) + all@.skip(all@.len() as int)
            =~= within_window(all@, now, before.window));
    }

    /// Records an authentication that succeeded or failed now.
    pub fn record(&mut self, addr: IpAddr, success: bool)
        requires
            old(self)@.wf(),
        ensures
            exists|now: u128|
                old(self)@.latest <= now && final(self)@ == #[trigger] old(self)@.record(
                    addr,
                    success,
                    now,
                ),
            final(self)@.wf(),
    {
        let now = self.now();
        self.record_at(addr, success, now);
    }

    /// Whether an IP is blocked.
    pub fn is_blocked(&self, addr: IpAddr) -> (r: bool)
        ensures
            exists|now: u128| self@.latest <= now && r == #[trigger] self@.is_blocked(addr, now),
    {
        let now = self.now();
        self.is_blocked_at(addr, now)
    }

    /// Returns true if the IP has any failure recorded within the current window.
    pub fn has_recent_failures(&self, addr: IpAddr) -> (r: bool)
        ensures
            exists|now: u128|
                self@.latest <= now && r == #[trigger] self@.has_recent_failures(addr, now),
    {
        let now = self.now();
        self.has_recent_failures_at(addr, now)
    }

    /// Starts the block of a blocked IP anew.
    pub fn refresh_block(&mut self, addr: IpAddr)
        requires
            old(self)@.wf(),
        ensures
            exists|now: u128|
                old(self)@.latest <= now && final(self)@ == #[trigger] old(self)@.refresh_block(
                    addr,
                    now,
                ),
            final(self)@.wf(),
    {
        let now = self.now();
        self.refresh_block_at(addr, now);
    }

    /// Drops the blocks and the failures whose time is over.
    pub fn prune(&mut self)
        requires
            old(self)@.wf(),
        ensures
            exists|now: u128|
                old(self)@.latest <= now && final(self)@ == #[trigger] old(self)@.prune(now),
            final(self)@.wf(),
    {
        let now = self.now();
        self.prune_at(now);
    }
}

pub proof fn lemma_record_wf(model: TrackerModel, addr: IpAddr, success: bool, now: u128)
    requires
        model.wf(),
    ensures
        model.record(addr, success, now).wf(),
{
    let ip = net::normalized(addr);
    let key = fail_cache::ip_key(ip);
    let next = model.record(addr, success, now);
    if model.failures_of(ip) is Some {
        let at = assoc::lemma_lookup_found(model.fails, key);
        assert(1 <= model.fails[at].1.0 < model.max_fails);
    }
    assoc::lemma_without(model.fails, key);
    let (count, since) = model.next_failures(ip, now);
    assoc::lemma_pushed(model.fails, model.capacity, key, (count as u32, since));
    assert forall|i: int| 0 <= i < next.fails.len() implies 1 <= (#[trigger] next.fails[i]).1.0
        < next.max_fails && next.fails[i].1.1 <= next.latest by {
        assoc::lemma_lookup_at(next.fails, i);
        if next.fails[i].0 != key {
            assert(assoc::lookup(next.fails, next.fails[i].0) is Some);
            let at = assoc::lemma_lookup_found(model.fails, next.fails[i].0);
            assert(1 <= model.fails[at].1.0 < model.max_fails);
        } else {
            assoc::lemma_lookup_absent(assoc::without(model.fails, key), key);
            if next.fails == model.fails {
                assert(1 <= model.fails[i].1.0 < model.max_fails);
            }
        }
    }
    assert forall|other: IpAddr| #[trigger]
        next.blocked.contains_key(other) implies next.failures_of(other) is None
        && next.blocked[other] <= next.latest by {
        let other_key = fail_cache::ip_key(other);
        if other == ip {
            assoc::lemma_lookup_absent(assoc::without(model.fails, key), key);
        } else {
            assert(other_key != key);
            assert(model.blocked.contains_key(other));
            assert(assoc::lookup(assoc::without(model.fails, key), other_key) is None);
        }
    }
}

/// Filtering by the window keeps entries in order and drops exactly those whose window is over.
pub proof fn lemma_within_window(fails: Seq<(IpKey, Failures)>, now: u128, window: u128)
    ensures
        within_window(fails, now, window).len() <= fails.len(),
        forall|i: int|
            0 <= i < within_window(fails, now, window).len() ==> fails.contains(
                #[trigger] within_window(fails, now, window)[i],
            ),
        forall|i: int|
            0 <= i < within_window(fails, now, window).len() ==> ip_map::elapsed(
                (#[trigger] within_window(fails, now, window)[i]).1.1,
                now,
            ) <= window,
        forall|i: int|
            0 <= i < fails.len() && ip_map::elapsed((#[trigger] fails[i]).1.1, now) <= window
                ==> within_window(fails, now, window).contains(fails[i]),
        assoc::distinct(fails) ==> assoc::distinct(within_window(fails, now, window)),
    decreases fails.len(),
{
    if fails.len() > 0 {
        let front = fails.drop_last();
        let kept = within_window(front, now, window);
        let result = within_window(fails, now, window);
        lemma_within_window(front, now, window);
        assert forall|i: int| 0 <= i < result.len() implies fails.contains(
            #[trigger] result[i],
        ) by {
            if i < kept.len() {
                assert(front.contains(kept[i]));
                let j = choose|j: int| 0 <= j < front.len() && front[j] == kept[i];
                assert(fails[j] == result[i]);
            } else {
                assert(fails[fails.len() - 1] == result[i]);
            }
        }
        assert forall|i: int|
            0 <= i < fails.len() && ip_map::elapsed(
                (#[trigger] fails[i]).1.1,
                now,
            ) <= window implies result.contains(fails[i]) by {
            if i < front.len() {
                assert(front[i] == fails[i]);
                let j = choose|j: int| 0 <= j < kept.len() && kept[j] == front[i];
                assert(result[j] == fails[i]);
            } else {
                assert(result[kept.len() as int] == fails[i]);
            }
        }
        if assoc::distinct(fails) {
            assert(assoc::distinct(front));
            assert forall|i: int, j: int| 0 <= i < j < result.len() implies (#[trigger] result[i]).0
                != (#[trigger] result[j]).0 by {
                assert(result[i] == kept[i]);
                if j < kept.len() {
                    assert(result[j] == kept[j]);
                } else {
                    assert(front.contains(kept[i]));
                    let k = choose|k: int| 0 <= k < front.len() && front[k] == kept[i];
                    assert(fails[k].0 != fails[fails.len() - 1].0);
                }
            }
        }
    }
}

/// Half-way through pruning the keys are still distinct.
proof fn lemma_within_window_distinct(
    fails: Seq<(IpKey, Failures)>,
    at: int,
    now: u128,
    window: u128,
)
    requires
        assoc::distinct(fails),
        0 <= at <= fails.len(),
    ensures
        assoc::distinct(within_window(fails.take(at), now, window) + fails.skip(at)),
{
    let front = fails.take(at);
    let kept = within_window(front, now, window);
    let back = fails.skip(at);
    let all = kept + back;
    lemma_within_window(front, now, window);
    assert(assoc::distinct(front));
    assert forall|i: int, j: int| 0 <= i < j < all.len() implies (#[trigger] all[i]).0 != (
    #[trigger] all[j]).0 by {
        if j < kept.len() {
            assert(all[i] == kept[i] && all[j] == kept[j]);
        } else {
            let b = at + j - kept.len();
            assert(all[j] == fails[b]);
            if i < kept.len() {
                assert(front.contains(kept[i]));
                let k = choose|k: int| 0 <= k < front.len() && front[k] == kept[i];
                assert(fails[k] == all[i]);
            } else {
                assert(all[i] == fails[at + i - kept.len()]);
            }
        }
    }
}

pub proof fn lemma_prune_wf(model: TrackerModel, now: u128)
    requires
        model.wf(),
    ensures
        model.prune(now).wf(),
{
    let next = model.prune(now);
    lemma_within_window(model.fails, now, model.window);
    assert forall|i: int| 0 <= i < next.fails.len() implies 1 <= (#[trigger] next.fails[i]).1.0
        < next.max_fails && next.fails[i].1.1 <= next.latest by {
        assert(model.fails.contains(next.fails[i]));
    }
    assert forall|ip: IpAddr| #[trigger] next.blocked.contains_key(ip) implies next.failures_of(
        ip,
    ) is None && next.blocked[ip] <= next.latest by {
        let key = fail_cache::ip_key(ip);
        assert(model.blocked.contains_key(ip));
        assert(model.failures_of(ip) is None);
        assoc::lemma_lookup_absent(model.fails, key);
        assert forall|i: int| 0 <= i < next.fails.len() implies (#[trigger] next.fails[i]).0
            != key by {
            assert(model.fails.contains(next.fails[i]));
        }
        assoc::lemma_lookup_absent(next.fails, key);
    }
}

} // verus!
