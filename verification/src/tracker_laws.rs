//! What holds of the failure tracker over several calls.

use crate::assoc;
use crate::fail_cache;
use crate::fail_cache::{Failures, IpKey};
use crate::ip::IpAddr;
use crate::ip_map;
use crate::net;
use crate::tracker;
use crate::tracker::TrackerModel;
use vstd::prelude::*;

verus! {

/// The tracker after failures of one client at the given times.
pub open spec fn after_failures(model: TrackerModel, addr: IpAddr, times: Seq<u128>) -> TrackerModel
    decreases times.len(),
{
    if times.len() == 0 {
        model
    } else {
        after_failures(model, addr, times.drop_last()).record(addr, false, times.last())
    }
}

proof fn lemma_below_threshold(model: TrackerModel, addr: IpAddr, times: Seq<u128>)
    requires
        model.wf(),
        times.len() > 0 ==> !model.is_blocked(addr, times[0]),
        model.failures_of(net::normalized(addr)) is None,
        0 < times.len() < model.max_fails,
        forall|i: int|
            0 <= i < times.len() ==> ip_map::elapsed(times[0], #[trigger] times[i]) <= model.window,
    ensures
        ({
            let after = after_failures(model, addr, times);
            &&& after.wf()
            &&& !after.blocked.contains_key(net::normalized(addr))
            &&& after.max_fails == model.max_fails && after.window == model.window
            &&& after.block_duration == model.block_duration
            &&& after.failures_of(net::normalized(addr)) == Some((times.len() as u32, times[0]))
        }),
    decreases times.len(),
{
    let ip = net::normalized(addr);
    let key = fail_cache::ip_key(ip);
    let front = times.drop_last();
    let before = after_failures(model, addr, front);
    if front.len() > 0 {
        assert forall|i: int| 0 <= i < front.len() implies ip_map::elapsed(
            front[0],
            #[trigger] front[i],
        ) <= model.window by {
            assert(front[i] == times[i] && front[0] == times[0]);
        }
        lemma_below_threshold(model, addr, front);
        assert(ip_map::elapsed(times[0], times[times.len() - 1]) <= model.window);
    }
    tracker::lemma_record_wf(before, addr, false, times.last());
    assoc::lemma_pushed(before.fails, before.capacity, key, (times.len() as u32, times[0]));
}

/// As many failures as the threshold says, all within the window that the first one starts,
/// block a client that had no failures before and is not blocked; fewer do not. The block starts
/// with the last of them.
pub proof fn law_threshold_blocks(model: TrackerModel, addr: IpAddr, times: Seq<u128>)
    requires
        model.wf(),
        times.len() > 0 ==> !model.is_blocked(addr, times[0]),
        model.failures_of(net::normalized(addr)) is None,
        0 < times.len() <= model.max_fails,
        forall|i: int|
            0 <= i < times.len() ==> ip_map::elapsed(times[0], #[trigger] times[i]) <= model.window,
    ensures
        times.len() == model.max_fails ==> forall|now: u128| #[trigger]
            after_failures(model, addr, times).is_blocked(addr, now) <==> ip_map::elapsed(
                times.last(),
                now,
            ) <= model.block_duration,
        times.len() < model.max_fails ==> forall|now: u128|
            !(#[trigger] after_failures(model, addr, times).is_blocked(addr, now)),
{
    if times.len() < model.max_fails {
        lemma_below_threshold(model, addr, times);
    } else if times.len() > 1 {
        let front = times.drop_last();
        assert forall|i: int| 0 <= i < front.len() implies ip_map::elapsed(
            front[0],
            #[trigger] front[i],
        ) <= model.window by {
            assert(front[i] == times[i] && front[0] == times[0]);
        }
        lemma_below_threshold(model, addr, front);
        assert(ip_map::elapsed(times[0], times[times.len() - 1]) <= model.window);
    } else {
        assert(after_failures(model, addr, times.drop_last()) == model);
    }
}

/// Failures count within a fixed window only: one that comes after the window of the first
/// failure is over starts a new window and a new count.
pub proof fn law_window_expiry_resets_count(model: TrackerModel, addr: IpAddr, now: u128)
    requires
        model.wf(),
        !model.blocked.contains_key(net::normalized(addr)),
        model.failures_of(net::normalized(addr)) matches Some((_, since)) && ip_map::elapsed(
            since,
            now,
        ) > model.window,
        model.max_fails > 1,
    ensures
        model.record(addr, false, now).failures_of(net::normalized(addr)) == Some((1u32, now)),
{
    let key = fail_cache::ip_key(net::normalized(addr));
    assoc::lemma_pushed(model.fails, model.capacity, key, (1u32, now));
}

/// A success of a client that is not blocked clears its failures.
pub proof fn law_success_clears_failures(model: TrackerModel, addr: IpAddr, now: u128, later: u128)
    requires
        model.wf(),
        !model.is_blocked(addr, now),
    ensures
        !model.record(addr, true, now).is_blocked(addr, later),
        !model.record(addr, true, now).has_recent_failures(addr, later),
{
    let key = fail_cache::ip_key(net::normalized(addr));
    assoc::lemma_without(model.fails, key);
    assoc::lemma_lookup_absent(assoc::without(model.fails, key), key);
}

/// While a client is blocked, neither a success nor a failure changes anything but the latest time
/// that is known.
pub proof fn law_active_block_stands(model: TrackerModel, addr: IpAddr, success: bool, now: u128)
    requires
        model.is_blocked(addr, now),
    ensures
        model.record(addr, success, now) == model.seen(now),
{
}

/// What one client does never blocks, unblocks or evicts the block of another.
pub proof fn law_blocks_are_independent(
    model: TrackerModel,
    addr: IpAddr,
    other: IpAddr,
    success: bool,
    now: u128,
    later: u128,
)
    requires
        net::normalized(addr) != net::normalized(other),
    ensures
        model.record(addr, success, now).is_blocked(other, later) == model.is_blocked(other, later),
        model.refresh_block(addr, now).is_blocked(other, later) == model.is_blocked(other, later),
{
}

/// The tracker after the given recordings, each with its client, its outcome and its time.
pub open spec fn after_recordings(
    model: TrackerModel,
    recordings: Seq<(IpAddr, bool, u128)>,
) -> TrackerModel
    decreases recordings.len(),
{
    if recordings.len() == 0 {
        model
    } else {
        let (addr, success, now) = recordings.last();
        after_recordings(model, recordings.drop_last()).record(addr, success, now)
    }
}

/// Blocked addresses are never evicted: however many other clients fail, and whatever the
/// capacity, a block lasts as long as it would without them.
pub proof fn law_blocks_are_never_evicted(
    model: TrackerModel,
    recordings: Seq<(IpAddr, bool, u128)>,
    blocked: IpAddr,
    later: u128,
)
    requires
        forall|i: int|
            0 <= i < recordings.len() ==> net::normalized((#[trigger] recordings[i]).0)
                != net::normalized(blocked),
    ensures
        after_recordings(model, recordings).is_blocked(blocked, later) == model.is_blocked(
            blocked,
            later,
        ),
        after_recordings(model, recordings).block_duration == model.block_duration,
    decreases recordings.len(),
{
    if recordings.len() > 0 {
        let (addr, success, now) = recordings.last();
        let front = recordings.drop_last();
        assert(recordings[recordings.len() - 1].0 == addr);
        assert forall|i: int| 0 <= i < front.len() implies net::normalized(
            (#[trigger] front[i]).0,
        ) != net::normalized(blocked) by {
            assert(front[i] == recordings[i]);
        }
        law_blocks_are_never_evicted(model, front, blocked, later);
        law_blocks_are_independent(
            after_recordings(model, front),
            addr,
            blocked,
            success,
            now,
            later,
        );
    }
}

/// Whatever is recorded, no more clients have a count than the table may hold, and each has one.
pub proof fn law_table_stays_within_capacity(
    model: TrackerModel,
    recordings: Seq<(IpAddr, bool, u128)>,
)
    requires
        model.wf(),
    ensures
        after_recordings(model, recordings).wf(),
        after_recordings(model, recordings).fails.len() <= model.capacity,
        after_recordings(model, recordings).capacity == model.capacity,
    decreases recordings.len(),
{
    if recordings.len() > 0 {
        let (addr, success, now) = recordings.last();
        let front = recordings.drop_last();
        law_table_stays_within_capacity(model, front);
        tracker::lemma_record_wf(after_recordings(model, front), addr, success, now);
    }
}

/// A success of one client leaves the failures of another.
pub proof fn law_success_clears_own_failures_only(
    model: TrackerModel,
    addr: IpAddr,
    other: IpAddr,
    now: u128,
    later: u128,
)
    requires
        net::normalized(addr) != net::normalized(other),
    ensures
        model.record(addr, true, now).has_recent_failures(other, later)
            == model.has_recent_failures(other, later),
{
    assoc::lemma_without(model.fails, fail_cache::ip_key(net::normalized(addr)));
}

/// Clients of one network are one: rotating through the addresses of an IPv6 /64 changes nothing.
pub proof fn law_one_network_one_client(
    model: TrackerModel,
    a: IpAddr,
    b: IpAddr,
    success: bool,
    now: u128,
)
    requires
        net::normalized(a) == net::normalized(b),
    ensures
        model.record(a, success, now) == model.record(b, success, now),
        model.refresh_block(a, now) == model.refresh_block(b, now),
        model.is_blocked(a, now) == model.is_blocked(b, now),
        model.has_recent_failures(a, now) == model.has_recent_failures(b, now),
{
}

/// A request from a blocked client starts the block duration anew.
pub proof fn law_refresh_extends_block(model: TrackerModel, addr: IpAddr, now: u128, later: u128)
    requires
        model.is_blocked(addr, now),
    ensures
        model.refresh_block(addr, now).is_blocked(addr, later) <==> ip_map::elapsed(now, later)
            <= model.block_duration,
{
}

/// A block that is over stays over: what is recorded next for the client leaves it unblocked,
/// unless one failure is enough to block it anew. A failure counts as the first of a new window.
pub proof fn law_expired_block_is_lifted(
    model: TrackerModel,
    addr: IpAddr,
    success: bool,
    now: u128,
    later: u128,
)
    requires
        model.wf(),
        model.blocked.contains_key(net::normalized(addr)),
        !model.is_blocked(addr, now),
        success || model.max_fails > 1,
    ensures
        !model.record(addr, success, now).is_blocked(addr, later),
        !success ==> model.record(addr, false, now).failures_of(net::normalized(addr)) == Some(
            (1u32, now),
        ),
        !success ==> (model.record(addr, false, now).has_recent_failures(addr, later)
            <==> ip_map::elapsed(now, later) <= model.window),
{
    let ip = net::normalized(addr);
    let key = fail_cache::ip_key(ip);
    assert(model.failures_of(ip) is None);
    assoc::lemma_pushed(model.fails, model.capacity, key, (1u32, now));
}

/// What pruning leaves of a client's failures.
proof fn lemma_prune_lookup(model: TrackerModel, ip: IpAddr, now: u128)
    requires
        model.wf(),
    ensures
        model.prune(now).failures_of(ip) == match model.failures_of(ip) {
            Some((count, since)) => if ip_map::elapsed(since, now) <= model.window {
                Some((count, since))
            } else {
                None
            },
            None => None,
        },
{
    let key = fail_cache::ip_key(ip);
    let kept = model.prune(now).fails;
    tracker::lemma_within_window(model.fails, now, model.window);
    if assoc::lookup(kept, key) is Some {
        let at = assoc::lemma_lookup_found(kept, key);
        assert(model.fails.contains(kept[at]));
        let i = choose|i: int| 0 <= i < model.fails.len() && model.fails[i] == kept[at];
        assoc::lemma_lookup_at(model.fails, i);
        assert(ip_map::elapsed(kept[at].1.1, now) <= model.window);
    } else if assoc::lookup(model.fails, key) is Some {
        let at = assoc::lemma_lookup_found(model.fails, key);
        assoc::lemma_lookup_absent(kept, key);
        if ip_map::elapsed(model.fails[at].1.1, now) <= model.window {
            assert(kept.contains(model.fails[at]));
        }
    }
}

/// Pruning is invisible: it changes no answer from its time on.
pub proof fn law_prune_changes_no_answer(model: TrackerModel, addr: IpAddr, now: u128, later: u128)
    requires
        model.wf(),
        now <= later,
    ensures
        model.prune(now).is_blocked(addr, later) == model.is_blocked(addr, later),
        model.prune(now).has_recent_failures(addr, later) == model.has_recent_failures(addr, later),
{
    lemma_prune_lookup(model, net::normalized(addr), now);
}

proof fn lemma_nothing_pruned(model: TrackerModel, now: u128)
    requires
        model.prune(now).fails.len() >= model.fails.len(),
    ensures
        model.prune(now).fails == model.fails,
    decreases model.fails.len(),
{
    let fails = model.fails;
    if fails.len() > 0 {
        let front = TrackerModel { fails: fails.drop_last(), ..model };
        tracker::lemma_within_window(front.fails, now, model.window);
        lemma_nothing_pruned(front, now);
        assert(front.fails.push(fails.last()) =~= fails);
    }
}

/// A recording evicts a client whose failures still count at `later`, and would not have if the
/// table had been pruned first.
pub open spec fn is_spared_by_pruning(
    model: TrackerModel,
    pruned: u128,
    addr: IpAddr,
    success: bool,
    now: u128,
    other: IpAddr,
    later: u128,
) -> bool {
    &&& !success && !model.is_blocked(addr, now) && model.max_fails > 1
    &&& model.failures_of(net::normalized(addr)) is None
    &&& model.fails.len() == model.capacity
    &&& model.prune(pruned).fails.len() < model.capacity
    &&& model.fails.last().0 == fail_cache::ip_key(net::normalized(other))
    &&& ip_map::elapsed(model.fails.last().1.1, later) <= model.window
}

/// Pruning is invisible to what is recorded next too: whether or not the tracker was pruned first,
/// a success or a failure leaves the same answers. It shows only where a full table evicts a
/// client for want of the room that pruning would have made.
pub proof fn law_pruning_first_changes_no_later_answer(
    model: TrackerModel,
    pruned: u128,
    addr: IpAddr,
    success: bool,
    now: u128,
    other: IpAddr,
    later: u128,
)
    requires
        model.wf(),
        pruned <= now,
        pruned <= later,
        !is_spared_by_pruning(model, pruned, addr, success, now, other, later),
    ensures
        model.prune(pruned).record(addr, success, now).is_blocked(other, later) == model.record(
            addr,
            success,
            now,
        ).is_blocked(other, later),
        model.prune(pruned).record(addr, success, now).has_recent_failures(other, later)
            == model.record(addr, success, now).has_recent_failures(other, later),
{
    let ip = net::normalized(addr);
    let key = fail_cache::ip_key(ip);
    let seen = net::normalized(other);
    let other_key = fail_cache::ip_key(seen);
    let less = model.prune(pruned);
    tracker::lemma_prune_wf(model, pruned);
    lemma_prune_lookup(model, ip, pruned);
    lemma_prune_lookup(model, seen, pruned);
    if !model.is_blocked(addr, now) {
        assoc::lemma_without(model.fails, key);
        assoc::lemma_without(less.fails, key);
        assoc::lemma_lookup_absent(assoc::without(model.fails, key), key);
        assoc::lemma_lookup_absent(assoc::without(less.fails, key), key);
        let (count, since) = model.next_failures(ip, now);
        assert(less.next_failures(ip, now) == (count, since));
        if model.failures_of(ip) is Some {
            let at = assoc::lemma_lookup_found(model.fails, key);
            assert(1 <= model.fails[at].1.0 < model.max_fails);
        }
        if !success && count < model.max_fails {
            let value = (count as u32, since);
            assoc::lemma_pushed(model.fails, model.capacity, key, value);
            assoc::lemma_pushed(less.fails, model.capacity, key, value);
            assoc::lemma_lookup_absent(model.fails, key);
            assoc::lemma_lookup_absent(less.fails, key);
            if seen != ip {
                assert(other_key != key);
                assoc::lemma_pushed_lookup(model.fails, model.capacity, key, value, other_key);
                assoc::lemma_pushed_lookup(less.fails, model.capacity, key, value, other_key);
                tracker::lemma_within_window(model.fails, pruned, model.window);
                if less.fails.len() == model.capacity {
                    lemma_nothing_pruned(model, pruned);
                } else if model.fails.len() == model.capacity && model.fails.last().0
                    == other_key {
                    assoc::lemma_lookup_at(model.fails, model.fails.len() - 1);
                }
            }
        }
    }
}

/// Pruning leaves nothing that is over.
pub proof fn law_prune_removes_stale(model: TrackerModel, now: u128)
    requires
        model.wf(),
    ensures
        forall|ip: IpAddr| #[trigger]
            model.prune(now).blocked.contains_key(ip) ==> ip_map::elapsed(
                model.prune(now).blocked[ip],
                now,
            ) <= model.block_duration,
        forall|i: int|
            0 <= i < model.prune(now).fails.len() ==> ip_map::elapsed(
                (#[trigger] model.prune(now).fails[i]).1.1,
                now,
            ) <= model.window,
{
    tracker::lemma_within_window(model.fails, now, model.window);
}

/// Where the failure table is full, a failure of a client that is neither in it nor blocked evicts
/// the client whose last failure is longest ago, and no other: the new client gets a count of one
/// and comes first, the others keep their counts and their order, and nobody is unblocked.
pub proof fn law_eviction_takes_least_recent(
    model: TrackerModel,
    addr: IpAddr,
    now: u128,
    other: IpAddr,
    later: u128,
)
    requires
        model.wf(),
        !model.is_blocked(addr, now),
        model.failures_of(net::normalized(addr)) is None,
        model.fails.len() == model.capacity,
        model.max_fails > 1,
    ensures
        ({
            let after = model.record(addr, false, now);
            let seen = net::normalized(other);
            &&& after.fails == seq![
                (fail_cache::ip_key(net::normalized(addr)), (1u32, now)),
            ] + model.fails.drop_last()
            &&& after.failures_of(net::normalized(addr)) == Some((1u32, now))
            &&& seen != net::normalized(addr) ==> after.failures_of(seen) == if model.fails.last().0
                == fail_cache::ip_key(seen) {
                None
            } else {
                model.failures_of(seen)
            }
            &&& after.is_blocked(other, later) == (model.is_blocked(other, later) && seen
                != net::normalized(addr))
        }),
{
    let ip = net::normalized(addr);
    let key = fail_cache::ip_key(ip);
    let other_key = fail_cache::ip_key(net::normalized(other));
    assoc::lemma_lookup_absent(model.fails, key);
    assoc::lemma_without(model.fails, key);
    assoc::lemma_pushed(model.fails, model.capacity, key, (1u32, now));
    if net::normalized(other) != ip {
        assert(other_key != key);
        assoc::lemma_pushed_lookup(model.fails, model.capacity, key, (1u32, now), other_key);
    }
    let all = seq![(key, (1u32, now))] + model.fails;
    assert(all.drop_last() =~= seq![(key, (1u32, now))] + model.fails.drop_last());
}

/// A failure that does not block its client puts the client first, and leaves the others in their
/// order: the table is ordered by the last failure, the most recent one first.
pub proof fn law_table_is_ordered_by_last_failure(model: TrackerModel, addr: IpAddr, now: u128)
    requires
        model.wf(),
        !model.record(addr, false, now).blocked.contains_key(net::normalized(addr)),
    ensures
        ({
            let after = model.record(addr, false, now).fails;
            let key = fail_cache::ip_key(net::normalized(addr));
            let others = assoc::without(model.fails, key);
            &&& after.len() > 0
            &&& after[0].0 == key
            &&& after.drop_first() == others || (others.len() == model.capacity
                && after.drop_first() == others.drop_last())
        }),
{
    let key = fail_cache::ip_key(net::normalized(addr));
    let others = assoc::without(model.fails, key);
    let after = model.record(addr, false, now).fails;
    assoc::lemma_without(model.fails, key);
    if others.len() == model.capacity {
        assert(after.drop_first() =~= others.drop_last());
    } else {
        assert(after.drop_first() =~= others);
    }
}

/// Time passes from the earlier to the later reading, and none has passed before that.
pub proof fn law_time_passes_forward(since: u128, now: u128, later: u128)
    ensures
        since <= now ==> ip_map::elapsed(since, now) == now - since,
        now <= since ==> ip_map::elapsed(since, now) == 0,
        since <= now <= later ==> ip_map::elapsed(since, later) == ip_map::elapsed(since, now)
            + ip_map::elapsed(now, later),
{
}

/// A client is blocked from the time since when its network is, up to and with the end of the block
/// duration. Nobody else is.
pub proof fn law_how_long_a_block_lasts(model: TrackerModel, addr: IpAddr, now: u128)
    ensures
        ({
            let ip = net::normalized(addr);
            &&& !model.blocked.contains_key(ip) ==> !model.is_blocked(addr, now)
            &&& model.blocked.contains_key(ip) ==> (model.is_blocked(addr, now) <==> now
                <= model.blocked[ip] + model.block_duration)
        }),
{
}

/// A client's failures are recent up to and with the end of the window that the first of them
/// started, or while it is blocked; a client without any has none.
pub proof fn law_how_long_failures_are_recent(model: TrackerModel, addr: IpAddr, now: u128)
    requires
        !model.is_blocked(addr, now),
    ensures
        match model.failures_of(net::normalized(addr)) {
            Some((_, since)) => model.has_recent_failures(addr, now) <==> now <= since
                + model.window,
            None => !model.has_recent_failures(addr, now),
        },
{
}

/// One more failure within the window counts one more, and the window stays where it is; the one
/// that reaches the threshold blocks the client from its time on, and its count is dropped. A first
/// failure counts one and starts a window at its time.
pub proof fn law_one_more_failure(model: TrackerModel, addr: IpAddr, now: u128, later: u128)
    requires
        model.wf(),
        !model.is_blocked(addr, now),
        !model.blocked.contains_key(net::normalized(addr)),
    ensures
        ({
            let ip = net::normalized(addr);
            let after = model.record(addr, false, now);
            let (count, since) = match model.failures_of(ip) {
                Some((count, since)) => if now <= since + model.window {
                    (count + 1, since)
                } else {
                    (1, now)
                },
                None => (1, now),
            };
            if count < model.max_fails {
                &&& after.failures_of(ip) == Some((count as u32, since))
                &&& !after.is_blocked(addr, later)
                &&& after.has_recent_failures(addr, later) <==> later <= since + model.window
            } else {
                &&& after.failures_of(ip) is None
                &&& after.is_blocked(addr, later) <==> later <= now + model.block_duration
            }
        }),
{
    let ip = net::normalized(addr);
    let key = fail_cache::ip_key(ip);
    let (count, since) = model.next_failures(ip, now);
    if model.failures_of(ip) is Some {
        let at = assoc::lemma_lookup_found(model.fails, key);
        assert(1 <= model.fails[at].1.0 < model.max_fails);
    }
    assoc::lemma_without(model.fails, key);
    assoc::lemma_lookup_absent(assoc::without(model.fails, key), key);
    assoc::lemma_pushed(model.fails, model.capacity, key, (count as u32, since));
}

/// While there is room in the table, a failure of one client leaves the failures of every other as
/// they are.
pub proof fn law_failure_leaves_others_alone(
    model: TrackerModel,
    addr: IpAddr,
    other: IpAddr,
    now: u128,
)
    requires
        model.wf(),
        net::normalized(addr) != net::normalized(other),
        model.fails.len() < model.capacity || model.failures_of(net::normalized(addr)) is Some,
    ensures
        model.record(addr, false, now).failures_of(net::normalized(other)) == model.failures_of(
            net::normalized(other),
        ),
{
    let ip = net::normalized(addr);
    let key = fail_cache::ip_key(ip);
    let other_key = fail_cache::ip_key(net::normalized(other));
    let (count, since) = model.next_failures(ip, now);
    assert(other_key != key);
    assoc::lemma_without(model.fails, key);
    assoc::lemma_lookup_absent(model.fails, key);
    assoc::lemma_pushed_lookup(model.fails, model.capacity, key, (count as u32, since), other_key);
}

/// The limits of a tracker and the start of its clock never change, and the latest time that it
/// knows of is the latest that it was given.
pub proof fn law_limits_stay(model: TrackerModel, addr: IpAddr, success: bool, now: u128)
    ensures
        ({
            let latest = if model.latest < now {
                now
            } else {
                model.latest
            };
            let recorded = model.record(addr, success, now);
            let refreshed = model.refresh_block(addr, now);
            let pruned = model.prune(now);
            &&& recorded.latest == latest && refreshed.latest == latest && pruned.latest == latest
            &&& recorded.max_fails == model.max_fails && refreshed.max_fails == model.max_fails
                && pruned.max_fails == model.max_fails
            &&& recorded.window == model.window && refreshed.window == model.window && pruned.window
                == model.window
            &&& recorded.block_duration == model.block_duration && refreshed.block_duration
                == model.block_duration && pruned.block_duration == model.block_duration
            &&& recorded.capacity == model.capacity && refreshed.capacity == model.capacity
                && pruned.capacity == model.capacity
            &&& recorded.origin == model.origin && refreshed.origin == model.origin && pruned.origin
                == model.origin
        }),
{
}

/// A request of a client that is not blocked blocks nobody, and starts nobody's block anew; what
/// is held of failures stays.
pub proof fn law_refresh_is_for_the_blocked(
    model: TrackerModel,
    addr: IpAddr,
    now: u128,
    other: IpAddr,
    later: u128,
)
    requires
        now <= later,
    ensures
        model.refresh_block(addr, now).fails == model.fails,
        !model.is_blocked(addr, now) ==> model.refresh_block(addr, now).is_blocked(other, later)
            == model.is_blocked(other, later),
{
}

/// Pruning leaves the count and the window of a client as they are while the window runs, and
/// drops both when it is over; it leaves the start of a block that runs, and drops one that is
/// over.
pub proof fn law_what_pruning_leaves(model: TrackerModel, ip: IpAddr, now: u128)
    requires
        model.wf(),
    ensures
        model.prune(now).failures_of(ip) == match model.failures_of(ip) {
            Some((count, since)) => if now <= since + model.window {
                Some((count, since))
            } else {
                None
            },
            None => None,
        },
        model.prune(now).blocked.contains_key(ip) <==> model.blocked.contains_key(ip) && now
            <= model.blocked[ip] + model.block_duration,
        model.prune(now).blocked.contains_key(ip) ==> model.prune(now).blocked[ip]
            == model.blocked[ip],
{
    lemma_prune_lookup(model, ip, now);
}

/// Pruning keeps the order of the table: it is done part by part, entry by entry.
pub proof fn law_pruning_keeps_the_order(
    a: Seq<(IpKey, Failures)>,
    b: Seq<(IpKey, Failures)>,
    entry: (IpKey, Failures),
    now: u128,
    window: u128,
)
    ensures
        tracker::within_window(a + b, now, window) == tracker::within_window(a, now, window)
            + tracker::within_window(b, now, window),
        now <= entry.1.1 + window ==> tracker::within_window(seq![entry], now, window) == seq![
            entry,
        ],
        now > entry.1.1 + window ==> tracker::within_window(seq![entry], now, window).len() == 0,
    decreases b.len(),
{
    reveal_with_fuel(tracker::within_window, 2);
    assert(seq![entry].drop_last().len() == 0);
    if now <= entry.1.1 + window {
        assert(tracker::within_window(seq![entry], now, window) =~= seq![entry]);
    }
    let whole = tracker::within_window(a + b, now, window);
    let left = tracker::within_window(a, now, window);
    if b.len() == 0 {
        assert(a + b =~= a);
        assert(whole =~= left + tracker::within_window(b, now, window));
    } else {
        assert((a + b).drop_last() =~= a + b.drop_last());
        assert((a + b).last() == b.last());
        law_pruning_keeps_the_order(a, b.drop_last(), entry, now, window);
        assert(whole =~= left + tracker::within_window(b, now, window));
    }
}

} // verus!
