//! Who may have a key verified, and when: attempts in flight per address, and the queue for a
//! verification slot.

use crate::config::GlobalConfig;
use crate::ip::IpAddr;
use crate::ip_map::IpMap;
use crate::tracker::{FailureTracker, TrackerModel};
use vstd::prelude::*;

verus! {

/// What the server keeps between requests.
pub struct AuthModel {
    pub tracker: TrackerModel,
    /// How many attempts of an address are in flight; addresses without any are absent.
    pub inflight: Map<IpAddr, u32>,
    /// How many requests wait for a verification slot.
    pub waiters: nat,
}

impl AuthModel {
    /// Addresses have at least one attempt in flight and no more than is allowed, and no more
    /// requests wait than is allowed.
    pub open spec fn wf(self, global: GlobalConfig) -> bool {
        &&& self.tracker.wf()
        &&& forall|ip: IpAddr| #[trigger]
            self.inflight.contains_key(ip) ==> 1 <= self.inflight[ip]
                <= global.max_inflight_auth_per_ip
        &&& self.waiters <= global.max_auth_queue_depth
    }

    /// How many attempts of an address are in flight.
    pub open spec fn inflight_of(self, ip: IpAddr) -> u32 {
        if self.inflight.contains_key(ip) {
            self.inflight[ip]
        } else {
            0
        }
    }

    /// One more attempt of an address is in flight.
    pub open spec fn register(self, ip: IpAddr) -> AuthModel {
        AuthModel {
            inflight: self.inflight.insert(ip, (self.inflight_of(ip) + 1) as u32),
            ..self
        }
    }

    /// One attempt of an address is over.
    pub open spec fn release(self, ip: IpAddr) -> AuthModel {
        if self.inflight_of(ip) <= 1 {
            AuthModel { inflight: self.inflight.remove(ip), ..self }
        } else {
            AuthModel {
                inflight: self.inflight.insert(ip, (self.inflight_of(ip) - 1) as u32),
                ..self
            }
        }
    }

    /// What a request for a slot comes to where it has to queue: it waits if there is room.
    pub open spec fn queue(self, global: GlobalConfig) -> (AuthModel, PermitKind) {
        if self.waiters < global.max_auth_queue_depth {
            (AuthModel { waiters: self.waiters + 1, ..self }, PermitKind::Wait)
        } else {
            (self, PermitKind::Refused)
        }
    }

    /// A request has stopped waiting.
    pub open spec fn unqueue(self) -> AuthModel {
        AuthModel {
            waiters: if self.waiters > 0 {
                (self.waiters - 1) as nat
            } else {
                0
            },
            ..self
        }
    }

    /// How a request for a slot begins: a client with a clean record tries the reserved slot,
    /// others queue.
    pub open spec fn request_permit(self, global: GlobalConfig, clean: bool) -> (
        AuthModel,
        PermitKind,
    ) {
        if clean {
            (self, PermitKind::TryReserved)
        } else {
            self.queue(global)
        }
    }

    /// How it goes on after the reserved slot was tried.
    pub open spec fn reserved_tried(self, global: GlobalConfig, taken: bool) -> (
        AuthModel,
        PermitKind,
    ) {
        if taken {
            (self, PermitKind::Granted)
        } else {
            self.queue(global)
        }
    }
}

/// What the server keeps between requests.
pub struct AuthLedger {
    failure_tracker: FailureTracker,
    /// Per-IP count of in-flight auth attempts; caps how many queue slots one source can hold.
    inflight_auth: IpMap<u32>,
    /// Number of requests currently waiting for a verification slot; bounds queue depth.
    auth_waiters: usize,
}

impl View for AuthLedger {
    type V = AuthModel;

    closed spec fn view(&self) -> AuthModel {
        AuthModel {
            tracker: self.failure_tracker@,
            inflight: self.inflight_auth@,
            waiters: self.auth_waiters as nat,
        }
    }
}

impl AuthLedger {
    /// Nothing is in flight and nobody waits.
    pub fn new(failure_tracker: FailureTracker) -> (auth: Self)
        ensures
            auth@ == (AuthModel {
                tracker: failure_tracker@,
                inflight: Map::empty(),
                waiters: 0,
            }),
    {
        AuthLedger { failure_tracker, inflight_auth: IpMap::new(), auth_waiters: 0 }
    }

    /// The time on the failure tracker's clock.
    pub fn now(&self) -> (now: u128)
        ensures
            now >= self@.tracker.latest,
    {
        self.failure_tracker.now()
    }

    /// Records an authentication that succeeded or failed at the time `now`.
    pub fn record_at(&mut self, ip: IpAddr, success: bool, now: u128)
        requires
            old(self)@.tracker.wf(),
        ensures
            final(self)@ == (AuthModel {
                tracker: old(self)@.tracker.record(ip, success, now),
                ..old(self)@
            }),
            final(self)@.tracker.wf(),
    {
        self.failure_tracker.record_at(ip, success, now);
    }

    /// Whether an IP is blocked at the time `now`.
    pub fn is_blocked_at(&self, ip: IpAddr, now: u128) -> (r: bool)
        ensures
            r == self@.tracker.is_blocked(ip, now),
    {
        self.failure_tracker.is_blocked_at(ip, now)
    }

    /// Whether, at the time `now`, the IP has any failure recorded within the current window.
    pub fn has_recent_failures_at(&self, ip: IpAddr, now: u128) -> (r: bool)
        ensures
            r == self@.tracker.has_recent_failures(ip, now),
    {
        self.failure_tracker.has_recent_failures_at(ip, now)
    }

    /// Starts the block of a blocked IP anew at the time `now`, or drops a block that was over.
    pub fn refresh_block_at(&mut self, ip: IpAddr, now: u128)
        requires
            old(self)@.tracker.wf(),
        ensures
            final(self)@ == (AuthModel {
                tracker: old(self)@.tracker.refresh_block(ip, now),
                ..old(self)@
            }),
            final(self)@.tracker.wf(),
    {
        self.failure_tracker.refresh_block_at(ip, now);
    }

    /// Drops the blocks and the failures whose time is over at the time `now`.
    pub fn prune_at(&mut self, now: u128)
        requires
            old(self)@.tracker.wf(),
        ensures
            final(self)@ == (AuthModel {
                tracker: old(self)@.tracker.prune(now),
                ..old(self)@
            }),
            final(self)@.tracker.wf(),
    {
        self.failure_tracker.prune_at(now);
    }

    /// How many attempts of an IP are in flight.
    pub fn inflight(&self, ip: IpAddr) -> (count: u32)
        ensures
            count == self@.inflight_of(ip),
    {
        match self.inflight_auth.get(ip) {
            Some(count) => count,
            None => 0,
        }
    }

    /// How many requests wait for a verification slot.
    pub fn waiters(&self) -> (count: usize)
        ensures
            count == self@.waiters,
    {
        self.auth_waiters
    }
}

/// An attempt in flight. It is to be released when the attempt is over, however it ends.
#[derive(Debug)]
pub struct InflightGuard {
    ip: IpAddr,
}

impl InflightGuard {
    /// Whose attempt it is.
    pub closed spec fn ip(&self) -> IpAddr {
        self.ip
    }
}

/// Registers an in-flight auth attempt for the IP, or returns `None` if the IP already holds too
/// many concurrent attempts.
pub fn register_inflight(global: &GlobalConfig, auth: &mut AuthLedger, ip: IpAddr) -> (guard:
    Option<InflightGuard>)
    ensures
        match guard {
            Some(g) => {
                &&& old(auth)@.inflight_of(ip) < global.max_inflight_auth_per_ip
                &&& g.ip() == ip
                &&& final(auth)@ == old(auth)@.register(ip)
            },
            None => {
                &&& old(auth)@.inflight_of(ip) >= global.max_inflight_auth_per_ip
                &&& final(auth)@ == old(auth)@
            },
        },
        old(auth)@.wf(*global) ==> final(auth)@.wf(*global),
{
    let count = auth.inflight(ip);
    if count >= global.max_inflight_auth_per_ip {
        return None;
    }
    auth.inflight_auth.insert(ip, count + 1);
    Some(InflightGuard { ip })
}

impl InflightGuard {
    /// The attempt is over.
    pub fn release(self, auth: &mut AuthLedger)
        ensures
            final(auth)@ == old(auth)@.release(self.ip()),
            forall|global: GlobalConfig| #[trigger]
                old(auth)@.wf(global) ==> final(auth)@.wf(global),
    {
        let ip = self.ip;
        let count = auth.inflight(ip);
        if count <= 1 {
            auth.inflight_auth.remove(ip);
        } else {
            auth.inflight_auth.insert(ip, count - 1);
        }
        proof {
            assert forall|global: GlobalConfig| #[trigger] old(auth)@.wf(global) implies auth@.wf(
                global,
            ) by {
                assert(old(auth)@.inflight.contains_key(ip) ==> old(auth)@.inflight[ip]
                    <= global.max_inflight_auth_per_ip);
            }
        }
    }
}

/// A place in the queue for a verification slot. It is to be given back when the wait is over,
/// however it ends.
#[derive(Debug)]
pub struct QueueTicket {
    timeout_ms: u64,
}

impl QueueTicket {
    /// How long to wait at most.
    pub closed spec fn timeout(&self) -> u64 {
        self.timeout_ms
    }

    /// How long (milliseconds) to wait at most.
    pub fn timeout_ms(&self) -> (ms: u64)
        ensures
            ms == self.timeout(),
    {
        self.timeout_ms
    }
}

/// What a request for a verification slot comes to.
#[derive(Debug)]
pub enum PermitStep {
    /// Try to take the reserved slot, without waiting.
    TryReserved,
    /// Wait for one of the general slots.
    Wait(QueueTicket),
    /// The request has its slot.
    Granted,
    /// The request gets none.
    Refused,
}

/// The variants of `PermitStep`.
pub enum PermitKind {
    TryReserved,
    Wait,
    Granted,
    Refused,
}

impl PermitStep {
    pub open spec fn kind(&self) -> PermitKind {
        match self {
            PermitStep::TryReserved => PermitKind::TryReserved,
            PermitStep::Wait(_) => PermitKind::Wait,
            PermitStep::Granted => PermitKind::Granted,
            PermitStep::Refused => PermitKind::Refused,
        }
    }
}

/// Joins the queue, unless it is full.
fn join_queue(global: &GlobalConfig, auth: &mut AuthLedger) -> (step: PermitStep)
    ensures
        (final(auth)@, step.kind()) == old(auth)@.queue(*global),
        step matches PermitStep::Wait(ticket) ==> ticket.timeout()
            == global.auth_acquire_timeout_ms,
        old(auth)@.wf(*global) ==> final(auth)@.wf(*global),
{
    if auth.auth_waiters >= global.max_auth_queue_depth {
        return PermitStep::Refused;
    }
    auth.auth_waiters = auth.auth_waiters + 1;
    PermitStep::Wait(QueueTicket { timeout_ms: global.auth_acquire_timeout_ms })
}

/// Begins to acquire a verification slot. Clean-history clients may grab the reserved slot and
/// bypass the general queue; others queue, unless the queue is full.
pub fn acquire_auth_permit(global: &GlobalConfig, auth: &mut AuthLedger, clean: bool) -> (step:
    PermitStep)
    ensures
        (final(auth)@, step.kind()) == old(auth)@.request_permit(*global, clean),
        step matches PermitStep::Wait(ticket) ==> ticket.timeout()
            == global.auth_acquire_timeout_ms,
        old(auth)@.wf(*global) ==> final(auth)@.wf(*global),
{
    if clean {
        PermitStep::TryReserved
    } else {
        join_queue(global, auth)
    }
}

/// Goes on after the reserved slot was tried: whoever did not get it queues.
pub fn reserved_tried(global: &GlobalConfig, auth: &mut AuthLedger, taken: bool) -> (step:
    PermitStep)
    ensures
        (final(auth)@, step.kind()) == old(auth)@.reserved_tried(*global, taken),
        step matches PermitStep::Wait(ticket) ==> ticket.timeout()
            == global.auth_acquire_timeout_ms,
        old(auth)@.wf(*global) ==> final(auth)@.wf(*global),
{
    if taken {
        PermitStep::Granted
    } else {
        join_queue(global, auth)
    }
}

impl QueueTicket {
    /// The wait is over: a slot was acquired, or none came in time.
    pub fn leave_queue(self, auth: &mut AuthLedger, acquired: bool) -> (step: PermitStep)
        ensures
            final(auth)@ == old(auth)@.unqueue(),
            step.kind() == if acquired {
                PermitKind::Granted
            } else {
                PermitKind::Refused
            },
            forall|global: GlobalConfig| #[trigger]
                old(auth)@.wf(global) ==> final(auth)@.wf(global),
    {
        auth.auth_waiters = auth.auth_waiters.saturating_sub(1);
        if acquired {
            PermitStep::Granted
        } else {
            PermitStep::Refused
        }
    }
}

} // verus!
