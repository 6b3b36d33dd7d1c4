//! Handling a request: who it comes from, whether it is authorized, and how it is refused.

use crate::admission::{
    acquire_auth_permit, register_inflight, AuthLedger, AuthModel, InflightGuard, PermitStep,
};
use crate::auth;
use crate::auth::{Keys, KeysError, WorkLog};
use crate::config::{Config, GlobalConfig, NamedRoute};
use crate::fail_cache;
use crate::headers;
use crate::headers::get;
use crate::ip::IpAddr;
use crate::net;
use crate::net::canonical_client_ip;
use crate::route_state::{NamedState, RouteState};
use crate::text;
use crate::text::{same_text, text_of_visible};
use crate::tracker::{FailureTracker, TrackerModel};
use axum::http::HeaderMap;
use std::time::Instant;
use vstd::prelude::*;

verus! {

/// What the server runs with, which no request changes.
pub struct Setup {
    pub global: GlobalConfig,
    pub routes: Vec<NamedState>,
    /// How many keys may be verified at once, beside those of the reserved slots.
    pub auth_permits: usize,
    /// Slots reserved for IPs with a clean recent failure history, so known-good clients make
    /// progress even when others saturate the general queue.
    pub auth_reserved_permits: usize,
    /// What is verified where there is no real hash.
    pub dummy_hash: String,
}

/// The server's state: what it runs with, and what it keeps between requests.
pub struct AppState {
    pub setup: Setup,
    pub auth: AuthLedger,
}

/// The keys file of a route is not accepted.
#[derive(Debug)]
pub struct StateError {
    pub route: String,
    pub source: KeysError,
}

/// How many slots are carved out for clean-history clients: one, when the pool is big enough.
pub open spec fn reserved_permits(size: usize) -> int {
    if size >= 2 {
        1
    } else {
        0
    }
}

/// Seconds in nanoseconds.
pub open spec fn secs(n: u64) -> int {
    n * 1_000_000_000
}

/// Seconds in nanoseconds.
pub fn secs_to_nanos(n: u64) -> (nanos: u128)
    ensures
        nanos == secs(n),
{
    n as u128 * 1_000_000_000
}

/// A route was set up from its configuration and the content of its keys file.
pub open spec fn is_loaded(
    named: NamedState,
    configured: NamedRoute,
    file: Result<String, String>,
    dummy_hash: Seq<char>,
) -> bool {
    &&& named.name == configured.name
    &&& named.state.config == configured.route
    &&& auth::keys_of_file(file) == Some(named.state.keys@)
    &&& named.state.keys.dummy_hash@ == dummy_hash
}

/// A server that has seen no request, with a clock that started at `origin`.
pub open spec fn fresh(global: GlobalConfig, origin: Instant) -> AuthModel {
    AuthModel {
        tracker: TrackerModel {
            fails: Seq::empty(),
            blocked: Map::empty(),
            capacity: global.failure_max_entries as nat,
            max_fails: global.failure_threshold,
            window: secs(global.failure_window_secs) as u128,
            block_duration: secs(global.block_duration_secs) as u128,
            latest: 0,
            origin,
        },
        inflight: Map::empty(),
        waiters: 0,
    }
}

impl AppState {
    /// Sets the server up from its configuration and what reading the keys file of each route
    /// gave, in the order of the routes. The error is that of the first route whose keys file is
    /// not accepted.
    pub fn from_config(
        config: Config,
        key_files: &[Result<String, String>],
        dummy_hash: String,
    ) -> (state: Result<AppState, StateError>)
        requires
            key_files@.len() == config.routes@.len(),
            fail_cache::capacity_fits(config.global.failure_max_entries),
        ensures
            match state {
                Ok(s) => {
                    &&& s.setup.global == config.global
                    &&& s.setup.routes@.len() == config.routes@.len()
                    &&& forall|i: int|
                        0 <= i < config.routes@.len() ==> is_loaded(
                            #[trigger] s.setup.routes@[i],
                            config.routes@[i],
                            key_files@[i],
                            dummy_hash@,
                        )
                    &&& s.setup.auth_reserved_permits == reserved_permits(
                        config.global.auth_semaphore_size,
                    )
                    &&& s.setup.auth_permits == config.global.auth_semaphore_size
                        - s.setup.auth_reserved_permits
                    &&& s.setup.dummy_hash@ == dummy_hash@
                    &&& s.auth@ == fresh(config.global, s.auth@.tracker.origin)
                    &&& s.auth@.wf(config.global)
                },
                Err(e) => exists|i: int|
                    {
                        &&& 0 <= i < config.routes@.len()
                        &&& forall|j: int|
                            0 <= j < i ==> auth::keys_of_file(#[trigger] key_files@[j]) is Some
                        &&& auth::keys_of_file(#[trigger] key_files@[i]) is None
                        &&& e.route@ == config.routes@[i].name@
                        &&& auth::reports_file(
                            e.source,
                            config.routes@[i].route.keys@,
                            key_files@[i],
                        )
                    },
            },
    {
        let mut routes: Vec<NamedState> = Vec::new();
        let ghost configured = config.routes@;
        let global = config.global;
        for named in it: config.routes.into_iter()
            invariant
                it.seq() == configured,
                key_files@.len() == configured.len(),
                routes@.len() == it.index(),
                forall|j: int|
                    0 <= j < routes@.len() ==> is_loaded(
                        #[trigger] routes@[j],
                        configured[j],
                        key_files@[j],
                        dummy_hash@,
                    ),
        {
            let i = routes.len();
            let file = &key_files[i];
            match Keys::from_file(
                named.route.keys.as_str(),
                file,
                dummy_hash.as_str().to_string(),
            ) {
                Ok(keys) => {
                    routes.push(
                        NamedState {
                            name: named.name,
                            state: RouteState { config: named.route, keys },
                        },
                    );
                },
                Err(source) => {
                    assert forall|j: int| 0 <= j < i implies auth::keys_of_file(
                        #[trigger] key_files@[j],
                    ) is Some by {
                        assert(is_loaded(routes@[j], configured[j], key_files@[j], dummy_hash@));
                    }
                    return Err(StateError { route: named.name, source });
                },
            }
        }
        let reserved: usize = if global.auth_semaphore_size >= 2 {
            1
        } else {
            0
        };
        let auth = AuthLedger::new(
            FailureTracker::new(
                global.failure_threshold,
                secs_to_nanos(global.failure_window_secs),
                secs_to_nanos(global.block_duration_secs),
                global.failure_max_entries,
            ),
        );
        let auth_permits = global.auth_semaphore_size - reserved;
        Ok(
            AppState {
                setup: Setup {
                    global,
                    routes,
                    auth_permits,
                    auth_reserved_permits: reserved,
                    dummy_hash,
                },
                auth,
            },
        )
    }
}

/// The answer to a request that is not carried out.
#[derive(Debug)]
pub struct Reply {
    /// The HTTP status code.
    pub status: u16,
    pub body: String,
}

/// How a request is refused: what is done before the answer goes out, and the answer.
#[derive(Debug)]
pub struct Refusal {
    /// First do the work of verifying a key, so that the refusal costs as much as a wrong key.
    pub dummy_work: bool,
    /// Then wait this long (milliseconds), where a time is given.
    pub tarpit_ms: Option<u64>,
    pub reply: Reply,
}

/// The reasons for which a request is refused.
#[derive(Clone, Copy, Debug)]
pub enum Reason {
    Blocked,
    UnknownRoute,
    MissingKey,
    TooManyInFlight,
    NoSlot,
    WrongKey,
}

/// The status code of a refusal.
pub open spec fn refusal_status(reason: Reason) -> u16 {
    match reason {
        Reason::Blocked => 429,
        Reason::UnknownRoute => 404,
        Reason::MissingKey => 401,
        Reason::TooManyInFlight => 429,
        Reason::NoSlot => 503,
        Reason::WrongKey => 401,
    }
}

/// The body of a refusal.
pub open spec fn refusal_body(reason: Reason) -> Seq<char> {
    match reason {
        Reason::Blocked => "Too many failed attempts"@,
        Reason::UnknownRoute => "Unknown route"@,
        Reason::MissingKey => "Unauthorized"@,
        Reason::TooManyInFlight => "Too many concurrent requests"@,
        Reason::NoSlot => "Server busy"@,
        Reason::WrongKey => "Unauthorized"@,
    }
}

/// Failed attempts, requests from blocked addresses and requests beyond an address's limit are
/// delayed.
pub open spec fn is_tarpitted(reason: Reason) -> bool {
    match reason {
        Reason::Blocked | Reason::MissingKey | Reason::TooManyInFlight | Reason::WrongKey => true,
        Reason::UnknownRoute | Reason::NoSlot => false,
    }
}

impl Refusal {
    /// The refusal is the one that a reason calls for.
    pub open spec fn is_for(&self, reason: Reason, global: GlobalConfig) -> bool {
        &&& self.reply.status == refusal_status(reason)
        &&& self.reply.body@ == refusal_body(reason)
        &&& self.tarpit_ms == if is_tarpitted(reason) {
            Some(global.tarpit_duration_ms)
        } else {
            None
        }
        &&& self.dummy_work == (reason is MissingKey)
    }
}

/// The refusal that a reason calls for.
fn refuse(global: &GlobalConfig, reason: Reason) -> (refusal: Refusal)
    ensures
        refusal.is_for(reason, *global),
{
    let (status, body) = match reason {
        Reason::Blocked => (429u16, "Too many failed attempts"),
        Reason::UnknownRoute => (404u16, "Unknown route"),
        Reason::MissingKey => (401u16, "Unauthorized"),
        Reason::TooManyInFlight => (429u16, "Too many concurrent requests"),
        Reason::NoSlot => (503u16, "Server busy"),
        Reason::WrongKey => (401u16, "Unauthorized"),
    };
    let tarpit_ms = match reason {
        Reason::Blocked | Reason::MissingKey | Reason::TooManyInFlight | Reason::WrongKey => Some(
            global.tarpit_duration_ms,
        ),
        Reason::UnknownRoute | Reason::NoSlot => None,
    };
    let dummy_work = match reason {
        Reason::MissingKey => true,
        _ => false,
    };
    Refusal { dummy_work, tarpit_ms, reply: Reply { status, body: body.to_string() } }
}

/// `i` is where the route of this name stands.
pub open spec fn is_route(routes: Seq<NamedState>, name: Seq<char>, i: int) -> bool {
    0 <= i < routes.len() && routes[i].name@ == name && forall|j: int|
        0 <= j < i ==> (#[trigger] routes[j]).name@ != name
}

/// There is a route of this name.
pub open spec fn has_route(routes: Seq<NamedState>, name: Seq<char>) -> bool {
    exists|i: int| is_route(routes, name, i)
}

/// The key that a request presents: the first value of the auth header, which must be visible
/// ASCII.
pub open spec fn presented_key(headers: HeaderMap, header: Seq<char>) -> Option<Seq<char>> {
    let values = headers::header_values(headers, header);
    if values.len() > 0 {
        text::visible_text(values[0])
    } else {
        None
    }
}

/// The reason for which a request is refused before the key that it presents is verified; `None`
/// where the key is to be verified.
pub open spec fn early_refusal(
    setup: Setup,
    auth: AuthModel,
    route_name: Seq<char>,
    presented: Option<Seq<char>>,
    ip: IpAddr,
    now: u128,
) -> Option<Reason> {
    if auth.tracker.is_blocked(ip, now) {
        Some(Reason::Blocked)
    } else if !has_route(setup.routes@, route_name) {
        Some(Reason::UnknownRoute)
    } else if presented is None {
        Some(Reason::MissingKey)
    } else if auth.inflight_of(ip) >= setup.global.max_inflight_auth_per_ip {
        Some(Reason::TooManyInFlight)
    } else {
        None
    }
}

/// What a refusal makes of the state.
pub open spec fn after_refusal(
    auth: AuthModel,
    reason: Reason,
    ip: IpAddr,
    now: u128,
) -> AuthModel {
    match reason {
        Reason::Blocked => AuthModel { tracker: auth.tracker.refresh_block(ip, now), ..auth },
        Reason::MissingKey | Reason::WrongKey => AuthModel {
            tracker: auth.tracker.record(ip, false, now),
            ..auth
        },
        Reason::UnknownRoute | Reason::TooManyInFlight | Reason::NoSlot => auth,
    }
}

/// Records an auth failure.
fn auth_failure(
    setup: &Setup,
    auth: &mut AuthLedger,
    ip: IpAddr,
    reason: Reason,
    now: u128,
) -> (refusal: Refusal)
    requires
        reason is MissingKey || reason is WrongKey,
        old(auth)@.wf(setup.global),
    ensures
        refusal.is_for(reason, setup.global),
        final(auth)@ == after_refusal(old(auth)@, reason, ip, now),
        final(auth)@.wf(setup.global),
{
    auth.record_at(ip, false, now);
    assert(auth@.inflight == old(auth)@.inflight);
    refuse(&setup.global, reason)
}

/// Checks if an IP is blocked by the failure tracker. If it is, its block starts anew.
pub fn check_blocked(setup: &Setup, auth: &mut AuthLedger, ip: IpAddr, now: u128) -> (r: Result<
    (),
    Refusal,
>)
    requires
        old(auth)@.wf(setup.global),
    ensures
        match r {
            Ok(()) => !old(auth)@.tracker.is_blocked(ip, now) && final(auth)@ == old(auth)@,
            Err(refusal) => {
                &&& old(auth)@.tracker.is_blocked(ip, now)
                &&& refusal.is_for(Reason::Blocked, setup.global)
                &&& final(auth)@ == after_refusal(old(auth)@, Reason::Blocked, ip, now)
            },
        },
        final(auth)@.wf(setup.global),
{
    if !auth.is_blocked_at(ip, now) {
        return Ok(());
    }
    auth.refresh_block_at(ip, now);
    assert(auth@.inflight == old(auth)@.inflight);
    Err(refuse(&setup.global, Reason::Blocked))
}

/// Looks up a route by name, or refuses the request for an unknown one.
pub fn lookup_route(setup: &Setup, route_name: &str) -> (r: Result<usize, Refusal>)
    ensures
        match r {
            Ok(i) => is_route(setup.routes@, route_name@, i as int),
            Err(refusal) => !has_route(setup.routes@, route_name@) && refusal.is_for(
                Reason::UnknownRoute,
                setup.global,
            ),
        },
{
    for i in 0..setup.routes.len()
        invariant
            forall|j: int| 0 <= j < i ==> (#[trigger] setup.routes@[j]).name@ != route_name@,
    {
        if same_text(setup.routes[i].name.as_str(), route_name) {
            return Ok(i);
        }
    }
    Err(refuse(&setup.global, Reason::UnknownRoute))
}

/// Extracts the auth key from the request headers.
pub fn extract_auth_key(setup: &Setup, headers: &HeaderMap) -> (key: Option<String>)
    ensures
        match key {
            Some(k) => presented_key(*headers, setup.global.auth_header@) == Some(k@),
            None => presented_key(*headers, setup.global.auth_header@) is None,
        },
{
    match get(headers, setup.global.auth_header.as_str()) {
        Some(bytes) => text_of_visible(bytes),
        None => None,
    }
}

/// Registers the attempt for the IP, or refuses the request where the IP has too many in flight.
pub fn check_inflight(setup: &Setup, auth: &mut AuthLedger, ip: IpAddr) -> (r: Result<
    InflightGuard,
    Refusal,
>)
    requires
        old(auth)@.wf(setup.global),
    ensures
        match r {
            Ok(guard) => {
                &&& old(auth)@.inflight_of(ip) < setup.global.max_inflight_auth_per_ip
                &&& guard.ip() == ip
                &&& final(auth)@ == old(auth)@.register(ip)
            },
            Err(refusal) => {
                &&& old(auth)@.inflight_of(ip) >= setup.global.max_inflight_auth_per_ip
                &&& refusal.is_for(Reason::TooManyInFlight, setup.global)
                &&& final(auth)@ == old(auth)@
            },
        },
        final(auth)@.wf(setup.global),
{
    match register_inflight(&setup.global, auth, ip) {
        Some(guard) => Ok(guard),
        None => Err(refuse(&setup.global, Reason::TooManyInFlight)),
    }
}

/// A request whose key is to be verified, once it has a slot.
#[derive(Debug)]
pub struct PendingAuth {
    ip: IpAddr,
    route: usize,
    key: String,
    clean: bool,
}

impl PendingAuth {
    /// Which client the request comes from.
    pub closed spec fn ip(&self) -> IpAddr {
        self.ip
    }

    /// Where its route stands among the routes.
    pub closed spec fn route(&self) -> usize {
        self.route
    }

    /// The key that it presents.
    pub closed spec fn key(&self) -> Seq<char> {
        self.key@
    }

    /// Whether its client has a clean record.
    pub closed spec fn clean(&self) -> bool {
        self.clean
    }

    /// This is what a request comes to whose key is to be verified.
    pub open spec fn is_for(
        &self,
        setup: Setup,
        auth: AuthModel,
        route_name: Seq<char>,
        presented: Option<Seq<char>>,
        ip: IpAddr,
        now: u128,
    ) -> bool {
        &&& self.ip() == ip
        &&& is_route(setup.routes@, route_name, self.route() as int)
        &&& presented == Some(self.key())
        &&& self.clean() == !auth.tracker.has_recent_failures(ip, now)
    }
}

/// The text of a key, where there is one.
pub open spec fn key_text(key: Option<String>) -> Option<Seq<char>> {
    match key {
        Some(key) => Some(key@),
        None => None,
    }
}

/// Begins to authenticate a request that presents this key: checks the failure tracker, that the
/// route exists, that a key is presented and how many attempts of the client are in flight, in
/// this order.
pub fn authenticate_key(
    setup: &Setup,
    auth: &mut AuthLedger,
    route_name: &str,
    key: Option<String>,
    ip: IpAddr,
    now: u128,
) -> (r: Result<(PendingAuth, InflightGuard), Refusal>)
    requires
        old(auth)@.wf(setup.global),
    ensures
        match early_refusal(*setup, old(auth)@, route_name@, key_text(key), ip, now) {
            Some(reason) => {
                &&& r matches Err(refusal)
                &&& refusal.is_for(reason, setup.global)
                &&& final(auth)@ == after_refusal(old(auth)@, reason, ip, now)
            },
            None => {
                &&& r matches Ok((pending, guard))
                &&& pending.is_for(*setup, old(auth)@, route_name@, key_text(key), ip, now)
                &&& guard.ip() == ip
                &&& final(auth)@ == old(auth)@.register(ip)
            },
        },
        final(auth)@.wf(setup.global),
{
    if let Err(refusal) = check_blocked(setup, auth, ip, now) {
        return Err(refusal);
    }
    let route = match lookup_route(setup, route_name) {
        Ok(route) => route,
        Err(refusal) => {
            return Err(refusal);
        },
    };
    let key = match key {
        Some(key) => key,
        None => {
            return Err(auth_failure(setup, auth, ip, Reason::MissingKey, now));
        },
    };
    let guard = match check_inflight(setup, auth, ip) {
        Ok(guard) => guard,
        Err(refusal) => {
            return Err(refusal);
        },
    };
    let clean = !auth.has_recent_failures_at(ip, now);
    Ok((PendingAuth { ip, route, key, clean }, guard))
}

/// Begins to authenticate a request with these headers.
pub fn authenticate(
    setup: &Setup,
    auth: &mut AuthLedger,
    route_name: &str,
    headers: &HeaderMap,
    ip: IpAddr,
    now: u128,
) -> (r: Result<(PendingAuth, InflightGuard), Refusal>)
    requires
        old(auth)@.wf(setup.global),
    ensures
        ({
            let presented = presented_key(*headers, setup.global.auth_header@);
            match early_refusal(*setup, old(auth)@, route_name@, presented, ip, now) {
                Some(reason) => {
                    &&& r matches Err(refusal)
                    &&& refusal.is_for(reason, setup.global)
                    &&& final(auth)@ == after_refusal(old(auth)@, reason, ip, now)
                },
                None => {
                    &&& r matches Ok((pending, guard))
                    &&& pending.is_for(*setup, old(auth)@, route_name@, presented, ip, now)
                    &&& guard.ip() == ip
                    &&& final(auth)@ == old(auth)@.register(ip)
                },
            }
        }),
        final(auth)@.wf(setup.global),
{
    let key = extract_auth_key(setup, headers);
    authenticate_key(setup, auth, route_name, key, ip, now)
}

/// A request whose key is being verified.
#[derive(Debug)]
pub struct VerifyTask {
    ip: IpAddr,
    route: usize,
    key: String,
}

impl PendingAuth {
    /// Begins to acquire a verification slot: only a client with a clean record may try the
    /// reserved one.
    pub fn acquire_permit(&self, setup: &Setup, auth: &mut AuthLedger) -> (step: PermitStep)
        ensures
            (final(auth)@, step.kind()) == old(auth)@.request_permit(setup.global, self.clean()),
            step matches PermitStep::Wait(ticket) ==> ticket.timeout()
                == setup.global.auth_acquire_timeout_ms,
            old(auth)@.wf(setup.global) ==> final(auth)@.wf(setup.global),
    {
        acquire_auth_permit(&setup.global, auth, self.clean)
    }

    /// Goes on once it is known whether there is a slot: without one the request is refused.
    pub fn permit(self, setup: &Setup, granted: bool) -> (r: Result<VerifyTask, Refusal>)
        ensures
            match r {
                Ok(task) => {
                    &&& granted
                    &&& task.ip() == self.ip()
                    &&& task.route() == self.route()
                    &&& task.key() == self.key()
                },
                Err(refusal) => !granted && refusal.is_for(Reason::NoSlot, setup.global),
            },
    {
        if granted {
            Ok(VerifyTask { ip: self.ip, route: self.route, key: self.key })
        } else {
            Err(refuse(&setup.global, Reason::NoSlot))
        }
    }
}

impl VerifyTask {
    /// Which client the request comes from.
    pub closed spec fn ip(&self) -> IpAddr {
        self.ip
    }

    /// Where its route stands among the routes.
    pub closed spec fn route(&self) -> usize {
        self.route
    }

    /// The key that it presents.
    pub closed spec fn key(&self) -> Seq<char> {
        self.key@
    }

    /// Verifies the key against the keys of the route. This takes its time. The verifications that
    /// are made go into the log.
    pub fn verify_key(&self, setup: &Setup, work: &mut WorkLog) -> (accepted: bool)
        requires
            self.route() < setup.routes@.len(),
        ensures
            accepted == auth::key_accepted(
                setup.routes@[self.route() as int].state.keys@,
                self.key(),
            ),
            final(work)@ == old(work)@ + auth::work_for(
                setup.routes@[self.route() as int].state.keys@,
                setup.routes@[self.route() as int].state.keys.dummy_hash@,
                self.key(),
            ),
    {
        setup.routes[self.route].state.keys.verify(self.key.as_str(), work)
    }

    /// Ends the authentication: records success or failure. A verification that did not come to
    /// an end counts as one that failed.
    pub fn finish(
        &self,
        setup: &Setup,
        auth: &mut AuthLedger,
        accepted: Option<bool>,
        now: u128,
    ) -> (r: Result<usize, Refusal>)
        requires
            old(auth)@.wf(setup.global),
        ensures
            match r {
                Ok(route) => {
                    &&& accepted == Some(true)
                    &&& route == self.route()
                    &&& final(auth)@ == (AuthModel {
                        tracker: old(auth)@.tracker.record(self.ip(), true, now),
                        ..old(auth)@
                    })
                },
                Err(refusal) => {
                    &&& accepted != Some(true)
                    &&& refusal.is_for(Reason::WrongKey, setup.global)
                    &&& final(auth)@ == after_refusal(
                        old(auth)@,
                        Reason::WrongKey,
                        self.ip(),
                        now,
                    )
                },
            },
            final(auth)@.wf(setup.global),
    {
        let verified = match accepted {
            Some(accepted) => accepted,
            None => false,
        };
        if !verified {
            return Err(auth_failure(setup, auth, self.ip, Reason::WrongKey, now));
        }
        auth.record_at(self.ip, true, now);
        Ok(self.route)
    }
}

/// The status of the health check endpoint.
pub fn health() -> (status: u16)
    ensures
        status == 200,
{
    200
}

/// Begins to handle a request: finds out which client it comes from, and begins to authenticate
/// it. The client's address is returned beside the outcome.
pub fn handle_route(
    setup: &Setup,
    auth: &mut AuthLedger,
    route_name: &str,
    headers: &HeaderMap,
    peer_ip: IpAddr,
    now: u128,
) -> (r: (IpAddr, Result<(PendingAuth, InflightGuard), Refusal>))
    requires
        old(auth)@.wf(setup.global),
    ensures
        r.0 == net::normalized(net::client_of(peer_ip, *headers, setup.global.trusted_proxies@)),
        ({
            let presented = presented_key(*headers, setup.global.auth_header@);
            match early_refusal(*setup, old(auth)@, route_name@, presented, r.0, now) {
                Some(reason) => {
                    &&& r.1 matches Err(refusal)
                    &&& refusal.is_for(reason, setup.global)
                    &&& final(auth)@ == after_refusal(old(auth)@, reason, r.0, now)
                },
                None => {
                    &&& r.1 matches Ok((pending, guard))
                    &&& pending.is_for(*setup, old(auth)@, route_name@, presented, r.0, now)
                    &&& guard.ip() == r.0
                    &&& final(auth)@ == old(auth)@.register(r.0)
                },
            }
        }),
        final(auth)@.wf(setup.global),
{
    let ip = canonical_client_ip(peer_ip, headers, setup.global.trusted_proxies.as_slice());
    (ip, authenticate(setup, auth, route_name, headers, ip, now))
}

} // verus!
