//! What holds of authentication as a whole.

use crate::admission::{AuthModel, PermitKind};
use crate::auth;
use crate::config::{Config, GlobalConfig, NamedRoute};
use crate::handler;
use crate::handler::{PendingAuth, Reason, Refusal, Setup, VerifyTask};
use crate::headers;
use crate::ip::IpAddr;
use crate::ip_map;
use crate::net;
use crate::route_state::NamedState;
use crate::text_laws;
use crate::tracker_laws;
use axum::http::HeaderMap;
use std::time::Instant;
use vstd::multiset::Multiset;
use vstd::prelude::*;

verus! {

/// The counts are those of the attempts that are open.
pub open spec fn counts_attempts(auth: AuthModel, open_attempts: Multiset<IpAddr>) -> bool {
    forall|ip: IpAddr|
        auth.inflight_of(ip) == #[trigger] open_attempts.count(ip) && (auth.inflight.contains_key(
            ip,
        ) ==> auth.inflight[ip] > 0)
}

/// The in-flight counts keep count of the open attempts: registering an attempt opens one,
/// releasing it closes one, in whatever order attempts come and go.
pub proof fn law_inflight_counts_open_attempts(
    auth: AuthModel,
    open_attempts: Multiset<IpAddr>,
    ip: IpAddr,
)
    requires
        counts_attempts(auth, open_attempts),
    ensures
        auth.inflight_of(ip) < u32::MAX ==> counts_attempts(
            auth.register(ip),
            open_attempts.insert(ip),
        ),
        open_attempts.contains(ip) ==> counts_attempts(auth.release(ip), open_attempts.remove(ip)),
{
    assert(auth.inflight_of(ip) == open_attempts.count(ip));
    if auth.inflight_of(ip) < u32::MAX {
        assert forall|other: IpAddr|
            auth.register(ip).inflight_of(other) == #[trigger] open_attempts.insert(ip).count(other)
                && (auth.register(ip).inflight.contains_key(other) ==> auth.register(
                ip,
            ).inflight[other] > 0) by {
            assert(auth.inflight_of(other) == open_attempts.count(other));
        }
    }
    if open_attempts.contains(ip) {
        assert forall|other: IpAddr|
            auth.release(ip).inflight_of(other) == #[trigger] open_attempts.remove(ip).count(other)
                && (auth.release(ip).inflight.contains_key(other) ==> auth.release(
                ip,
            ).inflight[other] > 0) by {
            assert(auth.inflight_of(other) == open_attempts.count(other));
        }
    }
}

/// No address has more attempts open at once than it may.
pub proof fn law_open_attempts_are_capped(
    global: GlobalConfig,
    auth: AuthModel,
    open_attempts: Multiset<IpAddr>,
    ip: IpAddr,
)
    requires
        auth.wf(global),
        counts_attempts(auth, open_attempts),
    ensures
        open_attempts.count(ip) <= global.max_inflight_auth_per_ip,
{
    assert(auth.inflight_of(ip) == open_attempts.count(ip));
}

/// Releasing an attempt undoes registering it.
pub proof fn law_release_undoes_register(global: GlobalConfig, auth: AuthModel, ip: IpAddr)
    requires
        auth.wf(global),
        auth.inflight_of(ip) < global.max_inflight_auth_per_ip,
    ensures
        auth.register(ip).release(ip) == auth,
{
    assert(auth.inflight.contains_key(ip) ==> 1 <= auth.inflight[ip]);
    assert(auth.register(ip).release(ip).inflight =~= auth.inflight);
}

/// The attempts of one address take no room from another.
pub proof fn law_inflight_is_per_address(auth: AuthModel, ip: IpAddr, other: IpAddr)
    requires
        ip != other,
    ensures
        auth.register(ip).inflight_of(other) == auth.inflight_of(other),
        auth.release(ip).inflight_of(other) == auth.inflight_of(other),
{
}

/// Leaving the queue undoes joining it.
pub proof fn law_unqueue_undoes_queue(global: GlobalConfig, auth: AuthModel)
    requires
        auth.queue(global).1 is Wait,
    ensures
        auth.queue(global).0.unqueue() == auth,
{
}

/// The count of waiters is the number of open tickets: a step that queues a request opens one, any
/// other step opens none, and leaving the queue closes one.
pub proof fn law_waiters_count_open_tickets(
    global: GlobalConfig,
    auth: AuthModel,
    open_tickets: nat,
    clean: bool,
    taken: bool,
)
    requires
        auth.waiters == open_tickets,
    ensures
        ({
            let (after, kind) = auth.request_permit(global, clean);
            after.waiters == open_tickets + if kind is Wait {
                1int
            } else {
                0
            }
        }),
        ({
            let (after, kind) = auth.reserved_tried(global, taken);
            after.waiters == open_tickets + if kind is Wait {
                1int
            } else {
                0
            }
        }),
        open_tickets > 0 ==> auth.unqueue().waiters == open_tickets - 1,
{
}

/// What else happens does not open or close a ticket.
pub proof fn law_only_the_queue_changes_the_waiters(
    auth: AuthModel,
    reason: Reason,
    ip: IpAddr,
    now: u128,
)
    ensures
        auth.register(ip).waiters == auth.waiters,
        auth.release(ip).waiters == auth.waiters,
        handler::after_refusal(auth, reason, ip, now).waiters == auth.waiters,
{
}

/// No more tickets are open than the queue is deep.
pub proof fn law_open_tickets_are_capped(
    global: GlobalConfig,
    auth: AuthModel,
    open_tickets: nat,
)
    requires
        auth.wf(global),
        auth.waiters == open_tickets,
    ensures
        open_tickets <= global.max_auth_queue_depth,
{
}

/// However long the queue is, a client with a clean record that finds the reserved slot free gets
/// it and does not queue; a client without never gets to try it, and is turned away exactly where
/// the queue is full.
pub proof fn law_reserved_slot_is_for_clean_clients(global: GlobalConfig, auth: AuthModel)
    ensures
        auth.request_permit(global, true) == (auth, PermitKind::TryReserved),
        auth.reserved_tried(global, true) == (auth, PermitKind::Granted),
        auth.reserved_tried(global, false) == auth.request_permit(global, false),
        auth.request_permit(global, false).1 is Wait || auth.request_permit(
            global,
            false,
        ).1 is Refused,
        auth.request_permit(global, false).1 is Refused <==> auth.waiters
            >= global.max_auth_queue_depth,
{
}

/// Reserving a slot takes it from the pool and leaves at least one for everybody.
pub proof fn law_slots_add_up(size: usize)
    requires
        size > 0,
    ensures
        0 <= handler::reserved_permits(size) <= 1,
        size - handler::reserved_permits(size) >= 1,
        handler::reserved_permits(size) == 1 <==> size > 1,
{
}

/// The key that a request presents opens the route that it names.
pub open spec fn key_opens(
    setup: Setup,
    route_name: Seq<char>,
    presented: Option<Seq<char>>,
) -> bool {
    exists|i: int|
        #![trigger setup.routes@[i]]
        {
            &&& handler::is_route(setup.routes@, route_name, i)
            &&& presented matches Some(key)
            &&& auth::key_accepted(setup.routes@[i].state.keys@, key)
        }
}

/// What is verified of a request is whether the key that it presents is accepted by the keys of
/// the route that it names, and of no other route; and that route is the one that it may trigger.
pub proof fn law_key_is_verified_for_its_route(
    setup: Setup,
    auth: AuthModel,
    route_name: Seq<char>,
    presented: Option<Seq<char>>,
    ip: IpAddr,
    now: u128,
    pending: PendingAuth,
    task: VerifyTask,
)
    requires
        pending.is_for(setup, auth, route_name, presented, ip, now),
        task.ip() == pending.ip(),
        task.route() == pending.route(),
        task.key() == pending.key(),
    ensures
        handler::is_route(setup.routes@, route_name, task.route() as int),
        auth::key_accepted(setup.routes@[task.route() as int].state.keys@, task.key())
            <==> key_opens(setup, route_name, presented),
{
    let at = task.route() as int;
    if key_opens(setup, route_name, presented) {
        let i = choose|i: int|
            #![trigger setup.routes@[i]]
            {
                &&& handler::is_route(setup.routes@, route_name, i)
                &&& presented matches Some(key)
                &&& auth::key_accepted(setup.routes@[i].state.keys@, key)
            };
        assert(setup.routes@[i].name@ == route_name && setup.routes@[at].name@ == route_name);
        assert(i == at);
    }
}

/// A request from a blocked client is refused as such, whatever route it names and whatever key
/// it presents, and its block starts anew: the client stays out for the whole block duration.
pub proof fn law_blocked_client_is_kept_out(
    setup: Setup,
    auth: AuthModel,
    route_name: Seq<char>,
    presented: Option<Seq<char>>,
    ip: IpAddr,
    now: u128,
    later_route: Seq<char>,
    later_presented: Option<Seq<char>>,
    later: u128,
)
    requires
        auth.tracker.is_blocked(ip, now),
        ip_map::elapsed(now, later) <= auth.tracker.block_duration,
    ensures
        handler::early_refusal(setup, auth, route_name, presented, ip, now) == Some(
            Reason::Blocked,
        ),
        handler::early_refusal(
            setup,
            handler::after_refusal(auth, Reason::Blocked, ip, now),
            later_route,
            later_presented,
            ip,
            later,
        ) == Some(Reason::Blocked),
{
    tracker_laws::law_refresh_extends_block(auth.tracker, ip, now, later);
}

/// The state after refused attempts of one client, for a missing or a wrong key, at the given
/// times.
pub open spec fn after_failed_attempts(
    auth: AuthModel,
    ip: IpAddr,
    attempts: Seq<(Reason, u128)>,
) -> AuthModel
    decreases attempts.len(),
{
    if attempts.len() == 0 {
        auth
    } else {
        let (reason, now) = attempts.last();
        handler::after_refusal(
            after_failed_attempts(auth, ip, attempts.drop_last()),
            reason,
            ip,
            now,
        )
    }
}

proof fn lemma_failed_attempts_record(auth: AuthModel, ip: IpAddr, attempts: Seq<(Reason, u128)>)
    requires
        forall|i: int|
            0 <= i < attempts.len() ==> (#[trigger] attempts[i]).0 is MissingKey
                || attempts[i].0 is WrongKey,
    ensures
        after_failed_attempts(auth, ip, attempts).tracker == tracker_laws::after_failures(
            auth.tracker,
            ip,
            attempts.map_values(|attempt: (Reason, u128)| attempt.1),
        ),
    decreases attempts.len(),
{
    let times = attempts.map_values(|attempt: (Reason, u128)| attempt.1);
    if attempts.len() > 0 {
        let front = attempts.drop_last();
        assert(attempts[attempts.len() - 1].0 is MissingKey || attempts[attempts.len()
            - 1].0 is WrongKey);
        assert forall|i: int| 0 <= i < front.len() implies (#[trigger] front[i]).0 is MissingKey
            || front[i].0 is WrongKey by {
            assert(front[i] == attempts[i]);
        }
        lemma_failed_attempts_record(auth, ip, front);
        assert(front.map_values(|attempt: (Reason, u128)| attempt.1) =~= times.drop_last());
    }
}

/// A client that is not blocked and has no failures, and that presents a missing or a wrong
/// key as often as the threshold says, all within the failure window, is refused as blocked from
/// then on, for the block duration, whatever route it names and whatever key it presents.
pub proof fn law_failed_attempts_block(
    setup: Setup,
    auth: AuthModel,
    ip: IpAddr,
    attempts: Seq<(Reason, u128)>,
    route_name: Seq<char>,
    presented: Option<Seq<char>>,
    later: u128,
)
    requires
        auth.tracker.wf(),
        auth.tracker.failures_of(net::normalized(ip)) is None,
        attempts.len() > 0,
        !auth.tracker.is_blocked(ip, attempts[0].1),
        attempts.len() == auth.tracker.max_fails,
        forall|i: int|
            0 <= i < attempts.len() ==> ((#[trigger] attempts[i]).0 is MissingKey
                || attempts[i].0 is WrongKey) && ip_map::elapsed(attempts[0].1, attempts[i].1)
                <= auth.tracker.window,
        ip_map::elapsed(attempts.last().1, later) <= auth.tracker.block_duration,
    ensures
        handler::early_refusal(
            setup,
            after_failed_attempts(auth, ip, attempts),
            route_name,
            presented,
            ip,
            later,
        ) == Some(Reason::Blocked),
{
    let times = attempts.map_values(|attempt: (Reason, u128)| attempt.1);
    lemma_failed_attempts_record(auth, ip, attempts);
    assert forall|i: int| 0 <= i < times.len() implies ip_map::elapsed(
        times[0],
        #[trigger] times[i],
    ) <= auth.tracker.window by {
        assert(times[i] == attempts[i].1 && times[0] == attempts[0].1);
    }
    tracker_laws::law_threshold_blocks(auth.tracker, ip, times);
    assert(tracker_laws::after_failures(auth.tracker, ip, times).is_blocked(ip, later));
}

/// Only a missing or a wrong key counts as a failure: a request that is refused for another
/// reason leaves the record of every client who is not blocked as it was.
pub proof fn law_only_keys_count_as_failures(
    auth: AuthModel,
    reason: Reason,
    ip: IpAddr,
    now: u128,
    other: IpAddr,
)
    requires
        !(reason is MissingKey) && !(reason is WrongKey),
    ensures
        handler::after_refusal(auth, reason, ip, now).tracker.fails == auth.tracker.fails,
        handler::after_refusal(auth, reason, ip, now).inflight == auth.inflight,
        handler::after_refusal(auth, reason, ip, now).waiters == auth.waiters,
        !auth.tracker.is_blocked(other, now) ==> !handler::after_refusal(
            auth,
            reason,
            ip,
            now,
        ).tracker.is_blocked(other, now),
{
}

/// Every failed attempt and every request from a blocked client is answered with the configured
/// delay.
pub proof fn law_failures_are_delayed(global: GlobalConfig, refusal: Refusal, reason: Reason)
    requires
        refusal.is_for(reason, global),
        reason is MissingKey || reason is WrongKey || reason is Blocked,
    ensures
        refusal.tarpit_ms == Some(global.tarpit_duration_ms),
{
}

/// Where no two routes have the same name, a request finds each route under its name, with the
/// keys of its own keys file.
pub proof fn law_every_route_is_found_under_its_name(
    config: Config,
    key_files: Seq<Result<String, String>>,
    dummy_hash: Seq<char>,
    setup: Setup,
    i: int,
)
    requires
        config.wf(),
        setup.routes@.len() == config.routes@.len(),
        forall|j: int|
            0 <= j < config.routes@.len() ==> handler::is_loaded(
                #[trigger] setup.routes@[j],
                config.routes@[j],
                key_files[j],
                dummy_hash,
            ),
        0 <= i < config.routes@.len(),
    ensures
        handler::is_route(setup.routes@, config.routes@[i].name@, i),
        auth::keys_of_file(key_files[i]) == Some(setup.routes@[i].state.keys@),
{
    let routes = setup.routes@;
    assert(handler::is_loaded(routes[i], config.routes@[i], key_files[i], dummy_hash));
    assert forall|j: int| 0 <= j < i implies (#[trigger] routes[j]).name@
        != config.routes@[i].name@ by {
        assert(handler::is_loaded(routes[j], config.routes@[j], key_files[j], dummy_hash));
        assert(config.routes@[j].name@ != config.routes@[i].name@);
    }
}

/// A missing key and a wrong key are answered alike and after the same delay, so that the answer
/// does not tell them apart.
pub proof fn law_missing_and_wrong_key_answered_alike(
    global: GlobalConfig,
    missing: Refusal,
    wrong: Refusal,
)
    requires
        missing.is_for(Reason::MissingKey, global),
        wrong.is_for(Reason::WrongKey, global),
    ensures
        missing.reply.status == wrong.reply.status,
        missing.reply.body@ == wrong.reply.body@,
        missing.tarpit_ms == wrong.tarpit_ms,
{
}

/// The key that a request presents is the first value of the auth header, character by character
/// and whatever its length, where each byte of it is printable ASCII or a tab; later values do not
/// matter. Without a value, or with any other byte in the first one, it presents none.
pub proof fn law_visible_header_is_the_key(headers: HeaderMap, header: Seq<char>)
    ensures
        ({
            let values = headers::header_values(headers, header);
            let visible = values.len() > 0 && forall|i: int|
                0 <= i < values[0].len() ==> 0x20 <= #[trigger] values[0][i] <= 0x7e
                    || values[0][i] == 9;
            match handler::presented_key(headers, header) {
                Some(key) => visible && key.len() == values[0].len() && forall|i: int|
                    0 <= i < key.len() ==> (#[trigger] key[i]) as int == values[0][i],
                None => !visible,
            }
        }),
{
    let values = headers::header_values(headers, header);
    if values.len() > 0 {
        text_laws::law_visible_bytes_are_their_text(values[0]);
    }
}

/// The block of a client is still running.
pub open spec fn block_runs(auth: AuthModel, ip: IpAddr, now: u128) -> bool {
    let counted = net::normalized(ip);
    auth.tracker.blocked.contains_key(counted) && now <= auth.tracker.blocked[counted]
        + auth.tracker.block_duration
}

/// A route is known by its name.
pub open spec fn is_known(setup: Setup, route_name: Seq<char>) -> bool {
    exists|i: int| 0 <= i < setup.routes@.len() && (#[trigger] setup.routes@[i]).name@ == route_name
}

proof fn lemma_known_route(setup: Setup, route_name: Seq<char>, i: int)
    requires
        0 <= i < setup.routes@.len(),
        setup.routes@[i].name@ == route_name,
    ensures
        handler::has_route(setup.routes@, route_name),
    decreases i,
{
    if exists|j: int| 0 <= j < i && (#[trigger] setup.routes@[j]).name@ == route_name {
        let j = choose|j: int| 0 <= j < i && (#[trigger] setup.routes@[j]).name@ == route_name;
        lemma_known_route(setup, route_name, j);
    } else {
        assert(handler::is_route(setup.routes@, route_name, i));
    }
}

/// A request is refused before its key is verified for one of four reasons only, the first that
/// holds of these: its client is blocked; its route is unknown; it presents no key; as many
/// attempts of its client are in flight as may be. Any other request has its key verified.
pub proof fn law_reasons_to_refuse_early(
    setup: Setup,
    auth: AuthModel,
    route_name: Seq<char>,
    presented: Option<Seq<char>>,
    ip: IpAddr,
    now: u128,
)
    ensures
        ({
            let refused = handler::early_refusal(setup, auth, route_name, presented, ip, now);
            let blocked = block_runs(auth, ip, now);
            let known = is_known(setup, route_name);
            let full = auth.inflight_of(ip) >= setup.global.max_inflight_auth_per_ip;
            &&& blocked ==> refused == Some(Reason::Blocked)
            &&& !blocked && !known ==> refused == Some(Reason::UnknownRoute)
            &&& !blocked && known && presented is None ==> refused == Some(Reason::MissingKey)
            &&& !blocked && known && presented is Some && full ==> refused == Some(
                Reason::TooManyInFlight,
            )
            &&& !blocked && known && presented is Some && !full ==> refused is None
        }),
{
    if is_known(setup, route_name) {
        let i = choose|i: int|
            0 <= i < setup.routes@.len() && (#[trigger] setup.routes@[i]).name@ == route_name;
        lemma_known_route(setup, route_name, i);
    }
    if handler::has_route(setup.routes@, route_name) {
        let i = choose|i: int| handler::is_route(setup.routes@, route_name, i);
        assert(setup.routes@[i].name@ == route_name);
    }
}

/// A request with a value in the auth header that is printable ASCII, whatever its length, has its
/// key verified, where its client is not blocked, its route is known and its client has room for
/// one more attempt.
pub proof fn law_visible_key_is_verified(
    setup: Setup,
    auth: AuthModel,
    route_name: Seq<char>,
    headers: HeaderMap,
    ip: IpAddr,
    now: u128,
)
    requires
        !block_runs(auth, ip, now),
        is_known(setup, route_name),
        auth.inflight_of(ip) < setup.global.max_inflight_auth_per_ip,
        headers::header_values(headers, setup.global.auth_header@).len() > 0,
        forall|i: int|
            0 <= i < headers::header_values(headers, setup.global.auth_header@)[0].len() ==> 0x20
                <= #[trigger] headers::header_values(headers, setup.global.auth_header@)[0][i]
                <= 0x7e,
    ensures
        handler::early_refusal(
            setup,
            auth,
            route_name,
            handler::presented_key(headers, setup.global.auth_header@),
            ip,
            now,
        ) is None,
{
    let presented = handler::presented_key(headers, setup.global.auth_header@);
    law_visible_header_is_the_key(headers, setup.global.auth_header@);
    law_reasons_to_refuse_early(setup, auth, route_name, presented, ip, now);
}

/// Each reason has its answer: the status, the body, whether the answer is delayed, and whether the
/// work of a verification is done first.
pub proof fn law_each_reason_has_its_answer(global: GlobalConfig, refusal: Refusal)
    ensures
        refusal.is_for(Reason::Blocked, global) <==> refusal.reply.status == 429
            && refusal.reply.body@ == "Too many failed attempts"@ && refusal.tarpit_ms == Some(
            global.tarpit_duration_ms,
        ) && !refusal.dummy_work,
        refusal.is_for(Reason::UnknownRoute, global) <==> refusal.reply.status == 404
            && refusal.reply.body@ == "Unknown route"@ && refusal.tarpit_ms is None
            && !refusal.dummy_work,
        refusal.is_for(Reason::MissingKey, global) <==> refusal.reply.status == 401
            && refusal.reply.body@ == "Unauthorized"@ && refusal.tarpit_ms == Some(
            global.tarpit_duration_ms,
        ) && refusal.dummy_work,
        refusal.is_for(Reason::TooManyInFlight, global) <==> refusal.reply.status == 429
            && refusal.reply.body@ == "Too many concurrent requests"@ && refusal.tarpit_ms == Some(
            global.tarpit_duration_ms,
        ) && !refusal.dummy_work,
        refusal.is_for(Reason::NoSlot, global) <==> refusal.reply.status == 503
            && refusal.reply.body@ == "Server busy"@ && refusal.tarpit_ms is None
            && !refusal.dummy_work,
        refusal.is_for(Reason::WrongKey, global) <==> refusal.reply.status == 401
            && refusal.reply.body@ == "Unauthorized"@ && refusal.tarpit_ms == Some(
            global.tarpit_duration_ms,
        ) && !refusal.dummy_work,
{
}

/// A request for an unknown route, one beyond the limit of its client and one that gets no slot
/// leave no trace. A missing and a wrong key leave the same.
pub proof fn law_what_a_refusal_leaves(auth: AuthModel, ip: IpAddr, now: u128)
    ensures
        handler::after_refusal(auth, Reason::UnknownRoute, ip, now) == auth,
        handler::after_refusal(auth, Reason::TooManyInFlight, ip, now) == auth,
        handler::after_refusal(auth, Reason::NoSlot, ip, now) == auth,
        handler::after_refusal(auth, Reason::MissingKey, ip, now) == handler::after_refusal(
            auth,
            Reason::WrongKey,
            ip,
            now,
        ),
        handler::after_refusal(auth, Reason::WrongKey, ip, now).inflight == auth.inflight,
{
}

/// A second is a thousand million nanoseconds, and seconds add up.
pub proof fn law_seconds_in_nanoseconds(a: u64, b: u64)
    ensures
        handler::secs(1) == 1_000_000_000,
        a + b <= u64::MAX ==> handler::secs((a + b) as u64) == handler::secs(a) + handler::secs(b),
        handler::secs(a) == a * handler::secs(1),
        0 <= handler::secs(a) <= u128::MAX,
{
}

/// A server that has seen no request blocks nobody, has nobody's failures, attempts or waiting
/// requests, and counts by the limits of its configuration, which are in seconds.
pub proof fn law_fresh_server_holds_nothing(
    global: GlobalConfig,
    origin: Instant,
    ip: IpAddr,
    now: u128,
)
    ensures
        ({
            let auth = handler::fresh(global, origin);
            &&& !auth.tracker.is_blocked(ip, now)
            &&& !auth.tracker.has_recent_failures(ip, now)
            &&& auth.inflight_of(ip) == 0
            &&& auth.waiters == 0
            &&& auth.tracker.capacity == global.failure_max_entries
            &&& auth.tracker.max_fails == global.failure_threshold
            &&& auth.tracker.window == global.failure_window_secs * 1_000_000_000
            &&& auth.tracker.block_duration == global.block_duration_secs * 1_000_000_000
        }),
{
}

/// A route runs as its configuration says, under the name that it has there.
pub proof fn law_route_runs_as_configured(
    named: NamedState,
    configured: NamedRoute,
    file: Result<String, String>,
    dummy_hash: Seq<char>,
)
    requires
        handler::is_loaded(named, configured, file, dummy_hash),
    ensures
        named.name@ == configured.name@,
        named.state.config == configured.route,
        named.state.keys.dummy_hash@ == dummy_hash,
        file matches Ok(content) && auth::keys_of_content(content@) == Ok::<
            Seq<(Seq<char>, Seq<char>)>,
            auth::LineFault,
        >(named.state.keys@),
{
}

/// A request that is to be verified is one of its client, with the key that it presents; the client
/// counts as clean exactly where no failure of it is recent.
pub proof fn law_pending_request_is_its_own(
    setup: Setup,
    auth: AuthModel,
    route_name: Seq<char>,
    presented: Option<Seq<char>>,
    ip: IpAddr,
    now: u128,
    pending: PendingAuth,
)
    requires
        pending.is_for(setup, auth, route_name, presented, ip, now),
    ensures
        pending.ip() == ip,
        presented == Some(pending.key()),
        setup.routes@[pending.route() as int].name@ == route_name,
        pending.clean() <==> !auth.tracker.has_recent_failures(ip, now),
{
}

/// Registering an attempt counts one more for its address, releasing one counts one fewer, and none
/// where there was none; neither touches the failures or the queue.
pub proof fn law_attempts_are_counted_one_by_one(auth: AuthModel, ip: IpAddr)
    ensures
        auth.inflight_of(ip) < u32::MAX ==> auth.register(ip).inflight_of(ip) == auth.inflight_of(
            ip,
        ) + 1,
        auth.inflight_of(ip) > 0 ==> auth.release(ip).inflight_of(ip) == auth.inflight_of(ip) - 1,
        auth.inflight_of(ip) == 0 ==> auth.release(ip).inflight_of(ip) == 0,
        auth.register(ip).tracker == auth.tracker && auth.release(ip).tracker == auth.tracker,
        auth.inflight.contains_key(ip) ==> auth.inflight_of(ip) == auth.inflight[ip],
        !auth.inflight.contains_key(ip) ==> auth.inflight_of(ip) == 0,
{
}

/// A request that has to queue waits where fewer wait than may, and is turned away otherwise;
/// nothing else changes with it. A pool without slots reserves none.
pub proof fn law_who_waits_for_a_slot(global: GlobalConfig, auth: AuthModel)
    ensures
        auth.waiters < global.max_auth_queue_depth ==> auth.queue(global) == (
            AuthModel { waiters: auth.waiters + 1, ..auth },
            PermitKind::Wait,
        ),
        auth.waiters >= global.max_auth_queue_depth ==> auth.queue(global) == (
            auth,
            PermitKind::Refused,
        ),
        auth.request_permit(global, false) == auth.queue(global),
        auth.waiters == 0 ==> auth.unqueue() == auth,
        handler::reserved_permits(0) == 0,
{
}

} // verus!
