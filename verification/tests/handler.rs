use axum::http::HeaderMap;
use cause::admission::{acquire_auth_permit, register_inflight, reserved_tried, PermitStep};
use cause::auth::WorkLog;
use cause::config::{Config, GlobalConfig, NamedRoute, RouteConfig};
use cause::handler::{
    authenticate, authenticate_key, check_blocked, extract_auth_key, handle_route, health, lookup_route, AppState,
    Refusal,
};
use cause::ip::{parse_ip, IpAddr};
use yescrypt::{PasswordHasher, Yescrypt};

fn ip(s: &str) -> IpAddr {
    parse_ip(s).unwrap()
}

fn state_with(f: impl FnOnce(&mut GlobalConfig)) -> AppState {
    let mut global = GlobalConfig::default();
    f(&mut global);
    let config = Config { global, routes: vec![] };
    AppState::from_config(config, &[], "$y$".to_string()).unwrap()
}

fn named(name: &str, keys: &str) -> NamedRoute {
    NamedRoute {
        name: name.to_string(),
        route: RouteConfig {
            shell: "/bin/sh".to_string(),
            args: vec!["-c".to_string(), "true".to_string()],
            keys: keys.to_string(),
            concurrency: 1,
        },
    }
}

/// A server with the route `hello`, whose key is `id.dev`, and the route `other` without keys.
fn server(f: impl FnOnce(&mut GlobalConfig)) -> AppState {
    let mut global = GlobalConfig::default();
    f(&mut global);
    let config = Config { global, routes: vec![named("hello", "a"), named("other", "b")] };
    let hash = Yescrypt::default().hash_password(b"dev").unwrap().to_string();
    let files = [Ok(format!("id:{}\n", hash)), Ok(String::new())];
    AppState::from_config(config, &files, hash).unwrap()
}

fn with_key(key: &str) -> HeaderMap {
    let mut headers = HeaderMap::new();
    headers.append("x-api-key", key.parse().unwrap());
    headers
}

fn answer(refusal: &Refusal) -> (u16, &str) {
    (refusal.reply.status, refusal.reply.body.as_str())
}

#[test]
fn test_inflight_cap_and_guard_drop() {
    let AppState { setup, mut auth } = state_with(|_| {});
    let addr = ip("10.0.0.2");
    let g1 = register_inflight(&setup.global, &mut auth, addr).unwrap();
    let _g2 = register_inflight(&setup.global, &mut auth, addr).unwrap();
    assert!(register_inflight(&setup.global, &mut auth, addr).is_none());
    assert!(register_inflight(&setup.global, &mut auth, ip("10.0.0.3")).is_some());
    g1.release(&mut auth);
    assert!(register_inflight(&setup.global, &mut auth, addr).is_some());
}

#[test]
fn test_clean_client_gets_reserved_permit_when_general_saturated() {
    let AppState { setup, mut auth } = state_with(|g| {
        g.auth_semaphore_size = 2;
        g.auth_acquire_timeout_ms = 50;
    });
    // One general slot, which somebody holds, and the reserved one.
    assert_eq!((setup.auth_permits, setup.auth_reserved_permits), (1, 1));
    let ticket = match acquire_auth_permit(&setup.global, &mut auth, false) {
        PermitStep::Wait(ticket) => ticket,
        other => panic!("{:?}", other),
    };
    assert_eq!(ticket.timeout_ms(), 50);
    assert!(matches!(ticket.leave_queue(&mut auth, false), PermitStep::Refused));
    assert!(matches!(acquire_auth_permit(&setup.global, &mut auth, true), PermitStep::TryReserved));
    assert!(matches!(reserved_tried(&setup.global, &mut auth, true), PermitStep::Granted));
}

#[test]
fn test_acquire_waits_for_released_permit() {
    let AppState { setup, mut auth } = state_with(|g| {
        g.auth_semaphore_size = 2;
        g.auth_acquire_timeout_ms = 2000;
    });
    let ticket = match acquire_auth_permit(&setup.global, &mut auth, false) {
        PermitStep::Wait(ticket) => ticket,
        other => panic!("{:?}", other),
    };
    assert_eq!(ticket.timeout_ms(), 2000);
    assert_eq!(auth.waiters(), 1);
    assert!(matches!(ticket.leave_queue(&mut auth, true), PermitStep::Granted));
    assert_eq!(auth.waiters(), 0);
}

#[test]
fn test_queue_depth_bound_fast_fails() {
    let AppState { setup, mut auth } = state_with(|g| {
        g.auth_acquire_timeout_ms = 5000;
        g.max_auth_queue_depth = 1;
    });
    // Somebody waits already.
    let waiting = acquire_auth_permit(&setup.global, &mut auth, false);
    assert!(matches!(waiting, PermitStep::Wait(_)));
    assert!(matches!(acquire_auth_permit(&setup.global, &mut auth, false), PermitStep::Refused));
    assert_eq!(auth.waiters(), 1);
}

#[test]
fn clean_client_queues_where_the_reserved_slot_is_taken() {
    let AppState { setup, mut auth } = state_with(|g| g.max_auth_queue_depth = 1);
    assert!(matches!(reserved_tried(&setup.global, &mut auth, false), PermitStep::Wait(_)));
    assert!(matches!(reserved_tried(&setup.global, &mut auth, false), PermitStep::Refused));
}

#[test]
fn a_slot_is_reserved_where_there_are_two() {
    for (size, permits) in [(1, (1, 0)), (2, (1, 1)), (4, (3, 1))] {
        let setup = state_with(|g| g.auth_semaphore_size = size).setup;
        assert_eq!((setup.auth_permits, setup.auth_reserved_permits), permits);
    }
}

#[test]
fn releasing_the_last_attempt_leaves_nothing() {
    let AppState { setup, mut auth } = state_with(|_| {});
    let addr = ip("10.0.0.2");
    let guard = register_inflight(&setup.global, &mut auth, addr).unwrap();
    assert_eq!(auth.inflight(addr), 1);
    guard.release(&mut auth);
    assert_eq!(auth.inflight(addr), 0);
}

#[test]
fn routes_are_loaded_with_their_keys() {
    let setup = server(|_| {}).setup;
    assert_eq!(setup.routes.len(), 2);
    assert_eq!(setup.routes[0].name, "hello");
    assert_eq!(setup.routes[0].state.config.shell, "/bin/sh");
    assert_eq!(setup.routes[0].state.keys.entries.len(), 1);
    assert_eq!(setup.routes[1].state.keys.entries.len(), 0);
    assert_eq!(setup.routes[1].state.keys.dummy_hash, setup.dummy_hash);
}

#[test]
fn keys_file_that_is_not_accepted_names_its_route() {
    let config = Config {
        global: GlobalConfig::default(),
        routes: vec![named("a", "ka"), named("b", "kb"), named("c", "kc")],
    };
    let files = [Ok(String::new()), Ok("no colon".to_string()), Err("gone".to_string())];
    let error = match AppState::from_config(config, &files, String::new()) {
        Ok(_) => panic!("accepted"),
        Err(error) => error,
    };
    assert_eq!(error.route, "b");
    assert_eq!(error.source.message(), "malformed line in kb (no ':'): no colon");
}

#[test]
fn request_with_the_right_key_is_granted() {
    let AppState { setup, mut auth } = server(|_| {});
    let addr = ip("10.0.0.1");
    auth.record_at(addr, false, 0);
    let (pending, guard) =
        authenticate(&setup, &mut auth, "hello", &with_key("id.dev"), addr, 1).unwrap();
    assert_eq!(auth.inflight(addr), 1);
    assert!(matches!(pending.acquire_permit(&setup, &mut auth), PermitStep::Wait(_)));
    let task = pending.permit(&setup, true).unwrap();
    let accepted = task.verify_key(&setup, &mut WorkLog::new());
    assert!(accepted);
    assert_eq!(task.finish(&setup, &mut auth, Some(accepted), 2).unwrap(), 0);
    guard.release(&mut auth);
    assert!(!auth.has_recent_failures_at(addr, 2));
    assert_eq!(auth.inflight(addr), 0);
}

#[test]
fn request_with_a_wrong_key_is_refused() {
    let AppState { setup, mut auth } = server(|_| {});
    let addr = ip("10.0.0.1");
    let (pending, _guard) =
        authenticate(&setup, &mut auth, "hello", &with_key("id.wrong"), addr, 1).unwrap();
    assert!(matches!(pending.acquire_permit(&setup, &mut auth), PermitStep::TryReserved));
    let task = pending.permit(&setup, true).unwrap();
    let accepted = task.verify_key(&setup, &mut WorkLog::new());
    assert!(!accepted);
    let refusal = task.finish(&setup, &mut auth, Some(accepted), 2).unwrap_err();
    assert_eq!(answer(&refusal), (401, "Unauthorized"));
    assert_eq!(refusal.tarpit_ms, Some(500));
    assert!(!refusal.dummy_work);
    assert!(auth.has_recent_failures_at(addr, 2));
}

#[test]
fn key_of_one_route_does_not_open_another() {
    let AppState { setup, mut auth } = server(|_| {});
    let (pending, _guard) =
        authenticate(&setup, &mut auth, "other", &with_key("id.dev"), ip("10.0.0.1"), 1).unwrap();
    let task = pending.permit(&setup, true).unwrap();
    assert!(!task.verify_key(&setup, &mut WorkLog::new()));
}

#[test]
fn verification_that_broke_off_counts_as_failed() {
    let AppState { setup, mut auth } = server(|_| {});
    let addr = ip("10.0.0.1");
    let (pending, _guard) =
        authenticate(&setup, &mut auth, "hello", &with_key("id.dev"), addr, 1).unwrap();
    let task = pending.permit(&setup, true).unwrap();
    let refusal = task.finish(&setup, &mut auth, None, 2).unwrap_err();
    assert_eq!(answer(&refusal), (401, "Unauthorized"));
    assert!(auth.has_recent_failures_at(addr, 2));
}

#[test]
fn request_without_a_slot_is_refused() {
    let AppState { setup, mut auth } = server(|_| {});
    let addr = ip("10.0.0.1");
    let (pending, _guard) =
        authenticate(&setup, &mut auth, "hello", &with_key("id.dev"), addr, 1).unwrap();
    let refusal = pending.permit(&setup, false).unwrap_err();
    assert_eq!(answer(&refusal), (503, "Server busy"));
    assert_eq!(refusal.tarpit_ms, None);
    assert!(!refusal.dummy_work);
    assert!(!auth.has_recent_failures_at(addr, 2));
}

#[test]
fn unknown_route_is_refused() {
    let AppState { setup, mut auth } = server(|_| {});
    let addr = ip("10.0.0.1");
    let refusal = authenticate(&setup, &mut auth, "nope", &HeaderMap::new(), addr, 1).unwrap_err();
    assert_eq!(answer(&refusal), (404, "Unknown route"));
    assert_eq!(refusal.tarpit_ms, None);
    assert!(!refusal.dummy_work);
    assert!(!auth.has_recent_failures_at(addr, 1));
    assert_eq!(lookup_route(&setup, "other").unwrap(), 1);
}

#[test]
fn request_without_a_key_is_refused() {
    let AppState { setup, mut auth } = server(|_| {});
    let addr = ip("10.0.0.1");
    let mut invisible = HeaderMap::new();
    invisible.append("x-api-key", axum::http::HeaderValue::from_bytes(b"id.\xff").unwrap());
    for headers in [HeaderMap::new(), invisible] {
        let refusal = authenticate(&setup, &mut auth, "hello", &headers, addr, 1).unwrap_err();
        assert_eq!(answer(&refusal), (401, "Unauthorized"));
        assert_eq!(refusal.tarpit_ms, Some(500));
        assert!(refusal.dummy_work);
    }
    assert!(auth.has_recent_failures_at(addr, 1));
    assert_eq!(auth.inflight(addr), 0);
}

#[test]
fn key_may_be_handed_over_as_it_is() {
    let AppState { setup, mut auth } = server(|_| {});
    let addr = ip("10.0.0.1");
    let key = Some("id.dev".to_string());
    let (pending, _guard) =
        authenticate_key(&setup, &mut auth, "hello", key, addr, 1).unwrap();
    assert!(pending.permit(&setup, true).unwrap().verify_key(&setup, &mut WorkLog::new()));
    let refusal = authenticate_key(&setup, &mut auth, "hello", None, addr, 1).unwrap_err();
    assert_eq!(answer(&refusal), (401, "Unauthorized"));
}

#[test]
fn the_first_value_of_the_configured_header_is_the_key() {
    let setup = server(|g| g.auth_header = "X-Token".to_string()).setup;
    let mut headers = with_key("no");
    assert_eq!(extract_auth_key(&setup, &headers), None);
    headers.append("x-token", "first".parse().unwrap());
    headers.append("x-token", "second".parse().unwrap());
    assert_eq!(extract_auth_key(&setup, &headers), Some("first".to_string()));
}

#[test]
fn auth_header_that_is_no_header_name_is_never_present() {
    let setup = server(|g| g.auth_header = "not a name".to_string()).setup;
    assert_eq!(extract_auth_key(&setup, &with_key("id.dev")), None);
}

#[test]
fn attempts_beyond_the_limit_of_an_address_are_refused() {
    let AppState { setup, mut auth } = server(|g| g.max_inflight_auth_per_ip = 1);
    let addr = ip("10.0.0.1");
    let (_, guard) =
        authenticate(&setup, &mut auth, "hello", &with_key("id.dev"), addr, 1).unwrap();
    let refusal =
        authenticate(&setup, &mut auth, "hello", &with_key("id.dev"), addr, 1).unwrap_err();
    assert_eq!(answer(&refusal), (429, "Too many concurrent requests"));
    assert_eq!(refusal.tarpit_ms, Some(500));
    assert!(!refusal.dummy_work);
    assert!(authenticate(&setup, &mut auth, "hello", &with_key("id.dev"), ip("10.0.0.2"), 1).is_ok());
    guard.release(&mut auth);
    assert!(authenticate(&setup, &mut auth, "hello", &with_key("id.dev"), addr, 1).is_ok());
}

#[test]
fn failed_attempts_block_a_client() {
    let AppState { setup, mut auth } = server(|g| {
        g.failure_threshold = 3;
        g.block_duration_secs = 1;
    });
    let addr = ip("10.0.0.1");
    let second = 1_000_000_000;
    for now in 0..3 {
        let refusal =
            authenticate(&setup, &mut auth, "hello", &HeaderMap::new(), addr, now).unwrap_err();
        assert_eq!(answer(&refusal), (401, "Unauthorized"));
    }
    // Neither an unknown route nor the right key makes a difference, and each request starts the
    // block anew.
    for (route, now) in [("hello", second), ("nope", 2 * second)] {
        let refusal =
            authenticate(&setup, &mut auth, route, &with_key("id.dev"), addr, now).unwrap_err();
        assert_eq!(answer(&refusal), (429, "Too many failed attempts"));
        assert_eq!(refusal.tarpit_ms, Some(500));
        assert!(!refusal.dummy_work);
    }
    assert!(check_blocked(&setup, &mut auth, addr, 2 * second).is_err());
    assert!(check_blocked(&setup, &mut auth, addr, 3 * second + 1).is_ok());
}

#[test]
fn client_behind_a_trusted_proxy_is_the_one_who_counts() {
    let AppState { setup, mut auth } = server(|g| {
        g.failure_threshold = 1;
        g.trusted_proxies = vec![ip("10.0.0.1")];
    });
    let proxy = ip("10.0.0.1");
    let from = |client: &str| {
        let mut headers = HeaderMap::new();
        headers.append("x-forwarded-for", client.parse().unwrap());
        headers
    };
    let (client, outcome) = handle_route(&setup, &mut auth, "hello", &from("2001:db8::1"), proxy, 0);
    assert_eq!(client, ip("2001:db8::"));
    assert_eq!(answer(&outcome.unwrap_err()), (401, "Unauthorized"));
    let (_, outcome) = handle_route(&setup, &mut auth, "hello", &from("2001:db8::2"), proxy, 0);
    assert_eq!(answer(&outcome.unwrap_err()), (429, "Too many failed attempts"));
    let (_, outcome) = handle_route(&setup, &mut auth, "hello", &from("1.2.3.4"), proxy, 0);
    assert_eq!(answer(&outcome.unwrap_err()), (401, "Unauthorized"));
}

#[test]
fn health_check_is_ok() {
    assert_eq!(health(), 200);
}

#[test]
fn verifying_a_key_leaves_its_work_in_the_log() {
    let AppState { setup, mut auth } = server(|_| {});
    let mut log = WorkLog::new();
    // The right key, a wrong one, an unknown id and a route without keys: one verification each.
    for (i, (route, key)) in
        [("hello", "id.dev"), ("hello", "id.no"), ("hello", "x.dev"), ("other", "id.dev")]
            .into_iter()
            .enumerate()
    {
        let client = ip(&format!("10.0.0.{}", i));
        let (pending, _guard) =
            authenticate(&setup, &mut auth, route, &with_key(key), client, 1).unwrap();
        let task = pending.permit(&setup, true).unwrap();
        assert_eq!(task.verify_key(&setup, &mut log), i == 0);
        assert_eq!(log.count(), i + 1);
    }
}

#[test]
fn waiters_are_the_open_tickets() {
    let AppState { setup, mut auth } = state_with(|g| g.max_auth_queue_depth = 2);
    let mut tickets = vec![];
    for open in 1..=2 {
        match acquire_auth_permit(&setup.global, &mut auth, false) {
            PermitStep::Wait(ticket) => tickets.push(ticket),
            other => panic!("{:?}", other),
        }
        assert_eq!(auth.waiters(), open);
    }
    assert!(matches!(acquire_auth_permit(&setup.global, &mut auth, false), PermitStep::Refused));
    assert!(matches!(acquire_auth_permit(&setup.global, &mut auth, true), PermitStep::TryReserved));
    assert_eq!(auth.waiters(), 2);
    while let Some(ticket) = tickets.pop() {
        ticket.leave_queue(&mut auth, false);
        assert_eq!(auth.waiters(), tickets.len());
    }
}
