use cause::config::{
    default_concurrency, validate_route_name, Config, ConfigError, FileMeta, GlobalConfig,
    NamedRoute, RouteConfig,
};

fn route(name: &str) -> NamedRoute {
    NamedRoute {
        name: name.to_string(),
        route: RouteConfig {
            shell: format!("/bin/{}", name),
            args: vec![],
            keys: "keys".to_string(),
            concurrency: default_concurrency(),
        },
    }
}

fn config(names: &[&str]) -> Config {
    Config {
        global: GlobalConfig::default(),
        routes: names.iter().map(|name| route(name)).collect(),
    }
}

fn file(mode: u32) -> Result<FileMeta, String> {
    Ok(FileMeta { is_file: true, mode })
}

#[test]
fn test_validate_route_name() {
    assert!(validate_route_name("deploy-prod_1"));
    assert!(!validate_route_name(""));
    assert!(!validate_route_name("a/b"));
    assert!(!validate_route_name("a b"));
    assert!(!validate_route_name("caf\u{e9}"));
    assert!(!validate_route_name("\u{663}"));
}

#[test]
fn route_names_go_to_the_ends_of_their_ranges() {
    assert!(validate_route_name("azAZ09_-"));
    for c in ["`", "{", "@", "[", "/", ":", ".", "%", "\0"] {
        assert!(!validate_route_name(c));
    }
}

#[test]
fn defaults_are_documented_ones() {
    let global = GlobalConfig::default();
    assert_eq!(global.auth_header, "x-api-key");
    assert_eq!(global.timeout, 900);
    assert_eq!(global.trusted_proxies.len(), 0);
    assert_eq!(global.auth_semaphore_size, 4);
    assert_eq!(global.failure_threshold, 10);
    assert_eq!(global.failure_window_secs, 600);
    assert_eq!(global.block_duration_secs, 600);
    assert_eq!(global.tarpit_duration_ms, 500);
    assert_eq!(global.rate_limit_per_second, 2);
    assert_eq!(global.rate_limit_burst, 5);
    assert_eq!(global.kill_grace_secs, 1);
    assert_eq!(global.drain_grace_secs, 1);
    assert_eq!(global.max_line_length, 65536);
    assert_eq!(global.failure_max_entries, 100000);
    assert_eq!(global.auth_acquire_timeout_ms, 2000);
    assert_eq!(global.max_inflight_auth_per_ip, 2);
    assert_eq!(global.max_auth_queue_depth, 64);
    assert_eq!(default_concurrency(), 1);
}

#[test]
fn configuration_without_routes_is_accepted() {
    assert!(config(&[]).validate(&[]).is_ok());
}

#[test]
fn any_execute_bit_is_enough() {
    for mode in [0o755, 0o100, 0o010, 0o001, 0o100755, 0o711] {
        assert!(config(&["a"]).validate(&[file(mode)]).is_ok());
    }
    for mode in [0o644, 0, 0o666, 0o100644, 0o4000] {
        assert!(config(&["a"]).validate(&[file(mode)]).is_err());
    }
}

#[test]
fn invalid_route_name_is_reported() {
    let error = config(&["ok", "a b"]).validate(&[file(0o755), file(0o755)]).unwrap_err();
    assert!(matches!(&error, ConfigError::InvalidRouteName(name) if name == "a b"));
    assert_eq!(error.message(), "invalid route name: a b");
}

#[test]
fn missing_shell_is_reported() {
    let error = config(&["a"]).validate(&[Err("not found".to_string())]).unwrap_err();
    assert!(matches!(&error, ConfigError::ShellStat { route, source } if route == "a" && source == "not found"));
    assert_eq!(error.message(), "cannot stat shell for route a: not found");
}

#[test]
fn shell_that_is_no_file_is_reported() {
    let stat = Ok(FileMeta { is_file: false, mode: 0o755 });
    let error = config(&["a"]).validate(&[stat]).unwrap_err();
    assert!(matches!(&error, ConfigError::ShellNotFile { route, shell } if route == "a" && shell == "/bin/a"));
    assert_eq!(error.message(), "shell for route a is not a file: /bin/a");
}

#[test]
fn shell_that_is_not_executable_is_reported() {
    let error = config(&["a"]).validate(&[file(0o644)]).unwrap_err();
    assert!(matches!(&error, ConfigError::ShellNotExecutable { route, shell } if route == "a" && shell == "/bin/a"));
    assert_eq!(error.message(), "shell for route a is not executable: /bin/a");
}

#[test]
fn the_first_route_at_fault_is_reported() {
    let error = config(&["a", "b", "c"])
        .validate(&[file(0o755), file(0o644), Err("gone".to_string())])
        .unwrap_err();
    assert!(matches!(error, ConfigError::ShellNotExecutable { route, .. } if route == "b"));
}
