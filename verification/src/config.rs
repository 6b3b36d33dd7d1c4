//! The configuration: what may be set, what it is by default, and which routes are accepted.

use crate::ip::IpAddr;
use crate::text::chars_of;
use vstd::prelude::*;

verus! {

/// How many executions of a route may run at once where its configuration does not say.
pub fn default_concurrency() -> (concurrency: usize)
    ensures
        concurrency == 1,
{
    1
}

/// The `[global]` table.
#[derive(Clone, Debug)]
pub struct GlobalConfig {
    /// HTTP header carrying the API key.
    pub auth_header: String,
    /// Max runtime (seconds) of a triggered process before it is killed.
    pub timeout: u64,
    /// IPs of reverse proxies allowed to set `x-forwarded-for`.
    pub trusted_proxies: Vec<IpAddr>,
    /// Max concurrent password-hash verifications.
    pub auth_semaphore_size: usize,
    /// Auth failures per IP within `failure_window_secs` before it is blocked.
    pub failure_threshold: u32,
    /// Fixed window (seconds) for counting auth failures.
    pub failure_window_secs: u64,
    /// How long (seconds) an IP remains blocked.
    pub block_duration_secs: u64,
    /// Delay (milliseconds) applied to every failed auth attempt and to requests from blocked IPs.
    pub tarpit_duration_ms: u64,
    /// Sustained per-IP request rate.
    pub rate_limit_per_second: u64,
    /// Per-IP burst allowance on top of the sustained rate.
    pub rate_limit_burst: u32,
    /// Grace period (seconds) between SIGTERM and SIGKILL for a process that timed out.
    pub kill_grace_secs: u64,
    /// Post-exit grace period (seconds) for draining the output of the child process.
    pub drain_grace_secs: u64,
    /// Max length (bytes) of a single output line.
    pub max_line_length: usize,
    /// Max IPs tracked in the failure table.
    pub failure_max_entries: usize,
    /// Max time (milliseconds) to wait for an auth verification slot.
    pub auth_acquire_timeout_ms: u64,
    /// Max concurrent auth attempts per IP.
    pub max_inflight_auth_per_ip: u32,
    /// Max requests waiting for an auth slot before new ones are rejected.
    pub max_auth_queue_depth: usize,
}

impl GlobalConfig {
    /// The limits that make no sense at zero are not zero.
    pub open spec fn wf(&self) -> bool {
        &&& self.timeout > 0
        &&& self.auth_semaphore_size > 0
        &&& self.failure_threshold > 0
        &&& self.failure_window_secs > 0
        &&& self.block_duration_secs > 0
        &&& self.rate_limit_per_second > 0
        &&& self.rate_limit_burst > 0
        &&& self.kill_grace_secs > 0
        &&& self.drain_grace_secs > 0
        &&& self.max_line_length > 0
        &&& self.failure_max_entries > 0
        &&& self.max_inflight_auth_per_ip > 0
        &&& self.max_auth_queue_depth > 0
    }
}

impl Default for GlobalConfig {
    fn default() -> (global: Self)
        ensures
            global.wf(),
            global.auth_header@ == "x-api-key"@,
            global.timeout == 900,
            global.trusted_proxies@ == Seq::<IpAddr>::empty(),
            global.auth_semaphore_size == 4,
            global.failure_threshold == 10,
            global.failure_window_secs == 600,
            global.block_duration_secs == 600,
            global.tarpit_duration_ms == 500,
            global.rate_limit_per_second == 2,
            global.rate_limit_burst == 5,
            global.kill_grace_secs == 1,
            global.drain_grace_secs == 1,
            global.max_line_length == 65536,
            global.failure_max_entries == 100_000,
            global.auth_acquire_timeout_ms == 2000,
            global.max_inflight_auth_per_ip == 2,
            global.max_auth_queue_depth == 64,
    {
        GlobalConfig {
            auth_header: "x-api-key".to_string(),
            timeout: 900,
            trusted_proxies: Vec::new(),
            auth_semaphore_size: 4,
            failure_threshold: 10,
            failure_window_secs: 600,
            block_duration_secs: 600,
            tarpit_duration_ms: 500,
            rate_limit_per_second: 2,
            rate_limit_burst: 5,
            kill_grace_secs: 1,
            drain_grace_secs: 1,
            max_line_length: 65536,
            failure_max_entries: 100_000,
            auth_acquire_timeout_ms: 2000,
            max_inflight_auth_per_ip: 2,
            max_auth_queue_depth: 64,
        }
    }
}

/// A `[routes.<name>]` table.
#[derive(Clone, Debug)]
pub struct RouteConfig {
    /// Path to the executable to run.
    pub shell: String,
    /// Arguments passed to the executable.
    pub args: Vec<String>,
    /// Path to the keys file authorized for this route.
    pub keys: String,
    /// Max concurrent executions of this route.
    pub concurrency: usize,
}

/// A route with its name.
#[derive(Clone, Debug)]
pub struct NamedRoute {
    pub name: String,
    pub route: RouteConfig,
}

#[derive(Clone, Debug)]
pub struct Config {
    pub global: GlobalConfig,
    pub routes: Vec<NamedRoute>,
}

/// Why a configuration is not accepted.
#[derive(Debug)]
pub enum ConfigError {
    InvalidRouteName(String),
    ShellStat { route: String, source: String },
    ShellNotFile { route: String, shell: String },
    ShellNotExecutable { route: String, shell: String },
}

/// What the file system says of a path.
#[derive(Clone, Copy, Debug)]
pub struct FileMeta {
    pub is_file: bool,
    /// The permission bits.
    pub mode: u32,
}

/// ASCII letters, digits, `_` and `-`.
pub open spec fn is_route_char(c: char) -> bool {
    ||| 'a' <= c <= 'z'
    ||| 'A' <= c <= 'Z'
    ||| '0' <= c <= '9'
    ||| c == '_'
    ||| c == '-'
}

/// Names that a route can have.
pub open spec fn is_route_name(name: Seq<char>) -> bool {
    name.len() > 0 && forall|i: int| 0 <= i < name.len() ==> is_route_char(#[trigger] name[i])
}

/// What is wrong with a route.
pub enum RouteFault {
    Name,
    Stat(Seq<char>),
    NotFile,
    NotExecutable,
}

/// What is wrong with a route of this name, given what the file system says of its shell: the
/// shell must exist, be a regular file and have an execute bit set.
pub open spec fn route_fault(name: Seq<char>, stat: Result<FileMeta, String>) -> Option<
    RouteFault,
> {
    if !is_route_name(name) {
        Some(RouteFault::Name)
    } else {
        match stat {
            Err(source) => Some(RouteFault::Stat(source@)),
            Ok(meta) => if !meta.is_file {
                Some(RouteFault::NotFile)
            } else if meta.mode & 0o111 == 0 {
                Some(RouteFault::NotExecutable)
            } else {
                None
            },
        }
    }
}

/// `i` is the first route at fault.
pub open spec fn first_fault(
    routes: Seq<NamedRoute>,
    stats: Seq<Result<FileMeta, String>>,
    i: int,
) -> bool {
    &&& 0 <= i < routes.len()
    &&& route_fault(routes[i].name@, stats[i]) is Some
    &&& forall|j: int| 0 <= j < i ==> route_fault(routes[j].name@, #[trigger] stats[j]) is None
}

impl ConfigError {
    /// The error reports a fault of a route.
    pub open spec fn reports(&self, named: NamedRoute, fault: RouteFault) -> bool {
        match *self {
            ConfigError::InvalidRouteName(name) => fault == RouteFault::Name && name@
                == named.name@,
            ConfigError::ShellStat { route, source } => fault == RouteFault::Stat(source@)
                && route@ == named.name@,
            ConfigError::ShellNotFile { route, shell } => fault == RouteFault::NotFile && route@
                == named.name@ && shell@ == named.route.shell@,
            ConfigError::ShellNotExecutable { route, shell } => fault == RouteFault::NotExecutable
                && route@ == named.name@ && shell@ == named.route.shell@,
        }
    }

    /// The error in words.
    pub open spec fn in_words(&self) -> Seq<char> {
        match *self {
            ConfigError::InvalidRouteName(name) => "invalid route name: "@ + name@,
            ConfigError::ShellStat { route, source } => "cannot stat shell for route "@ + route@
                + ": "@ + source@,
            ConfigError::ShellNotFile { route, shell } => "shell for route "@ + route@
                + " is not a file: "@ + shell@,
            ConfigError::ShellNotExecutable { route, shell } => "shell for route "@ + route@
                + " is not executable: "@ + shell@,
        }
    }

    /// Renders the error.
    pub fn message(&self) -> (message: String)
        ensures
            message@ == self.in_words(),
    {
        match self {
            ConfigError::InvalidRouteName(name) => {
                let mut message = "invalid route name: ".to_string();
                message.append(name.as_str());
                message
            },
            ConfigError::ShellStat { route, source } => {
                let mut message = "cannot stat shell for route ".to_string();
                message.append(route.as_str());
                message.append(": ");
                message.append(source.as_str());
                message
            },
            ConfigError::ShellNotFile { route, shell } => {
                let mut message = "shell for route ".to_string();
                message.append(route.as_str());
                message.append(" is not a file: ");
                message.append(shell.as_str());
                message
            },
            ConfigError::ShellNotExecutable { route, shell } => {
                let mut message = "shell for route ".to_string();
                message.append(route.as_str());
                message.append(" is not executable: ");
                message.append(shell.as_str());
                message
            },
        }
    }
}

/// Checks one route against what the file system says of its shell.
pub fn validate_route(named: &NamedRoute, stat: &Result<FileMeta, String>) -> (r: Result<
    (),
    ConfigError,
>)
    ensures
        match route_fault(named.name@, *stat) {
            None => r is Ok,
            Some(fault) => r matches Err(e) && e.reports(*named, fault),
        },
{
    if !validate_route_name(named.name.as_str()) {
        return Err(ConfigError::InvalidRouteName(named.name.as_str().to_string()));
    }
    let route = named.name.as_str().to_string();
    match stat {
        Err(source) => Err(ConfigError::ShellStat { route, source: source.as_str().to_string() }),
        Ok(meta) => {
            let shell = named.route.shell.as_str().to_string();
            if !meta.is_file {
                Err(ConfigError::ShellNotFile { route, shell })
            } else if meta.mode & 0o111 == 0 {
                Err(ConfigError::ShellNotExecutable { route, shell })
            } else {
                Ok(())
            }
        },
    }
}

impl Config {
    /// No two routes have the same name.
    pub open spec fn wf(&self) -> bool {
        &&& self.global.wf()
        &&& forall|i: int, j: int|
            0 <= i < j < self.routes@.len() ==> (#[trigger] self.routes@[i]).name@ != (
            #[trigger] self.routes@[j]).name@
    }

    /// Checks every route, given what the file system says of each route's shell, in the order
    /// of the routes. The error is that of the first route at fault.
    pub fn validate(&self, stats: &[Result<FileMeta, String>]) -> (r: Result<(), ConfigError>)
        requires
            stats@.len() == self.routes@.len(),
        ensures
            match r {
                Ok(()) => forall|i: int|
                    0 <= i < self.routes@.len() ==> route_fault(
                        self.routes@[i].name@,
                        #[trigger] stats@[i],
                    ) is None,
                Err(e) => exists|i: int|
                    first_fault(self.routes@, stats@, i) && e.reports(
                        self.routes@[i],
                        route_fault(self.routes@[i].name@, stats@[i])->0,
                    ),
            },
    {
        for i in 0..self.routes.len()
            invariant
                stats@.len() == self.routes@.len(),
                forall|j: int|
                    0 <= j < i ==> route_fault(self.routes@[j].name@, #[trigger] stats@[j]) is None,
        {
            if let Err(e) = validate_route(&self.routes[i], &stats[i]) {
                assert(first_fault(self.routes@, stats@, i as int));
                return Err(e);
            }
        }
        Ok(())
    }
}

/// Whether a route can have this name.
pub fn validate_route_name(name: &str) -> (valid: bool)
    ensures
        valid == is_route_name(name@),
{
    let chars = chars_of(name);
    if chars.len() == 0 {
        return false;
    }
    for i in 0..chars.len()
        invariant
            chars@ == name@,
            forall|j: int| 0 <= j < i ==> is_route_char(#[trigger] name@[j]),
    {
        let c = chars[i];
        let letter = ('a' <= c && c <= 'z') || ('A' <= c && c <= 'Z');
        if !(letter || ('0' <= c && c <= '9') || c == '_' || c == '-') {
            assert(!is_route_char(name@[i as int]));
            return false;
        }
    }
    true
}

/// A shell is executable where the owner, the group or others have the execute bit, whatever the
/// other bits of its mode.
pub proof fn law_any_execute_bit_is_enough(name: Seq<char>, mode: u32)
    requires
        is_route_name(name),
    ensures
        route_fault(name, Ok(FileMeta { is_file: true, mode })) is None <==> (mode & 0o100 != 0
            || mode & 0o010 != 0 || mode & 0o001 != 0),
        route_fault(name, Ok(FileMeta { is_file: true, mode })) == route_fault(
            name,
            Ok(FileMeta { is_file: true, mode: mode & 0o777 }),
        ),
{
    assert((mode & 0o111 == 0) == (mode & 0o100 == 0 && mode & 0o010 == 0 && mode & 0o001 == 0))
        by (bit_vector);
    assert((mode & 0o777) & 0o111 == mode & 0o111) by (bit_vector);
}

/// A route's name is one segment of a path as it stands: it holds no slash, no dot and no escape.
pub proof fn law_route_name_is_one_segment(name: Seq<char>)
    requires
        is_route_name(name),
    ensures
        !name.contains('/'),
        !name.contains('.'),
        !name.contains('%'),
{
}

/// A character may stand in a route's name exactly where it is an ASCII letter, a digit, `_` or
/// `-`, by its code.
pub proof fn law_route_characters(c: char)
    ensures
        is_route_char(c) <==> ({
            let code = c as int;
            0x61 <= code <= 0x7a || 0x41 <= code <= 0x5a || 0x30 <= code <= 0x39 || code == 0x5f
                || code == 0x2d
        }),
{
}

/// A name of one character is a route's name where the character may stand in one. A longer name
/// is one exactly where both parts of it are, however it is divided; the empty name is none.
pub proof fn law_route_name_by_its_parts(a: Seq<char>, b: Seq<char>, c: char)
    ensures
        !is_route_name(Seq::empty()),
        is_route_name(seq![c]) <==> is_route_char(c),
        a.len() > 0 && b.len() > 0 ==> (is_route_name(a + b) <==> is_route_name(a)
            && is_route_name(b)),
{
    assert(seq![c][0] == c);
    if a.len() > 0 && b.len() > 0 {
        if is_route_name(a + b) {
            assert forall|i: int| 0 <= i < a.len() implies is_route_char(#[trigger] a[i]) by {
                assert((a + b)[i] == a[i]);
            }
            assert forall|i: int| 0 <= i < b.len() implies is_route_char(#[trigger] b[i]) by {
                assert((a + b)[a.len() + i] == b[i]);
            }
        }
    }
}

/// What is wrong with a route is the first of these that holds: its name is none; the file system
/// does not know its shell, for the reason that it gives; the shell is no file; the shell is not
/// executable.
pub proof fn law_first_thing_wrong_with_a_route(
    name: Seq<char>,
    source: String,
    meta: FileMeta,
    stat: Result<FileMeta, String>,
)
    ensures
        !is_route_name(name) ==> route_fault(name, stat) == Some(RouteFault::Name),
        is_route_name(name) ==> route_fault(name, Err(source)) == Some(RouteFault::Stat(source@)),
        is_route_name(name) && !meta.is_file ==> route_fault(name, Ok(meta)) == Some(
            RouteFault::NotFile,
        ),
        is_route_name(name) && meta.is_file ==> (route_fault(name, Ok(meta)) is None || route_fault(
            name,
            Ok(meta),
        ) == Some(RouteFault::NotExecutable)),
{
}

/// An error names the route that it is about, and gives the reason of the file system or the shell.
pub proof fn law_error_names_its_route(error: ConfigError, named: NamedRoute, fault: RouteFault)
    requires
        error.reports(named, fault),
    ensures
        match fault {
            RouteFault::Name => error matches ConfigError::InvalidRouteName(name) && name@
                == named.name@ && error.in_words() == "invalid route name: "@ + named.name@,
            RouteFault::Stat(reason) => error matches ConfigError::ShellStat { route, source }
                && route@ == named.name@ && source@ == reason && error.in_words()
                == "cannot stat shell for route "@ + named.name@ + ": "@ + reason,
            RouteFault::NotFile => error matches ConfigError::ShellNotFile { route, shell }
                && route@ == named.name@ && shell@ == named.route.shell@ && error.in_words()
                == "shell for route "@ + named.name@ + " is not a file: "@ + named.route.shell@,
            RouteFault::NotExecutable => error matches ConfigError::ShellNotExecutable {
                route,
                shell,
            } && route@ == named.name@ && shell@ == named.route.shell@ && error.in_words()
                == "shell for route "@ + named.name@ + " is not executable: "@
                + named.route.shell@,
        },
{
}

/// One route at fault is enough to refuse a configuration, and it takes one.
pub proof fn law_refused_for_a_fault(routes: Seq<NamedRoute>, stats: Seq<Result<FileMeta, String>>)
    requires
        stats.len() == routes.len(),
    ensures
        (exists|i: int| first_fault(routes, stats, i)) <==> exists|i: int|
            0 <= i < routes.len() && route_fault(routes[i].name@, #[trigger] stats[i]) is Some,
{
    if exists|i: int|
        0 <= i < routes.len() && route_fault(routes[i].name@, #[trigger] stats[i]) is Some {
        let i = choose|i: int|
            0 <= i < routes.len() && route_fault(routes[i].name@, #[trigger] stats[i]) is Some;
        let _ = lemma_first_fault(routes, stats, i);
    }
    if exists|i: int| first_fault(routes, stats, i) {
        let i = choose|i: int| first_fault(routes, stats, i);
        assert(route_fault(routes[i].name@, stats[i]) is Some);
    }
}

proof fn lemma_first_fault(
    routes: Seq<NamedRoute>,
    stats: Seq<Result<FileMeta, String>>,
    i: int,
) -> (first: int)
    requires
        stats.len() == routes.len(),
        0 <= i < routes.len(),
        route_fault(routes[i].name@, stats[i]) is Some,
    ensures
        first_fault(routes, stats, first),
    decreases i,
{
    if first_fault(routes, stats, i) {
        i
    } else {
        let j = choose|j: int|
            0 <= j < i && route_fault(routes[j].name@, #[trigger] stats[j]) is Some;
        lemma_first_fault(routes, stats, j)
    }
}

} // verus!
