# cause

cause provides a basic and argument-less API for triggering things in remote machines over HTTP.
A `POST /<route>` with a valid key runs the route's executable and streams its output as
server-sent events. `GET /` answers `200 OK` for load balancer probes.

- a process, once triggered, runs to completion or timeout even if the triggering party disconnects
- targets only linux systems
- intended to be behind a reverse proxy; never expose it directly to untrusted networks

The logic is a library in Verus: every function of `src/` is proved against its contract. `app/` is
ordinary Rust around it: the command line, files, sockets, timers and processes.

## layout

| module                     | what it holds                                                              |
|----------------------------|----------------------------------------------------------------------------|
| `text`, `ip`, `assoc`      | plain text, IP addresses, recency-ordered pairs                            |
| `headers`, `net`           | request headers, and which client a request comes from                     |
| `ip_map`, `fail_cache`     | tables by address                                                          |
| `tracker`, `tracker_laws`  | counting failed authentications and blocking addresses                     |
| `auth`, `auth_laws`        | keys files and the verification of keys                                    |
| `cost`                     | how much memory the verification of a hash takes                           |
| `config`                   | the configuration, its defaults, and which routes are accepted             |
| `route_state`              | a route as the server runs it                                              |
| `admission`                | attempts in flight per address, and the queue for a verification slot      |
| `handler`, `handler_laws`  | authenticating a request, and how it is refused                            |
| `lines`, `lines_laws`      | the output of a process, cut into lines of bounded length                  |
| `executor`, `executor_laws`| supervising a process, and streaming its output until it is over           |
| `rate_limit`, `logging`    | limits on the request rate, the form of the log                            |

What waits or does I/O is split in two: the library decides, from a state and an event, the next
state and what to do; `app/` does it and comes back with the next event. Public proof functions whose
names begin with `law_` state what holds over several calls.

What is not proved is what the library believes of the crates that it calls. Each such place is
marked `external_body`, and its comment says which function it calls and what is claimed of it.

## configuration

cause is configured with a TOML file (default: `cause.toml`). All fields of `[global]` have defaults;
unknown fields are rejected.

| option                     | default       | description                                                                 |
|----------------------------|---------------|-----------------------------------------------------------------------------|
| `auth_header`              | `"x-api-key"` | HTTP header carrying the API key                                            |
| `timeout`                  | `900`         | max runtime (seconds) of a triggered process before it is killed            |
| `trusted_proxies`          | `[]`          | IPs of reverse proxies allowed to set `x-forwarded-for`                     |
| `auth_semaphore_size`      | `4`           | max concurrent password-hash verifications                                  |
| `failure_threshold`        | `10`          | auth failures per IP within `failure_window_secs` before it is blocked      |
| `failure_window_secs`      | `600`         | fixed window (seconds) for counting auth failures                           |
| `block_duration_secs`      | `600`         | how long (seconds) an IP remains blocked                                    |
| `tarpit_duration_ms`       | `500`         | delay (milliseconds) of failed attempts and of requests from blocked IPs    |
| `rate_limit_per_second`    | `2`           | sustained per-IP request rate                                               |
| `rate_limit_burst`         | `5`           | per-IP burst allowance on top of the sustained rate                         |
| `kill_grace_secs`          | `1`           | grace period (seconds) between SIGTERM and SIGKILL                          |
| `drain_grace_secs`         | `1`           | post-exit grace period (seconds) for draining the output                    |
| `max_line_length`          | `65536`       | max length (bytes) of an output line; longer lines are truncated            |
| `failure_max_entries`      | `100000`      | max IPs tracked in the failure table                                        |
| `auth_acquire_timeout_ms`  | `2000`        | max time (milliseconds) to wait for an auth verification slot               |
| `max_inflight_auth_per_ip` | `2`           | max concurrent auth attempts per IP                                         |
| `max_auth_queue_depth`     | `64`          | max requests waiting for an auth slot before new ones are rejected          |

Each `[routes.<name>]` becomes a `POST /<name>` endpoint, with `shell`, `args`, `keys` and, if it is
not `1`, `concurrency`. Names may only contain ASCII alphanumerics, `_` and `-`. A keys file holds
lines of the form `keyid:hash` with yescrypt hashes; the value of the auth header is `keyid.secret`.
