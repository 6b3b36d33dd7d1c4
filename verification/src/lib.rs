pub mod admission;
pub mod assoc;
pub mod auth;
pub mod auth_laws;
pub mod config;
pub mod cost;
pub mod executor;
pub mod executor_laws;
pub mod fail_cache;
pub mod handler;
pub mod handler_laws;
pub mod headers;
pub mod ip;
pub mod ip_laws;
pub mod ip_map;
pub mod lines;
pub mod lines_laws;
pub mod logging;
pub mod net;
pub mod net_laws;
pub mod rate_limit;
pub mod route_state;
pub mod text;
pub mod text_laws;
pub mod tracker;
pub mod tracker_laws;
