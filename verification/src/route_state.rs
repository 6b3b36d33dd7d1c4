//! A route as the server runs it.

use crate::auth::Keys;
use crate::config::RouteConfig;
use vstd::prelude::*;

verus! {

/// A route: what it runs, how often at once, and who may trigger it.
#[derive(Clone, Debug)]
pub struct RouteState {
    pub config: RouteConfig,
    pub keys: Keys,
}

/// A route under its name.
#[derive(Clone, Debug)]
pub struct NamedState {
    pub name: String,
    pub state: RouteState,
}

} // verus!
