//! Relays messages among channels linked into named groups: a registry of
//! groups and channel memberships, the fan-out that decides which delivery
//! endpoints a message goes to, and the decisions behind the administrators'
//! commands.
use vstd::prelude::*;

pub mod commands;
pub mod registry;
pub mod relay;

verus! {

} // verus!
