//! Test harness for a simulated mutable/immutable data store: an authority
//! and addressing model, randomized workload generators, and a synchronous
//! client that drives a steppable network simulation round by round.

pub mod account;
pub mod authority;
pub mod data;
pub mod laws;
pub mod mdata;
pub mod network;
pub mod rng;
pub mod test_client;
pub mod test_utils;

use vstd::prelude::*;

verus! {

/// Reserved type tag of the session-packet record that an account creation
/// stores.
pub const TYPE_TAG_SESSION_PACKET: u64 = 0;

} // verus!
