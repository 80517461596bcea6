//! Authorization and lifecycle core of a community platform: a capability
//! registry, a membership directory, and a content access / rate limiter,
//! each modelled as an explicit state value with verified transitions.
#![verifier::loop_isolation(false)]

use vstd::prelude::*;

pub mod errors;
pub mod oracle;
pub mod post_minter;
pub mod role_manager;
pub mod tribe_controller;

verus! {

/// Builds the conventional `name/version` label for a deployed contract.
pub fn create_contract_version(name: &str, version: &str) -> (r: String)
    ensures
        r@ == name@ + "/"@ + version@,
{
    let mut s = String::from_str(name);
    s.append("/");
    s.append(version);
    s
}

} // verus!
