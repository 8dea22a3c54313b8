//! Policy enforcement for inbound proxy traffic: header filters, HTTP route
//! selection by specificity, and the per-connection authorization state
//! machine.
use vstd::prelude::*;

pub mod bytes;
pub mod header;
pub mod modify_header;
pub mod policy;
pub mod precedence;
pub mod route;
pub mod route_match;
pub mod tcp;

verus! {

} // verus!
