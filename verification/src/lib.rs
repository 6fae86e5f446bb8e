//! OpenZax core logic: budgets, routing, scanning, signatures, access control
//! and the other decision procedures of the assistant, with their contracts.

use vstd::prelude::*;

pub mod agent;
pub mod auth;
pub mod cli;
pub mod clock;
pub mod codec;
pub mod compliance;
pub mod context;
pub mod delegation;
pub mod fleet;
pub mod keys;
pub mod layout;
pub mod llm;
pub mod deterministic;
pub mod market;
pub mod market_api;
pub mod mcp;
pub mod orchestration;
pub mod plan_order;
pub mod planner;
pub mod prompt;
pub mod organization;
pub mod rbac;
pub mod routing;
pub mod scanner;
pub mod selfhealing;
pub mod sidebar;
pub mod signing;
pub mod text;
pub mod update;

verus! {

/// Version of the skills SDK.
pub const VERSION: &'static str = "0.1.0";

/// The line the skills SDK announces itself with when it starts, for the
/// caller to print.
pub fn init() -> (banner: String)
    ensures
        banner@ == "OpenZax SDK v"@ + VERSION@,
{
    crate::text::concat2("OpenZax SDK v", VERSION)
}

} // verus!
