//! Verified core of an expense tracker: calendar dates, the expense/category/user
//! store with its integrity rules, the spending reports computed over it, the
//! request handlers' decisions, error classification, and the CLI's text output.
use vstd::prelude::*;

pub mod auth;
pub mod cli;
pub mod date;
pub mod error;
pub mod handlers;
pub mod ids;
pub mod laws;
pub mod model;
pub mod order;
pub mod password;
pub mod report;
pub mod store;

verus! {

} // verus!
