//! Account and order guard policies: protective exits for positions, cancellation of stale
//! entry orders, and the executor that every action passes through.
//!
//! The library decides; a host carries the decisions out. A policy runs in rounds: the host
//! reports what it has read or done, and the policy answers with the next action.

pub mod config;
pub mod eligibility;
pub mod error;
pub mod executor;
pub mod firing;
pub mod number;
pub mod okx_orders;
pub mod outside_range;
pub mod ownership;
pub mod pairs;
pub mod positions;
pub mod prices;
pub mod profit_lock;
pub mod report;
pub mod rules;
pub mod safety;
pub mod static_protect;
pub mod table;
pub mod text;
pub mod tracker;
