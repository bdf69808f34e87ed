//! A verified seat inventory and reservation lease engine.
//!
//! A venue is a fixed grid of seats partitioned into zones and categories.
//! Clients place temporary holds on sets of seats, then confirm or cancel
//! them; holds that are not resolved in time are expired by a scheduler.
//! Every operation is specified against a mathematical model of the seat
//! grid and the lease table, and the key exclusion and idempotence
//! properties are proved as lemmas.

pub mod hub;
pub mod inventory;
pub mod leases;
pub mod search;
mod ids;
