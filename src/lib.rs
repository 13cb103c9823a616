//! Cash-shift ledger, sale settlement and shift reconciliation for a
//! point-of-sale terminal. Money is held in integer cents.
//!
//! - `ledger`: the record store and the shift life cycle (open, post a
//!   movement, close), with the expected cash kept equal to the replay of
//!   each shift's movement log.
//! - `movement`: movement kinds, their signs, and the folds over the log.
//! - `sale`: settlement of a sale against the catalog's stock.
//! - `report`: reconciliation reports, and their storage.
//! - `auth`: user accounts and login.
//! - `catalog`: product records.
//! - `laws`: properties that hold of every well-formed store.

mod outside;

pub mod movement;
pub mod sale;
pub mod auth;
pub mod ledger;
pub mod report;
pub mod catalog;
pub mod laws;
