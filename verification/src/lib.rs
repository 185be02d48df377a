//! A verified core for a profile service backed by a key-value table.
//!
//! Records live in a table keyed by a `(user_id, profile_id)` pair of
//! strings.  The `store` module gives the table's point operations exact
//! contracts; the `service` module builds the five profile operations on
//! top of them; `laws` states the properties that relate several
//! operations and proves them from the contracts alone.

pub mod error;
pub mod item;
pub mod laws;
pub mod models;
pub mod service;
pub mod store;
