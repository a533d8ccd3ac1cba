//! A personal task store: tasks, tags, the associations between them and
//! the application settings, with every operation proved against a
//! mathematical model of the stored relations.
//!
//! - [`models`] holds the records and requests, [`error`] the failures.
//! - [`model`] is the mathematics: the state of a store and what each
//!   operation makes of it.
//! - [`database`] is the store itself. It lives in memory; the caller
//!   reads it from the database file when the application starts, and
//!   writes it back after each change.
//! - [`laws`] and [`listing_laws`] state what holds of every store;
//!   [`invariants`] shows that no operation breaks the rules of a store.
//! - [`instant`], [`text`], [`query`], [`rows`] and [`lookup`] are the
//!   parts the store is built from, and [`commands`] the decisions of
//!   the command surface.
//!
//! Time never comes from a clock in here: an operation that needs the
//! current instant takes it as `now`.

pub mod commands;
pub mod database;
pub mod error;
pub mod instant;
pub mod invariants;
pub mod laws;
pub mod listing_laws;
pub mod lookup;
pub mod model;
pub mod models;
pub mod query;
pub mod rows;
pub mod text;
