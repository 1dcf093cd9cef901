//! Streams tabular result sets out of SQL databases as one canonical value
//! model, and models a database schema as a searchable tree.
//!
//! The crate holds the decisions of the tool: how native column types and
//! cells become canonical ones, how batches are cut, in which order an
//! export proceeds, how the schema tree is built, searched and rendered,
//! and what is handed to the database clients. Network and file access
//! stay with the caller, who fetches rows and hands them over as plain
//! values.
//!
//! - [`definitions`]: the canonical values, rows and column descriptions.
//! - [`sources`]: MySQL and PostgreSQL as sources of rows.
//! - [`export`]: the order of an export.
//! - [`commands`]: the options of the commands, the schema tree and the
//!   interactive clients.
//! - [`tree`] and [`arena`]: the mathematics of the schema tree and the
//!   arena that holds it.
//! - [`text`], [`calendar`] and [`utils`]: strings, dates and reports.

pub mod definitions;
pub mod tree;
pub mod arena;
pub mod text;
pub mod calendar;
pub mod sources;
pub mod utils;
pub mod export;
pub mod commands;
