//! Habit streaks: the streak entity with its check-in rules and derived
//! status, an ordered in-memory store of streaks, and the sort, filter and
//! search queries over a snapshot of them. Every executable function carries
//! a contract that Verus proves.
//!
//! - [`date`]: calendar dates as day numbers, made and read with `chrono`.
//! - [`ident`]: streak identities and their short idents, drawn and written
//!   with `uuid`.
//! - [`text`]: order, equality and substring search on the bytes of text.
//! - [`streak`]: the streak, its counters, check-in and status.
//! - [`sorting`]: sort fields and directions, sort tokens, the stable sort.
//! - [`filtering`]: conditions on a streak, and the filters built on them.
//! - [`db`]: the store and its operations.
//! - [`query`]: a whole listing: search, filters and sort in one call.
//!
//! The library reads and writes no file. A program that keeps a store on
//! disk decodes the file and hands the streaks to [`db::Database::new`].

pub mod date;
pub mod db;
pub mod filtering;
pub mod ident;
pub mod query;
pub mod sorting;
pub mod streak;
pub mod text;
