//! Core of a note-vault automation tool: calendar arithmetic, a recurrence
//! rule engine, and an idempotent document model for calendar pages.
//!
//! The library is pure computation over in-memory values; reading and writing
//! the vault on disk is left to the calling program.
//!
//! - [`date`] holds the proleptic-Gregorian calendar: dates, months, years
//!   and ISO weeks, with verified navigation and day-number arithmetic.
//! - [`recurrence`] and [`events`] decide whether a recurring event occurs
//!   on a date, after validating its loosely-typed description.
//! - [`text`], [`content`], [`metadata`] and [`page`] form the document
//!   model: parsing, rendering, and change-tracked mutation.
//! - [`laws`] states and proves what the document model promises: parsing
//!   inverts rendering, and re-running mutations changes nothing.
//! - [`names`], [`options`], [`config`] and [`prepare`] compute page
//!   identities and the per-unit updates the tool applies.

pub mod config;
pub mod content;
pub mod date;
pub mod events;
pub mod laws;
pub mod metadata;
pub mod names;
pub mod options;
pub mod page;
pub mod prepare;
pub mod recurrence;
pub mod text;
