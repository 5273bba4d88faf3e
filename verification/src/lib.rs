//! Core of a terminal news dashboard: feed-item normalization, chat message
//! deduplication, the aggregator state the render loop owns, and the pure
//! text-layout engine that packs items into fixed-width cells.
//!
//! Network transport, terminal drawing and process configuration live in the
//! surrounding application; this crate holds the logic with invariants.

pub mod auth;
pub mod chat;
pub mod dashboard;
pub mod feed;
pub mod layout;
pub mod text;
