//! Per-owner record collections for a to-do application: categories and
//! tasks, kept in insertion order and created lazily on first access.

pub mod categories;
pub mod error;
pub mod laws;
pub mod store;
pub mod tasks;
pub mod text;
