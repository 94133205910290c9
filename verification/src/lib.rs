//! A poll/vote engine with multi-surface synchronization.
//!
//! A poll collects attendance votes and may be displayed as several
//! independent message surfaces (chat messages and inline-shared copies).
//! The store keeps polls, surfaces and votes consistent; the render and
//! router modules compute the canonical text and the fan-out plan that
//! keeps every surface in step with the store.

pub mod database;
pub mod render;
pub mod router;
