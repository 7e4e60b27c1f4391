//! An event-sourcing persistence core: aggregates are pure state machines
//! driven by an ordered event log, and a repository loads an aggregate by
//! replaying its events and appends new events under an optimistic
//! concurrency guard keyed by a per-aggregate generation counter.

pub mod domain;
pub mod handler;
pub mod hex;
pub mod json;
pub mod models;
pub mod project;
pub mod repository;
pub mod time;
pub mod toggle;
pub mod uuid_text;

pub use domain::Generation;
