//! A verified allocation domain model: customer order lines are allocated
//! against inbound stock batches of a single SKU, preferring stock already
//! on hand and, among shipments still in transit, the earliest arrival.
//!
//! The entities ([`model::Batch`], [`model::OrderLine`]) and the allocation
//! service ([`model::allocate`]) are pure, in-memory logic; loading batches
//! from storage and persisting them back is the surrounding application's
//! concern, reached through the [`repository::Repository`] interface.

pub mod date;
pub mod error;
pub mod model;
pub mod repository;
