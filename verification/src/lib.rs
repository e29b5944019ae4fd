//! Change-detection engine for a course-content watcher.
//!
//! The engine polls a learning-management service on behalf of many
//! subscriptions, diffs the fetched content against previously recorded
//! module identifiers, coalesces course-name lookups, aggregates results
//! per notification target and plans one deduplicated persistence
//! transaction per cycle, while tracking per-subscription failure counts
//! for circuit breaking.
//!
//! All decision logic lives here, verified; network and storage access is
//! left to the surrounding application, which hands the engine plain
//! values (fetch results, stored rows) and carries its outputs
//! (notifications, transaction plans) back out.

pub mod buffer;
pub mod cache;
pub mod clock;
pub mod cycle;
pub mod decimal;
pub mod diff;
pub mod error;
pub mod moodle;
pub mod persist;
pub mod store;
pub mod subscribe;
pub mod tenant;
