//! Cleanup engine for a workstation cleanup tool.
//!
//! The engine works over a snapshot of a filesystem location: the caller
//! captures each scanned location as a [`model::Directory`] of plain values
//! (names, sizes, ages), and the engine decides — with verified contracts —
//! what qualifies for removal, how much space that is, and what the
//! per-category statistics are. Actually reading directories and removing
//! files stays with the caller, which reports per-entry removal outcomes
//! back to the engine.

pub mod bytes;
pub mod cleaner;
pub mod estimator;
pub mod finder;
pub mod model;
pub mod orchestrator;
pub mod retention;
pub mod stats;

pub use model::Directory;
pub use model::Entry;
pub use model::EntryKind;
pub use retention::RetentionRule;
pub use stats::CleanupStats;
