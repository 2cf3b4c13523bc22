//! Metrics aggregation and rollup engine for a set of dental-lab offices.
//!
//! The library keeps the whole engine pure: it works on an in-memory
//! [`store::Store`] of plain rows and never performs I/O itself.  The
//! surrounding application loads rows from its database into the store,
//! calls the engine, and writes the results back.
//!
//! Modules, leaves first:
//! - [`period`]: (year, month) / week-number arithmetic shared by everything.
//! - [`value`]: exact rational values and rounded division.
//! - [`records`]: the row types and keyed-table machinery.
//! - [`store`]: the in-memory table set with its uniqueness invariants.
//! - [`rollup`]: weekly production rows rolled up into monthly rows.
//! - [`metrics`]: per-office scalar values for a named metric over a window.
//! - [`dashboard`]: one combined summary per office for a window.
//! - [`compliance`]: submission-compliance rates and streaks.
//! - [`ranking`]: per-office metric values for ranking displays.
//! - [`imports`]: row-level policy of the bulk importers.

pub mod compliance;
pub mod dashboard;
pub mod errors;
pub mod imports;
pub mod metrics;
pub mod period;
pub mod ranking;
pub mod records;
pub mod rollup;
pub mod store;
pub mod value;
