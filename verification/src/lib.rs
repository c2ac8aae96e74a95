//! Daily equity time-series service core.
//!
//! The library ingests provider records (normalized, de-duplicated and
//! upserted by `(symbol, date)` key), and serves them back through a
//! filtering/pagination query engine and a statistics engine. A scheduler
//! state machine drives the ingestion cadence with cooperative cancellation.
//!
//! Calendar dates are carried as Julian day numbers; prices are fixed-point
//! values in ten-thousandths of the currency unit, so that every rule of the
//! core is stated and proved over plain integers. The embedding binary
//! converts at the edges.

pub mod date;
pub mod error;
pub mod ingest;
pub mod model;
pub mod query;
pub mod scheduler;
pub mod stats;
pub mod store;
pub mod text;
