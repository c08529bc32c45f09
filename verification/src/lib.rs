//! Reading and decoding of MongoDB full-time diagnostic data capture (FTDC)
//! archives: binary files of compressed, delta-encoded server telemetry.
//!
//! The crate decodes an archive into a stream of metric chunks, each carrying
//! named time series with per-sample timestamps, and offers filters over the
//! stream (by host name and by time window) together with a small layout
//! model for rendering the decoded metrics as charts.

use vstd::prelude::*;

pub mod bson;
pub mod bytes;
pub mod error;
pub mod id;
pub mod page;
pub mod filter;
pub mod compress;
pub mod metadata;
pub mod metrics;
pub mod read;
pub mod strfmt;
pub mod vis;
pub mod walk;

verus! {

} // verus!
