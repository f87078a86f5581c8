//! Core of a proof-of-capacity plot miner: plot-file metadata parsing and
//! overlap validation, sector-aligned scoop-region read planning, the bounded
//! buffer pool, per-drive round scheduling with interrupt handling, and the
//! miner's metrics counters.

pub mod hostinfo;
pub mod metrics;
pub mod plot;
pub mod reader;
pub mod rng;
pub mod text;
