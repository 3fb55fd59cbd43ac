//! The data providers.

pub mod clickhouse;
pub mod congress;
pub mod dummy;
pub mod iceberg;
pub mod sql;
pub mod substack;
