pub mod checkpoint;
pub mod duckdb;
pub mod traits;
