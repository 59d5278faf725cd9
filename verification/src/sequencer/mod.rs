pub mod laws;
pub mod local;
pub mod merge;
