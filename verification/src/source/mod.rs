pub mod reader;
pub mod timestamp;
