pub mod collector_client;
pub mod collector_stream;
pub mod runner;
