pub mod backpressure;
pub mod runner;
