pub mod api;
pub mod batch;
pub mod batch_buffer;
pub mod epoch_batcher;
pub mod runner;
