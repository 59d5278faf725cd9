pub mod key_index;
pub mod laws;
pub mod processor;
pub mod rule;
pub mod session;
