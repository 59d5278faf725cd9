//! Noil: a log correlation library. Log records from several sources are merged
//! into global timestamp order and grouped into fibers by configurable rules.

pub mod assoc;
pub mod cli;
pub mod collector;
pub mod config;
pub mod fiber;
pub mod ids;
pub mod matcher;
pub mod parent;
pub mod pipeline;
pub mod reprocessing;
pub mod sequencer;
pub mod source;
pub mod storage;
pub mod text;
pub mod time;
pub mod web;
