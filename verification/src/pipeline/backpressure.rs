use vstd::prelude::*;
use crate::config::types::BackpressureStrategy;

verus! {

/// Decides how much the channels between pipeline stages hold. Every
/// strategy is carried out, for now, by bounded channels that block.
pub struct BackpressureHandler {
    strategy: BackpressureStrategy,
    buffer_limit: usize,
}

impl BackpressureHandler {
    pub closed spec fn spec_strategy(&self) -> BackpressureStrategy {
        self.strategy
    }

    pub closed spec fn limit(&self) -> usize {
        self.buffer_limit
    }

    pub fn new(strategy: BackpressureStrategy, buffer_limit: usize) -> (h: Self)
        ensures
            h.spec_strategy() == strategy,
            h.limit() == buffer_limit,
    {
        BackpressureHandler { strategy, buffer_limit }
    }

    /// The capacity of the channels: the configured buffer limit, whatever
    /// the strategy.
    pub fn channel_buffer_size(&self) -> (n: usize)
        ensures
            n == self.limit(),
    {
        match self.strategy {
            BackpressureStrategy::Block => self.buffer_limit,
            BackpressureStrategy::Drop => self.buffer_limit,
            BackpressureStrategy::BufferInMemory => self.buffer_limit,
        }
    }

    /// The configured strategy.
    pub fn strategy(&self) -> (s: BackpressureStrategy)
        ensures
            s == self.spec_strategy(),
    {
        self.strategy
    }
}

} // verus!
