use vstd::prelude::*;
use crate::config::types::CollectorEndpoint;
use crate::text::{append_str, decimal_chars, spec_decimal, string_from_chars};
use crate::time::Nanos;

verus! {

/// Errors of talking to a collector.
#[derive(Debug)]
pub enum CollectorClientError {
    /// The request failed; its message.
    HttpError(String),
    /// The reply did not read; its message.
    JsonError(String),
    /// The collector answered with an error status.
    CollectorError { status: u16, message: String },
    Timeout,
    MaxRetriesExceeded,
}

/// Where a collector is reached, and how long to wait before trying again.
pub struct CollectorClient {
    pub collector_id: String,
    pub base_url: String,
    pub retry_interval: Nanos,
}

/// The longest wait between two tries.
pub const MAX_BACKOFF: Nanos = 60_000_000_000;

impl CollectorClient {
    pub fn new(config: &CollectorEndpoint) -> (c: CollectorClient)
        ensures
            c.collector_id@ == config.id@,
            c.base_url@ == config.url@,
            c.retry_interval == config.retry_interval,
    {
        CollectorClient {
            collector_id: config.id.clone(),
            base_url: config.url.clone(),
            retry_interval: config.retry_interval,
        }
    }

    pub fn collector_id(&self) -> (s: &str)
        ensures
            s@ == self.collector_id@,
    {
        self.collector_id.as_str()
    }

    fn url(&self, path: &str) -> (u: String)
        ensures
            u@ == self.base_url@ + path@,
    {
        let mut v: Vec<char> = Vec::new();
        append_str(&mut v, self.base_url.as_str());
        append_str(&mut v, path);
        string_from_chars(v.as_slice())
    }

    /// The address of the collector's status.
    pub fn status_url(&self) -> (u: String)
        ensures
            u@ == self.base_url@ + "/collector/status"@,
    {
        self.url("/collector/status")
    }

    /// The address that lists batches: those after `after` (from the start
    /// when `None`), at most `limit` of them.
    pub fn batches_url(&self, after: Option<u64>, limit: usize) -> (u: String)
        ensures
            u@ == match after {
                Some(seq) => self.base_url@ + "/collector/batches?after="@ + spec_decimal(seq as nat) + "&limit="@
                    + spec_decimal(limit as nat),
                None => self.base_url@ + "/collector/batches?limit="@ + spec_decimal(limit as nat),
            },
    {
        let mut v: Vec<char> = Vec::new();
        append_str(&mut v, self.base_url.as_str());
        match after {
            Some(seq) => {
                append_str(&mut v, "/collector/batches?after=");
                let d = string_from_chars(decimal_chars(seq).as_slice());
                append_str(&mut v, d.as_str());
                append_str(&mut v, "&limit=");
            },
            None => {
                append_str(&mut v, "/collector/batches?limit=");
            },
        }
        let l = string_from_chars(decimal_chars(limit as u64).as_slice());
        append_str(&mut v, l.as_str());
        string_from_chars(v.as_slice())
    }

    /// The address that acknowledges batches.
    pub fn acknowledge_url(&self) -> (u: String)
        ensures
            u@ == self.base_url@ + "/collector/acknowledge"@,
    {
        self.url("/collector/acknowledge")
    }

    /// The address that rewinds the collector.
    pub fn rewind_url(&self) -> (u: String)
        ensures
            u@ == self.base_url@ + "/collector/rewind"@,
    {
        self.url("/collector/rewind")
    }

    /// The address of the collector's checkpoint.
    pub fn checkpoint_url(&self) -> (u: String)
        ensures
            u@ == self.base_url@ + "/collector/checkpoint"@,
    {
        self.url("/collector/checkpoint")
    }
}

/// What to do after a failed request.
pub enum RetryDecision {
    /// Wait this long, then try again.
    RetryAfter(Nanos),
    /// Stop: the tries are used up.
    GiveUp,
}

/// The tries of one request: how many failed, and the next wait, which
/// doubles after each failure up to `MAX_BACKOFF`.
pub struct RetryState {
    pub attempts: usize,
    pub backoff: Nanos,
}

/// The wait after the current one.
pub open spec fn next_backoff(b: Nanos) -> Nanos {
    if 2 * b < MAX_BACKOFF { (2 * b) as Nanos } else { MAX_BACKOFF }
}

impl RetryState {
    /// The state before the first try.
    pub fn start(client: &CollectorClient) -> (s: RetryState)
        ensures
            s.attempts == 0,
            s.backoff == client.retry_interval,
    {
        RetryState { attempts: 0, backoff: client.retry_interval }
    }

    /// Decides, after a failure, whether to try again and after how long:
    /// the request is given up once `max_retries` tries have failed.
    pub fn on_failure(&mut self, max_retries: usize) -> (d: RetryDecision)
        requires
            old(self).attempts < usize::MAX,
            old(self).backoff <= u128::MAX / 2,
        ensures
            final(self).attempts == old(self).attempts + 1,
            final(self).attempts >= max_retries ==> d is GiveUp && final(self).backoff == old(self).backoff,
            final(self).attempts < max_retries ==> d == RetryDecision::RetryAfter(old(self).backoff)
                && final(self).backoff == next_backoff(old(self).backoff),
    {
        self.attempts = self.attempts + 1;
        if self.attempts >= max_retries {
            return RetryDecision::GiveUp;
        }
        let wait = self.backoff;
        let doubled = self.backoff * 2;
        self.backoff = if doubled < MAX_BACKOFF { doubled } else { MAX_BACKOFF };
        RetryDecision::RetryAfter(wait)
    }
}

/// Law: the wait after a failure never exceeds the limit, stays at the
/// limit once there, and below the limit never shrinks.
pub proof fn law_backoff_bounded(b: Nanos)
    ensures
        next_backoff(b) <= MAX_BACKOFF,
        b >= MAX_BACKOFF ==> next_backoff(b) == MAX_BACKOFF,
        b < MAX_BACKOFF ==> next_backoff(b) >= b,
{
}

} // verus!
