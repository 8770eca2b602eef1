//! The data of a checking run: its configuration, what one probe brings back,
//! and the record that is kept of it.

use std::time::Duration;
use vstd::prelude::*;

verus! {

/// Settings of one run, shared read-only by all workers.
#[derive(Debug)]
pub struct Config {
    /// Bound on each single network attempt.
    pub timeout: Duration,
    /// Number of concurrent workers asked for; zero counts as one.
    pub workers: usize,
    /// Attempts allowed after the first one has failed.
    pub max_retries: usize,
}

impl Config {
    /// The number of workers a run really uses: the configured number, but at least one.
    pub open spec fn spec_effective_workers(&self) -> usize {
        if self.workers == 0 {
            1
        } else {
            self.workers
        }
    }

    /// The number of workers a run really uses: the configured number, but at least one.
    #[verifier::when_used_as_spec(spec_effective_workers)]
    pub fn effective_workers(&self) -> (n: usize)
        ensures
            n >= 1,
            n == self.spec_effective_workers(),
    {
        if self.workers == 0 {
            1
        } else {
            self.workers
        }
    }
}

impl Clone for Config {
    fn clone(&self) -> (copy: Config)
        ensures
            copy == *self,
    {
        Config { timeout: self.timeout, workers: self.workers, max_retries: self.max_retries }
    }
}

/// What the HTTP client handed back for one request.
#[derive(Debug)]
pub enum Reply {
    /// A response arrived and the client took it as a success.
    Response(u16),
    /// A response arrived with a status that the client reports as an error.
    ErrorStatus(u16),
    /// No response arrived: the request failed in transport, with the client's description.
    Transport(String),
}

impl Reply {
    /// The outcome this reply stands for: any status received is a success of
    /// the probe, only a transport failure is a failure.
    pub open spec fn outcome(&self) -> Result<u16, Seq<char>> {
        match self {
            Reply::Response(code) => Ok(*code),
            Reply::ErrorStatus(code) => Ok(*code),
            Reply::Transport(message) => Err(message@),
        }
    }

    /// The outcome this reply stands for.
    pub fn into_outcome(self) -> (status: Result<u16, String>)
        ensures
            outcome_view(status) == self.outcome(),
    {
        match self {
            Reply::Response(code) => Ok(code),
            Reply::ErrorStatus(code) => Ok(code),
            Reply::Transport(message) => Err(message),
        }
    }
}

impl Clone for Reply {
    fn clone(&self) -> (copy: Reply)
        ensures
            copy == *self,
    {
        match self {
            Reply::Response(code) => Reply::Response(*code),
            Reply::ErrorStatus(code) => Reply::ErrorStatus(*code),
            Reply::Transport(message) => Reply::Transport(message.clone()),
        }
    }
}

/// An outcome with its message as a sequence of characters.
pub open spec fn outcome_view(status: Result<u16, String>) -> Result<u16, Seq<char>> {
    match status {
        Ok(code) => Ok(code),
        Err(message) => Err(message@),
    }
}

/// The record of one probe of one URL.
#[derive(Debug)]
pub struct WebsiteStatus {
    /// The URL that was probed, as it was given.
    pub url: String,
    /// The status code received, or the description of the transport failure.
    pub status: Result<u16, String>,
    /// How long the attempt took.
    pub response_time: Duration,
    /// When the attempt ended, in milliseconds since the Unix epoch (UTC).
    pub timestamp_unix_ms: u128,
}

impl Clone for WebsiteStatus {
    fn clone(&self) -> (copy: WebsiteStatus)
        ensures
            copy == *self,
    {
        let status = match &self.status {
            Ok(code) => Ok(*code),
            Err(message) => Err(message.clone()),
        };
        WebsiteStatus {
            url: self.url.clone(),
            status,
            response_time: self.response_time,
            timestamp_unix_ms: self.timestamp_unix_ms,
        }
    }
}

/// A `WebsiteStatus` with its strings as sequences of characters.
pub struct StatusView {
    pub url: Seq<char>,
    pub outcome: Result<u16, Seq<char>>,
    pub response_time: Duration,
    pub timestamp_unix_ms: u128,
}

impl View for WebsiteStatus {
    type V = StatusView;

    open spec fn view(&self) -> StatusView {
        StatusView {
            url: self.url@,
            outcome: outcome_view(self.status),
            response_time: self.response_time,
            timestamp_unix_ms: self.timestamp_unix_ms,
        }
    }
}

/// A list of records, each with its strings as sequences of characters.
pub open spec fn records(list: Seq<WebsiteStatus>) -> Seq<StatusView> {
    list.map_values(|record: WebsiteStatus| record@)
}

/// The record of one probe: the URL echoed, the outcome, and the two
/// measurements as they were taken.
pub open spec fn status_of(
    url: Seq<char>,
    outcome: Result<u16, Seq<char>>,
    response_time: Duration,
    timestamp_unix_ms: u128,
) -> StatusView {
    StatusView { url, outcome, response_time, timestamp_unix_ms }
}

/// Records one probe of `url`. Any status code received makes the outcome a
/// success with that code, whatever the code; a transport failure makes it a
/// failure with the client's message.
pub fn check_url_once(
    url: &str,
    reply: Reply,
    response_time: Duration,
    timestamp_unix_ms: u128,
) -> (record: WebsiteStatus)
    ensures
        record@ == status_of(url@, reply.outcome(), response_time, timestamp_unix_ms),
        record.status is Ok <==> !(reply is Transport),
{
    WebsiteStatus {
        url: url.to_string(),
        status: reply.into_outcome(),
        response_time,
        timestamp_unix_ms,
    }
}

} // verus!
