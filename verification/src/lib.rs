//! Concurrent URL-availability checking: the decisions of the checker, verified.
//!
//! The library holds every decision of a checking run as verified code: how one
//! probe's reply becomes an outcome, when a failed attempt is retried, which
//! worker gets which URL, and how results are gathered. Sending the request,
//! sleeping and running threads is left to the caller.
//!
//! - [`status`]: the configuration, a probe's reply and the record kept of it.
//! - [`retry`]: the retry policy, as the states of one job.
//! - [`board`]: the run as a state machine, the model of the dispatcher.
//! - [`dispatcher`]: the executable queue and result sink.
//! - [`laws`]: what holds of every run.
//! - [`lines`]: reading a list of URLs, line by line.
//! - [`numbers`], [`words`]: exercises on integers and on the words of a text.
//! - [`text`]: what the others share about strings.

pub mod board;
pub mod dispatcher;
pub mod laws;
pub mod lines;
pub mod numbers;
pub mod retry;
pub mod status;
pub mod text;
pub mod words;

pub use dispatcher::{Dispatcher, Poll, POLL_WAIT_MS};
pub use retry::{JobState, BACKOFF_MS};
pub use status::{check_url_once, Config, Reply, StatusView, WebsiteStatus};
