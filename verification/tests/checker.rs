//! Whole runs of the checker against a scripted backend: the test plays the
//! workers and the network, every decision is the library's.

use std::time::Duration;
use website_checker::{
    check_url_once, Config, Dispatcher, JobState, Poll, Reply, WebsiteStatus, BACKOFF_MS,
    POLL_WAIT_MS,
};

const BASE: &str = "http://127.0.0.1:5000";

/// A backend that answers by the path of the URL, the same at every attempt.
fn backend(url: &str) -> Reply {
    if url.ends_with("/ok") {
        Reply::Response(200)
    } else if url.ends_with("/nope") {
        Reply::ErrorStatus(404)
    } else if url.ends_with("/broken") {
        Reply::ErrorStatus(500)
    } else if url.ends_with("/moved") {
        Reply::Response(301)
    } else {
        Reply::Transport(format!("{}: timed out reading response", url))
    }
}

/// The outcome of one run: the results, and how many probes each URL got.
struct Run {
    results: Vec<WebsiteStatus>,
    probes: Vec<(String, usize)>,
}

impl Run {
    fn probes_of(&self, url: &str) -> usize {
        self.probes.iter().filter(|(u, _)| u == url).map(|(_, n)| *n).sum()
    }

    fn findings(&self) -> Vec<(String, Result<u16, String>)> {
        let mut all: Vec<_> =
            self.results.iter().map(|r| (r.url.clone(), r.status.clone())).collect();
        all.sort();
        all
    }
}

/// Runs the workers of `cfg` in turn, one step each per round: a free worker
/// polls, a busy one probes its URL at `answer` and reports. `order` says in
/// which direction the workers take their turns.
fn run_with(
    urls: Vec<String>,
    cfg: &Config,
    stop: bool,
    forward: bool,
    answer: &dyn Fn(&str, usize) -> Reply,
) -> Run {
    let mut board = Dispatcher::new(cfg);
    for url in urls {
        assert!(board.enqueue(url));
    }
    board.close();
    let workers = board.workers();
    let mut held: Vec<Option<(String, usize)>> = vec![None; workers];
    let mut done = vec![false; workers];
    let mut probes: Vec<(String, usize)> = Vec::new();
    let mut clock: u128 = 0;
    while done.iter().any(|d| !d) {
        for turn in 0..workers {
            let worker = if forward { turn } else { workers - 1 - turn };
            if done[worker] {
                continue;
            }
            match held[worker].take() {
                None => match board.poll(worker) {
                    Some(Poll::Job(url)) => held[worker] = Some((url, 1)),
                    Some(Poll::Idle) => {}
                    Some(Poll::Closed) | None => done[worker] = true,
                },
                Some((url, attempt)) => {
                    clock += 1;
                    let reply = answer(&url, attempt);
                    let verdict =
                        board.report(worker, reply, Duration::from_millis(7), clock, stop);
                    match verdict {
                        Some(state @ JobState::InFlight { retries }) => {
                            assert_eq!(retries, attempt);
                            assert_eq!(state.delay_ms(), BACKOFF_MS);
                            held[worker] = Some((url, attempt + 1));
                        }
                        Some(_) => probes.push((url, attempt)),
                        None => panic!("a busy worker was refused"),
                    }
                }
            }
        }
    }
    assert!(board.is_drained());
    Run { results: board.into_results(), probes }
}

fn run_concurrent(urls: Vec<String>, cfg: &Config, stop: bool) -> Vec<WebsiteStatus> {
    run_with(urls, cfg, stop, true, &|url, _| backend(url)).results
}

fn config(timeout_ms: u64, workers: usize, max_retries: usize) -> Config {
    Config { timeout: Duration::from_millis(timeout_ms), workers, max_retries }
}

#[test]
fn success_timeout_and_404() {
    let urls = vec![format!("{}/ok", BASE), format!("{}/slow", BASE), format!("{}/nope", BASE)];

    let cfg = Config { timeout: Duration::from_millis(100), workers: 8, max_retries: 1 };

    let stop = false;
    let results = run_concurrent(urls, &cfg, stop);

    assert_eq!(results.len(), 3);
    assert!(results.iter().any(|r| r.url.ends_with("/ok") && r.status == Ok(200)));
    assert!(results.iter().any(|r| r.url.ends_with("/nope") && r.status == Ok(404)));
    assert!(results.iter().any(|r| r.url.ends_with("/slow") && r.status.is_err()));
}

#[test]
fn retry_backoff_runs() {
    let cfg = Config { timeout: Duration::from_millis(10), workers: 1, max_retries: 2 };
    let agent = ureq::AgentBuilder::new().timeout(cfg.timeout).build();
    let reply = match agent.get("http://127.0.0.1:9").call() {
        Ok(resp) => Reply::Response(resp.status()),
        Err(ureq::Error::Status(code, _)) => Reply::ErrorStatus(code),
        Err(ureq::Error::Transport(t)) => Reply::Transport(t.to_string()),
    };
    let _ = check_url_once("http://127.0.0.1:9", reply, Duration::from_millis(1), 0);
}

#[test]
fn slow_url_fails_after_two_attempts() {
    let urls = vec![format!("{}/ok", BASE), format!("{}/slow", BASE), format!("{}/nope", BASE)];
    let run = run_with(urls, &config(100, 8, 1), false, true, &|url, _| backend(url));
    assert_eq!(run.probes_of(&format!("{}/ok", BASE)), 1);
    assert_eq!(run.probes_of(&format!("{}/nope", BASE)), 1);
    assert_eq!(run.probes_of(&format!("{}/slow", BASE)), 2);
    let slow = run.results.iter().find(|r| r.url.ends_with("/slow")).unwrap();
    assert_eq!(
        slow.status,
        Err(format!("{}/slow: timed out reading response", BASE))
    );
}

#[test]
fn empty_input_gives_empty_list() {
    let results = run_concurrent(Vec::new(), &config(100, 4, 2), false);
    assert!(results.is_empty());
}

#[test]
fn one_result_per_url_with_duplicates() {
    let urls: Vec<String> =
        ["/ok", "/nope", "/ok", "/slow", "/ok", "/slow"].iter().map(|p| format!("{}{}", BASE, p)).collect();
    let results = run_concurrent(urls.clone(), &config(100, 3, 2), false);
    assert_eq!(results.len(), 6);
    let mut got: Vec<String> = results.iter().map(|r| r.url.clone()).collect();
    let mut want = urls;
    got.sort();
    want.sort();
    assert_eq!(got, want);
}

#[test]
fn any_status_is_a_success() {
    for code in [100u16, 200, 301, 404, 500, 599] {
        let early = check_url_once("http://a/x", Reply::Response(code), Duration::from_millis(3), 9);
        assert_eq!(early.status, Ok(code));
        let late = check_url_once("http://a/x", Reply::ErrorStatus(code), Duration::from_millis(3), 9);
        assert_eq!(late.status, Ok(code));
    }
    let run = run_with(
        vec![format!("{}/broken", BASE), format!("{}/moved", BASE)],
        &config(100, 2, 3),
        false,
        true,
        &|url, _| backend(url),
    );
    assert_eq!(
        run.findings(),
        vec![(format!("{}/broken", BASE), Ok(500)), (format!("{}/moved", BASE), Ok(301))]
    );
    assert_eq!(run.probes_of(&format!("{}/broken", BASE)), 1);
}

#[test]
fn record_echoes_what_it_was_given() {
    let record = check_url_once(
        "http://example.org/",
        Reply::Transport("connection refused".to_string()),
        Duration::from_millis(42),
        1_700_000_000_123,
    );
    assert_eq!(record.url, "http://example.org/");
    assert_eq!(record.status, Err("connection refused".to_string()));
    assert_eq!(record.response_time, Duration::from_millis(42));
    assert_eq!(record.timestamp_unix_ms, 1_700_000_000_123);
    let copy = record.clone();
    assert_eq!(copy.url, record.url);
    assert_eq!(copy.status, record.status);
}

#[test]
fn failing_url_gets_one_plus_max_retries_attempts() {
    for max_retries in [0usize, 1, 2, 5] {
        let run = run_with(
            vec![format!("{}/slow", BASE)],
            &config(100, 2, max_retries),
            false,
            true,
            &|url, _| backend(url),
        );
        assert_eq!(run.probes_of(&format!("{}/slow", BASE)), 1 + max_retries);
        assert!(run.results[0].status.is_err());
    }
}

#[test]
fn no_retries_means_one_attempt_each() {
    let urls: Vec<String> =
        ["/ok", "/slow", "/nope"].iter().map(|p| format!("{}{}", BASE, p)).collect();
    let run = run_with(urls.clone(), &config(100, 2, 0), false, true, &|url, _| backend(url));
    for url in &urls {
        assert_eq!(run.probes_of(url), 1);
    }
}

#[test]
fn retry_stops_at_first_success() {
    // Fails twice, then answers.
    let flaky = |_: &str, attempt: usize| {
        if attempt < 3 {
            Reply::Transport(format!("attempt {} refused", attempt))
        } else {
            Reply::Response(204)
        }
    };
    let run = run_with(vec![format!("{}/flaky", BASE)], &config(100, 1, 5), false, true, &flaky);
    assert_eq!(run.probes_of(&format!("{}/flaky", BASE)), 3);
    assert_eq!(run.results[0].status, Ok(204));

    // With too few retries the last failure is what is kept.
    let run = run_with(vec![format!("{}/flaky", BASE)], &config(100, 1, 1), false, true, &flaky);
    assert_eq!(run.probes_of(&format!("{}/flaky", BASE)), 2);
    assert_eq!(run.results[0].status, Err("attempt 2 refused".to_string()));
}

#[test]
fn worker_count_changes_order_only() {
    let urls: Vec<String> = ["/slow", "/ok", "/nope", "/ok", "/moved", "/slow", "/broken"]
        .iter()
        .map(|p| format!("{}{}", BASE, p))
        .collect();
    let one = run_with(urls.clone(), &config(100, 1, 2), false, true, &|url, _| backend(url));
    for workers in 1..=urls.len() {
        for forward in [true, false] {
            let run = run_with(
                urls.clone(),
                &config(100, workers, 2),
                false,
                forward,
                &|url, _| backend(url),
            );
            assert_eq!(run.results.len(), urls.len());
            assert_eq!(run.findings(), one.findings());
        }
    }
    // The order of completion does depend on the workers.
    let many = run_with(urls.clone(), &config(100, 7, 2), false, true, &|url, _| backend(url));
    let order_one: Vec<&String> = one.results.iter().map(|r| &r.url).collect();
    let order_many: Vec<&String> = many.results.iter().map(|r| &r.url).collect();
    assert_ne!(order_one, order_many);
}

#[test]
fn zero_workers_counts_as_one() {
    assert_eq!(config(100, 0, 0).effective_workers(), 1);
    assert_eq!(config(100, 1, 0).effective_workers(), 1);
    assert_eq!(config(100, 50, 0).effective_workers(), 50);
    let board = Dispatcher::new(&config(100, 0, 0));
    assert_eq!(board.workers(), 1);
    let results = run_concurrent(vec![format!("{}/ok", BASE)], &config(100, 0, 0), false);
    assert_eq!(results.len(), 1);
    assert_eq!(results[0].status, Ok(200));
}

#[test]
fn stop_request_ends_retries() {
    let run = run_with(vec![format!("{}/slow", BASE)], &config(100, 1, 9), true, true, &|url, _| {
        backend(url)
    });
    assert_eq!(run.probes_of(&format!("{}/slow", BASE)), 1);
    assert!(run.results[0].status.is_err());
    // A success is not touched by it.
    let run = run_with(vec![format!("{}/ok", BASE)], &config(100, 1, 9), true, true, &|url, _| {
        backend(url)
    });
    assert_eq!(run.results[0].status, Ok(200));
}

#[test]
fn job_states_follow_the_machine() {
    assert_eq!(JobState::first_attempt(), JobState::InFlight { retries: 0 });
    assert_eq!(JobState::first_attempt().delay_ms(), 0);
    assert_eq!(JobState::InFlight { retries: 1 }.delay_ms(), 150);
    assert_eq!(JobState::InFlight { retries: 7 }.delay_ms(), 150);
    assert_eq!(JobState::Succeeded.delay_ms(), 0);
    assert_eq!(BACKOFF_MS, 150);
    assert_eq!(POLL_WAIT_MS, 100);

    let first = JobState::first_attempt();
    assert_eq!(first.after_attempt(false, false, 0), JobState::Succeeded);
    assert_eq!(first.after_attempt(true, false, 0), JobState::FailedFinal);
    assert_eq!(first.after_attempt(true, false, 1), JobState::InFlight { retries: 1 });
    assert_eq!(first.after_attempt(true, true, 1), JobState::FailedFinal);
    assert_eq!(first.after_attempt(false, true, 1), JobState::Succeeded);
    let second = JobState::InFlight { retries: 1 };
    assert_eq!(second.after_attempt(true, false, 1), JobState::FailedFinal);
    assert_eq!(second.after_attempt(true, false, 2), JobState::InFlight { retries: 2 });
    let last = JobState::InFlight { retries: usize::MAX };
    assert_eq!(last.after_attempt(true, false, usize::MAX), JobState::FailedFinal);
    // States without an attempt under way stay.
    assert_eq!(JobState::Queued.after_attempt(true, false, 3), JobState::Queued);
    assert_eq!(JobState::Succeeded.after_attempt(true, false, 3), JobState::Succeeded);
    assert_eq!(JobState::FailedFinal.after_attempt(false, false, 3), JobState::FailedFinal);
    assert!(JobState::Succeeded.is_finished());
    assert!(JobState::FailedFinal.is_finished());
    assert!(!JobState::Queued.is_finished());
    assert!(!first.is_finished());
}

#[test]
fn dispatcher_hands_each_job_to_one_worker() {
    let mut board = Dispatcher::new(&config(100, 2, 1));
    assert_eq!(board.workers(), 2);
    assert!(!board.is_closed());
    // Nothing waiting, queue open: wait and ask again.
    assert!(matches!(board.poll(0), Some(Poll::Idle)));
    assert!(board.enqueue("a".to_string()));
    assert!(board.enqueue("b".to_string()));
    assert!(board.enqueue("a".to_string()));
    assert_eq!(board.total(), 3);
    assert_eq!(board.job_state(0), Some(JobState::Queued));
    assert_eq!(board.job_state(3), None);

    // Jobs leave the queue in the order of arrival.
    match board.poll(1) {
        Some(Poll::Job(url)) => assert_eq!(url, "a"),
        other => panic!("{:?}", other),
    }
    assert_eq!(board.job_state(0), Some(JobState::InFlight { retries: 0 }));
    // A busy worker gets nothing more, and neither does a stranger.
    assert!(board.poll(1).is_none());
    assert!(board.poll(2).is_none());
    assert_eq!(board.job_state(1), Some(JobState::Queued));
    match board.poll(0) {
        Some(Poll::Job(url)) => assert_eq!(url, "b"),
        other => panic!("{:?}", other),
    }
    // A report by a stranger changes nothing.
    assert!(board.report(5, Reply::Response(200), Duration::from_millis(1), 1, false).is_none());
    assert_eq!(board.collected(), 0);

    // Worker 0 fails once and is asked to try again; worker 1 succeeds.
    let verdict =
        board.report(0, Reply::Transport("refused".to_string()), Duration::from_millis(1), 1, false);
    assert_eq!(verdict, Some(JobState::InFlight { retries: 1 }));
    assert_eq!(board.collected(), 0);
    let verdict = board.report(1, Reply::ErrorStatus(404), Duration::from_millis(2), 2, false);
    assert_eq!(verdict, Some(JobState::Succeeded));
    assert_eq!(board.collected(), 1);
    assert_eq!(board.results()[0].url, "a");
    assert_eq!(board.results()[0].status, Ok(404));
    assert_eq!(board.results()[0].response_time, Duration::from_millis(2));
    assert_eq!(board.results()[0].timestamp_unix_ms, 2);
    // A free worker has nothing to report.
    assert!(board.report(1, Reply::Response(200), Duration::from_millis(1), 3, false).is_none());
    assert_eq!(board.collected(), 1);

    board.close();
    assert!(board.is_closed());
    assert!(!board.enqueue("late".to_string()));
    assert_eq!(board.total(), 3);
    assert!(!board.is_drained());

    match board.poll(1) {
        Some(Poll::Job(url)) => assert_eq!(url, "a"),
        other => panic!("{:?}", other),
    }
    let verdict =
        board.report(0, Reply::Transport("again".to_string()), Duration::from_millis(1), 4, false);
    assert_eq!(verdict, Some(JobState::FailedFinal));
    assert_eq!(board.job_state(1), Some(JobState::FailedFinal));
    assert!(matches!(board.poll(0), Some(Poll::Closed)));
    assert!(!board.is_drained());

    // Taken now, the results are the part that was gathered.
    assert_eq!(board.collected(), 2);
    let verdict = board.report(1, Reply::Response(200), Duration::from_millis(1), 5, false);
    assert_eq!(verdict, Some(JobState::Succeeded));
    assert!(board.is_drained());
    let results = board.into_results();
    let got: Vec<(String, Result<u16, String>)> =
        results.iter().map(|r| (r.url.clone(), r.status.clone())).collect();
    assert_eq!(
        got,
        vec![
            ("a".to_string(), Ok(404)),
            ("b".to_string(), Err("again".to_string())),
            ("a".to_string(), Ok(200)),
        ]
    );
}

#[test]
fn unfinished_run_gives_partial_list() {
    let mut board = Dispatcher::new(&config(100, 2, 0));
    assert!(board.enqueue("a".to_string()));
    assert!(board.enqueue("b".to_string()));
    board.close();
    assert!(matches!(board.poll(0), Some(Poll::Job(_))));
    assert!(matches!(board.poll(1), Some(Poll::Job(_))));
    // Worker 0 never comes back.
    let verdict = board.report(1, Reply::Response(200), Duration::from_millis(1), 1, false);
    assert_eq!(verdict, Some(JobState::Succeeded));
    assert!(!board.is_drained());
    let results = board.into_results();
    assert_eq!(results.len(), 1);
    assert_eq!(results[0].url, "b");
}

#[test]
fn loaded_dispatcher_holds_the_urls_in_order() {
    let urls = vec!["x".to_string(), "y".to_string(), "x".to_string()];
    let mut board = Dispatcher::for_urls(&urls, &config(100, 0, 0));
    assert_eq!(board.workers(), 1);
    assert_eq!(board.total(), 3);
    assert_eq!(board.collected(), 0);
    assert!(board.is_closed());
    assert!(!board.is_drained());
    assert!(!board.enqueue("z".to_string()));
    for expected in ["x", "y", "x"] {
        match board.poll(0) {
            Some(Poll::Job(url)) => assert_eq!(url, expected),
            other => panic!("{:?}", other),
        }
        let verdict = board.report(0, Reply::Response(200), Duration::from_millis(1), 1, false);
        assert_eq!(verdict, Some(JobState::Succeeded));
    }
    assert!(matches!(board.poll(0), Some(Poll::Closed)));
    assert!(board.is_drained());
    assert_eq!(board.into_results().len(), 3);

    let empty = Dispatcher::for_urls(&[], &config(100, 3, 1));
    assert_eq!(empty.workers(), 3);
    assert!(empty.is_drained());
    assert!(empty.into_results().is_empty());
}

#[test]
fn late_url_is_picked_up_by_a_waiting_worker() {
    let mut board = Dispatcher::new(&config(100, 2, 0));
    assert!(matches!(board.poll(0), Some(Poll::Idle)));
    assert!(matches!(board.poll(1), Some(Poll::Idle)));
    assert!(!board.is_drained());
    assert!(board.enqueue("late".to_string()));
    match board.poll(1) {
        Some(Poll::Job(url)) => assert_eq!(url, "late"),
        other => panic!("{:?}", other),
    }
    assert!(matches!(board.poll(0), Some(Poll::Idle)));
    board.close();
    assert!(matches!(board.poll(0), Some(Poll::Closed)));
    assert!(!board.is_drained());
    let verdict =
        board.report(1, Reply::Transport("reset".to_string()), Duration::from_millis(1), 1, false);
    assert_eq!(verdict, Some(JobState::FailedFinal));
    assert!(board.is_drained());
}
