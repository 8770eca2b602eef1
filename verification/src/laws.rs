//! What holds of every run, whatever the number of workers and whatever the
//! order in which their events arrive.

use crate::board::{
    finished, job_mark, job_url, lemma_drained_all_final, lemma_finished_all, lemma_finished_update,
    lemma_finished_push, lemma_finished_within, lemma_init_inv, lemma_step_inv, Board, Event, JobView,
};
use crate::retry::{attempts_needed, law_attempts_needed_unique, JobState};
use crate::status::StatusView;
use vstd::multiset::Multiset;
use vstd::prelude::*;

verus! {

/// A backend that answers by rule: what attempt number `attempt` (counted from
/// 1) at `url` brings is fixed, whoever makes the attempt and whenever.
pub struct Backend {
    pub answers: spec_fn(Seq<char>, nat) -> Result<u16, Seq<char>>,
}

/// A URL with the outcome recorded for it.
pub type Finding = (Seq<char>, Result<u16, Seq<char>>);

/// The URL and the outcome of a record.
pub open spec fn finding() -> spec_fn(StatusView) -> Finding {
    |record: StatusView| (record.url, record.outcome)
}

impl Backend {
    /// What attempt number `attempt` at `url` brings.
    pub open spec fn reply(self, url: Seq<char>, attempt: nat) -> Result<u16, Seq<char>> {
        (self.answers)(url, attempt)
    }

    /// Which attempts at `url` fail.
    pub open spec fn failing(self, url: Seq<char>) -> spec_fn(nat) -> bool {
        |attempt: nat| self.reply(url, attempt) is Err
    }

    /// The number of attempts that the retry policy spends on `url`.
    pub open spec fn attempts(self, url: Seq<char>, max_retries: usize) -> nat {
        attempts_needed(self.failing(url), max_retries as nat)
    }

    /// The outcome that the retry policy ends with for `url`: that of the last
    /// attempt it makes.
    pub open spec fn final_outcome(self, url: Seq<char>, max_retries: usize) -> Result<
        u16,
        Seq<char>,
    > {
        self.reply(url, self.attempts(url, max_retries))
    }

    /// A job's URL with the outcome that the retry policy ends with for it.
    pub open spec fn expected(self, max_retries: usize) -> spec_fn(JobView) -> Finding {
        |job: JobView| (job.url, self.final_outcome(job.url, max_retries))
    }
}

impl Event {
    /// Whether the event brings what the backend answers: a report by a busy
    /// worker carries the backend's reply to that attempt at the job's URL,
    /// and no request to stop. Other events are not the backend's.
    pub open spec fn agrees(self, board: Board, backend: Backend) -> bool {
        match self {
            Event::Report { worker, outcome, stop, .. } => board.is_busy(worker) ==> {
                let job = board.jobs[board.slots[worker as int]->0 as int];
                !stop && outcome == backend.reply(job.url, job.state.attempt())
            },
            _ => true,
        }
    }
}

impl Board {
    /// The URLs and outcomes of the results, in the order of completion.
    pub open spec fn findings(self) -> Seq<Finding> {
        self.results.map_values(finding())
    }

    /// Whether every event of `events`, arriving in this state one after the
    /// other, brings what `backend` answers.
    pub open spec fn follows(self, events: Seq<Event>, backend: Backend) -> bool
        decreases events.len(),
    {
        events.len() == 0 || {
            &&& self.follows(events.drop_last(), backend)
            &&& events.last().agrees(self.run(events.drop_last()), backend)
        }
    }

    /// Whether the state is what `backend` leads to: every attempt before the
    /// one under way has failed at the backend, each finished job has had the
    /// attempts that the retry policy spends on its URL at the backend, and
    /// each result carries the outcome that the policy ends with there.
    pub open spec fn tracks(self, backend: Backend) -> bool {
        &&& forall|j: int, k: nat|
            0 <= j < self.jobs.len() && 1 <= k < self.jobs[j].state.attempt()
                ==> #[trigger] backend.reply(self.jobs[j].url, k) is Err
        &&& forall|j: int|
            0 <= j < self.jobs.len() && (#[trigger] self.jobs[j]).state.is_terminal()
                ==> self.jobs[j].probes == backend.attempts(self.jobs[j].url, self.max_retries)
        &&& self.findings().to_multiset() == finished(self.jobs, backend.expected(self.max_retries))
    }
}

/// A URL that answers its first attempt, with whatever status, is probed
/// once, and that status is its outcome: a success.
pub proof fn law_any_status_succeeds(backend: Backend, url: Seq<char>, max_retries: usize, code: u16)
    requires
        backend.reply(url, 1) == Ok::<u16, Seq<char>>(code),
    ensures
        backend.attempts(url, max_retries) == 1,
        backend.final_outcome(url, max_retries) == Ok::<u16, Seq<char>>(code),
{
    law_attempts_needed_unique(backend.failing(url), max_retries as nat, 1);
}

/// A URL that never answers is probed exactly `1 + max_retries` times, and
/// its outcome is the failure of the last of these attempts.
pub proof fn law_silent_url_fails(backend: Backend, url: Seq<char>, max_retries: usize)
    requires
        forall|k: nat| 1 <= k <= 1 + max_retries ==> #[trigger] backend.reply(url, k) is Err,
    ensures
        backend.attempts(url, max_retries) == 1 + max_retries,
        backend.final_outcome(url, max_retries) is Err,
        backend.final_outcome(url, max_retries) == backend.reply(url, (1 + max_retries) as nat),
{
    let fails = backend.failing(url);
    assert forall|k: nat| 1 <= k < 1 + max_retries implies #[trigger] fails(k) by {
        assert(backend.reply(url, k) is Err);
    }
    law_attempts_needed_unique(fails, max_retries as nat, (1 + max_retries) as nat);
}

proof fn lemma_init_tracks(workers: nat, max_retries: usize, backend: Backend)
    ensures
        Board::init(workers, max_retries).tracks(backend),
{
    broadcast use vstd::seq_lib::group_to_multiset_ensures;

    let fresh = Board::init(workers, max_retries);
    assert(fresh.findings() =~= Seq::<Finding>::empty());
    assert(fresh.findings().to_multiset().len() == 0);
    assert(fresh.findings().to_multiset() =~= Multiset::<Finding>::empty());
}

proof fn lemma_step_tracks(before: Board, event: Event, backend: Backend)
    requires
        before.inv(),
        before.tracks(backend),
        event.agrees(before, backend),
    ensures
        before.step(event).tracks(backend),
{
    broadcast use vstd::seq_lib::group_to_multiset_ensures;

    let after = before.step(event);
    let expected = backend.expected(before.max_retries);
    match event {
        Event::Enqueue { url } => {
            if before.accepts() {
                lemma_finished_push(
                    before.jobs,
                    JobView { url, state: JobState::Queued, worker: 0, probes: 0 },
                    expected,
                );
            }
        },
        Event::Close => {},
        Event::Poll { worker } => {
            if before.is_free(worker) && before.has_waiting() {
                let head = before.next as int;
                assert(before.jobs[head].state is Queued);
                lemma_finished_update(before.jobs, head, after.jobs[head], expected);
            }
        },
        Event::Report { worker, outcome, response_time, timestamp_unix_ms, stop } => {
            if before.is_busy(worker) {
                let job = before.slots[worker as int]->0 as int;
                assert(before.slots[worker as int] == Some(job as usize));
                let url = before.jobs[job].url;
                let attempt = before.jobs[job].state.attempt();
                assert(before.jobs[job].state is InFlight);
                assert(outcome == backend.reply(url, attempt));
                lemma_finished_update(before.jobs, job, after.jobs[job], expected);
                if after.jobs[job].state.is_terminal() {
                    let fails = backend.failing(url);
                    assert forall|i: nat| 1 <= i < attempt implies #[trigger] fails(i) by {
                        assert(backend.reply(before.jobs[job].url, i) is Err);
                    }
                    law_attempts_needed_unique(fails, before.max_retries as nat, attempt);
                    assert(backend.final_outcome(url, before.max_retries) == outcome);
                    assert(after.findings() =~= before.findings().push((url, outcome)));
                } else {
                    assert(backend.reply(url, attempt) is Err);
                }
            }
        },
    }
    assert forall|j: int, k: nat|
        0 <= j < after.jobs.len() && 1 <= k < after.jobs[j].state.attempt()
            implies #[trigger] backend.reply(after.jobs[j].url, k) is Err by {
        if j < before.jobs.len() && after.jobs[j] == before.jobs[j] {
            assert(backend.reply(before.jobs[j].url, k) is Err);
        } else if j < before.jobs.len() {
            if k < before.jobs[j].state.attempt() {
                assert(backend.reply(before.jobs[j].url, k) is Err);
            }
        }
    }
}

/// Every state that a run reaches from a fresh start is in order.
pub proof fn law_run_in_order(workers: nat, max_retries: usize, events: Seq<Event>)
    ensures
        Board::init(workers, max_retries).run(events).inv(),
    decreases events.len(),
{
    lemma_init_inv(workers, max_retries);
    if events.len() > 0 {
        law_run_in_order(workers, max_retries, events.drop_last());
        lemma_step_inv(Board::init(workers, max_retries).run(events.drop_last()), events.last());
    }
}

/// No job is ever recorded twice and no record comes from nowhere: at every
/// moment the URLs of the results are among the URLs enqueued, each at most
/// as often as it was enqueued.
pub proof fn law_results_within_jobs(board: Board)
    requires
        board.inv(),
    ensures
        board.results.len() <= board.jobs.len(),
        board.result_urls().to_multiset().subset_of(board.urls().to_multiset()),
{
    broadcast use vstd::seq_lib::group_to_multiset_ensures;

    lemma_finished_within(board.jobs, job_url());
    assert(board.result_urls().len() == board.results.len());
}

/// When a run is over there is exactly one result for each URL that was
/// enqueued: as many results as jobs, and the same URLs, each as often as it
/// was enqueued.
pub proof fn law_one_result_per_url(board: Board)
    requires
        board.inv(),
        board.drained(),
    ensures
        board.results.len() == board.jobs.len(),
        board.result_urls().to_multiset() == board.urls().to_multiset(),
{
    broadcast use vstd::seq_lib::group_to_multiset_ensures;

    lemma_drained_all_final(board);
    lemma_finished_all(board.jobs, job_url());
    assert(board.result_urls().to_multiset().len() == board.results.len());
    assert(board.urls().to_multiset().len() == board.jobs.len());
}

/// When a run is over, a success is recorded for a URL as often as a job
/// for it has succeeded, and a failure as often as one has failed for good:
/// no record contradicts the state that its job ended in.
pub proof fn law_records_match_states(board: Board)
    requires
        board.inv(),
        board.drained(),
    ensures
        board.result_marks().to_multiset() == board.jobs.map_values(job_mark()).to_multiset(),
{
    lemma_drained_all_final(board);
    lemma_finished_all(board.jobs, job_mark());
}

/// The same of a run from a fresh start, whatever events it was made of: with
/// any number of workers and any interleaving, a run that is over has exactly
/// one result per URL enqueued.
pub proof fn law_run_one_result_per_url(workers: nat, max_retries: usize, events: Seq<Event>)
    requires
        Board::init(workers, max_retries).run(events).drained(),
    ensures
        ({
            let end = Board::init(workers, max_retries).run(events);
            &&& end.results.len() == end.jobs.len()
            &&& end.result_urls().to_multiset() == end.urls().to_multiset()
        }),
{
    law_run_in_order(workers, max_retries, events);
    law_one_result_per_url(Board::init(workers, max_retries).run(events));
}

/// No job is ever in the hands of two workers: two workers that hold a job
/// hold different ones, and a job that is held is neither waiting in the
/// queue nor finished.
pub proof fn law_no_job_shared(board: Board, one: usize, other: usize)
    requires
        board.inv(),
        board.is_busy(one),
        board.is_busy(other),
        one != other,
    ensures
        board.slots[one as int] != board.slots[other as int],
        board.jobs[board.slots[one as int]->0 as int].state is InFlight,
{
    let job = board.slots[one as int]->0;
    assert(board.slots[one as int] == Some(job));
    assert(board.jobs[job as int].worker == one);
    if board.slots[other as int] == Some(job) {
        assert(board.jobs[job as int].worker == other);
    }
}

/// A run with at least one worker never gets stuck: once the queue is closed
/// and while the run is not over, either some worker holds a job and can
/// report on it, or a job is waiting and the first worker is free to take it.
pub proof fn law_never_stuck(board: Board)
    requires
        board.inv(),
        board.slots.len() >= 1,
        board.closed,
        !board.drained(),
    ensures
        (exists|worker: usize| board.is_busy(worker)) || (board.has_waiting() && board.is_free(0)),
{
    if exists|w: int| 0 <= w < board.slots.len() && board.slots[w] is Some {
        let w = choose|w: int| 0 <= w < board.slots.len() && board.slots[w] is Some;
        let job = board.slots[w]->0 as int;
        assert(board.jobs[job].worker == w);
        assert(board.is_busy(board.jobs[job].worker));
    }
}

/// The most events that a job can still cause: being taken from the queue,
/// and one report for each attempt that it may still get.
pub open spec fn effort_left(job: JobView, max_retries: usize) -> nat {
    match job.state {
        JobState::Queued => (max_retries + 2) as nat,
        JobState::InFlight { retries } => if retries <= max_retries {
            (max_retries + 1 - retries) as nat
        } else {
            0
        },
        _ => 0,
    }
}

/// The most events that the workers can still cause on `jobs`.
pub open spec fn work_left(jobs: Seq<JobView>, max_retries: usize) -> nat
    decreases jobs.len(),
{
    if jobs.len() == 0 {
        0
    } else {
        work_left(jobs.drop_last(), max_retries) + effort_left(jobs.last(), max_retries)
    }
}

proof fn lemma_work_left_update(jobs: Seq<JobView>, j: int, job: JobView, max_retries: usize)
    requires
        0 <= j < jobs.len(),
    ensures
        work_left(jobs.update(j, job), max_retries) + effort_left(jobs[j], max_retries) == work_left(
            jobs,
            max_retries,
        ) + effort_left(job, max_retries),
    decreases jobs.len(),
{
    let after = jobs.update(j, job);
    if j == jobs.len() - 1 {
        assert(after.drop_last() =~= jobs.drop_last());
    } else {
        assert(after.drop_last() =~= jobs.drop_last().update(j, job));
        lemma_work_left_update(jobs.drop_last(), j, job, max_retries);
    }
}

/// Every run ends: each job taken by a free worker and each report by a busy
/// one uses up some of the work that is left, which is bounded by the number
/// of jobs and the retries allowed. So once the queue is closed, the workers
/// can cause only so many events before the run is over.
pub proof fn law_workers_make_progress(board: Board, event: Event)
    requires
        board.inv(),
        match event {
            Event::Poll { worker } => board.is_free(worker) && board.has_waiting(),
            Event::Report { worker, .. } => board.is_busy(worker),
            _ => false,
        },
    ensures
        work_left(board.step(event).jobs, board.max_retries) < work_left(
            board.jobs,
            board.max_retries,
        ),
{
    match event {
        Event::Poll { worker } => {
            let head = board.next as int;
            assert(board.jobs[head].state is Queued);
            lemma_work_left_update(
                board.jobs,
                head,
                board.step(event).jobs[head],
                board.max_retries,
            );
        },
        Event::Report { worker, .. } => {
            let job = board.slots[worker as int]->0 as int;
            assert(board.slots[worker as int] == Some(job as usize));
            assert(board.jobs[job].state is InFlight);
            lemma_work_left_update(board.jobs, job, board.step(event).jobs[job], board.max_retries);
        },
        _ => {},
    }
}

/// With no retries allowed every finished job has had exactly one attempt,
/// whatever its outcome and whatever else happened in the run.
pub proof fn law_no_retries_one_probe(board: Board, job: int)
    requires
        board.inv(),
        board.max_retries == 0,
        0 <= job < board.jobs.len(),
        board.jobs[job].state.is_terminal(),
    ensures
        board.jobs[job].probes == 1,
{
}

/// No job ever gets more than `1 + max_retries` attempts.
pub proof fn law_probes_bounded(board: Board, job: int)
    requires
        board.inv(),
        0 <= job < board.jobs.len(),
    ensures
        board.jobs[job].probes <= 1 + board.max_retries,
        board.jobs[job].state.is_terminal() ==> board.jobs[job].probes >= 1,
{
    let state = board.jobs[job].state;
    if state is InFlight {
        assert(board.jobs[job].probes == state->retries);
    }
}

proof fn lemma_run_tracks(workers: nat, max_retries: usize, events: Seq<Event>, backend: Backend)
    requires
        Board::init(workers, max_retries).follows(events, backend),
    ensures
        Board::init(workers, max_retries).run(events).tracks(backend),
        Board::init(workers, max_retries).run(events).max_retries == max_retries,
    decreases events.len(),
{
    if events.len() == 0 {
        lemma_init_tracks(workers, max_retries, backend);
    } else {
        let before = Board::init(workers, max_retries).run(events.drop_last());
        lemma_run_tracks(workers, max_retries, events.drop_last(), backend);
        law_run_in_order(workers, max_retries, events.drop_last());
        lemma_step_tracks(before, events.last(), backend);
    }
}

/// Against a backend that answers by rule, a run that is over has recorded
/// for each URL enqueued the outcome that the retry policy ends with at that
/// backend, each as often as the URL was enqueued, and nothing else. The
/// number of workers and the order of events do not enter.
pub proof fn law_outcomes_fixed_by_backend(
    workers: nat,
    max_retries: usize,
    events: Seq<Event>,
    backend: Backend,
)
    requires
        Board::init(workers, max_retries).follows(events, backend),
        Board::init(workers, max_retries).run(events).drained(),
    ensures
        ({
            let end = Board::init(workers, max_retries).run(events);
            end.findings().to_multiset() == end.jobs.map_values(
                backend.expected(max_retries),
            ).to_multiset()
        }),
{
    let end = Board::init(workers, max_retries).run(events);
    lemma_run_tracks(workers, max_retries, events, backend);
    law_run_in_order(workers, max_retries, events);
    lemma_drained_all_final(end);
    lemma_finished_all(end.jobs, backend.expected(max_retries));
}

/// Against a backend that answers by rule, each finished job has had exactly
/// the attempts that the retry policy spends on its URL at that backend: one
/// if the first attempt is answered, `1 + max_retries` if none is.
pub proof fn law_probes_fixed_by_backend(
    workers: nat,
    max_retries: usize,
    events: Seq<Event>,
    backend: Backend,
    job: int,
)
    requires
        Board::init(workers, max_retries).follows(events, backend),
        0 <= job < Board::init(workers, max_retries).run(events).jobs.len(),
        Board::init(workers, max_retries).run(events).jobs[job].state.is_terminal(),
    ensures
        ({
            let end = Board::init(workers, max_retries).run(events);
            end.jobs[job].probes == backend.attempts(end.jobs[job].url, max_retries)
        }),
{
    lemma_run_tracks(workers, max_retries, events, backend);
}

/// Two runs over the same URLs against the same backend, each with its own
/// number of workers and its own order of events, end with the same findings,
/// each as often in the one as in the other: only the order of completion can
/// differ.
pub proof fn law_workers_change_order_only(
    workers_a: nat,
    workers_b: nat,
    max_retries: usize,
    events_a: Seq<Event>,
    events_b: Seq<Event>,
    backend: Backend,
)
    requires
        Board::init(workers_a, max_retries).follows(events_a, backend),
        Board::init(workers_b, max_retries).follows(events_b, backend),
        Board::init(workers_a, max_retries).run(events_a).drained(),
        Board::init(workers_b, max_retries).run(events_b).drained(),
        Board::init(workers_a, max_retries).run(events_a).urls() == Board::init(
            workers_b,
            max_retries,
        ).run(events_b).urls(),
    ensures
        Board::init(workers_a, max_retries).run(events_a).findings().to_multiset() == Board::init(
            workers_b,
            max_retries,
        ).run(events_b).findings().to_multiset(),
{
    let end_a = Board::init(workers_a, max_retries).run(events_a);
    let end_b = Board::init(workers_b, max_retries).run(events_b);
    law_outcomes_fixed_by_backend(workers_a, max_retries, events_a, backend);
    law_outcomes_fixed_by_backend(workers_b, max_retries, events_b, backend);
    let expected = backend.expected(max_retries);
    assert(end_a.jobs.map_values(expected) =~= end_b.jobs.map_values(expected)) by {
        assert(end_a.urls().len() == end_a.jobs.len());
        assert(end_b.urls().len() == end_b.jobs.len());
        assert forall|j: int| 0 <= j < end_a.jobs.len() implies end_a.jobs.map_values(expected)[j]
            == end_b.jobs.map_values(expected)[j] by {
            assert(end_a.urls()[j] == end_a.jobs[j].url);
            assert(end_b.urls()[j] == end_b.jobs[j].url);
        }
    }
}

} // verus!
