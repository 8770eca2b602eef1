//! The run as a state machine: the job queue, the workers' slots and the
//! result sink, and what each event does to them.
//!
//! Everything here is a mathematical model. The executable dispatcher keeps
//! its state in step with it, and the laws of a run are proved on it, for
//! every order in which the workers' events may arrive.

use crate::retry::JobState;
use crate::status::{status_of, StatusView};
use std::time::Duration;
use vstd::multiset::Multiset;
use vstd::prelude::*;

verus! {

/// One job of a run: a URL, where it stands, and the worker that took it.
pub struct JobView {
    pub url: Seq<char>,
    pub state: JobState,
    /// The worker that took the job from the queue; without meaning while the
    /// job is queued.
    pub worker: usize,
    /// How many attempts on the job have ended.
    pub probes: nat,
}

/// What can happen in a run.
pub enum Event {
    /// The caller puts a URL into the queue.
    Enqueue { url: Seq<char> },
    /// The caller declares that no more URLs will come.
    Close,
    /// A worker asks for its next job.
    Poll { worker: usize },
    /// A worker reports how the attempt on its job ended.
    Report {
        worker: usize,
        outcome: Result<u16, Seq<char>>,
        response_time: Duration,
        timestamp_unix_ms: u128,
        stop: bool,
    },
}

/// What a worker's request for a job is answered with.
pub enum PollView {
    /// The URL of the job that is now the worker's.
    Job(Seq<char>),
    /// Nothing is waiting, but more may come: ask again after a short wait.
    Idle,
    /// Nothing is waiting and nothing will come: the worker is done.
    Closed,
}

/// The state of a run.
pub struct Board {
    /// Retries allowed per job.
    pub max_retries: usize,
    /// Every job enqueued so far, in the order of arrival.
    pub jobs: Seq<JobView>,
    /// The head of the queue: jobs before this index have been handed out.
    pub next: usize,
    /// Whether the queue has been closed.
    pub closed: bool,
    /// For each worker, the job it holds, if any.
    pub slots: Seq<Option<usize>>,
    /// The records of the finished jobs, in the order of completion.
    pub results: Seq<StatusView>,
}

/// The members of `jobs` that have reached a final state, each seen through
/// `f`, counted with multiplicity.
pub open spec fn finished<T>(jobs: Seq<JobView>, f: spec_fn(JobView) -> T) -> Multiset<T>
    decreases jobs.len(),
{
    if jobs.len() == 0 {
        Multiset::empty()
    } else if jobs.last().state.is_terminal() {
        finished(jobs.drop_last(), f).insert(f(jobs.last()))
    } else {
        finished(jobs.drop_last(), f)
    }
}

/// The events of a caller that enqueues `urls` one after the other.
pub open spec fn enqueues(urls: Seq<Seq<char>>) -> Seq<Event> {
    urls.map_values(|url: Seq<char>| Event::Enqueue { url })
}

/// The URL of a job.
pub open spec fn job_url() -> spec_fn(JobView) -> Seq<char> {
    |job: JobView| job.url
}

/// The URL of a record.
pub open spec fn result_url() -> spec_fn(StatusView) -> Seq<char> {
    |record: StatusView| record.url
}

/// The URL of a job, and whether the job has succeeded.
pub open spec fn job_mark() -> spec_fn(JobView) -> (Seq<char>, bool) {
    |job: JobView| (job.url, job.state is Succeeded)
}

/// The URL of a record, and whether it records a success.
pub open spec fn result_mark() -> spec_fn(StatusView) -> (Seq<char>, bool) {
    |record: StatusView| (record.url, record.outcome is Ok)
}

impl Board {
    /// A fresh run: an empty open queue, `workers` workers without a job, no
    /// results.
    pub open spec fn init(workers: nat, max_retries: usize) -> Board {
        Board {
            max_retries,
            jobs: Seq::empty(),
            next: 0,
            closed: false,
            slots: Seq::new(workers, |w: int| None::<usize>),
            results: Seq::empty(),
        }
    }

    /// The URLs enqueued so far, in the order of arrival.
    pub open spec fn urls(self) -> Seq<Seq<char>> {
        self.jobs.map_values(job_url())
    }

    /// The URLs of the results, in the order of completion.
    pub open spec fn result_urls(self) -> Seq<Seq<char>> {
        self.results.map_values(result_url())
    }

    /// The URLs of the results, each with whether a success is recorded for
    /// it, in the order of completion.
    pub open spec fn result_marks(self) -> Seq<(Seq<char>, bool)> {
        self.results.map_values(result_mark())
    }

    /// Whether the queue takes another URL: it must be open, and the number of
    /// jobs must stay countable.
    pub open spec fn accepts(self) -> bool {
        !self.closed && self.jobs.len() < usize::MAX
    }

    /// Whether `worker` is a worker of this run that holds no job.
    pub open spec fn is_free(self, worker: usize) -> bool {
        worker < self.slots.len() && self.slots[worker as int] is None
    }

    /// Whether `worker` is a worker of this run that holds a job.
    pub open spec fn is_busy(self, worker: usize) -> bool {
        worker < self.slots.len() && self.slots[worker as int] is Some
    }

    /// Whether a job is waiting in the queue.
    pub open spec fn has_waiting(self) -> bool {
        self.next < self.jobs.len()
    }

    /// Whether the run is over: the queue is closed and empty, and no worker
    /// holds a job.
    pub open spec fn drained(self) -> bool {
        &&& self.closed
        &&& self.next == self.jobs.len()
        &&& forall|w: int| 0 <= w < self.slots.len() ==> self.slots[w] is None
    }

    /// The queue takes `url` as a new job at its end, if it accepts one.
    pub open spec fn enqueue(self, url: Seq<char>) -> Board {
        if self.accepts() {
            Board {
                jobs: self.jobs.push(
                    JobView { url, state: JobState::Queued, worker: 0, probes: 0 },
                ),
                ..self
            }
        } else {
            self
        }
    }

    /// The queue is closed.
    pub open spec fn close(self) -> Board {
        Board { closed: true, ..self }
    }

    /// A free worker takes the job at the head of the queue, if there is one:
    /// the job's first attempt is due, and it is that worker's alone.
    pub open spec fn poll(self, worker: usize) -> Board {
        if self.is_free(worker) && self.has_waiting() {
            let taken = JobView {
                state: JobState::InFlight { retries: 0 },
                worker,
                ..self.jobs[self.next as int]
            };
            Board {
                jobs: self.jobs.update(self.next as int, taken),
                next: (self.next + 1) as usize,
                slots: self.slots.update(worker as int, Some(self.next)),
                ..self
            }
        } else {
            self
        }
    }

    /// What a poll by `worker` is answered with: nothing unless it is a free
    /// worker of this run; else the job at the head of the queue, or, with
    /// nothing waiting, whether more may come.
    pub open spec fn poll_answer(self, worker: usize) -> Option<PollView> {
        if !self.is_free(worker) {
            None
        } else if self.has_waiting() {
            Some(PollView::Job(self.jobs[self.next as int].url))
        } else if self.closed {
            Some(PollView::Closed)
        } else {
            Some(PollView::Idle)
        }
    }

    /// The state that the job of a busy worker takes when its attempt has
    /// ended with `outcome`.
    pub open spec fn verdict(self, worker: usize, outcome: Result<u16, Seq<char>>, stop: bool) -> JobState
        recommends
            self.is_busy(worker),
    {
        let job = self.slots[worker as int]->0;
        self.jobs[job as int].state.spec_after_attempt(outcome is Err, stop, self.max_retries)
    }

    /// A busy worker's attempt has ended, and is counted. If the retry policy
    /// asks for another attempt, only the job's state moves on. Else the job is final: its
    /// record, with the job's own URL and this last outcome, is added to the
    /// results, and the worker is free again.
    pub open spec fn report(
        self,
        worker: usize,
        outcome: Result<u16, Seq<char>>,
        response_time: Duration,
        timestamp_unix_ms: u128,
        stop: bool,
    ) -> Board {
        if self.is_busy(worker) {
            let job = self.slots[worker as int]->0;
            let state = self.verdict(worker, outcome, stop);
            let moved = JobView {
                state,
                probes: self.jobs[job as int].probes + 1,
                ..self.jobs[job as int]
            };
            if state.is_terminal() {
                Board {
                    jobs: self.jobs.update(job as int, moved),
                    slots: self.slots.update(worker as int, None),
                    results: self.results.push(
                        status_of(
                            self.jobs[job as int].url,
                            outcome,
                            response_time,
                            timestamp_unix_ms,
                        ),
                    ),
                    ..self
                }
            } else {
                Board { jobs: self.jobs.update(job as int, moved), ..self }
            }
        } else {
            self
        }
    }

    /// The state after one event. An event that does not apply (a URL for a
    /// closed queue, a poll by a busy worker, a report by a free one, a worker
    /// that the run does not have) changes nothing.
    pub open spec fn step(self, event: Event) -> Board {
        match event {
            Event::Enqueue { url } => self.enqueue(url),
            Event::Close => self.close(),
            Event::Poll { worker } => self.poll(worker),
            Event::Report { worker, outcome, response_time, timestamp_unix_ms, stop } => self.report(
                worker,
                outcome,
                response_time,
                timestamp_unix_ms,
                stop,
            ),
        }
    }

    /// The state after a sequence of events, in their order.
    pub open spec fn run(self, events: Seq<Event>) -> Board
        decreases events.len(),
    {
        if events.len() == 0 {
            self
        } else {
            self.run(events.drop_last()).step(events.last())
        }
    }

    /// What holds of every state that a run can reach.
    ///
    /// - Exactly the jobs from the head of the queue on are queued.
    /// - A job is in flight exactly while one worker holds it, and that worker
    ///   holds no other; its retries are within the limit.
    /// - The attempts that have ended on a job are as many as its state
    ///   says: none while it is queued, one per failure while it is in flight,
    ///   and at least one and at most `1 + max_retries` once it is final.
    /// - The results are the finished jobs: the URLs of the one and of the
    ///   other are the same, with multiplicity, and a success is recorded for
    ///   a URL as often as a job for it has succeeded.
    pub open spec fn inv(self) -> bool {
        &&& self.next <= self.jobs.len() <= usize::MAX
        &&& forall|j: int|
            0 <= j < self.jobs.len() ==> ((#[trigger] self.jobs[j]).state is Queued <==> j
                >= self.next)
        &&& forall|w: int|
            0 <= w < self.slots.len() ==> ((#[trigger] self.slots[w]) matches Some(j) ==> {
                &&& j < self.next
                &&& self.jobs[j as int].state is InFlight
                &&& self.jobs[j as int].worker == w
            })
        &&& forall|j: int|
            0 <= j < self.jobs.len() ==> ((#[trigger] self.jobs[j]).state matches JobState::InFlight {
                retries,
            } ==> {
                &&& retries <= self.max_retries
                &&& self.jobs[j].worker < self.slots.len()
                &&& self.slots[self.jobs[j].worker as int] == Some(j as usize)
            })
        &&& forall|j: int|
            0 <= j < self.jobs.len() ==> match (#[trigger] self.jobs[j]).state {
                JobState::Queued => self.jobs[j].probes == 0,
                JobState::InFlight { retries } => self.jobs[j].probes == retries,
                _ => 1 <= self.jobs[j].probes <= 1 + self.max_retries,
            }
        &&& self.result_urls().to_multiset() == finished(self.jobs, job_url())
        &&& self.result_marks().to_multiset() == finished(self.jobs, job_mark())
    }
}

/// A job added at the end counts among the finished ones exactly if it is
/// final.
pub proof fn lemma_finished_push<T>(jobs: Seq<JobView>, job: JobView, f: spec_fn(JobView) -> T)
    ensures
        finished(jobs.push(job), f) == if job.state.is_terminal() {
            finished(jobs, f).insert(f(job))
        } else {
            finished(jobs, f)
        },
{
    assert(jobs.push(job).drop_last() =~= jobs);
}

/// Replacing a job that is not final leaves the finished ones as they were,
/// or adds the new job to them if it is final.
pub proof fn lemma_finished_update<T>(jobs: Seq<JobView>, j: int, job: JobView, f: spec_fn(JobView) -> T)
    requires
        0 <= j < jobs.len(),
        !jobs[j].state.is_terminal(),
    ensures
        finished(jobs.update(j, job), f) == if job.state.is_terminal() {
            finished(jobs, f).insert(f(job))
        } else {
            finished(jobs, f)
        },
    decreases jobs.len(),
{
    let after = jobs.update(j, job);
    if j == jobs.len() - 1 {
        assert(after.drop_last() =~= jobs.drop_last());
    } else {
        assert(after.drop_last() =~= jobs.drop_last().update(j, job));
        lemma_finished_update(jobs.drop_last(), j, job, f);
        if jobs.last().state.is_terminal() {
            assert(finished(jobs.drop_last(), f).insert(f(job)).insert(f(jobs.last()))
                =~= finished(jobs.drop_last(), f).insert(f(jobs.last())).insert(f(job)));
        }
    }
}

/// Where every job is final, the finished ones are all of them.
pub proof fn lemma_finished_all<T>(jobs: Seq<JobView>, f: spec_fn(JobView) -> T)
    requires
        forall|j: int| 0 <= j < jobs.len() ==> (#[trigger] jobs[j]).state.is_terminal(),
    ensures
        finished(jobs, f) == jobs.map_values(f).to_multiset(),
    decreases jobs.len(),
{
    broadcast use vstd::seq_lib::group_to_multiset_ensures;

    if jobs.len() == 0 {
        assert(jobs.map_values(f) =~= Seq::<T>::empty());
        assert(jobs.map_values(f).to_multiset().len() == 0);
        assert(jobs.map_values(f).to_multiset() =~= Multiset::<T>::empty());
    } else {
        lemma_finished_all(jobs.drop_last(), f);
        assert(jobs.map_values(f) =~= jobs.drop_last().map_values(f).push(f(jobs.last())));
    }
}

/// The finished jobs are never more than the jobs.
pub proof fn lemma_finished_within<T>(jobs: Seq<JobView>, f: spec_fn(JobView) -> T)
    ensures
        finished(jobs, f).subset_of(jobs.map_values(f).to_multiset()),
        finished(jobs, f).len() <= jobs.len(),
    decreases jobs.len(),
{
    broadcast use vstd::seq_lib::group_to_multiset_ensures;

    if jobs.len() == 0 {
    } else {
        lemma_finished_within(jobs.drop_last(), f);
        assert(jobs.map_values(f) =~= jobs.drop_last().map_values(f).push(f(jobs.last())));
    }
}

/// A queue that has room for `urls` holds, after they were enqueued, these
/// URLs in their order, all of them waiting.
pub proof fn lemma_enqueued_urls(workers: nat, max_retries: usize, urls: Seq<Seq<char>>)
    requires
        urls.len() <= usize::MAX,
    ensures
        Board::init(workers, max_retries).run(enqueues(urls)).urls() == urls,
        Board::init(workers, max_retries).run(enqueues(urls)).next == 0,
        !Board::init(workers, max_retries).run(enqueues(urls)).closed,
        Board::init(workers, max_retries).run(enqueues(urls)).results.len() == 0,
        Board::init(workers, max_retries).run(enqueues(urls)).slots == Board::init(
            workers,
            max_retries,
        ).slots,
    decreases urls.len(),
{
    let fresh = Board::init(workers, max_retries);
    if urls.len() == 0 {
        assert(fresh.urls() =~= urls);
    } else {
        lemma_enqueued_urls(workers, max_retries, urls.drop_last());
        assert(enqueues(urls).drop_last() =~= enqueues(urls.drop_last()));
        let before = fresh.run(enqueues(urls.drop_last()));
        assert(before.urls().len() == before.jobs.len());
        assert(before.accepts());
        assert(enqueues(urls).last() == Event::Enqueue { url: urls.last() });
        let after = before.step(enqueues(urls).last());
        assert forall|j: int| 0 <= j < urls.len() implies after.urls()[j] == urls[j] by {
            if j < urls.len() - 1 {
                assert(before.urls()[j] == before.jobs[j].url);
            }
        }
        assert(after.urls() =~= urls);
    }
}

/// A fresh run is in order.
pub proof fn lemma_init_inv(workers: nat, max_retries: usize)
    ensures
        Board::init(workers, max_retries).inv(),
        Board::init(workers, max_retries).results.len() == 0,
{
    broadcast use vstd::seq_lib::group_to_multiset_ensures;

    let fresh = Board::init(workers, max_retries);
    assert(fresh.result_urls() =~= Seq::<Seq<char>>::empty());
    assert(fresh.result_urls().to_multiset().len() == 0);
    assert(fresh.result_urls().to_multiset() =~= Multiset::<Seq<char>>::empty());
    assert(fresh.result_marks() =~= Seq::<(Seq<char>, bool)>::empty());
    assert(fresh.result_marks().to_multiset().len() == 0);
    assert(fresh.result_marks().to_multiset() =~= Multiset::<(Seq<char>, bool)>::empty());
}

proof fn lemma_enqueue_inv(before: Board, url: Seq<char>)
    requires
        before.inv(),
    ensures
        before.enqueue(url).inv(),
{
    if before.accepts() {
        let job = JobView { url, state: JobState::Queued, worker: 0, probes: 0 };
        lemma_finished_push(before.jobs, job, job_url());
        lemma_finished_push(before.jobs, job, job_mark());
    }
}

proof fn lemma_poll_inv(before: Board, worker: usize)
    requires
        before.inv(),
    ensures
        before.poll(worker).inv(),
{
    if before.is_free(worker) && before.has_waiting() {
        let after = before.poll(worker);
        let head = before.next as int;
        assert(before.jobs[head].state is Queued);
        lemma_finished_update(before.jobs, head, after.jobs[head], job_url());
        lemma_finished_update(before.jobs, head, after.jobs[head], job_mark());
        assert forall|w: int| 0 <= w < after.slots.len() implies ((
        #[trigger] after.slots[w]) matches Some(j) ==> {
            &&& j < after.next
            &&& after.jobs[j as int].state is InFlight
            &&& after.jobs[j as int].worker == w
        }) by {
            if w != worker {
                assert(after.slots[w] == before.slots[w]);
            }
        }
        assert forall|j: int| 0 <= j < after.jobs.len() implies ((
        #[trigger] after.jobs[j]).state matches JobState::InFlight { retries } ==> {
            &&& retries <= after.max_retries
            &&& after.jobs[j].worker < after.slots.len()
            &&& after.slots[after.jobs[j].worker as int] == Some(j as usize)
        }) by {
            if j != head {
                assert(after.jobs[j] == before.jobs[j]);
            }
        }
    }
}

proof fn lemma_report_inv(
    before: Board,
    worker: usize,
    outcome: Result<u16, Seq<char>>,
    response_time: Duration,
    timestamp_unix_ms: u128,
    stop: bool,
)
    requires
        before.inv(),
    ensures
        before.report(worker, outcome, response_time, timestamp_unix_ms, stop).inv(),
{
    broadcast use vstd::seq_lib::group_to_multiset_ensures;

    if before.is_busy(worker) {
        let after = before.report(worker, outcome, response_time, timestamp_unix_ms, stop);
        let job = before.slots[worker as int]->0 as int;
        assert(before.slots[worker as int] == Some(job as usize));
        assert(before.jobs[job].state is InFlight);
        lemma_finished_update(before.jobs, job, after.jobs[job], job_url());
        lemma_finished_update(before.jobs, job, after.jobs[job], job_mark());
        if after.jobs[job].state.is_terminal() {
            assert(after.result_urls() =~= before.result_urls().push(before.jobs[job].url));
            assert(after.result_marks() =~= before.result_marks().push(
                (before.jobs[job].url, outcome is Ok),
            ));
        }
        assert forall|w: int| 0 <= w < after.slots.len() implies ((
        #[trigger] after.slots[w]) matches Some(j) ==> {
            &&& j < after.next
            &&& after.jobs[j as int].state is InFlight
            &&& after.jobs[j as int].worker == w
        }) by {
            if w != worker {
                assert(after.slots[w] == before.slots[w]);
            }
        }
        assert forall|j: int| 0 <= j < after.jobs.len() implies ((
        #[trigger] after.jobs[j]).state matches JobState::InFlight { retries } ==> {
            &&& retries <= after.max_retries
            &&& after.jobs[j].worker < after.slots.len()
            &&& after.slots[after.jobs[j].worker as int] == Some(j as usize)
        }) by {
            if j != job {
                assert(after.jobs[j] == before.jobs[j]);
            }
        }
    }
}

/// No event brings a run out of order.
pub proof fn lemma_step_inv(before: Board, event: Event)
    requires
        before.inv(),
    ensures
        before.step(event).inv(),
{
    match event {
        Event::Enqueue { url } => lemma_enqueue_inv(before, url),
        Event::Close => {},
        Event::Poll { worker } => lemma_poll_inv(before, worker),
        Event::Report { worker, outcome, response_time, timestamp_unix_ms, stop } => lemma_report_inv(
            before,
            worker,
            outcome,
            response_time,
            timestamp_unix_ms,
            stop,
        ),
    }
}

/// In a run that is over every job is final.
pub proof fn lemma_drained_all_final(board: Board)
    requires
        board.inv(),
        board.drained(),
    ensures
        forall|j: int| 0 <= j < board.jobs.len() ==> (#[trigger] board.jobs[j]).state.is_terminal(),
{
    assert forall|j: int| 0 <= j < board.jobs.len() implies (
    #[trigger] board.jobs[j]).state.is_terminal() by {
        if board.jobs[j].state is InFlight {
            assert(board.slots[board.jobs[j].worker as int] is Some);
        }
    }
}


} // verus!
