//! The dispatcher: the shared job queue and result sink of a run, as a value
//! that the caller guards and that workers call one at a time.
//!
//! Each worker asks for a job with `poll`, probes the URL it was given, and
//! hands the reply to `report`, which applies the retry policy and, when the
//! job is final, keeps its record. The caller enqueues the URLs, closes the
//! queue, waits for the workers and takes the results.

use crate::board::{
    enqueues, lemma_enqueued_urls, lemma_init_inv, lemma_step_inv, Board, Event, JobView, PollView,
};
use crate::laws::{law_one_result_per_url, law_results_within_jobs};
use crate::retry::JobState;
use crate::status::{check_url_once, records, Config, Reply, WebsiteStatus};
use crate::text::texts;
use std::time::Duration;
use vstd::prelude::*;

verus! {

/// The answer to a worker that asked for a job.
#[derive(Debug)]
pub enum Poll {
    /// The URL of the job that is now the worker's: probe it and report.
    Job(String),
    /// Nothing is waiting, but more may come: ask again after a short wait.
    Idle,
    /// Nothing is waiting and nothing will come: the worker is done.
    Closed,
}

impl View for Poll {
    type V = PollView;

    open spec fn view(&self) -> PollView {
        match self {
            Poll::Job(url) => PollView::Job(url@),
            Poll::Idle => PollView::Idle,
            Poll::Closed => PollView::Closed,
        }
    }
}

/// An answer that may be withheld, seen as a model value.
pub open spec fn answer_view(answer: Option<Poll>) -> Option<PollView> {
    match answer {
        Some(poll) => Some(poll@),
        None => None,
    }
}

/// How long a worker that found nothing waiting should pause before it asks
/// again, in milliseconds.
pub const POLL_WAIT_MS: u64 = 100;

/// The queue, the workers' slots and the results of one run.
pub struct Dispatcher {
    max_retries: usize,
    urls: Vec<String>,
    states: Vec<JobState>,
    holders: Vec<usize>,
    probes: Ghost<Seq<nat>>,
    next: usize,
    closed: bool,
    slots: Vec<Option<usize>>,
    results: Vec<WebsiteStatus>,
}

impl View for Dispatcher {
    type V = Board;

    closed spec fn view(&self) -> Board {
        Board {
            max_retries: self.max_retries,
            jobs: Seq::new(
                self.urls.len() as nat,
                |j: int|
                    JobView {
                        url: self.urls[j]@,
                        state: self.states[j],
                        worker: self.holders[j],
                        probes: self.probes@[j],
                    },
            ),
            next: self.next,
            closed: self.closed,
            slots: self.slots@,
            results: records(self.results@),
        }
    }
}

impl Dispatcher {
    /// Whether the parts of the representation fit together.
    pub closed spec fn consistent(&self) -> bool {
        &&& self.states.len() == self.urls.len()
        &&& self.holders.len() == self.urls.len()
        &&& self.probes@.len() == self.urls.len()
    }

    /// Whether the dispatcher is well formed: its state is one that a run can
    /// be in.
    pub open spec fn wf(&self) -> bool {
        &&& self.consistent()
        &&& self@.inv()
    }

    /// A dispatcher for a fresh run under `cfg`: an empty open queue, no
    /// results, and as many workers as `cfg` asks for, but at least one. The
    /// workers are numbered from zero.
    pub fn new(cfg: &Config) -> (fresh: Dispatcher)
        ensures
            fresh.wf(),
            fresh@ == Board::init(cfg.effective_workers() as nat, cfg.max_retries),
    {
        let workers = cfg.effective_workers();
        let mut slots: Vec<Option<usize>> = Vec::new();
        let mut made: usize = 0;
        while made < workers
            invariant
                made <= workers,
                slots@.len() == made,
                forall|w: int| 0 <= w < made ==> slots@[w] is None,
            decreases workers - made,
        {
            slots.push(None);
            made += 1;
        }
        let fresh = Dispatcher {
            max_retries: cfg.max_retries,
            urls: Vec::new(),
            states: Vec::new(),
            holders: Vec::new(),
            probes: Ghost(Seq::empty()),
            next: 0,
            closed: false,
            slots,
            results: Vec::new(),
        };
        proof {
            let model = Board::init(workers as nat, cfg.max_retries);
            lemma_init_inv(workers as nat, cfg.max_retries);
            assert(fresh@.jobs =~= model.jobs);
            assert(fresh@.slots =~= model.slots);
            assert(fresh@.results =~= model.results);
        }
        fresh
    }

    /// A dispatcher for a run under `cfg` over `urls`: they are enqueued in
    /// their order, and the queue is closed behind them. So the jobs of the
    /// run are these URLs, all of them waiting, and every worker is free.
    pub fn for_urls(urls: &[String], cfg: &Config) -> (loaded: Dispatcher)
        ensures
            loaded.wf(),
            loaded@ == Board::init(cfg.effective_workers() as nat, cfg.max_retries).run(
                enqueues(texts(urls@)),
            ).close(),
            loaded@.urls() == texts(urls@),
            loaded@.closed,
            loaded@.next == 0,
            loaded@.results.len() == 0,
            loaded@.slots.len() == cfg.effective_workers(),
    {
        let ghost fresh = Board::init(cfg.effective_workers() as nat, cfg.max_retries);
        let mut loaded = Dispatcher::new(cfg);
        let mut i: usize = 0;
        proof {
            assert(texts(urls@.take(0)) =~= Seq::<Seq<char>>::empty());
        }
        while i < urls.len()
            invariant
                i <= urls.len(),
                loaded.wf(),
                loaded@ == fresh.run(enqueues(texts(urls@.take(i as int)))),
            decreases urls.len() - i,
        {
            let ghost events = enqueues(texts(urls@.take(i + 1)));
            proof {
                assert(events.drop_last() =~= enqueues(texts(urls@.take(i as int))));
                assert(events.last() == Event::Enqueue { url: urls[i as int]@ });
            }
            let _ = loaded.enqueue(urls[i].clone());
            i += 1;
        }
        proof {
            assert(urls@.take(urls.len() as int) =~= urls@);
            lemma_enqueued_urls(
                cfg.effective_workers() as nat,
                cfg.max_retries,
                texts(urls@),
            );
        }
        loaded.close();
        loaded
    }

    /// Puts `url` at the end of the queue. A closed queue takes nothing, and
    /// says so.
    pub fn enqueue(&mut self, url: String) -> (accepted: bool)
        requires
            old(self).wf(),
        ensures
            final(self).wf(),
            accepted == old(self)@.accepts(),
            final(self)@ == old(self)@.enqueue(url@),
    {
        if self.closed || self.urls.len() >= usize::MAX {
            return false;
        }
        self.urls.push(url);
        self.states.push(JobState::Queued);
        self.holders.push(0);
        self.probes = Ghost(self.probes@.push(0));
        proof {
            assert(self@.jobs =~= old(self)@.enqueue(url@).jobs);
            lemma_step_inv(old(self)@, Event::Enqueue { url: url@ });
        }
        true
    }

    /// Closes the queue: no more URLs will come, and workers that find
    /// nothing waiting are told that they are done.
    pub fn close(&mut self)
        requires
            old(self).wf(),
        ensures
            final(self).wf(),
            final(self)@ == old(self)@.close(),
    {
        self.closed = true;
        proof {
            assert(self@.jobs =~= old(self)@.jobs);
            lemma_step_inv(old(self)@, Event::Close);
        }
    }

    /// Hands worker number `worker` its next job. A worker that the run does
    /// not have, or one that still holds a job, gets no answer and nothing
    /// changes. A free worker gets the URL at the head of the queue, which is
    /// from then on that worker's job and nobody else's; with nothing
    /// waiting, it learns whether more may come.
    pub fn poll(&mut self, worker: usize) -> (answer: Option<Poll>)
        requires
            old(self).wf(),
        ensures
            final(self).wf(),
            final(self)@ == old(self)@.poll(worker),
            answer_view(answer) == old(self)@.poll_answer(worker),
    {
        if worker >= self.slots.len() {
            return None;
        }
        if self.slots[worker].is_some() {
            return None;
        }
        if self.next >= self.urls.len() {
            if self.closed {
                return Some(Poll::Closed);
            } else {
                return Some(Poll::Idle);
            }
        }
        let job = self.next;
        let url = self.urls[job].clone();
        self.states.set(job, JobState::first_attempt());
        self.holders.set(job, worker);
        self.slots.set(worker, Some(job));
        self.next = job + 1;
        proof {
            assert(self@.jobs =~= old(self)@.poll(worker).jobs);
            assert(self@.slots =~= old(self)@.poll(worker).slots);
            lemma_step_inv(old(self)@, Event::Poll { worker });
        }
        Some(Poll::Job(url))
    }

    /// Takes the end of an attempt from worker number `worker`: the client's
    /// reply and the two measurements. A worker that holds no job gets no
    /// verdict and nothing changes. Else the verdict is the job's new state.
    /// If it is in flight again, the worker owes the job another attempt,
    /// after the pause that the state asks for. If it is final, the job's
    /// record, made from the job's own URL and this reply, has been added to
    /// the results, and the worker is free to poll again.
    pub fn report(
        &mut self,
        worker: usize,
        reply: Reply,
        response_time: Duration,
        timestamp_unix_ms: u128,
        stop: bool,
    ) -> (verdict: Option<JobState>)
        requires
            old(self).wf(),
        ensures
            final(self).wf(),
            final(self)@ == old(self)@.report(
                worker,
                reply.outcome(),
                response_time,
                timestamp_unix_ms,
                stop,
            ),
            verdict == if old(self)@.is_busy(worker) {
                Some(old(self)@.verdict(worker, reply.outcome(), stop))
            } else {
                None
            },
    {
        if worker >= self.slots.len() {
            return None;
        }
        let job = match self.slots[worker] {
            Some(job) => job,
            None => {
                return None;
            },
        };
        proof {
            assert(old(self)@.slots[worker as int] == Some(job));
        }
        let failed = match &reply {
            Reply::Transport(_) => true,
            _ => false,
        };
        let state = self.states[job].after_attempt(failed, stop, self.max_retries);
        self.states.set(job, state);
        self.probes = Ghost(self.probes@.update(job as int, self.probes@[job as int] + 1));
        if state.is_finished() {
            let record = check_url_once(
                self.urls[job].as_str(),
                reply,
                response_time,
                timestamp_unix_ms,
            );
            self.results.push(record);
            self.slots.set(worker, None);
        }
        proof {
            let model = old(self)@.report(
                worker,
                reply.outcome(),
                response_time,
                timestamp_unix_ms,
                stop,
            );
            assert(self@.jobs =~= model.jobs);
            assert(self@.slots =~= model.slots);
            assert(self@.results =~= model.results);
            lemma_step_inv(
                old(self)@,
                Event::Report {
                    worker,
                    outcome: reply.outcome(),
                    response_time,
                    timestamp_unix_ms,
                    stop,
                },
            );
        }
        Some(state)
    }

    /// The number of workers of the run.
    pub fn workers(&self) -> (n: usize)
        ensures
            n == self@.slots.len(),
    {
        self.slots.len()
    }

    /// The number of URLs enqueued so far.
    pub fn total(&self) -> (n: usize)
        ensures
            n == self@.jobs.len(),
    {
        self.urls.len()
    }

    /// The number of results gathered so far.
    pub fn collected(&self) -> (n: usize)
        ensures
            n == self@.results.len(),
    {
        self.results.len()
    }

    /// Whether the queue has been closed.
    pub fn is_closed(&self) -> (closed: bool)
        ensures
            closed == self@.closed,
    {
        self.closed
    }

    /// Where job number `job`, counted from zero in the order of enqueuing,
    /// stands; nothing for a number that no job has.
    pub fn job_state(&self, job: usize) -> (state: Option<JobState>)
        requires
            self.wf(),
        ensures
            state == if job < self@.jobs.len() {
                Some(self@.jobs[job as int].state)
            } else {
                None
            },
    {
        if job < self.states.len() {
            Some(self.states[job])
        } else {
            None
        }
    }

    /// Whether the run is over: the queue is closed and empty and no worker
    /// holds a job. Then there is one result for each URL enqueued.
    pub fn is_drained(&self) -> (over: bool)
        requires
            self.wf(),
        ensures
            over == self@.drained(),
            over ==> self@.results.len() == self@.jobs.len(),
    {
        if !self.closed || self.next != self.urls.len() {
            return false;
        }
        let mut w: usize = 0;
        while w < self.slots.len()
            invariant
                w <= self.slots.len(),
                forall|v: int| 0 <= v < w ==> self.slots@[v] is None,
            decreases self.slots.len() - w,
        {
            if self.slots[w].is_some() {
                return false;
            }
            w += 1;
        }
        proof {
            law_one_result_per_url(self@);
        }
        true
    }

    /// The results gathered so far, in the order of completion.
    pub fn results(&self) -> (list: &Vec<WebsiteStatus>)
        ensures
            records(list@) == self@.results,
    {
        &self.results
    }

    /// Ends the run and hands out the results, in the order of completion.
    /// At any moment they are records of URLs that were enqueued, none more
    /// often than it was enqueued. If the run is over they are complete: one
    /// for each URL enqueued. If it is not (a worker never came back), they
    /// are the part that was gathered.
    pub fn into_results(self) -> (list: Vec<WebsiteStatus>)
        requires
            self.wf(),
        ensures
            records(list@) == self@.results,
            list@.len() <= self@.jobs.len(),
            self@.result_urls().to_multiset().subset_of(self@.urls().to_multiset()),
            self@.drained() ==> {
                &&& list@.len() == self@.jobs.len()
                &&& self@.result_urls().to_multiset() == self@.urls().to_multiset()
            },
    {
        proof {
            law_results_within_jobs(self@);
            if self@.drained() {
                law_one_result_per_url(self@);
            }
        }
        self.results
    }
}

} // verus!
