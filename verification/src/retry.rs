//! The retry policy: the life of one job from the queue to its final outcome.
//!
//! A job is probed once; a failed attempt is repeated after a fixed pause
//! until an attempt succeeds or the allowed retries are spent.

use vstd::prelude::*;

verus! {

/// Pause between a failed attempt and its retry, in milliseconds. It is the
/// same before every retry.
pub const BACKOFF_MS: u64 = 150;

/// Where one job stands.
#[derive(Debug, Clone, Copy, PartialEq, Eq, Structural)]
pub enum JobState {
    /// Waiting in the queue; no attempt has been made.
    Queued,
    /// An attempt is under way or due; `retries` attempts have failed before
    /// it, so it is attempt number `retries + 1`.
    InFlight { retries: usize },
    /// An attempt received a response. Final.
    Succeeded,
    /// The last attempt failed and no retry is left. Final.
    FailedFinal,
}

impl JobState {
    /// Whether the job has reached a final state.
    pub open spec fn is_terminal(self) -> bool {
        self is Succeeded || self is FailedFinal
    }

    /// The number of the attempt that is under way, counted from 1; zero when
    /// none is.
    pub open spec fn attempt(self) -> nat {
        match self {
            JobState::InFlight { retries } => (retries + 1) as nat,
            _ => 0,
        }
    }

    /// The state that follows when the attempt under way has ended: a success
    /// is final whatever was received; a failure is retried while retries are
    /// left and nobody has asked to stop, and is final otherwise. A job with
    /// no attempt under way stays as it is.
    pub open spec fn spec_after_attempt(self, failed: bool, stop: bool, max_retries: usize) -> JobState {
        match self {
            JobState::InFlight { retries } => {
                if !failed {
                    JobState::Succeeded
                } else if retries < max_retries && !stop {
                    JobState::InFlight { retries: (retries + 1) as usize }
                } else {
                    JobState::FailedFinal
                }
            },
            _ => self,
        }
    }

    /// The pause owed before the attempt that this state announces: none
    /// before a first attempt, the fixed backoff before every retry.
    pub open spec fn spec_delay_ms(self) -> u64 {
        match self {
            JobState::InFlight { retries } => if retries == 0 {
                0
            } else {
                BACKOFF_MS
            },
            _ => 0,
        }
    }

    /// The state of a job that has just been taken from the queue: its first
    /// attempt is due.
    pub fn first_attempt() -> (state: JobState)
        ensures
            state == (JobState::InFlight { retries: 0 }),
            state.attempt() == 1,
    {
        JobState::InFlight { retries: 0 }
    }

    /// Whether the job has reached a final state.
    #[verifier::when_used_as_spec(is_terminal)]
    pub fn is_finished(self) -> (done: bool)
        ensures
            done == self.is_terminal(),
    {
        match self {
            JobState::Succeeded => true,
            JobState::FailedFinal => true,
            _ => false,
        }
    }

    /// Decides what follows the attempt that has just ended. `failed` says
    /// whether it ended without a response, `stop` whether the caller has asked
    /// to give up further retries.
    pub fn after_attempt(self, failed: bool, stop: bool, max_retries: usize) -> (next: JobState)
        ensures
            next == self.spec_after_attempt(failed, stop, max_retries),
    {
        match self {
            JobState::InFlight { retries } => {
                if !failed {
                    JobState::Succeeded
                } else if retries < max_retries && !stop {
                    JobState::InFlight { retries: retries + 1 }
                } else {
                    JobState::FailedFinal
                }
            },
            _ => self,
        }
    }

    /// The pause owed before the attempt that this state announces, in
    /// milliseconds.
    #[verifier::when_used_as_spec(spec_delay_ms)]
    pub fn delay_ms(self) -> (ms: u64)
        ensures
            ms == self.spec_delay_ms(),
    {
        match self {
            JobState::InFlight { retries } => if retries == 0 {
                0
            } else {
                BACKOFF_MS
            },
            _ => 0,
        }
    }
}

/// The number of attempts the policy spends on a job whose `k`-th attempt
/// (counted from 1) fails exactly when `fails(k)`, from attempt `k` on.
pub open spec fn attempts_from(fails: spec_fn(nat) -> bool, max_retries: nat, k: nat) -> nat
    decreases 1 + max_retries - k,
{
    if k <= max_retries && fails(k) {
        attempts_from(fails, max_retries, k + 1)
    } else {
        k
    }
}

/// The number of attempts the policy spends on a job whose `k`-th attempt
/// (counted from 1) fails exactly when `fails(k)`, when nobody asks to stop.
pub open spec fn attempts_needed(fails: spec_fn(nat) -> bool, max_retries: nat) -> nat {
    attempts_from(fails, max_retries, 1)
}

/// The state of a job after `k` of its attempts have ended, when nobody asks
/// to stop.
pub open spec fn state_after(fails: spec_fn(nat) -> bool, max_retries: usize, k: nat) -> JobState
    decreases k,
{
    if k == 0 {
        JobState::InFlight { retries: 0 }
    } else {
        state_after(fails, max_retries, (k - 1) as nat).spec_after_attempt(
            fails(k),
            false,
            max_retries,
        )
    }
}

proof fn lemma_attempts_from(fails: spec_fn(nat) -> bool, max_retries: nat, k: nat)
    requires
        1 <= k <= 1 + max_retries,
    ensures
        k <= attempts_from(fails, max_retries, k) <= 1 + max_retries,
        forall|i: nat| k <= i < attempts_from(fails, max_retries, k) ==> #[trigger] fails(i),
        attempts_from(fails, max_retries, k) <= max_retries ==> !fails(
            attempts_from(fails, max_retries, k),
        ),
    decreases 1 + max_retries - k,
{
    if k <= max_retries && fails(k) {
        lemma_attempts_from(fails, max_retries, k + 1);
    }
}

/// The policy stops at the first attempt that succeeds, or at the last one
/// allowed: it makes at least one attempt and at most `1 + max_retries`, every
/// attempt before the last one made has failed, and it stops short of the
/// limit only on a success.
pub proof fn law_attempts_needed(fails: spec_fn(nat) -> bool, max_retries: nat)
    ensures
        1 <= attempts_needed(fails, max_retries) <= 1 + max_retries,
        forall|i: nat| 1 <= i < attempts_needed(fails, max_retries) ==> #[trigger] fails(i),
        attempts_needed(fails, max_retries) <= max_retries ==> !fails(
            attempts_needed(fails, max_retries),
        ),
{
    lemma_attempts_from(fails, max_retries, 1);
}

/// No other number of attempts fits that description.
pub proof fn law_attempts_needed_unique(fails: spec_fn(nat) -> bool, max_retries: nat, n: nat)
    requires
        1 <= n <= 1 + max_retries,
        forall|i: nat| 1 <= i < n ==> #[trigger] fails(i),
        n <= max_retries ==> !fails(n),
    ensures
        n == attempts_needed(fails, max_retries),
{
    law_attempts_needed(fails, max_retries);
    let m = attempts_needed(fails, max_retries);
    if n < m {
        assert(fails(n));
    } else if m < n {
        assert(fails(m));
    }
}

/// The attempt that the policy stops at is a success exactly if any of the
/// attempts allowed is one: a job fails for good only when every one of its
/// `1 + max_retries` attempts has failed.
pub proof fn law_success_iff_an_attempt_answers(fails: spec_fn(nat) -> bool, max_retries: nat)
    ensures
        !fails(attempts_needed(fails, max_retries)) <==> exists|k: nat|
            1 <= k <= 1 + max_retries && !#[trigger] fails(k),
{
    law_attempts_needed(fails, max_retries);
    let n = attempts_needed(fails, max_retries);
    if fails(n) {
        assert forall|k: nat| 1 <= k <= 1 + max_retries implies #[trigger] fails(k) by {
            if k < n {
                assert(fails(k));
            }
        }
    } else {
        assert(1 <= n <= 1 + max_retries && !fails(n));
    }
}

proof fn lemma_state_while_failing(fails: spec_fn(nat) -> bool, max_retries: usize, k: nat)
    requires
        k <= max_retries,
        forall|i: nat| 1 <= i <= k ==> #[trigger] fails(i),
    ensures
        state_after(fails, max_retries, k) == (JobState::InFlight { retries: k as usize }),
    decreases k,
{
    if k > 0 {
        lemma_state_while_failing(fails, max_retries, (k - 1) as nat);
    }
}

proof fn lemma_state_stays_final(fails: spec_fn(nat) -> bool, max_retries: usize, n: nat, k: nat)
    requires
        n <= k,
        state_after(fails, max_retries, n).is_terminal(),
    ensures
        state_after(fails, max_retries, k) == state_after(fails, max_retries, n),
    decreases k,
{
    if n < k {
        lemma_state_stays_final(fails, max_retries, n, (k - 1) as nat);
    }
}

/// Repeating the decision attempt by attempt carries out the policy: before
/// attempt `attempts_needed` has ended the job is in flight, at the attempt
/// that the count says; when it has ended the job is final, succeeded exactly
/// when that attempt did not fail; and it stays so.
pub proof fn law_decisions_follow_policy(fails: spec_fn(nat) -> bool, max_retries: usize, k: nat)
    ensures
        k < attempts_needed(fails, max_retries as nat) ==> state_after(fails, max_retries, k) == (
        JobState::InFlight { retries: k as usize }),
        k >= attempts_needed(fails, max_retries as nat) ==> state_after(fails, max_retries, k)
            == if fails(attempts_needed(fails, max_retries as nat)) {
            JobState::FailedFinal
        } else {
            JobState::Succeeded
        },
{
    let n = attempts_needed(fails, max_retries as nat);
    law_attempts_needed(fails, max_retries as nat);
    if k < n {
        lemma_state_while_failing(fails, max_retries, k);
    } else {
        lemma_state_while_failing(fails, max_retries, (n - 1) as nat);
        assert(state_after(fails, max_retries, n) == state_after(
            fails,
            max_retries,
            (n - 1) as nat,
        ).spec_after_attempt(fails(n), false, max_retries));
        lemma_state_stays_final(fails, max_retries, n, k);
    }
}

/// A job whose every attempt fails is given up after exactly
/// `1 + max_retries` attempts: it is still in flight before the last of them
/// has ended, and failed for good once it has.
pub proof fn law_failures_exhaust_retries(fails: spec_fn(nat) -> bool, max_retries: usize)
    requires
        forall|k: nat| 1 <= k <= 1 + max_retries ==> #[trigger] fails(k),
    ensures
        attempts_needed(fails, max_retries as nat) == 1 + max_retries,
        state_after(fails, max_retries, (1 + max_retries) as nat) == JobState::FailedFinal,
        forall|k: nat|
            k <= max_retries ==> #[trigger] state_after(fails, max_retries, k) == (
            JobState::InFlight { retries: k as usize }),
{
    law_attempts_needed(fails, max_retries as nat);
    law_decisions_follow_policy(fails, max_retries, (1 + max_retries) as nat);
    assert forall|k: nat| k <= max_retries implies #[trigger] state_after(fails, max_retries, k)
        == (JobState::InFlight { retries: k as usize }) by {
        law_decisions_follow_policy(fails, max_retries, k);
    }
}

/// With no retries allowed every job gets exactly one attempt, whatever its
/// outcome: the job is final as soon as the first attempt has ended.
pub proof fn law_no_retries_one_attempt(fails: spec_fn(nat) -> bool)
    ensures
        attempts_needed(fails, 0) == 1,
        state_after(fails, 0, 1).is_terminal(),
        state_after(fails, 0, 1) is Succeeded <==> !fails(1),
{
    law_attempts_needed(fails, 0);
    law_decisions_follow_policy(fails, 0, 1);
}

/// A request to stop ends a failing job at once, and changes nothing for an
/// attempt that succeeded.
pub proof fn law_stop_gives_up(state: JobState, failed: bool, max_retries: usize)
    requires
        state is InFlight,
    ensures
        state.spec_after_attempt(failed, true, max_retries) == if failed {
            JobState::FailedFinal
        } else {
            JobState::Succeeded
        },
{
}

} // verus!
