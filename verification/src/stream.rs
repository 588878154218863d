//! The decisions of the loop that drains the event ring buffer.
//!
//! The loop itself waits on the buffer and is no part of this module. Before
//! each wait it asks [`EventLoop::next`] what to do; after each wait it
//! hands the outcome to [`EventLoop::settle`]. A wait that was interrupted
//! by a signal is no failure: it leaves every counter as it was and the
//! next wait is asked for with the same timeout. Any other failure ends the
//! run. Records that the producer dropped are counted and reported, and the
//! run goes on.

use vstd::prelude::*;
use vstd::string::StringExecFns;
use crate::text::{decimal, push_decimal, signed_decimal, signed_decimal_text};

verus! {

/// The error number of a wait that a signal interrupted.
pub const EINTR: i32 = 4;

/// Why a wait on the buffer failed.
#[derive(Clone, Copy, Debug, PartialEq, Eq)]
pub enum PollFailure {
    /// The operating system refused, with this error number.
    System(i32),
    /// Any other failure.
    Other,
}

/// How a wait on the buffer ended.
#[derive(Clone, Copy, Debug, PartialEq, Eq)]
pub enum PollOutcome {
    /// The records that were available have been handled.
    Drained,
    /// The wait failed.
    Failed(PollFailure),
}

/// What the loop does next.
#[derive(Clone, Copy, Debug, PartialEq, Eq)]
pub enum Step {
    /// Wait on the buffer for at most this long.
    Poll { timeout_ms: u64 },
    /// Leave the loop: the run was canceled.
    Stop,
}

/// What follows from the outcome of a wait.
#[derive(Clone, Copy, Debug, PartialEq, Eq)]
pub enum Verdict {
    /// Go on with the loop.
    Continue,
    /// End the run with this failure.
    Abort(PollFailure),
}

/// The state of the loop.
#[derive(Clone, Copy, Debug, PartialEq, Eq)]
pub struct EventLoop {
    /// The longest that one wait may take, in milliseconds.
    pub timeout_ms: u64,
    /// Records that the producer dropped; stays at the largest value once
    /// reached.
    pub lost_records: u64,
    /// Notifications of dropped records received.
    pub lost_reports: u64,
    /// Waits that ended the run.
    pub errors: u64,
}

/// Whether `failure` is an interrupted wait.
pub open spec fn is_interruption(failure: PollFailure) -> bool {
    failure matches PollFailure::System(errno) && errno == EINTR
}

/// Whether a wait that ended with `outcome` lets the loop go on.
pub open spec fn goes_on(outcome: PollOutcome) -> bool {
    match outcome {
        PollOutcome::Drained => true,
        PollOutcome::Failed(failure) => is_interruption(failure),
    }
}

/// `total` and `more` added, or the largest value if the sum exceeds it.
pub open spec fn capped_sum(total: u64, more: u64) -> u64 {
    if total + more > u64::MAX {
        u64::MAX
    } else {
        (total + more) as u64
    }
}

/// The notice of `count` records dropped on the producer channel `cpu`.
pub open spec fn lost_notice(cpu: i32, count: u64) -> Seq<char> {
    "[!] Lost "@ + decimal(count as nat) + " events on CPU "@ + signed_decimal(cpu as int)
}

/// Whether the error number `errno` is that of an interrupted call.
///
/// Calls `nix::errno::Errno::from_i32` and tells whether it gave
/// `Errno::EINTR`. The contract claims that this is so for the error number
/// 4 and for no other, as the table of that function has it on Linux.
#[verifier::external_body]
fn errno_is_interruption(errno: i32) -> (interrupted: bool)
    ensures
        interrupted == (errno == EINTR),
{
    match nix::errno::Errno::from_i32(errno) {
        nix::errno::Errno::EINTR => true,
        _ => false,
    }
}

/// Whether `failure` is an interrupted wait.
pub fn interrupted(failure: &PollFailure) -> (yes: bool)
    ensures
        yes == is_interruption(*failure),
{
    match failure {
        PollFailure::System(errno) => errno_is_interruption(*errno),
        PollFailure::Other => false,
    }
}

impl EventLoop {
    /// The state of a loop that has not waited yet.
    pub fn new(timeout_ms: u64) -> (state: EventLoop)
        ensures
            state == (EventLoop { timeout_ms, lost_records: 0, lost_reports: 0, errors: 0 }),
    {
        EventLoop { timeout_ms, lost_records: 0, lost_reports: 0, errors: 0 }
    }

    /// What to do at the head of the loop: stop if the run was canceled,
    /// else wait with the loop's timeout.
    pub open spec fn next_step(self, canceled: bool) -> Step {
        if canceled {
            Step::Stop
        } else {
            Step::Poll { timeout_ms: self.timeout_ms }
        }
    }

    /// The state after a wait that ended with `outcome`: unchanged if the
    /// loop goes on, else with the failure counted.
    pub open spec fn settled(self, outcome: PollOutcome) -> EventLoop {
        if goes_on(outcome) {
            self
        } else {
            EventLoop { errors: capped_sum(self.errors, 1), ..self }
        }
    }

    /// What follows from a wait that ended with `outcome`.
    pub open spec fn verdict_on(outcome: PollOutcome) -> Verdict {
        match outcome {
            PollOutcome::Drained => Verdict::Continue,
            PollOutcome::Failed(failure) => if is_interruption(failure) {
                Verdict::Continue
            } else {
                Verdict::Abort(failure)
            },
        }
    }

    /// What to do at the head of the loop: stop if the run was canceled,
    /// else wait with the loop's timeout.
    pub fn next(&self, canceled: bool) -> (step: Step)
        ensures
            step == self.next_step(canceled),
    {
        if canceled {
            Step::Stop
        } else {
            Step::Poll { timeout_ms: self.timeout_ms }
        }
    }

    /// Takes the outcome of a wait. A drained buffer and an interrupted
    /// wait change nothing and let the loop go on. Any other failure is
    /// counted and ends the run.
    pub fn settle(&mut self, outcome: PollOutcome) -> (verdict: Verdict)
        ensures
            verdict == EventLoop::verdict_on(outcome),
            *final(self) == old(self).settled(outcome),
    {
        match outcome {
            PollOutcome::Drained => Verdict::Continue,
            PollOutcome::Failed(failure) => {
                if interrupted(&failure) {
                    Verdict::Continue
                } else {
                    self.errors = add_capped(self.errors, 1);
                    Verdict::Abort(failure)
                }
            },
        }
    }

    /// Takes the notification that `count` records were dropped on the
    /// producer channel `cpu`, and gives the notice to log.
    pub fn lost(&mut self, cpu: i32, count: u64) -> (notice: String)
        ensures
            notice@ == lost_notice(cpu, count),
            *final(self) == (EventLoop {
                lost_records: capped_sum(old(self).lost_records, count),
                lost_reports: capped_sum(old(self).lost_reports, 1),
                ..*old(self)
            }),
    {
        self.lost_records = add_capped(self.lost_records, count);
        self.lost_reports = add_capped(self.lost_reports, 1);
        let mut notice = String::from_str("[!] Lost ");
        push_decimal(&mut notice, count as u128);
        notice.append(" events on CPU ");
        let cpu_text = signed_decimal_text(cpu as i64);
        notice.append(cpu_text.as_str());
        notice
    }
}

/// `total` and `more` added, or the largest value if the sum exceeds it.
pub fn add_capped(total: u64, more: u64) -> (sum: u64)
    ensures
        sum == capped_sum(total, more),
{
    if more > u64::MAX - total {
        u64::MAX
    } else {
        total + more
    }
}

/// An interrupted wait is retried as it was asked for: the loop goes on,
/// no counter has moved, and the next step is what it was before the wait,
/// a wait with the same timeout unless the run was canceled.
pub proof fn lemma_interruption_is_retried(state: EventLoop, canceled: bool)
    ensures
        EventLoop::verdict_on(PollOutcome::Failed(PollFailure::System(EINTR)))
            == Verdict::Continue,
        state.settled(PollOutcome::Failed(PollFailure::System(EINTR))) == state,
        state.settled(PollOutcome::Failed(PollFailure::System(EINTR))).next_step(canceled)
            == state.next_step(canceled),
        state.settled(PollOutcome::Failed(PollFailure::System(EINTR))).next_step(false)
            == (Step::Poll { timeout_ms: state.timeout_ms }),
{
}

/// Every failure but an interruption ends the run and is counted once; the
/// counters of dropped records stay as they were.
pub proof fn lemma_other_failures_abort(state: EventLoop, failure: PollFailure)
    requires
        !is_interruption(failure),
    ensures
        EventLoop::verdict_on(PollOutcome::Failed(failure)) == Verdict::Abort(failure),
        state.settled(PollOutcome::Failed(failure)).errors == capped_sum(state.errors, 1),
        state.settled(PollOutcome::Failed(failure)).lost_records == state.lost_records,
        state.settled(PollOutcome::Failed(failure)).lost_reports == state.lost_reports,
        state.settled(PollOutcome::Failed(failure)).timeout_ms == state.timeout_ms,
{
}

} // verus!
