//! The options of a run, and what they mean for the configuration of the
//! instrumentation.

use vstd::prelude::*;
use crate::aggregate::SortKey;
use crate::resolver::ScopeId;
use crate::sampler::DisplayMode;

verus! {

/// The sampling period when none is given, in milliseconds.
pub const DEFAULT_PERIOD_MS: u64 = 1000;

/// The timeout of one wait on the event buffer, in milliseconds.
pub const POLL_TIMEOUT_MS: u64 = 100;

/// The options of a run.
#[derive(Clone, Copy, Debug, PartialEq, Eq)]
pub struct Options {
    /// The cgroup to which the run is scoped, if any.
    pub scope: Option<ScopeId>,
    /// What a sample shows.
    pub mode: DisplayMode,
    /// The period between two samples, in milliseconds.
    pub period_ms: u64,
    /// The total by which the report is ranked.
    pub sort: SortKey,
    /// Whether only failed calls are captured.
    pub failed_only: bool,
}

impl Options {
    /// The options of a run without any switch: no scope, bytes shown, one
    /// sample a second, ranking by count, every call captured.
    pub fn new() -> (options: Options)
        ensures
            options == (Options {
                scope: None,
                mode: DisplayMode::Bytes,
                period_ms: DEFAULT_PERIOD_MS,
                sort: SortKey::Count,
                failed_only: false,
            }),
    {
        Options {
            scope: None,
            mode: DisplayMode::Bytes,
            period_ms: DEFAULT_PERIOD_MS,
            sort: SortKey::Count,
            failed_only: false,
        }
    }

    /// The value of the configuration slot that scopes the instrumentation:
    /// the identifier of the cgroup, or zero for no scope.
    pub fn targ_cgid(&self) -> (value: u64)
        ensures
            value == match self.scope {
                Some(scope) => scope.raw,
                None => 0,
            },
    {
        match self.scope {
            Some(scope) => scope.raw,
            None => 0,
        }
    }

    /// The value of the configuration slot that limits capture to failed
    /// calls: one if it is limited, zero if not.
    pub fn targ_failed(&self) -> (value: u8)
        ensures
            value == if self.failed_only {
                1u8
            } else {
                0u8
            },
    {
        if self.failed_only {
            1
        } else {
            0
        }
    }
}

} // verus!
