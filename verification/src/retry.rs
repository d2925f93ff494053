//! Bounded equal-jitter exponential backoff: the configuration, the
//! decisions a caller makes after a failure, and the retry bookkeeping that
//! says what to do next.

use vstd::prelude::*;

use crate::text::append_str;
use crate::time::duration_debug_text;
use crate::time::Duration;
use crate::time::NANOS_PER_SEC;

verus! {

/// Attempt and timing parameters for bounded equal-jitter exponential backoff.
#[derive(Clone, Copy, Debug)]
pub struct RetryConfig {
    max_retries: usize,
    initial_backoff: Duration,
    max_backoff: Duration,
}

/// Why a retry configuration was refused.
#[derive(Clone, Copy, Debug)]
pub enum RetryConfigError {
    /// The initial backoff was zero.
    ZeroInitialBackoff,
    /// The initial backoff was longer than the maximum backoff.
    InitialExceedsMaximum { initial: Duration, maximum: Duration },
}

/// The `Debug` text of a span, split into seconds and sub-second nanoseconds.
pub open spec fn duration_text(d: Duration) -> Seq<char> {
    duration_debug_text((d.nanos / NANOS_PER_SEC) as u64, (d.nanos % NANOS_PER_SEC) as u32)
}

/// The message of a refused retry configuration.
pub open spec fn retry_config_error_text(e: RetryConfigError) -> Seq<char> {
    match e {
        RetryConfigError::ZeroInitialBackoff => "initial backoff must be nonzero"@,
        RetryConfigError::InitialExceedsMaximum { initial, maximum } => "initial backoff "@ + duration_text(
            initial,
        ) + " must not exceed maximum backoff "@ + duration_text(maximum),
    }
}

impl RetryConfigError {
    /// The message of this error.
    pub fn message(&self) -> (m: String)
        requires
            match *self {
                RetryConfigError::ZeroInitialBackoff => true,
                RetryConfigError::InitialExceedsMaximum { initial, maximum } => initial.fits_std()
                    && maximum.fits_std(),
            },
        ensures
            m@ == retry_config_error_text(*self),
    {
        match self {
            RetryConfigError::ZeroInitialBackoff => {
                let mut m = String::new();
                append_str(&mut m, "initial backoff must be nonzero");
                m
            },
            RetryConfigError::InitialExceedsMaximum { initial, maximum } => {
                let mut m = String::new();
                append_str(&mut m, "initial backoff ");
                let a = initial.debug_text();
                append_str(&mut m, a.as_str());
                append_str(&mut m, " must not exceed maximum backoff ");
                let b = maximum.debug_text();
                append_str(&mut m, b.as_str());
                m
            },
        }
    }
}

impl RetryConfig {
    #[verifier::type_invariant]
    spec fn valid(&self) -> bool {
        0 < self.initial_backoff.nanos <= self.max_backoff.nanos
    }

    /// The number of retries allowed after the first attempt.
    pub closed spec fn spec_max_retries(&self) -> usize {
        self.max_retries
    }

    /// The upper bound of the first backoff window.
    pub closed spec fn spec_initial_backoff(&self) -> Duration {
        self.initial_backoff
    }

    /// The largest backoff window.
    pub closed spec fn spec_max_backoff(&self) -> Duration {
        self.max_backoff
    }

    /// A retry configuration. `initial_backoff` is the upper bound of the
    /// first equal-jitter window; its lower bound is half that value. A zero
    /// initial backoff, or one longer than `max_backoff`, is refused.
    pub fn try_new(max_retries: usize, initial_backoff: Duration, max_backoff: Duration) -> (r: Result<
        RetryConfig,
        RetryConfigError,
    >)
        ensures
            match r {
                Ok(c) => {
                    &&& initial_backoff.nanos != 0
                    &&& initial_backoff.nanos <= max_backoff.nanos
                    &&& c.spec_max_retries() == max_retries
                    &&& c.spec_initial_backoff() == initial_backoff
                    &&& c.spec_max_backoff() == max_backoff
                },
                Err(RetryConfigError::ZeroInitialBackoff) => initial_backoff.nanos == 0,
                Err(RetryConfigError::InitialExceedsMaximum { initial, maximum }) => {
                    &&& initial_backoff.nanos != 0
                    &&& initial_backoff.nanos > max_backoff.nanos
                    &&& initial == initial_backoff
                    &&& maximum == max_backoff
                },
            },
    {
        if initial_backoff.is_zero() {
            return Err(RetryConfigError::ZeroInitialBackoff);
        }
        if !initial_backoff.le(&max_backoff) {
            return Err(RetryConfigError::InitialExceedsMaximum { initial: initial_backoff, maximum: max_backoff });
        }
        Ok(RetryConfig { max_retries, initial_backoff, max_backoff })
    }

    pub fn max_retries(&self) -> (n: usize)
        ensures
            n == self.spec_max_retries(),
    {
        self.max_retries
    }

    pub fn initial_backoff(&self) -> (d: Duration)
        ensures
            d == self.spec_initial_backoff(),
    {
        self.initial_backoff
    }

    pub fn max_backoff(&self) -> (d: Duration)
        ensures
            d == self.spec_max_backoff(),
    {
        self.max_backoff
    }
}

/// The action to take after an operation fails.
#[derive(Clone, Copy, Debug, PartialEq, Eq, Structural)]
pub enum RetryDecision {
    /// Return the operation's error.
    Stop,
    /// Retry without sleeping. This counts toward the configured retry limit.
    RetryImmediately,
    /// Retry after bounded equal-jitter exponential backoff.
    RetryWithBackoff,
}

/// Why a retried operation ultimately failed.
#[derive(Debug)]
pub enum RetryFailure<E> {
    /// The caller classified the error as terminal.
    Stopped { last_error: E },
    /// The configured retry count was exhausted.
    Exhausted {
        /// Number of retries performed after the initial attempt.
        retries: usize,
        /// Error returned by the final operation attempt.
        last_error: E,
    },
}

impl<E> RetryFailure<E> {
    /// Consume the failure and return the operation's final error.
    pub fn into_last_error(self) -> (e: E)
        ensures
            e == match self {
                RetryFailure::Stopped { last_error } => last_error,
                RetryFailure::Exhausted { last_error, .. } => last_error,
            },
    {
        match self {
            RetryFailure::Stopped { last_error } => last_error,
            RetryFailure::Exhausted { last_error, .. } => last_error,
        }
    }
}

/// What to do after a failed attempt.
#[derive(Clone, Copy, Debug, PartialEq, Eq, Structural)]
pub enum RetryStep {
    /// Give up: the decision was `Stop`.
    Stopped,
    /// Give up: the retry limit was reached after `retries` retries.
    Exhausted { retries: usize },
    /// Try again at once.
    RetryNow,
    /// Sleep for a jittered delay in `[upper / 2, upper]` (at least one
    /// nanosecond), then try again.
    SleepThenRetry { upper: Duration },
}

/// The window after `upper`: twice as long, saturating, and at most `max`.
pub open spec fn next_window(upper: int, max: int) -> int {
    let doubled = if 2 * upper <= u128::MAX { 2 * upper } else { u128::MAX as int };
    if doubled <= max {
        doubled
    } else {
        max
    }
}

/// The upper bound of the window of the backoff that follows `k` earlier
/// backoffs: `initial`, then each one twice the last, up to `max`.
pub open spec fn backoff_window(initial: int, max: int, k: nat) -> int
    decreases k,
{
    if k == 0 {
        initial
    } else {
        next_window(backoff_window(initial, max, (k - 1) as nat), max)
    }
}

/// The number of backed-off retries that `decisions` asks for.
pub open spec fn backoffs(decisions: Seq<RetryDecision>) -> nat
    decreases decisions.len(),
{
    if decisions.len() == 0 {
        0
    } else {
        backoffs(decisions.drop_last()) + if decisions.last() == RetryDecision::RetryWithBackoff {
            1nat
        } else {
            0nat
        }
    }
}

/// One failed attempt, classified as `decision`: the state before and after
/// and the step taken. `Stop` gives up; at the retry limit the retries are
/// exhausted; otherwise a retry counts toward the limit, and a backed-off
/// one sleeps in the current window and moves to the next.
pub open spec fn retry_transition(
    config: RetryConfig,
    before: RetryState,
    decision: RetryDecision,
    after: RetryState,
    step: RetryStep,
) -> bool {
    match decision {
        RetryDecision::Stop => step == RetryStep::Stopped && after == before,
        _ => if before.retries == config.spec_max_retries() {
            step == (RetryStep::Exhausted { retries: before.retries }) && after == before
        } else if decision == RetryDecision::RetryImmediately {
            &&& step == RetryStep::RetryNow
            &&& after.retries == before.retries + 1
            &&& after.next_backoff_upper == before.next_backoff_upper
        } else {
            &&& step == (RetryStep::SleepThenRetry { upper: before.next_backoff_upper })
            &&& after.retries == before.retries + 1
            &&& after.next_backoff_upper.nanos == next_window(
                before.next_backoff_upper.nanos as int,
                config.spec_max_backoff().nanos as int,
            )
        },
    }
}

/// A run of failed attempts: `states[k]` before failure `k`, classified as
/// `decisions[k]`, and `steps[k]` the step taken.
pub open spec fn retry_run(
    config: RetryConfig,
    states: Seq<RetryState>,
    decisions: Seq<RetryDecision>,
    steps: Seq<RetryStep>,
) -> bool {
    &&& states.len() == decisions.len() + 1
    &&& steps.len() == decisions.len()
    &&& forall|k: int|
        0 <= k < decisions.len() ==> retry_transition(
            config,
            states[k],
            #[trigger] decisions[k],
            states[k + 1],
            steps[k],
        )
}

/// The bookkeeping of one retried operation: the retries made so far and
/// the upper bound of the next backoff window.
#[derive(Clone, Copy, Debug)]
pub struct RetryState {
    pub retries: usize,
    pub next_backoff_upper: Duration,
}

impl RetryState {
    /// The state holds for `config`: no more retries than allowed, and the
    /// next window between the initial and the maximum backoff.
    pub open spec fn valid_for(&self, config: RetryConfig) -> bool {
        &&& self.retries <= config.spec_max_retries()
        &&& config.spec_initial_backoff().nanos <= self.next_backoff_upper.nanos
        &&& self.next_backoff_upper.nanos <= config.spec_max_backoff().nanos
    }

    /// The state before the first attempt.
    pub fn new(config: &RetryConfig) -> (s: RetryState)
        ensures
            s.retries == 0,
            s.next_backoff_upper == config.spec_initial_backoff(),
            s.valid_for(*config),
    {
        proof {
            use_type_invariant(config);
        }
        RetryState { retries: 0, next_backoff_upper: config.initial_backoff() }
    }

    /// Record a failed attempt that the caller classified as `decision`, and
    /// say what to do next. A retry of either kind counts toward the limit;
    /// a backed-off retry doubles the next window, up to the maximum.
    pub fn after_failure(&mut self, config: &RetryConfig, decision: RetryDecision) -> (step: RetryStep)
        requires
            old(self).valid_for(*config),
        ensures
            final(self).valid_for(*config),
            retry_transition(*config, *old(self), decision, *final(self), step),
    {
        proof {
            use_type_invariant(config);
        }
        match decision {
            RetryDecision::Stop => {
                return RetryStep::Stopped;
            },
            _ => {},
        }
        if self.retries == config.max_retries() {
            return RetryStep::Exhausted { retries: self.retries };
        }
        self.retries = self.retries + 1;
        match decision {
            RetryDecision::RetryImmediately => RetryStep::RetryNow,
            _ => {
                let upper = self.next_backoff_upper;
                self.next_backoff_upper = upper.saturating_double().min(config.max_backoff());
                RetryStep::SleepThenRetry { upper }
            },
        }
    }
}

/// Along a run from a fresh state that never stops, before failure `k` the
/// state has made `min(k, max_retries)` retries and its window follows the
/// backoffs among the first of them.
proof fn lemma_retry_state(
    config: RetryConfig,
    states: Seq<RetryState>,
    decisions: Seq<RetryDecision>,
    steps: Seq<RetryStep>,
    k: int,
)
    requires
        retry_run(config, states, decisions, steps),
        states[0].retries == 0,
        states[0].next_backoff_upper == config.spec_initial_backoff(),
        forall|j: int| 0 <= j < decisions.len() ==> #[trigger] decisions[j] != RetryDecision::Stop,
        0 <= k <= decisions.len(),
    ensures
        ({
            let made = if k <= config.spec_max_retries() { k } else { config.spec_max_retries() as int };
            &&& states[k].retries == made
            &&& states[k].next_backoff_upper.nanos == backoff_window(
                config.spec_initial_backoff().nanos as int,
                config.spec_max_backoff().nanos as int,
                backoffs(decisions.take(made)),
            )
        }),
    decreases k,
{
    if k > 0 {
        let j = k - 1;
        lemma_retry_state(config, states, decisions, steps, j);
        assert(retry_transition(config, states[j], decisions[j], states[j + 1], steps[j]));
        assert(decisions[j] != RetryDecision::Stop);
        if j < config.spec_max_retries() {
            assert(decisions.take(k).drop_last() =~= decisions.take(j));
            assert(decisions.take(k).last() == decisions[j]);
        }
    }
}

/// Retrying with backoff, from a fresh state and with no decision to stop:
/// while retries remain, the failure after `n` earlier backoffs sleeps in
/// the window `backoff_window(initial, max, n)` (`initial`, then each twice
/// the last, up to `max`), an immediate retry does not sleep, and every
/// failure once `max_retries` retries are made exhausts them.
pub proof fn lemma_backoff_windows(
    config: RetryConfig,
    states: Seq<RetryState>,
    decisions: Seq<RetryDecision>,
    steps: Seq<RetryStep>,
)
    requires
        retry_run(config, states, decisions, steps),
        states[0].retries == 0,
        states[0].next_backoff_upper == config.spec_initial_backoff(),
        forall|j: int| 0 <= j < decisions.len() ==> #[trigger] decisions[j] != RetryDecision::Stop,
    ensures
        forall|k: int|
            0 <= k < decisions.len() ==> {
                &&& k < config.spec_max_retries() && decisions[k] == RetryDecision::RetryImmediately ==> steps[k]
                    == RetryStep::RetryNow
                &&& k < config.spec_max_retries() && decisions[k] == RetryDecision::RetryWithBackoff ==> (
                #[trigger] steps[k] matches RetryStep::SleepThenRetry { upper } && upper.nanos == backoff_window(
                    config.spec_initial_backoff().nanos as int,
                    config.spec_max_backoff().nanos as int,
                    backoffs(decisions.take(k)),
                ))
                &&& k >= config.spec_max_retries() ==> steps[k] == (RetryStep::Exhausted {
                    retries: config.spec_max_retries(),
                })
            },
{
    assert forall|k: int| 0 <= k < decisions.len() implies {
        &&& k < config.spec_max_retries() && decisions[k] == RetryDecision::RetryImmediately ==> steps[k]
            == RetryStep::RetryNow
        &&& k < config.spec_max_retries() && decisions[k] == RetryDecision::RetryWithBackoff ==> (
        #[trigger] steps[k] matches RetryStep::SleepThenRetry { upper } && upper.nanos == backoff_window(
            config.spec_initial_backoff().nanos as int,
            config.spec_max_backoff().nanos as int,
            backoffs(decisions.take(k)),
        ))
        &&& k >= config.spec_max_retries() ==> steps[k] == (RetryStep::Exhausted {
            retries: config.spec_max_retries(),
        })
    } by {
        lemma_retry_state(config, states, decisions, steps, k);
        assert(retry_transition(config, states[k], decisions[k], states[k + 1], steps[k]));
        assert(decisions[k] != RetryDecision::Stop);
    }
}

} // verus!
