use agentbus::retry::RetryConfig;
use agentbus::retry::RetryDecision;
use agentbus::retry::RetryFailure;
use agentbus::retry::RetryState;
use agentbus::retry::RetryStep;
use agentbus::time::Duration;

fn retry_config(max_retries: usize) -> RetryConfig {
    RetryConfig::try_new(max_retries, Duration::from_millis(10), Duration::from_millis(100))
        .expect("test retry configuration should be valid")
}

/// Drives an operation the way a retrying caller does: every sleep is taken
/// at the given fraction of its window (at least one nanosecond), and the
/// total slept time is returned with the outcome.
fn drive<T, E>(
    config: RetryConfig,
    jitter: f64,
    mut operation: impl FnMut() -> Result<T, E>,
    mut decide: impl FnMut(&E) -> RetryDecision,
) -> (Result<T, RetryFailure<E>>, u128) {
    let mut state = RetryState::new(&config);
    let mut slept: u128 = 0;
    loop {
        let error = match operation() {
            Ok(value) => return (Ok(value), slept),
            Err(error) => error,
        };
        match state.after_failure(&config, decide(&error)) {
            RetryStep::Stopped => return (Err(RetryFailure::Stopped { last_error: error }), slept),
            RetryStep::Exhausted { retries } => {
                return (Err(RetryFailure::Exhausted { retries, last_error: error }), slept)
            }
            RetryStep::RetryNow => {}
            RetryStep::SleepThenRetry { upper } => {
                let delay = ((upper.as_nanos() as f64) * jitter) as u128;
                slept += delay.max(1);
            }
        }
    }
}

#[test]
fn rejects_invalid_configuration() {
    assert!(RetryConfig::try_new(1, Duration::from_nanos(1), Duration::from_nanos(1)).is_ok());
    assert_eq!(
        RetryConfig::try_new(1, Duration::zero(), Duration::from_secs(1))
            .expect_err("zero initial backoff should be rejected")
            .message(),
        "initial backoff must be nonzero"
    );
    assert_eq!(
        RetryConfig::try_new(1, Duration::from_secs(2), Duration::from_secs(1))
            .expect_err("initial backoff above the maximum should be rejected")
            .message(),
        "initial backoff 2s must not exceed maximum backoff 1s"
    );
}

#[test]
fn succeeds_without_retrying() {
    let mut attempts = 0;
    let (result, elapsed) = drive(
        retry_config(7),
        1.0,
        || {
            attempts += 1;
            Ok::<_, &'static str>(7)
        },
        |_| RetryDecision::Stop,
    );
    assert_eq!(result.ok(), Some(7));
    assert_eq!(attempts, 1);
    assert_eq!(elapsed, 0);
}

#[test]
fn retries_immediately_without_sleeping() {
    let mut attempts = 0;
    let (result, elapsed) = drive(
        retry_config(7),
        1.0,
        || {
            attempts += 1;
            if attempts == 1 {
                Err("retry")
            } else {
                Ok(attempts)
            }
        },
        |_| RetryDecision::RetryImmediately,
    );
    assert_eq!(result.ok(), Some(2));
    assert_eq!(attempts, 2);
    assert_eq!(elapsed, 0);
}

#[test]
fn counts_immediate_and_backed_off_retries_together() {
    for jitter in [0.5, 1.0] {
        let mut attempts = 0;
        let (result, elapsed) = drive(
            retry_config(2),
            jitter,
            || {
                attempts += 1;
                Err::<(), _>(attempts)
            },
            |attempt| {
                if *attempt == 1 {
                    RetryDecision::RetryImmediately
                } else {
                    RetryDecision::RetryWithBackoff
                }
            },
        );
        let failure = result.expect_err("the retry limit should be exhausted");
        assert!(matches!(failure, RetryFailure::Exhausted { retries: 2, last_error: 3 }));
        assert_eq!(attempts, 3);
        assert!((5_000_000..=10_000_000).contains(&elapsed));
    }
}

#[test]
fn returns_an_error_the_decider_will_not_retry() {
    let (result, elapsed) = drive(
        retry_config(7),
        1.0,
        || Err::<(), _>("terminal"),
        |_| RetryDecision::Stop,
    );
    let failure = result.expect_err("the error should escape");
    assert!(matches!(failure, RetryFailure::Stopped { last_error: "terminal" }));
    assert_eq!(elapsed, 0);
}

#[test]
fn backoff_windows_double_up_to_the_maximum() {
    let config = RetryConfig::try_new(5, Duration::from_millis(10), Duration::from_millis(40)).unwrap();
    let mut state = RetryState::new(&config);
    let mut windows = Vec::new();
    for _ in 0..4 {
        match state.after_failure(&config, RetryDecision::RetryWithBackoff) {
            RetryStep::SleepThenRetry { upper } => windows.push(upper.as_millis()),
            other => panic!("unexpected step {other:?}"),
        }
    }
    assert_eq!(windows, vec![10, 20, 40, 40]);
    assert_eq!(state.retries, 4);
    assert_eq!(
        state.after_failure(&config, RetryDecision::RetryImmediately),
        RetryStep::RetryNow
    );
    assert_eq!(
        state.after_failure(&config, RetryDecision::RetryWithBackoff),
        RetryStep::Exhausted { retries: 5 }
    );
}

#[test]
fn three_backed_off_retries_sleep_within_their_combined_range() {
    let config = RetryConfig::try_new(3, Duration::from_millis(10), Duration::from_millis(40)).unwrap();
    for jitter in [0.5, 0.75, 1.0] {
        let mut attempts = 0;
        let (result, elapsed) = drive(
            config,
            jitter,
            || {
                attempts += 1;
                if attempts < 4 { Err(attempts) } else { Ok(attempts) }
            },
            |_| RetryDecision::RetryWithBackoff,
        );
        assert_eq!(result.ok(), Some(4));
        assert!((35_000_000..=70_000_000).contains(&elapsed));
    }
}

#[test]
fn into_last_error_returns_the_final_error() {
    assert_eq!(RetryFailure::Stopped { last_error: 4 }.into_last_error(), 4);
    assert_eq!(RetryFailure::Exhausted { retries: 2, last_error: 9 }.into_last_error(), 9);
}
