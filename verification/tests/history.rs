use agentbus::history::CompletedOperation;
use agentbus::history::History;
use agentbus::history::HistoryError;
use agentbus::history::Observation;
use agentbus::history::OperationId;
use agentbus::linearizability::Client;
use agentbus::linearizability::SequentialSpec;
use agentbus::linearizability::check_workload;
use agentbus::linearizability::finish_linearizability_test;
use agentbus::linearizability::LinearizableObject;
use agentbus::linearizability::OperationResult;
use agentbus::linearizability::Worker;
use agentbus::time::Duration;
use agentbus::time::ManualClock;
use agentbus::time::MonotonicInstant;
use agentbus::time::UnsafeWallTime;

struct TestObservation {
    client: usize,
    sequence: usize,
    start_ms: u64,
    end_ms: u64,
    operation: i64,
    output: i64,
}

fn observation(input: TestObservation) -> Observation<i64, i64, ()> {
    Observation {
        id: OperationId {
            client: input.client,
            sequence: input.sequence,
        },
        start_time: MonotonicInstant::from_duration_since_clock_origin(Duration::from_millis(
            input.start_ms,
        )),
        end_time: MonotonicInstant::from_duration_since_clock_origin(Duration::from_millis(
            input.end_ms,
        )),
        completed: CompletedOperation {
            operation: input.operation,
            output: input.output,
            tag: (),
        },
    }
}

fn summing(state: i64, operation: &i64, observed: &i64) -> Result<i64, String> {
    let next = state + operation;
    if next == *observed {
        Ok(next)
    } else {
        Err("unexpected sum".to_string())
    }
}

#[test]
fn verifies_candidate_against_partial_order_and_specification() {
    let mut history = History::new();
    let first = observation(TestObservation {
        client: 0,
        sequence: 0,
        start_ms: 0,
        end_ms: 2,
        operation: 1,
        output: 1,
    });
    let concurrent = observation(TestObservation {
        client: 1,
        sequence: 0,
        start_ms: 1,
        end_ms: 4,
        operation: 2,
        output: 3,
    });
    let last = observation(TestObservation {
        client: 0,
        sequence: 1,
        start_ms: 5,
        end_ms: 6,
        operation: 3,
        output: 6,
    });
    let ids = vec![first.id, concurrent.id, last.id];
    history.record(first);
    history.record(concurrent);
    history.record(last);

    history
        .verify(&ids, 0, summing)
        .expect("candidate should satisfy the observed history");
}

#[test]
fn completes_candidate_at_the_earliest_legal_position() {
    let mut history = History::new();
    let first_write = observation(TestObservation {
        client: 0,
        sequence: 0,
        start_ms: 0,
        end_ms: 1,
        operation: 1,
        output: 1,
    });
    let second_write = observation(TestObservation {
        client: 0,
        sequence: 1,
        start_ms: 3,
        end_ms: 5,
        operation: 2,
        output: 2,
    });
    let overlapping_read = observation(TestObservation {
        client: 1,
        sequence: 0,
        start_ms: 2,
        end_ms: 4,
        operation: 0,
        output: 2,
    });
    let (a, b, c) = (first_write.id, second_write.id, overlapping_read.id);
    history.record(first_write);
    history.record(second_write);
    history.record(overlapping_read);

    assert_eq!(
        history
            .complete_candidate(vec![a, b])
            .expect("the missing read should have a legal position"),
        vec![a, c, b]
    );
}

#[test]
fn rejects_overlapping_operations_from_one_client() {
    let mut history = History::new();
    let first = observation(TestObservation {
        client: 0,
        sequence: 0,
        start_ms: 0,
        end_ms: 3,
        operation: 1,
        output: 1,
    });
    let overlapping = observation(TestObservation {
        client: 0,
        sequence: 1,
        start_ms: 2,
        end_ms: 4,
        operation: 2,
        output: 3,
    });
    let ids = vec![first.id, overlapping.id];
    history.record(first);
    history.record(overlapping);

    let error = history
        .verify(&ids, (), |_state: (), _operation: &i64, _output: &i64| Ok(()))
        .expect_err("one client cannot execute overlapping operations");

    assert_eq!(error.message(), "client 0 operations 0 and 1 overlap");
}

#[test]
fn rejects_a_wrong_replay_output() {
    let mut history = History::new();
    let first = observation(TestObservation {
        client: 0,
        sequence: 0,
        start_ms: 0,
        end_ms: 1,
        operation: 1,
        output: 5,
    });
    let ids = vec![first.id];
    history.record(first);
    let error = history.verify(&ids, 0, summing).expect_err("sum 1 was observed as 5");
    assert!(matches!(error, HistoryError::OperationFailed { .. }));
    assert_eq!(error.message(), "operation OperationId { client: 0, sequence: 0 }: unexpected sum");
}

#[test]
fn rejects_a_candidate_that_is_not_a_permutation() {
    let mut history = History::new();
    let first = observation(TestObservation {
        client: 0,
        sequence: 0,
        start_ms: 0,
        end_ms: 1,
        operation: 1,
        output: 1,
    });
    history.record(first);
    let error = history.verify(&vec![], 0, summing).expect_err("the candidate misses an operation");
    assert!(matches!(error, HistoryError::CandidateNotPermutation));
}

#[test]
fn rejects_a_candidate_against_real_time_order() {
    let mut history = History::new();
    let early = observation(TestObservation {
        client: 0,
        sequence: 0,
        start_ms: 0,
        end_ms: 1,
        operation: 1,
        output: 1,
    });
    let late = observation(TestObservation {
        client: 1,
        sequence: 0,
        start_ms: 2,
        end_ms: 3,
        operation: 2,
        output: 3,
    });
    let ids = vec![late.id, early.id];
    history.record(early);
    history.record(late);
    let error = history
        .verify(&ids, 0, |s: i64, _o: &i64, _out: &i64| Ok(s))
        .expect_err("the late operation cannot come first");
    assert!(matches!(error, HistoryError::RealTimeViolation { .. }));
}

#[test]
fn rejects_duplicate_operation_ids() {
    let mut history = History::new();
    for _ in 0..2 {
        history.record(observation(TestObservation {
            client: 0,
            sequence: 0,
            start_ms: 0,
            end_ms: 1,
            operation: 1,
            output: 1,
        }));
    }
    let error = history
        .complete_candidate(vec![])
        .expect_err("two observations share one id");
    assert!(matches!(error, HistoryError::DuplicateOperationIds));
    assert_eq!(error.message(), "history contains duplicate operation IDs");
}

struct Multiplier;

impl LinearizableObject for Multiplier {
    type Operation = i64;
    type Output = i64;
    type Tag = usize;

    fn executes(&self, id: OperationId, operation: i64, result: OperationResult<i64, usize>) -> bool {
        result.output == operation * 10 && result.tag == id.sequence
    }

    fn execute(&self, id: OperationId, operation: i64) -> OperationResult<i64, usize> {
        OperationResult {
            output: operation * 10,
            tag: id.sequence,
        }
    }
}

#[test]
fn records_outputs_timing_and_tags() {
    let mut history: History<i64, i64, usize> = History::new();
    let clock = ManualClock {
        now: MonotonicInstant::from_duration_since_clock_origin(Duration::from_millis(2)),
        wall: UnsafeWallTime::from_duration_since_epoch(Duration::from_millis(10)),
    };
    let worker = Worker::new(0, vec![2, 3]);
    worker.run(&mut history, &clock, &Multiplier);

    let observations = history.observations();
    assert_eq!(observations.len(), 2);
    assert_eq!(
        observations[0].id,
        OperationId {
            client: 0,
            sequence: 0
        }
    );
    assert_eq!(observations[0].completed.operation, 2);
    assert_eq!(observations[0].completed.output, 20);
    assert_eq!(observations[0].completed.tag, 0);
    assert!(
        observations[0]
            .end_time
            .is_at_or_after(observations[0].start_time),
        "operation should not end before it starts"
    );
    assert_eq!(
        observations[1].id,
        OperationId {
            client: 0,
            sequence: 1
        }
    );
    assert_eq!(observations[1].completed.operation, 3);
    assert!(
        observations[1]
            .start_time
            .is_at_or_after(observations[0].end_time),
        "the second operation should start after the first one ends"
    );
}

#[test]
fn client_keeps_its_name_and_operations() {
    let client = Client::new("writer", vec![1, 2, 3]);
    assert_eq!(client.name, "writer");
    assert_eq!(client.operations, vec![1, 2, 3]);
}

struct Toggle {
    on: bool,
}

impl SequentialSpec for Toggle {
    type Operation = ();
    type Output = bool;

    fn new() -> Self {
        Toggle { on: false }
    }

    fn spec_new() -> Self {
        Toggle { on: false }
    }

    fn spec_apply(state: Self, _operation: ()) -> (Self, bool) {
        let on = !state.on;
        (Toggle { on }, on)
    }

    fn spec_is_write(_operation: ()) -> bool {
        true
    }

    fn spec_outputs_match(expected: bool, observed: bool) -> bool {
        expected == observed
    }

    fn apply(&mut self, _operation: &()) -> bool {
        self.on = !self.on;
        self.on
    }

    fn is_write(_operation: &()) -> bool {
        true
    }

    fn outputs_match(expected: &bool, observed: &bool) -> bool {
        expected == observed
    }
}

fn toggle_history(outputs: [bool; 2]) -> History<(), bool, ()> {
    let mut history = History::new();
    for (client, output) in outputs.into_iter().enumerate() {
        let start = client as u64 * 10;
        history.record(Observation {
            id: OperationId { client, sequence: 0 },
            start_time: MonotonicInstant::from_duration_since_clock_origin(Duration::from_millis(start)),
            end_time: MonotonicInstant::from_duration_since_clock_origin(Duration::from_millis(start + 5)),
            completed: CompletedOperation {
                operation: (),
                output,
                tag: (),
            },
        });
    }
    history
}

#[test]
fn finishing_a_run_accepts_an_atomic_toggle_and_rejects_a_lost_update() {
    let ids = vec![
        OperationId { client: 0, sequence: 0 },
        OperationId { client: 1, sequence: 0 },
    ];
    let atomic = toggle_history([true, false]);
    assert_eq!(finish_linearizability_test::<Toggle, ()>(&atomic, &ids).unwrap(), 2);

    let lost_update = toggle_history([true, true]);
    let error = finish_linearizability_test::<Toggle, ()>(&lost_update, &ids).unwrap_err();
    assert!(
        error.message().contains("sequential replay produced"),
        "unexpected verification error: {}",
        error.message()
    );
    match error {
        HistoryError::OperationFailed { id, message } => {
            assert_eq!(id, OperationId { client: 1, sequence: 0 });
            assert_eq!(message, "observed true, but sequential replay produced false");
        }
        other => panic!("unexpected verification error: {}", other.message()),
    }
}

#[test]
fn an_empty_workload_is_rejected() {
    let clients: Vec<Client<()>> = Vec::new();
    assert_eq!(
        check_workload(&clients),
        Err("linearizability workload should have at least one client".to_string())
    );
    assert_eq!(check_workload(&vec![Client::new("first", vec![()])]), Ok(()));
}

#[test]
fn completion_places_a_chain_of_missing_operations_in_client_order() {
    let mut history = History::new();
    let anchor = observation(TestObservation { client: 2, sequence: 0, start_ms: 0, end_ms: 1, operation: 0, output: 0 });
    let late = observation(TestObservation { client: 1, sequence: 0, start_ms: 5, end_ms: 6, operation: 0, output: 0 });
    let early = observation(TestObservation { client: 0, sequence: 0, start_ms: 5, end_ms: 6, operation: 0, output: 0 });
    history.record(anchor.clone());
    history.record(late.clone());
    history.record(early.clone());
    assert_eq!(
        history.complete_candidate(vec![anchor.id]).unwrap(),
        vec![anchor.id, late.id, early.id]
    );
}
