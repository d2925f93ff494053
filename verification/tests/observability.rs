use agentbus::agents::decision_append_request;
use agentbus::agents::mail_append_request;
use agentbus::agents::vote_append_request;
use agentbus::agents::Decision;
use agentbus::bus::AgentBusError;
use agentbus::bus::AppendResponse;
use agentbus::bus::BlockingPollResponse;
use agentbus::bus::CheckTailResponse;
use agentbus::bus::PollResponse;
use agentbus::bus::ReadNextResponse;
use agentbus::bus::Intention;
use agentbus::bus::MailContent;
use agentbus::bus::Payload;
use agentbus::bus::PayloadBody;
use agentbus::logger::LogFieldValue;
use agentbus::logger::LogRow;
use agentbus::observability::add_result_status;
use agentbus::observability::append_log_row;
use agentbus::observability::blocking_poll_log_row;
use agentbus::observability::check_tail_log_row;
use agentbus::observability::poll_log_row;
use agentbus::observability::read_next_log_row;
use agentbus::observability::base_row;
use agentbus::observability::error_code;
use agentbus::observability::payload_type_name;
use agentbus::time::Duration;

#[test]
fn base_row_names_the_call_and_the_bus() {
    let row = base_row("append", "bus-1", Duration::from_millis(12));
    assert_eq!(
        row,
        LogRow {
            latency_ms: 12,
            api_call_name: "append".to_string(),
            error_code: None,
            error_message: None,
            additional_fields: vec![
                ("component".to_string(), LogFieldValue::String("agent_bus".to_string())),
                ("resource_id".to_string(), LogFieldValue::String("bus-1".to_string())),
            ],
        }
    );
}

#[test]
fn result_status_records_success_or_the_error() {
    let ok: Result<i64, AgentBusError> = Ok(3);
    let row = add_result_status(LogRow::new(), &ok);
    assert_eq!(row.additional_fields, vec![("success".to_string(), LogFieldValue::I64(1))]);
    assert!(row.error_code.is_none());

    let err: Result<i64, AgentBusError> = Err(AgentBusError::Timeout("slow".to_string()));
    let row = add_result_status(LogRow::new(), &err);
    assert_eq!(row.additional_fields, vec![("success".to_string(), LogFieldValue::I64(0))]);
    assert_eq!(row.error_code, Some("BusTimeout".to_string()));
    assert_eq!(error_code(&AgentBusError::Internal(String::new())), "BusInternal");
}

#[test]
fn payload_type_names_follow_the_body() {
    let payload = Payload {
        payload: Some(PayloadBody::Intention(Intention { intention: None })),
    };
    assert_eq!(payload_type_name(&payload), "intention");
    assert_eq!(payload_type_name(&Payload { payload: None }), "unknown");
}

#[test]
fn loop_requests_carry_their_payloads() {
    let mail = mail_append_request("bus", "alice", "hello");
    assert_eq!(mail.agent_bus_id, "bus");
    match mail.payload.and_then(|p| p.payload) {
        Some(PayloadBody::Mail(m)) => {
            assert_eq!(m.sender_agent_id, "alice");
            match m.content {
                Some(MailContent::Message(msg)) => {
                    assert_eq!(msg.body, "hello");
                    assert!(msg.message_id.is_empty());
                }
                other => panic!("unexpected content {other:?}"),
            }
        }
        other => panic!("unexpected payload {other:?}"),
    }

    let vote = vote_append_request("bus", 7, true, "fine".to_string());
    match vote.payload.and_then(|p| p.payload) {
        Some(PayloadBody::Vote(v)) => {
            assert_eq!(v.intention_id, 7);
            assert_eq!(v.abstract_vote.and_then(|t| t.boolean_vote), Some(true));
            assert_eq!(v.reason, "fine");
        }
        other => panic!("unexpected payload {other:?}"),
    }

    let abort = decision_append_request(
        "bus",
        Decision {
            intention_id: 7,
            commit: false,
            reason: "no".to_string(),
        },
    );
    match abort.payload.and_then(|p| p.payload) {
        Some(PayloadBody::Abort(a)) => {
            assert_eq!(a.intention_id, 7);
            assert_eq!(a.reason, "no");
        }
        other => panic!("unexpected payload {other:?}"),
    }
}

fn i64_field(name: &str, value: i64) -> (String, LogFieldValue) {
    (name.to_string(), LogFieldValue::I64(value))
}

fn base_fields(bus: &str) -> Vec<(String, LogFieldValue)> {
    vec![
        ("component".to_string(), LogFieldValue::String("agent_bus".to_string())),
        ("resource_id".to_string(), LogFieldValue::String(bus.to_string())),
    ]
}

#[test]
fn bus_call_rows_carry_each_calls_columns() {
    let elapsed = Duration::from_millis(3);

    let append = append_log_row("b", "vote", elapsed, &Ok(AppendResponse { log_position: 9 }));
    let mut expected = base_fields("b");
    expected.push(("payload_type".to_string(), LogFieldValue::String("vote".to_string())));
    expected.push(i64_field("success", 1));
    expected.push(i64_field("position", 9));
    assert_eq!(append.api_call_name, "append");
    assert_eq!(append.latency_ms, 3);
    assert_eq!(append.additional_fields, expected);

    let failed = append_log_row("b", "vote", elapsed, &Err(AgentBusError::Unavailable("down".to_string())));
    assert_eq!(failed.error_code, Some("BusUnavailable".to_string()));
    assert_eq!(failed.error_message, Some("down".to_string()));
    assert_eq!(failed.additional_fields.last(), Some(&i64_field("success", 0)));

    let poll = poll_log_row(
        "b",
        4,
        10,
        elapsed,
        &Ok(PollResponse {
            entries: vec![],
            complete: true,
        }),
    );
    let mut expected = base_fields("b");
    expected.extend([
        i64_field("position", 4),
        i64_field("max_entries", 10),
        i64_field("success", 1),
        i64_field("entries_returned", 0),
        i64_field("complete", 1),
    ]);
    assert_eq!(poll.additional_fields, expected);

    let read = read_next_log_row(
        "b",
        4,
        10,
        elapsed,
        &Ok(ReadNextResponse {
            entries: vec![],
            next_start_position: 12,
        }),
    );
    assert_eq!(read.api_call_name, "read_next");
    assert_eq!(read.additional_fields.last(), Some(&i64_field("next_position", 12)));

    let tail = check_tail_log_row("b", elapsed, &Ok(CheckTailResponse { tail_position: 5 }));
    let mut expected = base_fields("b");
    expected.extend([i64_field("success", 1), i64_field("tail_position", 5)]);
    assert_eq!(tail.additional_fields, expected);

    let blocking = blocking_poll_log_row(
        "b",
        1,
        2,
        500,
        elapsed,
        &Ok(BlockingPollResponse {
            entries: vec![],
            next_start_position: 1,
        }),
    );
    let mut expected = base_fields("b");
    expected.extend([
        i64_field("position", 1),
        i64_field("max_entries", 2),
        i64_field("timeout_ms", 500),
        i64_field("success", 1),
        i64_field("entries_returned", 0),
        i64_field("next_position", 1),
    ]);
    assert_eq!(blocking.additional_fields, expected);
}
