use agentbus::bus::decider_policy_name;
use agentbus::bus::get_payload_type;
use agentbus::bus::payload_matches_filter;
use agentbus::bus::resolve_bus_id;
use agentbus::bus::validate_bus_id;
use agentbus::bus::Abort;
use agentbus::bus::AgentBusError;
use agentbus::bus::AppendRequest;
use agentbus::bus::BusEntry;
use agentbus::bus::BusId;
use agentbus::bus::BaseEngineControl;
use agentbus::bus::BaseEngineOp;
use agentbus::bus::Control;
use agentbus::bus::PolicyBatch;
use agentbus::bus::VoterOp;
use agentbus::bus::VoterOpKind;
use agentbus::bus::VoterOps;
use agentbus::bus::has_ordered_voter_ops;
use agentbus::bus::CheckTailRequest;
use agentbus::bus::Commit;
use agentbus::bus::DeciderPolicy;
use agentbus::bus::Header;
use agentbus::bus::Intention;
use agentbus::bus::LlmVoterConfig;
use agentbus::bus::Mail;
use agentbus::bus::MailContent;
use agentbus::bus::MailMessage;
use agentbus::bus::Payload;
use agentbus::bus::PayloadBody;
use agentbus::bus::PayloadType;
use agentbus::bus::PayloadTypeFilter;
use agentbus::bus::PollRequest;
use agentbus::bus::ReadNextRequest;
use agentbus::bus::Vote;
use agentbus::bus::VoteType;
use agentbus::bus::VoterConfig;
use agentbus::bus::VoterConfigKind;
use agentbus::bus_state::InMemoryAgentBusState;
use agentbus::entry_text::parse_entry;
use agentbus::entry_view::format_timestamp;
use agentbus::entry_view::lines_of;

fn intention_payload(text: &str) -> Payload {
    Payload {
        payload: Some(PayloadBody::Intention(Intention {
            intention: Some(text.to_string()),
        })),
    }
}

fn entry(position: i64, body: PayloadBody) -> BusEntry {
    BusEntry {
        header: Some(Header {
            log_position: position,
            rt_timestamp_ms: 0,
        }),
        payload: Some(Payload {
            payload: Some(body),
        }),
    }
}

fn append_request(bus: &str, payload: Payload) -> AppendRequest {
    AppendRequest {
        agent_bus_id: bus.to_string(),
        bus_id: None,
        payload: Some(payload),
    }
}

fn poll_request(bus: &str, start: i64, max: i32, types: Option<Vec<PayloadType>>) -> PollRequest {
    PollRequest {
        agent_bus_id: bus.to_string(),
        bus_id: None,
        start_log_position: start,
        max_entries: max,
        filter: types.map(|payload_types| PayloadTypeFilter { payload_types }),
    }
}

fn read_next_request(bus: &str, start: i64, end: i64, max: i32) -> ReadNextRequest {
    ReadNextRequest {
        agent_bus_id: bus.to_string(),
        bus_id: None,
        start_log_position: start,
        end_log_position: end,
        max_entries: max,
        filter: None,
    }
}

fn position_of(entry: &BusEntry) -> i64 {
    entry.header.expect("entries carry a header").log_position
}

#[test]
fn payload_type_names_round_trip() {
    let all = [
        PayloadType::Intention,
        PayloadType::Vote,
        PayloadType::DeciderPolicy,
        PayloadType::Commit,
        PayloadType::Abort,
        PayloadType::VoterPolicy,
        PayloadType::Control,
        PayloadType::InferenceInput,
        PayloadType::InferenceOutput,
        PayloadType::ActionOutput,
        PayloadType::AgentInput,
        PayloadType::AgentOutput,
        PayloadType::Mail,
    ];
    for t in all {
        assert_eq!(PayloadType::from_str(t.as_str()), Some(t));
    }
    assert_eq!(PayloadType::Intention.as_str(), "intention");
    assert_eq!(PayloadType::from_str("not-a-type"), None);
    assert!(PayloadType::Intention.has_string_payload());
    assert!(!PayloadType::Vote.has_string_payload());
}

#[test]
fn payload_type_and_filter_follow_the_body() {
    let payload = intention_payload("x");
    assert_eq!(get_payload_type(&payload), Some(PayloadType::Intention));
    assert!(payload_matches_filter(&payload, &None));
    assert!(payload_matches_filter(&payload, &Some(vec![PayloadType::Vote, PayloadType::Intention])));
    assert!(!payload_matches_filter(&payload, &Some(vec![PayloadType::Vote])));
    let empty = Payload { payload: None };
    assert_eq!(get_payload_type(&empty), None);
    assert!(!payload_matches_filter(&empty, &Some(vec![PayloadType::Vote])));
}

#[test]
fn bus_id_resolution_prefers_the_structured_id() {
    let structured = BusId {
        agent_bus_id: "structured".to_string(),
    };
    assert_eq!(resolve_bus_id("plain", Some(&structured)), "structured");
    assert_eq!(resolve_bus_id("plain", None), "plain");
    assert!(validate_bus_id("bus").is_ok());
    assert_eq!(validate_bus_id(""), Err("agent_bus_id must not be empty".to_string()));
}

#[test]
fn decider_policy_numbers_and_names() {
    assert_eq!(DeciderPolicy::OffByDefault.number(), 0);
    assert_eq!(DeciderPolicy::OnByDefault.number(), 1);
    assert_eq!(DeciderPolicy::FirstBooleanWins.number(), 2);
    assert_eq!(decider_policy_name(2), "FIRST_BOOLEAN_WINS");
}

#[test]
fn parse_entry_renders_string_payloads_as_is() {
    let parsed = parse_entry(&entry(0, PayloadBody::Intention(Intention {
        intention: Some("deploy".to_string()),
    })));
    assert_eq!(parsed.entry_type, "intention");
    assert_eq!(parsed.content, "deploy");

    let no_payload = parse_entry(&BusEntry {
        header: None,
        payload: None,
    });
    assert_eq!(no_payload.entry_type, "unknown");
    assert_eq!(no_payload.content, "");

    let policy = parse_entry(&entry(0, PayloadBody::DeciderPolicy(2)));
    assert_eq!(policy.entry_type, "decider_policy");
    assert_eq!(policy.content, "2");
}

#[test]
fn parse_entry_renders_votes_and_decisions_as_sorted_json() {
    let vote = parse_entry(&entry(
        4,
        PayloadBody::Vote(Vote {
            intention_id: 3,
            abstract_vote: Some(VoteType {
                boolean_vote: Some(true),
            }),
            reason: "ok \"quoted\"".to_string(),
            voter_id: "v1".to_string(),
            voter_config: Some(VoterConfig {
                config: Some(VoterConfigKind::Llm(LlmVoterConfig {
                    prompt_override: String::new(),
                })),
            }),
        }),
    ));
    assert_eq!(vote.entry_type, "vote");
    assert_eq!(
        vote.content,
        "{\"boolean_vote\":true,\"intention_id\":3,\"reason\":\"ok \\\"quoted\\\"\",\"voter_config_type\":\"llm\",\"voter_id\":\"v1\"}"
    );

    let bare_vote = parse_entry(&entry(
        5,
        PayloadBody::Vote(Vote {
            intention_id: -1,
            abstract_vote: None,
            reason: String::new(),
            voter_id: String::new(),
            voter_config: None,
        }),
    ));
    assert_eq!(bare_vote.content, "{\"intention_id\":-1,\"voter_id\":\"\"}");

    let commit = parse_entry(&entry(
        6,
        PayloadBody::Commit(Commit {
            intention_id: 5,
            reason: "done".to_string(),
        }),
    ));
    assert_eq!(commit.entry_type, "commit");
    assert_eq!(commit.content, "{\"intention_id\":5,\"reason\":\"done\"}");

    let abort = parse_entry(&entry(
        7,
        PayloadBody::Abort(Abort {
            intention_id: 5,
            reason: "no".to_string(),
        }),
    ));
    assert_eq!(abort.entry_type, "abort");
    assert_eq!(abort.content, "{\"intention_id\":5,\"reason\":\"no\"}");
}

#[test]
fn parse_entry_renders_mail() {
    let mail = parse_entry(&entry(
        1,
        PayloadBody::Mail(Mail {
            sender_agent_id: "alice".to_string(),
            content: Some(MailContent::Message(MailMessage {
                body: "hi".to_string(),
                message_id: "m1".to_string(),
            })),
        }),
    ));
    assert_eq!(mail.entry_type, "mail");
    assert_eq!(
        mail.content,
        "{\"content\":\"hi\",\"from\":\"alice\",\"in_reply_to\":\"\",\"message_id\":\"m1\"}"
    );
}

#[test]
fn lines_follow_str_lines() {
    for text in ["", "a", "a\nb", "a\r\nb\n", "\n\nx", "trailing\r"] {
        let expected: Vec<String> = text.lines().map(|l| l.to_string()).collect();
        assert_eq!(lines_of(text), expected, "lines of {text:?}");
    }
}

#[test]
fn timestamps_render_in_utc() {
    assert_eq!(format_timestamp(0), "1970-01-01 00:00:00.000 UTC");
    assert_eq!(format_timestamp(1_500), "1970-01-01 00:00:01.500 UTC");
}

#[test]
fn in_memory_bus_appends_at_consecutive_positions() {
    let mut state = InMemoryAgentBusState::new();
    let first = state
        .append(append_request("bus", intention_payload("a")), 10)
        .expect("append should succeed");
    let second = state
        .append(append_request("bus", intention_payload("b")), 11)
        .expect("append should succeed");
    assert_eq!(first.log_position, 0);
    assert_eq!(second.log_position, 1);
    assert_eq!(state.get_tail("bus"), 2);
    assert_eq!(state.get_tail("other"), 0);
    let tail = state.check_tail(&CheckTailRequest {
        agent_bus_id: "bus".to_string(),
        bus_id: None,
    });
    assert_eq!(tail.tail_position, 2);
}

#[test]
fn in_memory_bus_refuses_invalid_appends() {
    let mut state = InMemoryAgentBusState::new();
    let err = state
        .append(append_request("", intention_payload("a")), 0)
        .expect_err("an empty bus id is invalid");
    assert!(matches!(err, AgentBusError::InvalidArgument(_)));
    let err = state
        .append(
            AppendRequest {
                agent_bus_id: "bus".to_string(),
                bus_id: None,
                payload: None,
            },
            0,
        )
        .expect_err("a missing payload is invalid");
    assert!(matches!(err, AgentBusError::InvalidArgument(_)));
    assert_eq!(state.get_tail("bus"), 0);
}

#[test]
fn in_memory_poll_filters_and_limits() {
    let mut state = InMemoryAgentBusState::new();
    state
        .append(append_request("bus", intention_payload("a")), 0)
        .unwrap();
    state
        .append(
            append_request(
                "bus",
                Payload {
                    payload: Some(PayloadBody::Commit(Commit {
                        intention_id: 0,
                        reason: "yes".to_string(),
                    })),
                },
            ),
            0,
        )
        .unwrap();
    state
        .append(append_request("bus", intention_payload("c")), 0)
        .unwrap();

    let all = state.poll(&poll_request("bus", 0, 10, None)).unwrap();
    assert_eq!(all.entries.len(), 3);
    assert!(all.complete);

    let intentions = state
        .poll(&poll_request("bus", 0, 10, Some(vec![PayloadType::Intention])))
        .unwrap();
    let positions: Vec<i64> = intentions.entries.iter().map(position_of).collect();
    assert_eq!(positions, vec![0, 2]);

    let limited = state.poll(&poll_request("bus", -5, 1, None)).unwrap();
    assert_eq!(limited.entries.len(), 1);
    assert!(!limited.complete);

    let past_end = state.poll(&poll_request("bus", 7, 10, None)).unwrap();
    assert!(past_end.entries.is_empty());
    assert!(past_end.complete);
}

#[test]
fn in_memory_read_next_reports_where_to_continue() {
    let mut state = InMemoryAgentBusState::new();
    for text in ["a", "b", "c"] {
        state
            .append(append_request("bus", intention_payload(text)), 0)
            .unwrap();
    }
    let partial = state.read_next(&read_next_request("bus", 0, 3, 2)).unwrap();
    assert_eq!(partial.entries.len(), 2);
    assert_eq!(partial.next_start_position, 2);

    let rest = state.read_next(&read_next_request("bus", 2, 3, 2)).unwrap();
    assert_eq!(rest.entries.len(), 1);
    assert_eq!(rest.next_start_position, 3);

    let err = state
        .read_next(&read_next_request("bus", 0, 3, 0))
        .expect_err("max_entries must be positive");
    assert!(matches!(err, AgentBusError::InvalidArgument(m) if m == "max_entries must be > 0"));
    let err = state
        .read_next(&read_next_request("bus", 3, 1, 2))
        .expect_err("the end must not precede the start");
    assert!(matches!(
        err,
        AgentBusError::InvalidArgument(m) if m == "end_log_position 1 is before start_log_position 3"
    ));

    let unknown = state.read_next(&read_next_request("nobody", 0, 4, 2)).unwrap();
    assert!(unknown.entries.is_empty());
    assert_eq!(unknown.next_start_position, 4);
}

#[test]
fn parse_entry_escapes_strings_as_json_does() {
    let commit = parse_entry(&entry(
        1,
        PayloadBody::Commit(Commit {
            intention_id: 1,
            reason: "x\ny\u{1}\\ \u{e9}".to_string(),
        }),
    ));
    assert_eq!(
        commit.content,
        "{\"intention_id\":1,\"reason\":\"x\\ny\\u0001\\\\ \u{e9}\"}"
    );
    let expected = format!(
        "{{\"intention_id\":1,\"reason\":{}}}",
        serde_json::to_string("x\ny\u{1}\\ \u{e9}").unwrap()
    );
    assert_eq!(commit.content, expected);
}

fn policy_batch_entry(voter_ops: VoterOps) -> BusEntry {
    entry(
        0,
        PayloadBody::Control(Control {
            base_engine_control: Some(BaseEngineControl {
                control: Some(BaseEngineOp::PolicyBatch(PolicyBatch {
                    expected_current_version: None,
                    new_version: 1,
                    decider_policy: None,
                    voter_ops,
                })),
            }),
        }),
    )
}

#[test]
fn voter_ops_built_by_insert_are_in_order_and_render_sorted() {
    let ops = VoterOps::new()
        .insert("b".to_string(), VoterOp { op: Some(VoterOpKind::Remove) })
        .insert("a".to_string(), VoterOp { op: Some(VoterOpKind::Remove) })
        .insert("c".to_string(), VoterOp { op: Some(VoterOpKind::Remove) });
    assert!(ops.is_increasing());
    let batch = policy_batch_entry(ops);
    assert!(has_ordered_voter_ops(&batch));
    let content = parse_entry(&batch).content;
    let a = content.find("\"a\"").expect("voter a is rendered");
    let b = content.find("\"b\"").expect("voter b is rendered");
    let c = content.find("\"c\"").expect("voter c is rendered");
    assert!(a < b && b < c, "voter ops out of order in {content}");

    let unordered = VoterOps::Entry {
        voter_id: "b".to_string(),
        op: VoterOp { op: None },
        rest: Box::new(VoterOps::Entry {
            voter_id: "a".to_string(),
            op: VoterOp { op: None },
            rest: Box::new(VoterOps::End),
        }),
    };
    assert!(!unordered.is_increasing());
    assert!(!has_ordered_voter_ops(&policy_batch_entry(unordered)));
    assert!(has_ordered_voter_ops(&entry(0, PayloadBody::DeciderPolicy(1))));
}
