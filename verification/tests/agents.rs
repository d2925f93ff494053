use agentbus::agents::Decider;
use agentbus::agents::LoopError;
use agentbus::agents::mail_of_entry;
use agentbus::agents::MailLogEntry;
use agentbus::agents::Mailbox;
use agentbus::agents::VoteRecord;
use agentbus::agents::VoteRecordFactory;
use agentbus::agents::VoterAction;
use agentbus::agents::VoterContext;
use agentbus::agents::VoterLoop;
use agentbus::bus::Abort;
use agentbus::bus::AgentBusError;
use agentbus::bus::AppendRequest;
use agentbus::bus::BusEntry;
use agentbus::bus::CheckTailRequest;
use agentbus::bus::Commit;
use agentbus::bus::DeciderPolicy;
use agentbus::bus::Header;
use agentbus::bus::Intention;
use agentbus::bus::Mail;
use agentbus::bus::MailContent;
use agentbus::bus::MailMessage;
use agentbus::bus::Payload;
use agentbus::bus::PayloadBody;
use agentbus::bus::PayloadType;
use agentbus::bus::PayloadTypeFilter;
use agentbus::bus::PollRequest;
use agentbus::bus::ReadNextRequest;
use agentbus::bus::ReadNextResponse;
use agentbus::bus::Vote;
use agentbus::bus::VoteType;
use agentbus::cli::complete_line;
use agentbus::cli::parse_decider_policy;
use agentbus::cli::CompletionStart;
use agentbus::cli::parse_i16;
use agentbus::cli::parse_i64;
use agentbus::cli::parse_repl_line;
use agentbus::cli::tail_start;
use agentbus::cli::ReplCommand;
use agentbus::poll_loops::BlockingPoll;
use agentbus::poll_loops::BlockingPollStep;
use agentbus::poll_loops::GateCheck;
use agentbus::poll_loops::GateStep;
use agentbus::poll_loops::RangeRead;
use agentbus::time::Clock;
use agentbus::time::Duration;
use agentbus::time::RealClock;
use agentbus::time::MonotonicInstant;
use agentbus::write_once::InMemoryWriteOnceSpace;
use agentbus::write_once_bus::prefixed_space_id;
use agentbus::write_once_bus::AppendAttempt;
use agentbus::write_once_bus::WriteOnceAgentBus;
use agentbus::bus::BlockingPollRequest;

fn at(ms: u64) -> MonotonicInstant {
    MonotonicInstant::from_duration_since_clock_origin(Duration::from_millis(ms))
}

fn entry_at(position: i64, body: PayloadBody) -> BusEntry {
    BusEntry {
        header: Some(Header {
            log_position: position,
            rt_timestamp_ms: 0,
        }),
        payload: Some(Payload {
            payload: Some(body),
        }),
    }
}

fn intention(text: &str) -> PayloadBody {
    PayloadBody::Intention(Intention {
        intention: Some(text.to_string()),
    })
}

fn append_on(bus: &mut WriteOnceAgentBus<InMemoryWriteOnceSpace<BusEntry>>, id: &str, body: PayloadBody) -> i64 {
    let mut pending = bus
        .begin_append(AppendRequest {
            agent_bus_id: id.to_string(),
            bus_id: None,
            payload: Some(Payload {
                payload: Some(body),
            }),
        })
        .expect("the request is valid");
    loop {
        match bus.append_attempt(&pending, 7) {
            AppendAttempt::Appended { log_position } => return log_position,
            AppendAttempt::RetryAt { position } => pending.position = position,
            AppendAttempt::Failed(e) => panic!("append failed: {e:?}"),
        }
    }
}

#[test]
fn write_once_bus_appends_and_reads_back() {
    let mut bus = WriteOnceAgentBus::new(InMemoryWriteOnceSpace::<BusEntry>::new(), None);
    assert_eq!(bus.blocking_poll_interval(), Duration::from_millis(50));
    assert_eq!(append_on(&mut bus, "bus", intention("a")), 0);
    assert_eq!(append_on(&mut bus, "bus", intention("b")), 1);
    assert_eq!(append_on(&mut bus, "other", intention("c")), 0);

    let tail = bus
        .check_tail(&CheckTailRequest {
            agent_bus_id: "bus".to_string(),
            bus_id: None,
        })
        .expect("the tail is known");
    assert_eq!(tail.tail_position, 2);

    let polled = bus
        .poll(&PollRequest {
            agent_bus_id: "bus".to_string(),
            bus_id: None,
            start_log_position: 0,
            max_entries: 10,
            filter: None,
        })
        .expect("poll should succeed");
    assert_eq!(polled.entries.len(), 2);
    assert!(polled.complete);
    assert_eq!(polled.entries[1].header.unwrap().log_position, 1);
    assert_eq!(polled.entries[1].header.unwrap().rt_timestamp_ms, 7);

    let read = bus
        .read_next(&ReadNextRequest {
            agent_bus_id: "bus".to_string(),
            bus_id: None,
            start_log_position: 0,
            end_log_position: 2,
            max_entries: 1,
            filter: Some(PayloadTypeFilter {
                payload_types: vec![PayloadType::Intention],
            }),
        })
        .expect("read_next should succeed");
    assert_eq!(read.entries.len(), 1);
    assert_eq!(read.next_start_position, 1);
}

#[test]
fn write_once_bus_refuses_invalid_appends() {
    let mut bus = WriteOnceAgentBus::new(InMemoryWriteOnceSpace::<BusEntry>::new(), Some(Duration::from_millis(5)));
    assert_eq!(bus.blocking_poll_interval(), Duration::from_millis(5));
    let err = bus
        .begin_append(AppendRequest {
            agent_bus_id: String::new(),
            bus_id: None,
            payload: Some(Payload {
                payload: Some(intention("x")),
            }),
        })
        .expect_err("empty bus id");
    assert!(matches!(err, AgentBusError::InvalidArgument(_)));
    let err = bus
        .begin_append(AppendRequest {
            agent_bus_id: "bus".to_string(),
            bus_id: None,
            payload: None,
        })
        .expect_err("no payload");
    assert!(matches!(err, AgentBusError::InvalidArgument(m) if m == "Missing or unknown payload in request"));
}

#[test]
fn bus_spaces_are_prefixed() {
    assert_eq!(prefixed_space_id("my-bus"), "bus/my-bus");
}

fn blocking_request(start: i64, max_entries: i32, timeout_ms: i32) -> BlockingPollRequest {
    BlockingPollRequest {
        agent_bus_id: "bus".to_string(),
        bus_id: None,
        start_log_position: start,
        max_entries,
        filter: None,
        timeout_ms,
    }
}

#[test]
fn blocking_poll_waits_reads_and_times_out() {
    let poll = BlockingPoll::start(&blocking_request(3, 10, 120), at(1_000), None, None)
        .expect("the request is valid");
    assert_eq!(poll.deadline, at(1_120));
    assert_eq!(poll.on_tail(5, at(1_000)), BlockingPollStep::Read { end_log_position: 5 });
    assert_eq!(
        poll.on_tail(3, at(1_000)),
        BlockingPollStep::Sleep(Duration::from_millis(50))
    );
    assert_eq!(
        poll.on_tail(3, at(1_100)),
        BlockingPollStep::Sleep(Duration::from_millis(20))
    );
    assert_eq!(poll.on_tail(3, at(1_120)), BlockingPollStep::TimedOut);

    let capped = BlockingPoll::start(&blocking_request(0, 1, 90_000), at(0), None, Some(1_000)).unwrap();
    assert_eq!(capped.deadline, at(1_000));

    let err = BlockingPoll::start(&blocking_request(0, 1, -1), at(0), None, None).expect_err("negative timeout");
    assert!(matches!(err, AgentBusError::InvalidArgument(m) if m == "timeout_ms must be >= 0"));
    let err = BlockingPoll::start(&blocking_request(0, 0, 10), at(0), None, None).expect_err("no entries");
    assert!(matches!(err, AgentBusError::InvalidArgument(m) if m == "max_entries must be > 0"));
}

#[test]
fn range_read_collects_until_the_limit() {
    let mut read = RangeRead::new(0, 10, 3);
    assert_eq!(read.next_read(), Some((0, 10, 3)));
    read.on_response(ReadNextResponse {
        entries: vec![entry_at(0, intention("a")), entry_at(1, intention("b"))],
        next_start_position: 2,
    })
    .expect("the cursor moved");
    assert_eq!(read.next_read(), Some((2, 10, 1)));
    let err = read
        .on_response(ReadNextResponse {
            entries: vec![],
            next_start_position: 2,
        })
        .expect_err("the cursor must advance");
    assert!(matches!(err, AgentBusError::Internal(m) if m == "read_next did not advance cursor (stuck at 2)"));
    read.on_response(ReadNextResponse {
        entries: vec![entry_at(4, intention("c"))],
        next_start_position: 5,
    })
    .unwrap();
    assert_eq!(read.next_read(), None);
    let (entries, cursor) = read.finish();
    assert_eq!(entries.len(), 3);
    assert_eq!(cursor, 5);
}

#[test]
fn gate_check_finds_the_decision_or_times_out() {
    let mut gate = GateCheck::new(4, at(0), Duration::from_millis(1_000));
    match gate.next_step(at(250)) {
        GateStep::Poll {
            start_log_position,
            timeout_ms,
        } => {
            assert_eq!(start_log_position, 5);
            assert_eq!(timeout_ms, 750);
        }
        other => panic!("unexpected step {other:?}"),
    }
    let unrelated = vec![entry_at(
        5,
        PayloadBody::Commit(Commit {
            intention_id: 2,
            reason: "other".to_string(),
        }),
    )];
    assert!(gate.on_entries(&unrelated, 6).is_none());
    let decided = vec![entry_at(
        6,
        PayloadBody::Abort(Abort {
            intention_id: 4,
            reason: "unsafe".to_string(),
        }),
    )];
    let result = gate.on_entries(&decided, 7).expect("the abort decides");
    assert!(!result.approved);
    assert_eq!(result.reason, "unsafe");
    assert_eq!(result.intention_id, 4);

    let late = GateCheck::new(4, at(0), Duration::from_millis(1_000));
    match late.next_step(at(1_001)) {
        GateStep::TimedOut(result) => {
            assert!(!result.approved);
            assert_eq!(result.reason, "Gate check timed out");
        }
        other => panic!("unexpected step {other:?}"),
    }
}

fn mail(position: i64, sender: &str, body: &str) -> BusEntry {
    entry_at(
        position,
        PayloadBody::Mail(Mail {
            sender_agent_id: sender.to_string(),
            content: Some(MailContent::Message(MailMessage {
                body: body.to_string(),
                message_id: format!("m{position}"),
            })),
        }),
    )
}

#[test]
fn mailbox_buffers_mail_in_order() {
    let mut mailbox = Mailbox::new();
    assert_eq!(mailbox.next_log_position(), 0);
    let request = mailbox.poll_request("bus", Some(Duration::from_millis(200)));
    assert_eq!(request.timeout_ms, 200);
    assert_eq!(request.filter.unwrap().payload_types, vec![PayloadType::Mail]);

    let entries = vec![mail(0, "alice", "hi"), entry_at(1, intention("x")), mail(2, "bob", "yo")];
    assert_eq!(mailbox.on_response(&entries, 3), 3);
    assert_eq!(mailbox.next_log_position(), 3);
    let got = mailbox.check_mail();
    assert_eq!(got.len(), 2);
    assert_eq!(got[0].from, "alice");
    assert_eq!(got[0].content, "hi");
    assert_eq!(got[0].position, 0);
    assert_eq!(got[1].message_id, "m2");
    assert!(mailbox.check_mail().is_empty());
}

#[test]
fn voter_loop_classifies_entries() {
    match VoterLoop::classify_entry(&entry_at(3, intention("deploy"))) {
        Ok(VoterAction::Evaluate {
            log_position,
            intention,
        }) => {
            assert_eq!(log_position, 3);
            assert_eq!(intention, "deploy");
        }
        other => panic!("unexpected {other:?}"),
    }
    assert!(matches!(
        VoterLoop::classify_entry(&mail(1, "a", "b")),
        Ok(VoterAction::Skip)
    ));
    assert!(matches!(
        VoterLoop::classify_entry(&entry_at(
            9,
            PayloadBody::Commit(Commit {
                intention_id: 1,
                reason: String::new()
            })
        )),
        Err(LoopError::UnknownPayloadType(9))
    ));
    let mut voter = VoterLoop::new(0);
    voter.entry_done(4);
    assert_eq!(voter.next_log_position, 5);
}

struct FirstVote {
    decided: bool,
}

impl VoteRecord for FirstVote {
    fn register(&mut self) -> Option<(bool, String)> {
        None
    }

    fn apply_vote(&mut self, vote: &Vote) -> Option<(bool, String)> {
        if self.decided {
            return None;
        }
        self.decided = true;
        let approve = vote.abstract_vote.and_then(|v| v.boolean_vote).unwrap_or(false);
        Some((approve, vote.reason.clone()))
    }
}

struct Factory;

impl VoteRecordFactory<FirstVote> for Factory {
    fn create(&self, _decider_policy: i32) -> FirstVote {
        FirstVote { decided: false }
    }
}

fn vote(intention_id: i64, approve: bool) -> PayloadBody {
    PayloadBody::Vote(Vote {
        intention_id,
        abstract_vote: Some(VoteType {
            boolean_vote: Some(approve),
        }),
        reason: "because".to_string(),
        voter_id: "v".to_string(),
        voter_config: None,
    })
}

#[test]
fn decider_decides_each_intention_once() {
    let mut decider: Decider<FirstVote> = Decider::new(0);
    assert_eq!(decider.current_decider_policy(), 1);
    assert!(decider
        .process_entry(entry_at(0, intention("x")), &Factory)
        .unwrap()
        .is_none());
    let decision = decider
        .process_entry(entry_at(1, vote(0, true)), &Factory)
        .unwrap()
        .expect("the first vote decides");
    assert_eq!(decision.intention_id, 0);
    assert!(decision.commit);
    assert_eq!(decision.reason, "because");
    assert!(decider
        .process_entry(entry_at(2, vote(0, false)), &Factory)
        .unwrap()
        .is_none());
    assert!(decider
        .process_entry(entry_at(3, vote(42, true)), &Factory)
        .unwrap()
        .is_none());
    assert!(decider
        .process_entry(entry_at(4, PayloadBody::DeciderPolicy(2)), &Factory)
        .unwrap()
        .is_none());
    assert_eq!(decider.current_decider_policy(), 2);
    let unknown = decider.process_entry(
        BusEntry {
            header: Some(Header {
                log_position: 5,
                rt_timestamp_ms: 0,
            }),
            payload: Some(Payload { payload: None }),
        },
        &Factory,
    );
    assert!(matches!(unknown, Err(LoopError::UnknownPayloadType(5))));
}

#[test]
fn repl_lines_parse_into_commands() {
    assert_eq!(parse_repl_line("   "), ReplCommand::Empty);
    assert_eq!(parse_repl_line("\tquit\u{3000}\n"), ReplCommand::Quit);
    assert_eq!(
        parse_repl_line("poll\u{a0}1 2"),
        ReplCommand::Unknown("poll\u{a0}1".to_string())
    );
    assert_eq!(
        parse_repl_line("poll  1\t 2 "),
        ReplCommand::Poll { start: 1, limit: 2 }
    );
    assert_eq!(parse_repl_line("quit"), ReplCommand::Quit);
    assert_eq!(parse_repl_line("exit"), ReplCommand::Quit);
    assert_eq!(parse_repl_line("help"), ReplCommand::Help);
    assert_eq!(parse_repl_line("set-id  bus-2 "), ReplCommand::SetId(" bus-2".to_string()));
    assert_eq!(
        parse_repl_line("intention deploy the thing"),
        ReplCommand::Intention("deploy the thing".to_string())
    );
    assert_eq!(
        parse_repl_line("poll 3 20"),
        ReplCommand::Poll { start: 3, limit: 20 }
    );
    assert_eq!(
        parse_repl_line("poll 3"),
        ReplCommand::Usage(vec![
            "Error: poll requires both start and limit parameters".to_string(),
            "Usage: poll <start> <limit>".to_string(),
        ])
    );
    assert_eq!(
        parse_repl_line("poll x 2"),
        ReplCommand::Usage(vec!["Error: invalid start position 'x'".to_string()])
    );
    assert_eq!(
        parse_repl_line("tail -f 5"),
        ReplCommand::Tail {
            n: 5,
            follow: true,
            errors: vec![]
        }
    );
    assert_eq!(
        parse_repl_line("tail zz"),
        ReplCommand::Tail {
            n: 10,
            follow: false,
            errors: vec![
                "Error: invalid argument 'zz'".to_string(),
                "Usage: tail [-f] [n]".to_string(),
            ]
        }
    );
    assert_eq!(parse_repl_line("frobnicate now"), ReplCommand::Unknown("frobnicate".to_string()));
}

#[test]
fn numbers_and_policies_parse() {
    assert_eq!(parse_i64("-42"), Some(-42));
    assert_eq!(parse_i64("+7"), Some(7));
    assert_eq!(parse_i64("9223372036854775807"), Some(i64::MAX));
    assert_eq!(parse_i64("9223372036854775808"), None);
    assert_eq!(parse_i64(""), None);
    assert_eq!(parse_i64("1a"), None);
    assert_eq!(parse_i16("32767"), Some(i16::MAX));
    assert_eq!(parse_i16("32768"), None);

    assert!(matches!(parse_decider_policy("on"), Ok(DeciderPolicy::OnByDefault)));
    assert!(matches!(parse_decider_policy("FIRST_BOOLEAN_WINS"), Ok(DeciderPolicy::FirstBooleanWins)));
    assert_eq!(
        parse_decider_policy("maybe").err(),
        Some(
            "Invalid decider policy: maybe. Valid options: OFF_BY_DEFAULT, ON_BY_DEFAULT, FIRST_BOOLEAN_WINS"
                .to_string()
        )
    );
    assert_eq!(tail_start(20, 5), 15);
    assert_eq!(tail_start(3, 5), 0);
}

#[test]
fn completion_offers_commands_and_policies() {
    let all = complete_line("");
    assert_eq!(all.start, CompletionStart::BeforeSuffix(String::new()));
    assert_eq!(all.candidates.len(), 9);
    let poll = complete_line("po");
    assert_eq!(poll.start, CompletionStart::BeforeSuffix("po".to_string()));
    assert_eq!(poll.candidates, vec!["poll".to_string()]);
    let policies = complete_line("decider-policy o");
    assert_eq!(policies.start, CompletionStart::AfterLastSpace);
    assert_eq!(
        policies.candidates,
        vec!["OFF_BY_DEFAULT".to_string(), "ON_BY_DEFAULT".to_string()]
    );
    let none = complete_line("poll 1");
    assert_eq!(none.start, CompletionStart::AtCursor);
    assert!(none.candidates.is_empty());
    let after_command = complete_line("tail ");
    assert_eq!(after_command.start, CompletionStart::AtCursor);
}

#[test]
fn voter_context_keeps_its_texts() {
    let context = VoterContext::new("bus-1", "deploy");
    assert_eq!(context.bus_id, "bus-1");
    assert_eq!(context.intention, "deploy");
}

#[test]
fn real_clock_reads_the_system_clocks() {
    let clock = RealClock::new();
    let first = clock.monotonic_time();
    let second = clock.monotonic_time();
    assert!(second.is_at_or_after(first));
    assert!(clock.unsafe_wall_time().as_millis() > 1_600_000_000_000);
}

#[test]
fn buffered_mail_is_handed_out_as_sent() {
    let (plain, position) = mail_of_entry(MailLogEntry {
        from: "alice".to_string(),
        content: "hi".to_string(),
        position: 4,
        message_id: "m4".to_string(),
        in_reply_to: String::new(),
    });
    assert_eq!(position, 4);
    assert_eq!(plain.sender_agent_id, "alice");
    match plain.content {
        Some(MailContent::Message(msg)) => {
            assert_eq!(msg.body, "hi");
            assert_eq!(msg.message_id, "m4");
        }
        other => panic!("unexpected {other:?}"),
    }
    let (reply, _) = mail_of_entry(MailLogEntry {
        from: "bob".to_string(),
        content: "yes".to_string(),
        position: 5,
        message_id: "m5".to_string(),
        in_reply_to: "m4".to_string(),
    });
    match reply.content {
        Some(MailContent::Reply(r)) => {
            assert_eq!(r.in_reply_to, "m4");
            assert_eq!(r.message.map(|m| m.body), Some("yes".to_string()));
        }
        other => panic!("unexpected {other:?}"),
    }
}
