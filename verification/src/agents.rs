//! The bookkeeping of the loops that follow a bus: the mailbox that buffers
//! mail, the voter loop that answers intentions with votes, and the decider
//! that turns votes into commits and aborts. Their callers make the bus
//! calls; these types say what to request and what each entry means.

use std::collections::VecDeque;

use vstd::prelude::*;

use crate::bus::AnyMessage;
use crate::bus::AppendRequest;
use crate::bus::BlockingPollRequest;
use crate::bus::BusEntry;
use crate::bus::BusId;
use crate::bus::Commit;
use crate::bus::Abort;
use crate::bus::Mail;
use crate::bus::MailReply;
use crate::bus::MailContent;
use crate::bus::MailMessage;
use crate::bus::Payload;
use crate::bus::PayloadBody;
use crate::bus::PayloadType;
use crate::bus::PayloadTypeFilter;
use crate::bus::Vote;
use crate::bus::VoteType;
use crate::entry_text::mail_parts;
use crate::text::append_i64;
use crate::text::append_str;
use crate::text::signed_decimal;
use crate::time::Duration;
use crate::time::NANOS_PER_MILLI;

verus! {

/// Most mail messages a mailbox buffers; the oldest give way.
pub const MAX_MAIL_BUFFER: usize = 10_000;

/// The timeout of a poll in milliseconds: the span's whole milliseconds
/// (wrapped into 32 bits), or 0 for no wait.
pub open spec fn timeout_millis_spec(timeout: Option<Duration>) -> i32 {
    match timeout {
        Some(d) => (d.nanos / NANOS_PER_MILLI) as i32,
        None => 0,
    }
}

/// The timeout of a poll in milliseconds.
pub fn timeout_millis(timeout: Option<Duration>) -> (ms: i32)
    ensures
        ms == timeout_millis_spec(timeout),
{
    match timeout {
        Some(d) => d.as_millis() as i32,
        None => 0,
    }
}

/// The position of an entry, 0 when it has no header.
pub open spec fn entry_position(e: BusEntry) -> i64 {
    match e.header {
        Some(h) => h.log_position,
        None => 0,
    }
}

fn position_of(entry: &BusEntry) -> (p: i64)
    ensures
        p == entry_position(*entry),
{
    match entry.header {
        Some(h) => h.log_position,
        None => 0,
    }
}

/// A blocking poll request for a bus from `start`, of the given types.
pub fn typed_poll_request(bus_id: &str, start: i64, max_entries: i32, types: Vec<PayloadType>, timeout_ms: i32) -> (r:
    BlockingPollRequest)
    ensures
        r.agent_bus_id@ == bus_id@,
        r.bus_id matches Some(b) && b.agent_bus_id@ == bus_id@,
        r.start_log_position == start,
        r.max_entries == max_entries,
        r.timeout_ms == timeout_ms,
        r.filter matches Some(f) && f.payload_types@ == types@,
{
    BlockingPollRequest {
        agent_bus_id: bus_id.to_owned(),
        bus_id: Some(BusId { agent_bus_id: bus_id.to_owned() }),
        start_log_position: start,
        max_entries,
        filter: Some(PayloadTypeFilter { payload_types: types }),
        timeout_ms,
    }
}

/// An append request that adds `body` to a bus.
pub fn body_append_request(bus_id: &str, body: PayloadBody) -> (r: AppendRequest)
    ensures
        r.agent_bus_id@ == bus_id@,
        r.bus_id matches Some(b) && b.agent_bus_id@ == bus_id@,
        r.payload == Some(Payload { payload: Some(body) }),
{
    AppendRequest {
        agent_bus_id: bus_id.to_owned(),
        bus_id: Some(BusId { agent_bus_id: bus_id.to_owned() }),
        payload: Some(Payload { payload: Some(body) }),
    }
}

/// A mail message as the mailbox keeps it.
#[derive(Debug)]
pub struct MailLogEntry {
    pub from: String,
    pub content: String,
    pub position: i64,
    pub message_id: String,
    pub in_reply_to: String,
}

/// A buffered mail message as (from, content, position, message id,
/// replied-to id).
pub type MailView = (Seq<char>, Seq<char>, i64, Seq<char>, Seq<char>);

/// The view of a buffered mail message.
pub open spec fn mail_view(m: MailLogEntry) -> MailView {
    (m.from@, m.content@, m.position, m.message_id@, m.in_reply_to@)
}

/// The views of buffered mail messages.
pub open spec fn mail_views(s: Seq<MailLogEntry>) -> Seq<MailView> {
    s.map_values(|m: MailLogEntry| mail_view(m))
}

/// How a mail at `position` is buffered: its sender, body, position,
/// message id, and the id it replies to (empty unless a reply).
pub open spec fn buffered_mail(m: Mail, position: i64) -> MailView {
    let (body, message_id, reply_to) = mail_parts(m);
    (m.sender_agent_id@, body, position, message_id, reply_to)
}

/// The buffer after receiving one mail: the oldest gives way when full.
pub open spec fn buffer_after(buffer: Seq<MailView>, m: MailView) -> Seq<MailView> {
    if buffer.len() >= MAX_MAIL_BUFFER {
        buffer.drop_first().push(m)
    } else {
        buffer.push(m)
    }
}

/// The mail of `entries`, in order, as the mailbox buffers it.
pub open spec fn mails_in(entries: Seq<BusEntry>) -> Seq<MailView>
    decreases entries.len(),
{
    if entries.len() == 0 {
        Seq::empty()
    } else {
        let before = mails_in(entries.drop_last());
        match entries.last().payload {
            Some(Payload { payload: Some(PayloadBody::Mail(m)) }) => before.push(
                buffered_mail(m, entry_position(entries.last())),
            ),
            _ => before,
        }
    }
}

/// The newest `n` messages of `s`: all of them when there are at most `n`.
pub open spec fn newest(s: Seq<MailView>, n: nat) -> Seq<MailView> {
    if s.len() <= n {
        s
    } else {
        s.subrange(s.len() - n, s.len() as int)
    }
}

/// Receiving one more message keeps the newest messages.
proof fn lemma_buffer_after_newest(s: Seq<MailView>, m: MailView)
    ensures
        buffer_after(newest(s, MAX_MAIL_BUFFER as nat), m) == newest(s.push(m), MAX_MAIL_BUFFER as nat),
{
    let n = MAX_MAIL_BUFFER as nat;
    let b = newest(s, n);
    if s.len() < n {
        assert(b == s);
    } else if s.len() == n {
        assert(b.drop_first().push(m) =~= s.push(m).subrange(s.push(m).len() - n, s.push(m).len() as int));
    } else {
        assert(b.drop_first().push(m) =~= s.push(m).subrange(s.push(m).len() - n, s.push(m).len() as int));
    }
}

/// Every mail entry of a response is among the mail the response carries,
/// at its entry's position.
pub proof fn lemma_mail_entry_carried(entries: Seq<BusEntry>, k: int)
    requires
        0 <= k < entries.len(),
    ensures
        match entries[k].payload {
            Some(Payload { payload: Some(PayloadBody::Mail(m)) }) => mails_in(entries).contains(
                buffered_mail(m, entry_position(entries[k])),
            ),
            _ => true,
        },
    decreases entries.len(),
{
    let last = entries.len() - 1;
    if k < last {
        lemma_mail_entry_carried(entries.drop_last(), k);
        assert(entries.drop_last()[k] == entries[k]);
        let before = mails_in(entries.drop_last());
        match entries[k].payload {
            Some(Payload { payload: Some(PayloadBody::Mail(m)) }) => {
                let x = buffered_mail(m, entry_position(entries[k]));
                let j = choose|j: int| 0 <= j < before.len() && before[j] == x;
                match entries.last().payload {
                    Some(Payload { payload: Some(PayloadBody::Mail(m2)) }) => {
                        assert(mails_in(entries)[j] == x);
                    },
                    _ => {},
                }
            },
            _ => {},
        }
    } else {
        match entries[k].payload {
            Some(Payload { payload: Some(PayloadBody::Mail(m)) }) => {
                let x = buffered_mail(m, entry_position(entries[k]));
                assert(mails_in(entries)[mails_in(entries).len() - 1] == x);
            },
            _ => {},
        }
    }
}

/// A response whose mail fits in the buffer beside what it already holds
/// is buffered whole: the buffer is the earlier mail followed by every mail
/// of the response, in order.
pub proof fn lemma_fitting_mail_kept(before: Seq<MailView>, entries: Seq<BusEntry>)
    requires
        before.len() + mails_in(entries).len() <= MAX_MAIL_BUFFER,
    ensures
        newest(before + mails_in(entries), MAX_MAIL_BUFFER as nat) == before + mails_in(entries),
{
}

/// The mailbox of a bus: it follows the bus for mail and buffers it.
pub struct Mailbox {
    next_log_position: i64,
    mail: VecDeque<MailLogEntry>,
}

impl Mailbox {
    /// The buffer never holds more than `MAX_MAIL_BUFFER` messages.
    #[verifier::type_invariant]
    spec fn within_capacity(&self) -> bool {
        self.mail@.len() <= MAX_MAIL_BUFFER
    }

    /// The position the next poll reads from.
    pub closed spec fn position(&self) -> i64 {
        self.next_log_position
    }

    /// The position the next poll reads from.
    pub fn next_log_position(&self) -> (p: i64)
        ensures
            p == self.position(),
    {
        self.next_log_position
    }

    /// The buffered mail, oldest first.
    pub closed spec fn buffer(&self) -> Seq<MailLogEntry> {
        self.mail@
    }

    /// An empty mailbox that reads the bus from its start.
    pub fn new() -> (m: Mailbox)
        ensures
            m.position() == 0,
            m.buffer().len() == 0,
    {
        Mailbox { next_log_position: 0, mail: VecDeque::new() }
    }

    /// The request for the next batch: mail only, at most 64 entries.
    pub fn poll_request(&self, bus_id: &str, timeout: Option<Duration>) -> (r: BlockingPollRequest)
        ensures
            r.agent_bus_id@ == bus_id@,
            r.start_log_position == self.position(),
            r.max_entries == 64,
            r.timeout_ms == timeout_millis_spec(timeout),
            r.filter matches Some(f) && f.payload_types@ == seq![PayloadType::Mail],
    {
        let mut types: Vec<PayloadType> = Vec::new();
        types.push(PayloadType::Mail);
        assert(types@ =~= seq![PayloadType::Mail]);
        typed_poll_request(bus_id, self.next_log_position, 64, types, timeout_millis(timeout))
    }

    /// Take in one entry: a mail is buffered (dropping the oldest message
    /// when the buffer is full); any other entry is skipped.
    pub fn process_entry(&mut self, entry: &BusEntry)
        ensures
            final(self).position() == old(self).position(),
            final(self).buffer().len() <= MAX_MAIL_BUFFER,
            match entry.payload {
                Some(Payload { payload: Some(PayloadBody::Mail(m)) }) => mail_views(final(self).buffer()) == buffer_after(
                    mail_views(old(self).buffer()),
                    buffered_mail(m, entry_position(*entry)),
                ),
                _ => final(self).buffer() == old(self).buffer(),
            },
    {
        proof {
            use_type_invariant(&*self);
        }
        let position = position_of(entry);
        match &entry.payload {
            Some(Payload { payload: Some(PayloadBody::Mail(m)) }) => {
                let mut buffer: VecDeque<MailLogEntry> = VecDeque::new();
                std::mem::swap(&mut buffer, &mut self.mail);
                if buffer.len() >= MAX_MAIL_BUFFER {
                    buffer.pop_front();
                }
                let (content, message_id, in_reply_to) = match &m.content {
                    Some(MailContent::Message(msg)) => (msg.body.clone(), msg.message_id.clone(), String::new()),
                    Some(MailContent::Reply(r)) => match &r.message {
                        Some(msg) => (msg.body.clone(), msg.message_id.clone(), r.in_reply_to.clone()),
                        None => (String::new(), String::new(), r.in_reply_to.clone()),
                    },
                    None => (String::new(), String::new(), String::new()),
                };
                let ghost before = buffer@;
                buffer.push_back(
                    MailLogEntry { from: m.sender_agent_id.clone(), content, position, message_id, in_reply_to },
                );
                proof {
                    let expected = buffer_after(mail_views(old(self).buffer()), buffered_mail(*m, position));
                    if old(self).buffer().len() >= MAX_MAIL_BUFFER {
                        assert(before =~= old(self).buffer().drop_first());
                        assert(mail_views(before) =~= mail_views(old(self).buffer()).drop_first());
                    }
                    assert(mail_views(buffer@) =~= expected);
                }
                self.mail = buffer;
            },
            _ => {},
        }
    }

    /// Take in a poll's entries in order, then move on to its next position.
    /// Returns the number of entries.
    pub fn on_response(&mut self, entries: &Vec<BusEntry>, next_start_position: i64) -> (n: usize)
        ensures
            n == entries@.len(),
            final(self).position() == next_start_position,
            final(self).buffer().len() <= MAX_MAIL_BUFFER,
            mail_views(final(self).buffer()) == newest(
                mail_views(old(self).buffer()) + mails_in(entries@),
                MAX_MAIL_BUFFER as nat,
            ),
    {
        proof {
            use_type_invariant(&*self);
        }
        let ghost start = mail_views(self.buffer());
        let mut i: usize = 0;
        assert(entries@.take(0) =~= Seq::<BusEntry>::empty());
        assert(start + mails_in(entries@.take(0)) =~= start);
        while i < entries.len()
            invariant
                i <= entries@.len(),
                start.len() <= MAX_MAIL_BUFFER,
                start == mail_views(old(self).buffer()),
                mail_views(self.buffer()) == newest(start + mails_in(entries@.take(i as int)), MAX_MAIL_BUFFER as nat),
            decreases entries@.len() - i,
        {
            let ghost prefix = start + mails_in(entries@.take(i as int));
            self.process_entry(&entries[i]);
            proof {
                let next = entries@.take(i + 1);
                assert(next.drop_last() =~= entries@.take(i as int));
                assert(next.last() == entries@[i as int]);
                match entries@[i as int].payload {
                    Some(Payload { payload: Some(PayloadBody::Mail(m)) }) => {
                        let x = buffered_mail(m, entry_position(entries@[i as int]));
                        lemma_buffer_after_newest(prefix, x);
                        assert(start + mails_in(next) =~= prefix.push(x));
                    },
                    _ => {
                        assert(start + mails_in(next) =~= prefix);
                    },
                }
            }
            i += 1;
        }
        assert(entries@.take(entries@.len() as int) =~= entries@);
        proof {
            use_type_invariant(&*self);
        }
        self.next_log_position = next_start_position;
        entries.len()
    }

    /// Take out all buffered mail, oldest first.
    pub fn check_mail(&mut self) -> (r: Vec<MailLogEntry>)
        ensures
            r@ == old(self).buffer(),
            final(self).buffer().len() == 0,
            final(self).position() == old(self).position(),
    {
        let mut out: Vec<MailLogEntry> = Vec::new();
        let mut buffer: VecDeque<MailLogEntry> = VecDeque::new();
        std::mem::swap(&mut buffer, &mut self.mail);
        let ghost all = buffer@;
        while buffer.len() > 0
            invariant
                out@ + buffer@ == all,
            decreases buffer@.len(),
        {
            match buffer.pop_front() {
                Some(m) => {
                    out.push(m);
                    assert(out@ + buffer@ =~= all);
                },
                None => {},
            }
        }
        assert(out@ =~= all);
        out
    }
}

/// The mail a buffered message stands for: a reply when it names the
/// message it answers, else a plain message.
pub open spec fn mail_of_entry_spec(m: MailLogEntry) -> Mail {
    let msg = MailMessage { body: m.content, message_id: m.message_id };
    Mail {
        sender_agent_id: m.from,
        content: Some(
            if m.in_reply_to@.len() == 0 {
                MailContent::Message(msg)
            } else {
                MailContent::Reply(MailReply { message: Some(msg), in_reply_to: m.in_reply_to })
            },
        ),
    }
}

/// Hand a buffered message out as mail, with its position.
pub fn mail_of_entry(m: MailLogEntry) -> (r: (Mail, i64))
    ensures
        r.0 == mail_of_entry_spec(m),
        r.1 == m.position,
{
    let position = m.position;
    let msg = MailMessage { body: m.content, message_id: m.message_id };
    let content = if m.in_reply_to.unicode_len() == 0 {
        MailContent::Message(msg)
    } else {
        MailContent::Reply(MailReply { message: Some(msg), in_reply_to: m.in_reply_to })
    };
    (Mail { sender_agent_id: m.from, content: Some(content) }, position)
}

/// Mail handed out is the mail received: buffering a message and handing
/// it out again gives back what was buffered.
pub proof fn lemma_mail_round_trip(m: MailLogEntry)
    ensures
        buffered_mail(mail_of_entry_spec(m), m.position) == mail_view(m),
{
}

/// The append request that sends a mail message from `sender` to a bus.
pub fn mail_append_request(bus_id: &str, sender: &str, content: &str) -> (r: AppendRequest)
    ensures
        r.agent_bus_id@ == bus_id@,
        r.payload matches Some(Payload { payload: Some(PayloadBody::Mail(m)) }) && m.sender_agent_id@ == sender@
            && (m.content matches Some(MailContent::Message(msg)) && msg.body@ == content@ && msg.message_id@.len() == 0),
{
    let body = PayloadBody::Mail(
        Mail {
            sender_agent_id: sender.to_owned(),
            content: Some(MailContent::Message(MailMessage { body: content.to_owned(), message_id: String::new() })),
        },
    );
    body_append_request(bus_id, body)
}

/// Why a loop that follows a bus stopped.
#[derive(Debug)]
pub enum LoopError {
    /// A bus call failed; the text says which.
    FailedAgentBusCall(String),
    /// An entry of a kind the loop does not expect was met at this position.
    UnknownPayloadType(i64),
}

impl LoopError {
    /// The message of this error.
    pub fn message(&self) -> (m: String)
        ensures
            m@ == match *self {
                LoopError::FailedAgentBusCall(s) => "AgentBus call failed: "@ + s@,
                LoopError::UnknownPayloadType(p) => "Unknown payload type encountered at log position "@
                    + signed_decimal(p as int),
            },
    {
        let mut m = String::new();
        match self {
            LoopError::FailedAgentBusCall(s) => {
                append_str(&mut m, "AgentBus call failed: ");
                append_str(&mut m, s.as_str());
            },
            LoopError::UnknownPayloadType(p) => {
                append_str(&mut m, "Unknown payload type encountered at log position ");
                append_i64(&mut m, *p);
            },
        }
        m
    }
}

/// What a voter is asked about: an intention of a bus.
#[derive(Clone, Copy, Debug)]
pub struct VoterContext<'a> {
    pub bus_id: &'a str,
    pub intention: &'a str,
}

impl<'a> VoterContext<'a> {
    pub fn new(bus_id: &'a str, intention: &'a str) -> (c: Self)
        ensures
            c.bus_id@ == bus_id@,
            c.intention@ == intention@,
    {
        VoterContext { bus_id, intention }
    }
}

/// What the voter loop does with an entry.
#[derive(Debug)]
pub enum VoterAction {
    /// Ask the voter about the intention at this position, and append its
    /// vote.
    Evaluate { log_position: i64, intention: String },
    /// Hand a policy update to the voter.
    ApplyPolicy(AnyMessage),
    /// A policy without a configuration: nothing to apply.
    IgnorePolicy,
    /// Nothing to do (mail, or an entry without a payload).
    Skip,
}

/// The voter loop: it reads intentions and voter policies from a bus.
#[derive(Clone, Copy, Debug)]
pub struct VoterLoop {
    pub next_log_position: i64,
}

impl VoterLoop {
    /// A voter loop that reads from `initial_log_position`.
    pub fn new(initial_log_position: i64) -> (v: VoterLoop)
        ensures
            v.next_log_position == initial_log_position,
    {
        VoterLoop { next_log_position: initial_log_position }
    }

    /// The request for the next entry: intentions and voter policies, one at
    /// a time.
    pub fn poll_request(&self, bus_id: &str, timeout: Option<Duration>) -> (r: BlockingPollRequest)
        ensures
            r.agent_bus_id@ == bus_id@,
            r.start_log_position == self.next_log_position,
            r.max_entries == 1,
            r.timeout_ms == timeout_millis_spec(timeout),
            r.filter matches Some(f) && f.payload_types@ == seq![PayloadType::Intention, PayloadType::VoterPolicy],
    {
        let mut types: Vec<PayloadType> = Vec::new();
        types.push(PayloadType::Intention);
        types.push(PayloadType::VoterPolicy);
        assert(types@ =~= seq![PayloadType::Intention, PayloadType::VoterPolicy]);
        typed_poll_request(bus_id, self.next_log_position, 1, types, timeout_millis(timeout))
    }

    /// What an entry asks of the voter: evaluate an intention (its text, or
    /// empty), apply a policy, or nothing; any other kind, or a payload
    /// without a body, is an unknown payload at the entry's position.
    pub fn classify_entry(entry: &BusEntry) -> (r: Result<VoterAction, LoopError>)
        ensures
            match entry.payload {
                None => r matches Ok(VoterAction::Skip),
                Some(Payload { payload: None }) => r matches Err(LoopError::UnknownPayloadType(p)) && p
                    == entry_position(*entry),
                Some(Payload { payload: Some(b) }) => match b {
                    PayloadBody::Intention(i) => r matches Ok(VoterAction::Evaluate { log_position, intention })
                        && log_position == entry_position(*entry) && intention@ == (match i.intention {
                        Some(s) => s@,
                        None => Seq::<char>::empty(),
                    }),
                    PayloadBody::VoterPolicy(p) => match p.config {
                        Some(a) => r matches Ok(VoterAction::ApplyPolicy(c)) && c == a,
                        None => r matches Ok(VoterAction::IgnorePolicy),
                    },
                    PayloadBody::Mail(_) => r matches Ok(VoterAction::Skip),
                    _ => r matches Err(LoopError::UnknownPayloadType(p)) && p == entry_position(*entry),
                },
            },
    {
        let position = position_of(entry);
        match &entry.payload {
            None => Ok(VoterAction::Skip),
            Some(Payload { payload: None }) => Err(LoopError::UnknownPayloadType(position)),
            Some(Payload { payload: Some(b) }) => match b {
                PayloadBody::Intention(i) => {
                    let intention = match &i.intention {
                        Some(s) => s.clone(),
                        None => String::new(),
                    };
                    Ok(VoterAction::Evaluate { log_position: position, intention })
                },
                PayloadBody::VoterPolicy(p) => match &p.config {
                    Some(a) => Ok(VoterAction::ApplyPolicy(a.clone())),
                    None => Ok(VoterAction::IgnorePolicy),
                },
                PayloadBody::Mail(_) => Ok(VoterAction::Skip),
                _ => Err(LoopError::UnknownPayloadType(position)),
            },
        }
    }

    /// The entry at `log_position` is done: read on after it.
    pub fn entry_done(&mut self, log_position: i64)
        requires
            log_position < i64::MAX,
        ensures
            final(self).next_log_position == log_position + 1,
    {
        self.next_log_position = log_position + 1;
    }

    /// A batch is done: read on from its next position.
    pub fn batch_done(&mut self, next_start_position: i64)
        ensures
            final(self).next_log_position == next_start_position,
    {
        self.next_log_position = next_start_position;
    }
}

/// The vote the voter loop appends for the intention at `log_position`.
pub fn vote_append_request(bus_id: &str, log_position: i64, is_safe: bool, reason: String) -> (r: AppendRequest)
    ensures
        r.agent_bus_id@ == bus_id@,
        r.payload matches Some(Payload { payload: Some(PayloadBody::Vote(v)) }) && v.intention_id == log_position
            && v.abstract_vote == Some(VoteType { boolean_vote: Some(is_safe) }) && v.reason == reason
            && v.voter_config is None && v.voter_id@.len() == 0,
{
    let vote = Vote {
        intention_id: log_position,
        abstract_vote: Some(VoteType { boolean_vote: Some(is_safe) }),
        reason,
        voter_id: String::new(),
        voter_config: None,
    };
    body_append_request(bus_id, PayloadBody::Vote(vote))
}

/// A decision `(commit, reason)` of a vote record, by its view.
pub open spec fn answer_view(a: Option<(bool, String)>) -> Option<(bool, Seq<char>)> {
    match a {
        Some((commit, reason)) => Some((commit, reason@)),
        None => None,
    }
}

/// Tracks the votes on one intention and decides it. A decision is
/// `(commit, reason)`.
pub trait VoteRecord: Sized {
    /// Whether registering can take a record from `before` to `after` with
    /// the decision `answer`. A record that does not say admits every one.
    open spec fn registers(before: Self, after: Self, answer: Option<(bool, Seq<char>)>) -> bool {
        true
    }

    /// Whether applying `vote` can take a record from `before` to `after`
    /// with the decision `answer`. A record that does not say admits every
    /// one.
    open spec fn takes_vote(before: Self, vote: Vote, after: Self, answer: Option<(bool, Seq<char>)>) -> bool {
        true
    }

    /// Register the intention; a decision made at once, if any.
    fn register(&mut self) -> (r: Option<(bool, String)>)
        ensures
            Self::registers(*old(self), *final(self), answer_view(r)),
    ;

    /// Apply a vote; the decision it brings, if any.
    fn apply_vote(&mut self, vote: &Vote) -> (r: Option<(bool, String)>)
        ensures
            Self::takes_vote(*old(self), *vote, *final(self), answer_view(r)),
    ;
}

/// The decision `(commit, reason)` that a returned decision carries.
pub open spec fn decision_answer(d: Option<Decision>) -> Option<(bool, Seq<char>)> {
    match d {
        Some(d) => Some((d.commit, d.reason@)),
        None => None,
    }
}

/// A decision returned for `entry` carries exactly what the intention's
/// vote record decided: what `register` gave for an intention, and what
/// `apply_vote` gave for a vote.
pub open spec fn decision_from_record<R: VoteRecord>(entry: BusEntry, r: Result<Option<Decision>, LoopError>) -> bool {
    match entry.payload {
        Some(Payload { payload: Some(PayloadBody::Intention(_)) }) => r matches Ok(d) ==> exists|before: R, after: R|
            #[trigger] R::registers(before, after, decision_answer(d)),
        Some(Payload { payload: Some(PayloadBody::Vote(v)) }) => r matches Ok(Some(d)) ==> exists|before: R, after: R|
            #[trigger] R::takes_vote(before, v, after, decision_answer(Some(d))),
        _ => true,
    }
}

/// Makes the vote record of a new intention under a decider policy.
pub trait VoteRecordFactory<R: VoteRecord> {
    fn create(&self, decider_policy: i32) -> R;
}

/// A decision the decider has to append.
#[derive(Debug)]
pub struct Decision {
    pub intention_id: i64,
    pub commit: bool,
    pub reason: String,
}

/// The decider: it follows intentions, votes and policies on a bus and
/// decides each intention once.
pub struct Decider<R> {
    next_log_position: i64,
    current_decider_policy: i32,
    intentions: Vec<(i64, R, bool)>,
}

/// What the decider does with one entry, over the tracked intentions
/// (whether each is decided) and the current policy, before and after. An
/// intention gets a fresh record under the current policy and may be
/// decided at once; a vote for a tracked, undecided intention may decide
/// it; a decider policy becomes the current policy; a control entry, or a
/// payload without a body, is an unknown payload. Other entries change
/// nothing. A decision returned is for the intention concerned.
pub open spec fn decider_step(
    decided: Map<i64, bool>,
    policy: i32,
    decided_after: Map<i64, bool>,
    policy_after: i32,
    entry: BusEntry,
    r: Result<Option<Decision>, LoopError>,
) -> bool {
    match entry.payload {
        None => r matches Ok(None) && decided_after == decided && policy_after == policy,
        Some(Payload { payload: None }) => r matches Err(LoopError::UnknownPayloadType(p)) && p == entry_position(entry)
            && decided_after == decided && policy_after == policy,
        Some(Payload { payload: Some(b) }) => match b {
            PayloadBody::Intention(_) => {
                let id = entry_position(entry);
                &&& r is Ok
                &&& policy_after == policy
                &&& decided_after == decided.insert(id, r->Ok_0 is Some)
                &&& r matches Ok(Some(d)) ==> d.intention_id == id
            },
            PayloadBody::Vote(v) => {
                &&& r is Ok
                &&& policy_after == policy
                &&& if decided.contains_key(v.intention_id) && !decided[v.intention_id] {
                    &&& decided_after == decided.insert(v.intention_id, r->Ok_0 is Some)
                    &&& r matches Ok(Some(d)) ==> d.intention_id == v.intention_id
                } else {
                    r matches Ok(None) && decided_after == decided
                }
            },
            PayloadBody::DeciderPolicy(p) => r matches Ok(None) && policy_after == p && decided_after == decided,
            PayloadBody::Control(_) => r matches Err(LoopError::UnknownPayloadType(p)) && p == entry_position(entry)
                && decided_after == decided && policy_after == policy,
            _ => r matches Ok(None) && decided_after == decided && policy_after == policy,
        },
    }
}

/// What the decider returns carries what the vote record decided, and
/// nothing else: for an intention at position `p` the result is `Ok`, a
/// decision is about `p`, and its (commit, reason) is a decision that
/// registering the record can give (no decision when it gave none); for a
/// vote, a decision is about the voted intention and its (commit, reason) is
/// one that applying that vote to a record can give.
pub proof fn lemma_decision_carries_record_answer<R: VoteRecord>(
    decided: Map<i64, bool>,
    policy: i32,
    decided_after: Map<i64, bool>,
    policy_after: i32,
    entry: BusEntry,
    r: Result<Option<Decision>, LoopError>,
)
    requires
        decider_step(decided, policy, decided_after, policy_after, entry, r),
        decision_from_record::<R>(entry, r),
    ensures
        match entry.payload {
            Some(Payload { payload: Some(PayloadBody::Intention(_)) }) => match r {
                Ok(Some(d)) => d.intention_id == entry_position(entry) && exists|before: R, after: R|
                    #[trigger] R::registers(before, after, Some((d.commit, d.reason@))),
                Ok(None) => exists|before: R, after: R| #[trigger] R::registers(before, after, None),
                Err(_) => false,
            },
            Some(Payload { payload: Some(PayloadBody::Vote(v)) }) => match r {
                Ok(Some(d)) => d.intention_id == v.intention_id && exists|before: R, after: R|
                    #[trigger] R::takes_vote(before, v, after, Some((d.commit, d.reason@))),
                _ => true,
            },
            _ => true,
        },
{
}

/// An entry that proposes an intention at position `id`.
pub open spec fn proposes(entry: BusEntry, id: i64) -> bool {
    entry.payload matches Some(Payload { payload: Some(PayloadBody::Intention(_)) }) && entry_position(entry) == id
}

/// Each intention is decided once: after it is decided, no entry but a new
/// intention at its own position undoes that, and no other decision for it
/// comes.
pub proof fn lemma_decided_once(
    decided: Map<i64, bool>,
    policy: i32,
    decided_after: Map<i64, bool>,
    policy_after: i32,
    entry: BusEntry,
    r: Result<Option<Decision>, LoopError>,
    id: i64,
)
    requires
        decider_step(decided, policy, decided_after, policy_after, entry, r),
        decided.contains_key(id) && decided[id],
        !proposes(entry, id),
    ensures
        decided_after.contains_key(id) && decided_after[id],
        r matches Ok(Some(d)) ==> d.intention_id != id,
{
}

/// A run of the decider over `entries`: `states[k]` holds the tracked
/// intentions and the policy before entry `k`, and `results[k]` what the
/// decider returned for it.
pub open spec fn decider_run(
    states: Seq<(Map<i64, bool>, i32)>,
    entries: Seq<BusEntry>,
    results: Seq<Result<Option<Decision>, LoopError>>,
) -> bool {
    &&& states.len() == entries.len() + 1
    &&& results.len() == entries.len()
    &&& forall|k: int|
        0 <= k < entries.len() ==> decider_step(
            states[k].0,
            states[k].1,
            states[k + 1].0,
            states[k + 1].1,
            #[trigger] entries[k],
            results[k],
        )
}

/// The result decides intention `id`.
pub open spec fn decides(r: Result<Option<Decision>, LoopError>, id: i64) -> bool {
    r matches Ok(Some(d)) && d.intention_id == id
}

/// Once decided, an intention stays decided along a run that proposes no new
/// intention at its position.
proof fn lemma_stays_decided(
    states: Seq<(Map<i64, bool>, i32)>,
    entries: Seq<BusEntry>,
    results: Seq<Result<Option<Decision>, LoopError>>,
    id: i64,
    from: int,
    to: int,
)
    requires
        decider_run(states, entries, results),
        forall|k: int| 0 <= k < entries.len() ==> !proposes(#[trigger] entries[k], id),
        0 <= from <= to <= entries.len(),
        states[from].0.contains_key(id) && states[from].0[id],
    ensures
        states[to].0.contains_key(id) && states[to].0[id],
    decreases to - from,
{
    if from < to {
        let k = from;
        assert(decider_step(states[k].0, states[k].1, states[k + 1].0, states[k + 1].1, entries[k], results[k]));
        assert(!proposes(entries[k], id));
        lemma_decided_once(states[k].0, states[k].1, states[k + 1].0, states[k + 1].1, entries[k], results[k], id);
        lemma_stays_decided(states, entries, results, id, from + 1, to);
    }
}

/// Along any run of the decider that proposes no new intention at position
/// `id`, intention `id` is decided at most once, and not at all when it was
/// already decided at the start.
pub proof fn lemma_decided_at_most_once(
    states: Seq<(Map<i64, bool>, i32)>,
    entries: Seq<BusEntry>,
    results: Seq<Result<Option<Decision>, LoopError>>,
    id: i64,
)
    requires
        decider_run(states, entries, results),
        forall|k: int| 0 <= k < entries.len() ==> !proposes(#[trigger] entries[k], id),
    ensures
        forall|k1: int, k2: int|
            0 <= k1 < k2 < entries.len() ==> !(decides(#[trigger] results[k1], id) && decides(
                #[trigger] results[k2],
                id,
            )),
        states[0].0.contains_key(id) && states[0].0[id] ==> forall|k: int|
            0 <= k < entries.len() ==> !decides(#[trigger] results[k], id),
{
    assert forall|k1: int, k2: int|
        0 <= k1 < k2 < entries.len() && decides(#[trigger] results[k1], id) implies !decides(
        #[trigger] results[k2],
        id,
    ) by {
        assert(decider_step(
            states[k1].0,
            states[k1].1,
            states[k1 + 1].0,
            states[k1 + 1].1,
            entries[k1],
            results[k1],
        ));
        assert(!proposes(entries[k1], id));
        assert(states[k1 + 1].0.contains_key(id) && states[k1 + 1].0[id]);
        lemma_stays_decided(states, entries, results, id, k1 + 1, k2);
        assert(decider_step(
            states[k2].0,
            states[k2].1,
            states[k2 + 1].0,
            states[k2 + 1].1,
            entries[k2],
            results[k2],
        ));
        assert(!proposes(entries[k2], id));
        lemma_decided_once(states[k2].0, states[k2].1, states[k2 + 1].0, states[k2 + 1].1, entries[k2], results[k2], id);
    }
    if states[0].0.contains_key(id) && states[0].0[id] {
        assert forall|k: int| 0 <= k < entries.len() implies !decides(#[trigger] results[k], id) by {
            lemma_stays_decided(states, entries, results, id, 0, k);
            assert(decider_step(states[k].0, states[k].1, states[k + 1].0, states[k + 1].1, entries[k], results[k]));
            assert(!proposes(entries[k], id));
            lemma_decided_once(states[k].0, states[k].1, states[k + 1].0, states[k + 1].1, entries[k], results[k], id);
        }
    }
}

/// A vote decides nothing about an intention the decider does not track.
pub proof fn lemma_untracked_votes_decide_nothing(
    decided: Map<i64, bool>,
    policy: i32,
    decided_after: Map<i64, bool>,
    policy_after: i32,
    entry: BusEntry,
    r: Result<Option<Decision>, LoopError>,
)
    requires
        decider_step(decided, policy, decided_after, policy_after, entry, r),
        entry.payload matches Some(Payload { payload: Some(PayloadBody::Vote(v)) }) && !decided.contains_key(
            v.intention_id,
        ),
    ensures
        r matches Ok(None),
        decided_after == decided,
        policy_after == policy,
{
}

/// No two tracked intentions share a position.
pub open spec fn intention_ids_distinct<R>(s: Seq<(i64, R, bool)>) -> bool {
    forall|i: int, j: int| 0 <= i < s.len() && 0 <= j < s.len() && i != j ==> (#[trigger] s[i]).0 != (#[trigger] s[j]).0
}

impl<R: VoteRecord> Decider<R> {
    /// The tracked intentions, and whether each was decided.
    pub closed spec fn decided(&self) -> Map<i64, bool> {
        decided_map(self.intentions@)
    }

    /// The position the next poll reads from.
    pub closed spec fn position(&self) -> i64 {
        self.next_log_position
    }

    /// The policy new intentions are decided under.
    pub closed spec fn policy(&self) -> i32 {
        self.current_decider_policy
    }

    /// The position the next poll reads from.
    pub fn next_log_position(&self) -> (p: i64)
        ensures
            p == self.position(),
    {
        self.next_log_position
    }

    /// The policy new intentions are decided under.
    pub fn current_decider_policy(&self) -> (p: i32)
        ensures
            p == self.policy(),
    {
        self.current_decider_policy
    }

    /// The positions of the tracked intentions are distinct.
    pub closed spec fn wf(&self) -> bool {
        intention_ids_distinct(self.intentions@)
    }

    /// A decider that reads from `initial_log_position` under the
    /// on-by-default policy.
    pub fn new(initial_log_position: i64) -> (d: Self)
        ensures
            d.wf(),
            d.position() == initial_log_position,
            d.policy() == 1,
            d.decided() == Map::<i64, bool>::empty(),
    {
        let d = Decider { next_log_position: initial_log_position, current_decider_policy: 1, intentions: Vec::new() };
        assert(d.decided() =~= Map::<i64, bool>::empty());
        d
    }

    /// The request for the next batch: intentions, votes, decider and voter
    /// policies, commits and aborts, at most 64 entries.
    pub fn poll_request(&self, bus_id: &str, timeout: Option<Duration>) -> (r: BlockingPollRequest)
        ensures
            r.agent_bus_id@ == bus_id@,
            r.start_log_position == self.position(),
            r.max_entries == 64,
            r.timeout_ms == timeout_millis_spec(timeout),
            r.filter matches Some(f) && f.payload_types@ == seq![
                PayloadType::Intention,
                PayloadType::Vote,
                PayloadType::DeciderPolicy,
                PayloadType::VoterPolicy,
                PayloadType::Commit,
                PayloadType::Abort,
            ],
    {
        let mut types: Vec<PayloadType> = Vec::new();
        types.push(PayloadType::Intention);
        types.push(PayloadType::Vote);
        types.push(PayloadType::DeciderPolicy);
        types.push(PayloadType::VoterPolicy);
        types.push(PayloadType::Commit);
        types.push(PayloadType::Abort);
        assert(types@ =~= seq![
            PayloadType::Intention,
            PayloadType::Vote,
            PayloadType::DeciderPolicy,
            PayloadType::VoterPolicy,
            PayloadType::Commit,
            PayloadType::Abort,
        ]);
        typed_poll_request(bus_id, self.next_log_position, 64, types, timeout_millis(timeout))
    }

    fn find(&self, id: i64) -> (r: Option<usize>)
        requires
            self.wf(),
        ensures
            match r {
                Some(i) => i < self.intentions@.len() && self.intentions@[i as int].0 == id && self.decided().contains_key(id)
                    && self.decided()[id] == self.intentions@[i as int].2,
                None => !self.decided().contains_key(id),
            },
    {
        let mut i: usize = 0;
        while i < self.intentions.len()
            invariant
                i <= self.intentions@.len(),
                self.wf(),
                forall|k: int| 0 <= k < i ==> (#[trigger] self.intentions@[k]).0 != id,
            decreases self.intentions@.len() - i,
        {
            if self.intentions[i].0 == id {
                proof {
                    assert(self.intentions@[i as int].0 == id);
                    let j = choose|j: int| 0 <= j < self.intentions@.len() && (#[trigger] self.intentions@[j]).0 == id;
                    assert(i == j);
                }
                return Some(i);
            }
            i += 1;
        }
        None
    }

    /// Take in one entry. An intention gets a fresh record under the current
    /// policy (replacing any record at its position) and may be decided at
    /// once; a vote for a tracked, undecided intention may decide it; a
    /// decider policy becomes the current policy; a control entry, or a
    /// payload without a body, is an unknown payload. Other entries change
    /// nothing. A decision returned is to be appended by the caller.
    pub fn process_entry<F: VoteRecordFactory<R>>(&mut self, entry: BusEntry, factory: &F) -> (r: Result<
        Option<Decision>,
        LoopError,
    >)
        requires
            old(self).wf(),
        ensures
            final(self).wf(),
            final(self).position() == old(self).position(),
            decider_step(old(self).decided(), old(self).policy(), final(self).decided(), final(self).policy(), entry, r),
            decision_from_record::<R>(entry, r),
    {
        let ghost entry_view = entry;
        let position = position_of(&entry);
        let payload = match entry.payload {
            None => {
                return Ok(None);
            },
            Some(p) => p,
        };
        let body = match payload.payload {
            None => {
                return Err(LoopError::UnknownPayloadType(position));
            },
            Some(b) => b,
        };
        match body {
            PayloadBody::Intention(_) => {
                let mut record = factory.create(self.current_decider_policy);
                let ghost fresh = record;
                let decision = record.register();
                let ghost registered = record;
                let decided = decision.is_some();
                let ghost before = self.intentions@;
                match self.find(position) {
                    Some(i) => {
                        let mut list: Vec<(i64, R, bool)> = Vec::new();
                        std::mem::swap(&mut list, &mut self.intentions);
                        list.remove(i);
                        list.insert(i, (position, record, decided));
                        self.intentions = list;
                        proof {
                            assert(self.intentions@ =~= before.update(i as int, self.intentions@[i as int]));
                            assert forall|a: int, b: int|
                                0 <= a < self.intentions@.len() && 0 <= b < self.intentions@.len() && a != b implies (
                            #[trigger] self.intentions@[a]).0 != (#[trigger] self.intentions@[b]).0 by {
                                assert(self.intentions@[a].0 == before[a].0);
                                assert(self.intentions@[b].0 == before[b].0);
                            }
                            lemma_decided_update(before, self.intentions@, i as int);
                        }
                    },
                    None => {
                        let mut list: Vec<(i64, R, bool)> = Vec::new();
                        std::mem::swap(&mut list, &mut self.intentions);
                        list.push((position, record, decided));
                        self.intentions = list;
                        proof {
                            assert(self.intentions@ =~= before.push(self.intentions@[before.len() as int]));
                            assert forall|a: int, b: int|
                                0 <= a < self.intentions@.len() && 0 <= b < self.intentions@.len() && a != b implies (
                            #[trigger] self.intentions@[a]).0 != (#[trigger] self.intentions@[b]).0 by {
                                if a < before.len() && b < before.len() {
                                    assert(self.intentions@[a] == before[a]);
                                    assert(self.intentions@[b] == before[b]);
                                } else if a < before.len() {
                                    assert(self.intentions@[a] == before[a]);
                                    assert(decided_map(before).contains_key(before[a].0));
                                } else {
                                    assert(self.intentions@[b] == before[b]);
                                    assert(decided_map(before).contains_key(before[b].0));
                                }
                            }
                            lemma_decided_push(before, self.intentions@);
                        }
                    },
                }
                let r = match decision {
                    Some((commit, reason)) => Some(Decision { intention_id: position, commit, reason }),
                    None => None,
                };
                assert(decision_answer(r) == answer_view(decision));
                assert(R::registers(fresh, registered, decision_answer(r)));
                Ok(r)
            },
            PayloadBody::Vote(v) => {
                let ghost before = self.intentions@;
                match self.find(v.intention_id) {
                    Some(i) => {
                        if self.intentions[i].2 {
                            return Ok(None);
                        }
                        let mut list: Vec<(i64, R, bool)> = Vec::new();
                        std::mem::swap(&mut list, &mut self.intentions);
                        let (id, mut record, _) = list.remove(i);
                        let ghost tracked_record = record;
                        let decision = record.apply_vote(&v);
                        let ghost voted = record;
                        let decided = decision.is_some();
                        list.insert(i, (id, record, decided));
                        self.intentions = list;
                        proof {
                            assert(self.intentions@ =~= before.update(i as int, self.intentions@[i as int]));
                            assert forall|a: int, b: int|
                                0 <= a < self.intentions@.len() && 0 <= b < self.intentions@.len() && a != b implies (
                            #[trigger] self.intentions@[a]).0 != (#[trigger] self.intentions@[b]).0 by {
                                assert(self.intentions@[a].0 == before[a].0);
                                assert(self.intentions@[b].0 == before[b].0);
                            }
                            lemma_decided_update(before, self.intentions@, i as int);
                        }
                        let r = match decision {
                            Some((commit, reason)) => Some(Decision { intention_id: v.intention_id, commit, reason }),
                            None => None,
                        };
                        assert(decision_answer(r) == answer_view(decision));
                        assert(R::takes_vote(tracked_record, v, voted, decision_answer(r)));
                        Ok(r)
                    },
                    None => Ok(None),
                }
            },
            PayloadBody::DeciderPolicy(p) => {
                self.current_decider_policy = p;
                Ok(None)
            },
            PayloadBody::Control(_) => Err(LoopError::UnknownPayloadType(position)),
            _ => Ok(None),
        }
    }

    /// The entry at `log_position` is done: read on after it.
    pub fn entry_done(&mut self, log_position: i64)
        requires
            log_position < i64::MAX,
        ensures
            final(self).position() == log_position + 1,
            final(self).policy() == old(self).policy(),
            final(self).decided() == old(self).decided(),
            final(self).wf() == old(self).wf(),
    {
        self.next_log_position = log_position + 1;
    }

    /// A batch is done: read on from its next position.
    pub fn batch_done(&mut self, next_start_position: i64)
        ensures
            final(self).position() == next_start_position,
            final(self).policy() == old(self).policy(),
            final(self).decided() == old(self).decided(),
            final(self).wf() == old(self).wf(),
    {
        self.next_log_position = next_start_position;
    }
}

/// The decided flags that a list of tracked intentions holds.
pub open spec fn decided_map<R>(s: Seq<(i64, R, bool)>) -> Map<i64, bool> {
    Map::new(
        |id: i64| exists|i: int| 0 <= i < s.len() && (#[trigger] s[i]).0 == id,
        |id: i64| s[choose|i: int| 0 <= i < s.len() && (#[trigger] s[i]).0 == id].2,
    )
}

proof fn lemma_decided_update<R>(before: Seq<(i64, R, bool)>, after: Seq<(i64, R, bool)>, i: int)
    requires
        intention_ids_distinct(before),
        intention_ids_distinct(after),
        0 <= i < before.len(),
        after.len() == before.len(),
        after[i].0 == before[i].0,
        forall|j: int| 0 <= j < before.len() && j != i ==> after[j] == before[j],
    ensures
        decided_map(after) == decided_map(before).insert(before[i].0, after[i].2),
{
    let m1 = decided_map(after);
    let m2 = decided_map(before).insert(before[i].0, after[i].2);
    assert forall|k: i64| m1.contains_key(k) <==> m2.contains_key(k) by {
        if m2.contains_key(k) {
            if k == before[i].0 {
                assert(after[i].0 == k);
            } else {
                let j = choose|j: int| 0 <= j < before.len() && (#[trigger] before[j]).0 == k;
                assert(after[j].0 == k);
            }
        }
        if m1.contains_key(k) {
            let j = choose|j: int| 0 <= j < after.len() && (#[trigger] after[j]).0 == k;
            if j != i {
                assert(before[j].0 == k);
            }
        }
    }
    assert forall|k: i64| m1.contains_key(k) implies m1[k] == m2[k] by {
        let j = choose|j: int| 0 <= j < after.len() && (#[trigger] after[j]).0 == k;
        if j == i {
        } else {
            assert(before[j].0 == k);
            let j2 = choose|j2: int| 0 <= j2 < before.len() && (#[trigger] before[j2]).0 == k;
            assert(j2 == j);
            assert(k != before[i].0);
        }
    }
    assert(m1 =~= m2);
}

proof fn lemma_decided_push<R>(before: Seq<(i64, R, bool)>, after: Seq<(i64, R, bool)>)
    requires
        intention_ids_distinct(after),
        after.len() == before.len() + 1,
        forall|j: int| 0 <= j < before.len() ==> after[j] == before[j],
    ensures
        decided_map(after) == decided_map(before).insert(after.last().0, after.last().2),
{
    let n = before.len() as int;
    let m1 = decided_map(after);
    let m2 = decided_map(before).insert(after[n].0, after[n].2);
    assert forall|k: i64| m1.contains_key(k) <==> m2.contains_key(k) by {
        if m2.contains_key(k) {
            if k == after[n].0 {
                assert(after[n].0 == k);
            } else {
                let j = choose|j: int| 0 <= j < before.len() && (#[trigger] before[j]).0 == k;
                assert(after[j].0 == k);
            }
        }
        if m1.contains_key(k) {
            let j = choose|j: int| 0 <= j < after.len() && (#[trigger] after[j]).0 == k;
            if j < n {
                assert(before[j].0 == k);
            }
        }
    }
    assert forall|k: i64| m1.contains_key(k) implies m1[k] == m2[k] by {
        let j = choose|j: int| 0 <= j < after.len() && (#[trigger] after[j]).0 == k;
        if j < n {
            assert(before[j].0 == k);
            let j2 = choose|j2: int| 0 <= j2 < before.len() && (#[trigger] before[j2]).0 == k;
            assert(after[j2].0 == k);
            assert(j2 == j);
        }
    }
    assert(m1 =~= m2);
}

/// The append request that records a decision: a commit or an abort of the
/// intention, with its reason.
pub fn decision_append_request(bus_id: &str, decision: Decision) -> (r: AppendRequest)
    ensures
        r.agent_bus_id@ == bus_id@,
        r.payload matches Some(Payload { payload: Some(b) }) && (if decision.commit {
            b == PayloadBody::Commit(Commit { intention_id: decision.intention_id, reason: decision.reason })
        } else {
            b == PayloadBody::Abort(Abort { intention_id: decision.intention_id, reason: decision.reason })
        }),
{
    let body = if decision.commit {
        PayloadBody::Commit(Commit { intention_id: decision.intention_id, reason: decision.reason })
    } else {
        PayloadBody::Abort(Abort { intention_id: decision.intention_id, reason: decision.reason })
    };
    body_append_request(bus_id, body)
}

} // verus!
