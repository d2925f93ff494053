//! The canonical text of a bus entry: its payload type name and a content
//! string, JSON for structured payloads and the text itself for string
//! payloads.

use vstd::prelude::*;

use crate::bus::body_type;
use crate::bus::payload_type_text;
use crate::bus::BaseEngineOp;
use crate::bus::BusEntry;
use crate::bus::voter_ops_in_order;
use crate::bus::Mail;
use crate::bus::MailContent;
use crate::bus::Payload;
use crate::bus::PayloadBody;
use crate::bus::PayloadType;
use crate::bus::Vote;
use crate::bus::VoteType;
use crate::bus::VoterConfig;
use crate::bus::VoterConfigKind;
use crate::bus::VoterOp;
use crate::bus::VoterOpKind;
use crate::bus::VoterOps;
use crate::text::append_i64;
use crate::text::append_str;
use crate::text::append_u64;
use crate::text::decimal;
use crate::text::signed_decimal;

verus! {

/// A lowercase hexadecimal digit.
pub open spec fn hex_digit(n: u32) -> char {
    if n < 10 {
        ((n + 48) as u8) as char
    } else {
        ((n + 87) as u8) as char
    }
}

/// How serde_json writes one character inside a string: `"` and `\` and
/// the control characters are escaped (the short forms where JSON has one,
/// else `\u00` and two hex digits); every other character is itself.
pub open spec fn json_char(c: char) -> Seq<char> {
    if c == '"' {
        seq!['\\', '"']
    } else if c == '\\' {
        seq!['\\', '\\']
    } else if c == '\u{8}' {
        seq!['\\', 'b']
    } else if c == '\t' {
        seq!['\\', 't']
    } else if c == '\n' {
        seq!['\\', 'n']
    } else if c == '\u{c}' {
        seq!['\\', 'f']
    } else if c == '\r' {
        seq!['\\', 'r']
    } else if (c as u32) < 0x20 {
        seq!['\\', 'u', '0', '0', hex_digit((c as u32) / 16), hex_digit((c as u32) % 16)]
    } else {
        seq![c]
    }
}

/// The characters of a string as serde_json writes them inside quotes.
pub open spec fn json_escaped(s: Seq<char>) -> Seq<char>
    decreases s.len(),
{
    if s.len() == 0 {
        Seq::empty()
    } else {
        json_escaped(s.drop_last()) + json_char(s.last())
    }
}

/// The JSON text of a string: quoted, with its characters escaped.
pub open spec fn json_quoted(s: Seq<char>) -> Seq<char> {
    seq!['"'] + json_escaped(s) + seq!['"']
}

/// Calls `serde_json::to_string` on a string slice. Claimed: the text is
/// `json_quoted` of the slice, as serde_json's string formatter writes it
/// (its escape table and `write_char_escape`). Serialising a string cannot
/// fail; the error arm only converts the outside result.
#[verifier::external_body]
fn json_string(s: &str) -> (r: String)
    ensures
        r@ == json_quoted(s@),
{
    match serde_json::to_string(s) {
        Ok(t) => t,
        Err(_) => String::new(),
    }
}

/// A payload type name and content string.
///
/// Structured payloads (vote, commit, abort, control, mail) are JSON;
/// string payloads (intention, inference input, ...) are returned as-is.
#[derive(Debug)]
pub struct ParsedEntry {
    pub entry_type: &'static str,
    pub content: String,
}

/// The text of an optional string, empty when absent.
pub open spec fn opt_text(s: Option<String>) -> Seq<char> {
    match s {
        Some(t) => t@,
        None => Seq::empty(),
    }
}

/// The JSON text of a boolean.
pub open spec fn bool_text(b: bool) -> Seq<char> {
    if b {
        "true"@
    } else {
        "false"@
    }
}

/// A JSON member `"key":value` for a key that needs no escaping.
pub open spec fn member(key: Seq<char>, value: Seq<char>) -> Seq<char> {
    seq!['"'] + key + seq!['"', ':'] + value
}

/// Members joined by commas.
pub open spec fn join_members(ms: Seq<Seq<char>>) -> Seq<char>
    decreases ms.len(),
{
    if ms.len() == 0 {
        Seq::empty()
    } else if ms.len() == 1 {
        ms[0]
    } else {
        join_members(ms.drop_last()) + seq![','] + ms.last()
    }
}

/// A JSON object of the given members, in order.
pub open spec fn object(ms: Seq<Seq<char>>) -> Seq<char> {
    seq!['{'] + join_members(ms) + seq!['}']
}

/// The type label of an optional voter configuration.
pub open spec fn voter_config_type_text(c: Option<VoterConfig>) -> Seq<char> {
    match c {
        Some(VoterConfig { config: Some(k) }) => match k {
            VoterConfigKind::Llm(_) => "llm"@,
            VoterConfigKind::RuleBased(_) => "rule_based"@,
            VoterConfigKind::Custom(a) => a.type_url@,
        },
        _ => "none"@,
    }
}

/// The members of a vote's JSON, in key order.
pub open spec fn vote_members(v: Vote) -> Seq<Seq<char>> {
    let b = match v.abstract_vote {
        Some(VoteType { boolean_vote: Some(b) }) => seq![member("boolean_vote"@, bool_text(b))],
        _ => Seq::empty(),
    };
    let r = if v.reason@.len() > 0 {
        seq![member("reason"@, json_quoted(v.reason@))]
    } else {
        Seq::empty()
    };
    let c = match v.voter_config {
        Some(_) => seq![member("voter_config_type"@, json_quoted(voter_config_type_text(v.voter_config)))],
        None => Seq::empty(),
    };
    b + seq![member("intention_id"@, signed_decimal(v.intention_id as int))] + r + c + seq![
        member("voter_id"@, json_quoted(v.voter_id@)),
    ]
}

/// The JSON of a decision (commit or abort).
pub open spec fn decision_json(intention_id: i64, reason: Seq<char>) -> Seq<char> {
    object(seq![member("intention_id"@, signed_decimal(intention_id as int)), member("reason"@, json_quoted(reason))])
}

/// The JSON of one voter operation.
pub open spec fn voter_op_json(op: VoterOp) -> Seq<char> {
    match op.op {
        Some(VoterOpKind::Add(a)) => object(
            seq![
                member("config_type"@, json_quoted(voter_config_type_text(a.config))),
                member("operation"@, "\"add\""@),
            ],
        ),
        Some(VoterOpKind::Remove) => object(seq![member("operation"@, "\"remove\""@)]),
        None => object(seq![member("operation"@, "\"none\""@)]),
    }
}

/// The members of the voter operations object, one per voter id in list
/// order.
pub open spec fn voter_ops_members(l: VoterOps) -> Seq<Seq<char>>
    decreases l,
{
    match l {
        VoterOps::End => Seq::empty(),
        VoterOps::Entry { voter_id, op, rest } => seq![json_quoted(voter_id@) + seq![':'] + voter_op_json(op)]
            + voter_ops_members(*rest),
    }
}

/// The JSON text of an optional number.
pub open spec fn opt_u64_json(n: Option<u64>) -> Seq<char> {
    match n {
        Some(x) => decimal(x as nat),
        None => "null"@,
    }
}

/// The JSON text of an optional signed number.
pub open spec fn opt_i32_json(n: Option<i32>) -> Seq<char> {
    match n {
        Some(x) => signed_decimal(x as int),
        None => "null"@,
    }
}

/// The JSON of a control entry's base-engine operation.
pub open spec fn base_engine_json(op: Option<BaseEngineOp>) -> Seq<char> {
    let engine = member("control_type"@, "\"base_engine_control\""@);
    match op {
        Some(BaseEngineOp::AddVoter(a)) => object(
            seq![
                member("base_engine_control_type"@, "\"add_voter\""@),
                member("config_type"@, json_quoted(voter_config_type_text(a.config))),
                engine,
            ],
        ),
        Some(BaseEngineOp::RemoveVoter(r)) => object(
            seq![
                member("base_engine_control_type"@, "\"remove_voter\""@),
                engine,
                member("voter_id"@, json_quoted(r.voter_id@)),
            ],
        ),
        Some(BaseEngineOp::PolicyBatch(b)) => object(
            seq![
                member("base_engine_control_type"@, "\"policy_batch\""@),
                engine,
                member("decider_policy"@, opt_i32_json(b.decider_policy)),
                member("expected_current_version"@, opt_u64_json(b.expected_current_version)),
                member("new_version"@, decimal(b.new_version as nat)),
                member("voter_ops"@, object(voter_ops_members(b.voter_ops))),
            ],
        ),
        None => object(seq![member("base_engine_control_type"@, "\"none\""@), engine]),
    }
}

/// The body, message id and replied-to id of a mail.
pub open spec fn mail_parts(m: Mail) -> (Seq<char>, Seq<char>, Seq<char>) {
    match m.content {
        Some(MailContent::Message(msg)) => (msg.body@, msg.message_id@, Seq::empty()),
        Some(MailContent::Reply(r)) => match r.message {
            Some(msg) => (msg.body@, msg.message_id@, r.in_reply_to@),
            None => (Seq::empty(), Seq::empty(), r.in_reply_to@),
        },
        None => (Seq::empty(), Seq::empty(), Seq::empty()),
    }
}

/// The content string of a payload body.
pub open spec fn body_content(b: PayloadBody) -> Seq<char> {
    match b {
        PayloadBody::Intention(i) => opt_text(i.intention),
        PayloadBody::Vote(v) => object(vote_members(v)),
        PayloadBody::Commit(c) => decision_json(c.intention_id, c.reason@),
        PayloadBody::Abort(a) => decision_json(a.intention_id, a.reason@),
        PayloadBody::InferenceInput(x) => opt_text(x.inference_input),
        PayloadBody::InferenceOutput(x) => opt_text(x.inference_output),
        PayloadBody::ActionOutput(x) => opt_text(x.action_output),
        PayloadBody::AgentInput(x) => opt_text(x.agent_input),
        PayloadBody::AgentOutput(x) => opt_text(x.agent_output),
        PayloadBody::VoterPolicy(p) => match p.config {
            Some(a) => "type="@ + a.type_url@,
            None => "no config"@,
        },
        PayloadBody::Control(c) => match c.base_engine_control {
            Some(e) => base_engine_json(e.control),
            None => Seq::empty(),
        },
        PayloadBody::DeciderPolicy(p) => signed_decimal(p as int),
        PayloadBody::Mail(m) => {
            let (body, message_id, reply_to) = mail_parts(m);
            object(
                seq![
                    member("content"@, json_quoted(body)),
                    member("from"@, json_quoted(m.sender_agent_id@)),
                    member("in_reply_to"@, json_quoted(reply_to)),
                    member("message_id"@, json_quoted(message_id)),
                ],
            )
        },
    }
}

/// The type name of an entry: its payload type's field name, or `unknown`.
pub open spec fn entry_type_text(e: BusEntry) -> Seq<char> {
    match e.payload {
        Some(Payload { payload: Some(b) }) => payload_type_text(body_type(b)),
        _ => "unknown"@,
    }
}

/// The content string of an entry; empty when it has no payload body.
pub open spec fn entry_content(e: BusEntry) -> Seq<char> {
    match e.payload {
        Some(Payload { payload: Some(b) }) => body_content(b),
        _ => Seq::empty(),
    }
}

/// The views of a list of strings.
pub open spec fn views(v: Seq<String>) -> Seq<Seq<char>> {
    v.map_values(|s: String| s@)
}

/// `"key":value` for a key that needs no escaping.
fn member_text(key: &str, value: &str) -> (r: String)
    ensures
        r@ == member(key@, value@),
{
    let mut r = String::new();
    append_str(&mut r, "\"");
    append_str(&mut r, key);
    append_str(&mut r, "\":");
    append_str(&mut r, value);
    proof {
        reveal_strlit("\"");
        reveal_strlit("\":");
    }
    assert(r@ =~= member(key@, value@));
    r
}

/// The JSON object of the given members.
fn object_text(members: &Vec<String>) -> (r: String)
    ensures
        r@ == object(views(members@)),
{
    let mut r = String::new();
    append_str(&mut r, "{");
    proof {
        reveal_strlit("{");
        assert(views(members@.subrange(0, 0)) =~= Seq::<Seq<char>>::empty());
        assert(r@ =~= seq!['{'] + join_members(views(members@.subrange(0, 0))));
    }
    let mut i: usize = 0;
    while i < members.len()
        invariant
            i <= members@.len(),
            r@ == seq!['{'] + join_members(views(members@.subrange(0, i as int))),
        decreases members@.len() - i,
    {
        let ghost before = views(members@.subrange(0, i as int));
        if i > 0 {
            append_str(&mut r, ",");
        }
        append_str(&mut r, members[i].as_str());
        proof {
            reveal_strlit(",");
            let after = views(members@.subrange(0, i + 1));
            assert(after.drop_last() =~= before);
            assert(after.last() == members@[i as int]@);
            if i == 0 {
                assert(before =~= Seq::<Seq<char>>::empty());
                assert(after.len() == 1);
            }
        }
        i += 1;
        proof {
            let after = views(members@.subrange(0, i as int));
            assert(r@ =~= seq!['{'] + join_members(after));
        }
    }
    append_str(&mut r, "}");
    proof {
        reveal_strlit("{");
        reveal_strlit("}");
        assert(members@.subrange(0, members@.len() as int) =~= members@);
    }
    assert(r@ =~= object(views(members@)));
    r
}

fn quoted(s: &str) -> (r: String)
    ensures
        r@ == json_quoted(s@),
{
    json_string(s)
}

/// The type label of an optional voter configuration: `llm`, `rule_based`,
/// a custom configuration's type URL, or `none`.
pub fn voter_config_type(config: Option<&VoterConfig>) -> (r: String)
    ensures
        r@ == voter_config_type_text(
            match config {
                Some(c) => Some(*c),
                None => None,
            },
        ),
{
    let mut r = String::new();
    match config {
        Some(c) => match &c.config {
            Some(VoterConfigKind::Llm(_)) => append_str(&mut r, "llm"),
            Some(VoterConfigKind::RuleBased(_)) => append_str(&mut r, "rule_based"),
            Some(VoterConfigKind::Custom(a)) => append_str(&mut r, a.type_url.as_str()),
            None => append_str(&mut r, "none"),
        },
        None => append_str(&mut r, "none"),
    }
    r
}

fn opt_voter_config_ref(c: &Option<VoterConfig>) -> (r: Option<&VoterConfig>)
    ensures
        match r {
            Some(x) => *c == Some(*x),
            None => *c is None,
        },
{
    match c {
        Some(x) => Some(x),
        None => None,
    }
}

fn vote_content(v: &Vote) -> (r: String)
    ensures
        r@ == object(vote_members(*v)),
{
    let mut members: Vec<String> = Vec::new();
    match &v.abstract_vote {
        Some(VoteType { boolean_vote: Some(b) }) => {
            let value = if *b { "true" } else { "false" };
            members.push(member_text("boolean_vote", value));
        },
        _ => {},
    }
    let mut id = String::new();
    append_i64(&mut id, v.intention_id);
    members.push(member_text("intention_id", id.as_str()));
    if v.reason.unicode_len() > 0 {
        let q = quoted(v.reason.as_str());
        members.push(member_text("reason", q.as_str()));
    }
    match &v.voter_config {
        Some(_) => {
            let t = voter_config_type(opt_voter_config_ref(&v.voter_config));
            let q = quoted(t.as_str());
            members.push(member_text("voter_config_type", q.as_str()));
        },
        None => {},
    }
    let q = quoted(v.voter_id.as_str());
    members.push(member_text("voter_id", q.as_str()));
    proof {
        reveal_strlit("true");
        reveal_strlit("false");
        assert(views(members@) =~= vote_members(*v));
    }
    object_text(&members)
}

fn decision_content(intention_id: i64, reason: &str) -> (r: String)
    ensures
        r@ == decision_json(intention_id, reason@),
{
    let mut members: Vec<String> = Vec::new();
    let mut id = String::new();
    append_i64(&mut id, intention_id);
    members.push(member_text("intention_id", id.as_str()));
    let q = quoted(reason);
    members.push(member_text("reason", q.as_str()));
    assert(views(members@) =~= seq![
        member("intention_id"@, signed_decimal(intention_id as int)),
        member("reason"@, json_quoted(reason@)),
    ]);
    object_text(&members)
}

fn voter_op_content(op: &VoterOp) -> (r: String)
    ensures
        r@ == voter_op_json(*op),
{
    let mut members: Vec<String> = Vec::new();
    match &op.op {
        Some(VoterOpKind::Add(a)) => {
            let t = voter_config_type(opt_voter_config_ref(&a.config));
            let q = quoted(t.as_str());
            members.push(member_text("config_type", q.as_str()));
            members.push(member_text("operation", "\"add\""));
        },
        Some(VoterOpKind::Remove) => {
            members.push(member_text("operation", "\"remove\""));
        },
        None => {
            members.push(member_text("operation", "\"none\""));
        },
    }
    assert(views(members@) =~= match op.op {
        Some(VoterOpKind::Add(a)) => seq![
            member("config_type"@, json_quoted(voter_config_type_text(a.config))),
            member("operation"@, "\"add\""@),
        ],
        Some(VoterOpKind::Remove) => seq![member("operation"@, "\"remove\""@)],
        None => seq![member("operation"@, "\"none\""@)],
    });
    object_text(&members)
}

fn push_voter_op_members(members: &mut Vec<String>, l: &VoterOps)
    ensures
        views(final(members)@) == views(old(members)@) + voter_ops_members(*l),
    decreases l,
{
    match l {
        VoterOps::End => {
            assert(views(members@) =~= views(members@) + voter_ops_members(*l));
        },
        VoterOps::Entry { voter_id, op, rest } => {
            let mut m = quoted(voter_id.as_str());
            append_str(&mut m, ":");
            let o = voter_op_content(op);
            append_str(&mut m, o.as_str());
            let ghost before = views(members@);
            proof {
                reveal_strlit(":");
                assert(m@ =~= json_quoted(voter_id@) + seq![':'] + voter_op_json(*op));
            }
            members.push(m);
            proof {
                assert(views(members@) =~= before.push(m@));
            }
            push_voter_op_members(members, &**rest);
            proof {
                assert(voter_ops_members(*l) =~= seq![m@] + voter_ops_members(**rest));
                assert(views(members@) =~= before + voter_ops_members(*l));
            }
        },
    }
}

fn opt_u64_text(n: Option<u64>) -> (r: String)
    ensures
        r@ == opt_u64_json(n),
{
    let mut r = String::new();
    match n {
        Some(x) => append_u64(&mut r, x),
        None => append_str(&mut r, "null"),
    }
    r
}

fn opt_i32_text(n: Option<i32>) -> (r: String)
    ensures
        r@ == opt_i32_json(n),
{
    let mut r = String::new();
    match n {
        Some(x) => append_i64(&mut r, x as i64),
        None => append_str(&mut r, "null"),
    }
    r
}

fn base_engine_content(op: &Option<BaseEngineOp>) -> (r: String)
    ensures
        r@ == base_engine_json(*op),
{
    let mut members: Vec<String> = Vec::new();
    match op {
        Some(BaseEngineOp::AddVoter(a)) => {
            members.push(member_text("base_engine_control_type", "\"add_voter\""));
            let t = voter_config_type(opt_voter_config_ref(&a.config));
            let q = quoted(t.as_str());
            members.push(member_text("config_type", q.as_str()));
            members.push(member_text("control_type", "\"base_engine_control\""));
        },
        Some(BaseEngineOp::RemoveVoter(rm)) => {
            members.push(member_text("base_engine_control_type", "\"remove_voter\""));
            members.push(member_text("control_type", "\"base_engine_control\""));
            let q = quoted(rm.voter_id.as_str());
            members.push(member_text("voter_id", q.as_str()));
        },
        Some(BaseEngineOp::PolicyBatch(b)) => {
            members.push(member_text("base_engine_control_type", "\"policy_batch\""));
            members.push(member_text("control_type", "\"base_engine_control\""));
            let p = opt_i32_text(b.decider_policy);
            members.push(member_text("decider_policy", p.as_str()));
            let e = opt_u64_text(b.expected_current_version);
            members.push(member_text("expected_current_version", e.as_str()));
            let mut nv = String::new();
            append_u64(&mut nv, b.new_version);
            members.push(member_text("new_version", nv.as_str()));
            let mut ops: Vec<String> = Vec::new();
            push_voter_op_members(&mut ops, &b.voter_ops);
            assert(views(ops@) =~= voter_ops_members(b.voter_ops));
            let o = object_text(&ops);
            members.push(member_text("voter_ops", o.as_str()));
        },
        None => {
            members.push(member_text("base_engine_control_type", "\"none\""));
            members.push(member_text("control_type", "\"base_engine_control\""));
        },
    }
    proof {
        let engine = member("control_type"@, "\"base_engine_control\""@);
        assert(views(members@) =~= match *op {
            Some(BaseEngineOp::AddVoter(a)) => seq![
                member("base_engine_control_type"@, "\"add_voter\""@),
                member("config_type"@, json_quoted(voter_config_type_text(a.config))),
                engine,
            ],
            Some(BaseEngineOp::RemoveVoter(r)) => seq![
                member("base_engine_control_type"@, "\"remove_voter\""@),
                engine,
                member("voter_id"@, json_quoted(r.voter_id@)),
            ],
            Some(BaseEngineOp::PolicyBatch(b)) => seq![
                member("base_engine_control_type"@, "\"policy_batch\""@),
                engine,
                member("decider_policy"@, opt_i32_json(b.decider_policy)),
                member("expected_current_version"@, opt_u64_json(b.expected_current_version)),
                member("new_version"@, decimal(b.new_version as nat)),
                member("voter_ops"@, object(voter_ops_members(b.voter_ops))),
            ],
            None => seq![member("base_engine_control_type"@, "\"none\""@), engine],
        });
    }
    object_text(&members)
}

fn mail_content(m: &Mail) -> (r: String)
    ensures
        r@ == body_content(PayloadBody::Mail(*m)),
{
    let empty = String::new();
    let (body, message_id, reply_to): (&str, &str, &str) = match &m.content {
        Some(MailContent::Message(msg)) => (msg.body.as_str(), msg.message_id.as_str(), empty.as_str()),
        Some(MailContent::Reply(rp)) => match &rp.message {
            Some(msg) => (msg.body.as_str(), msg.message_id.as_str(), rp.in_reply_to.as_str()),
            None => (empty.as_str(), empty.as_str(), rp.in_reply_to.as_str()),
        },
        None => (empty.as_str(), empty.as_str(), empty.as_str()),
    };
    assert((body@, message_id@, reply_to@) == mail_parts(*m));
    let mut members: Vec<String> = Vec::new();
    let q = quoted(body);
    members.push(member_text("content", q.as_str()));
    let q = quoted(m.sender_agent_id.as_str());
    members.push(member_text("from", q.as_str()));
    let q = quoted(reply_to);
    members.push(member_text("in_reply_to", q.as_str()));
    let q = quoted(message_id);
    members.push(member_text("message_id", q.as_str()));
    assert(views(members@) =~= seq![
        member("content"@, json_quoted(body@)),
        member("from"@, json_quoted(m.sender_agent_id@)),
        member("in_reply_to"@, json_quoted(reply_to@)),
        member("message_id"@, json_quoted(message_id@)),
    ]);
    object_text(&members)
}

fn opt_string(s: &Option<String>) -> (r: String)
    ensures
        r@ == opt_text(*s),
{
    match s {
        Some(t) => t.clone(),
        None => String::new(),
    }
}

/// Parse a bus entry's payload into a type name and content string: the
/// canonical conversion shown to people and served over HTTP.
pub fn parse_entry(entry: &BusEntry) -> (r: ParsedEntry)
    requires
        voter_ops_in_order(*entry),
    ensures
        r.entry_type@ == entry_type_text(*entry),
        r.content@ == entry_content(*entry),
{
    let payload = match &entry.payload {
        Some(p) => p,
        None => {
            return ParsedEntry { entry_type: "unknown", content: String::new() };
        },
    };
    let body = match &payload.payload {
        Some(b) => b,
        None => {
            return ParsedEntry { entry_type: "unknown", content: String::new() };
        },
    };
    match body {
        PayloadBody::Intention(i) => ParsedEntry {
            entry_type: PayloadType::Intention.as_str(),
            content: opt_string(&i.intention),
        },
        PayloadBody::Vote(v) => ParsedEntry { entry_type: PayloadType::Vote.as_str(), content: vote_content(v) },
        PayloadBody::Commit(c) => ParsedEntry {
            entry_type: PayloadType::Commit.as_str(),
            content: decision_content(c.intention_id, c.reason.as_str()),
        },
        PayloadBody::Abort(a) => ParsedEntry {
            entry_type: PayloadType::Abort.as_str(),
            content: decision_content(a.intention_id, a.reason.as_str()),
        },
        PayloadBody::InferenceInput(x) => ParsedEntry {
            entry_type: PayloadType::InferenceInput.as_str(),
            content: opt_string(&x.inference_input),
        },
        PayloadBody::InferenceOutput(x) => ParsedEntry {
            entry_type: PayloadType::InferenceOutput.as_str(),
            content: opt_string(&x.inference_output),
        },
        PayloadBody::ActionOutput(x) => ParsedEntry {
            entry_type: PayloadType::ActionOutput.as_str(),
            content: opt_string(&x.action_output),
        },
        PayloadBody::AgentInput(x) => ParsedEntry {
            entry_type: PayloadType::AgentInput.as_str(),
            content: opt_string(&x.agent_input),
        },
        PayloadBody::AgentOutput(x) => ParsedEntry {
            entry_type: PayloadType::AgentOutput.as_str(),
            content: opt_string(&x.agent_output),
        },
        PayloadBody::VoterPolicy(p) => {
            let mut content = String::new();
            match &p.config {
                Some(a) => {
                    append_str(&mut content, "type=");
                    append_str(&mut content, a.type_url.as_str());
                },
                None => append_str(&mut content, "no config"),
            }
            ParsedEntry { entry_type: PayloadType::VoterPolicy.as_str(), content }
        },
        PayloadBody::Control(c) => {
            let content = match &c.base_engine_control {
                Some(e) => base_engine_content(&e.control),
                None => String::new(),
            };
            ParsedEntry { entry_type: PayloadType::Control.as_str(), content }
        },
        PayloadBody::DeciderPolicy(p) => {
            let mut content = String::new();
            append_i64(&mut content, *p as i64);
            ParsedEntry { entry_type: PayloadType::DeciderPolicy.as_str(), content }
        },
        PayloadBody::Mail(m) => ParsedEntry { entry_type: PayloadType::Mail.as_str(), content: mail_content(m) },
    }
}

} // verus!
