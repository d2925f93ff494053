//! The bus's data model: entries, payloads, requests and responses, the
//! payload types used for selective polls, and the errors of bus calls.

use vstd::prelude::*;

use crate::text::append_str;

verus! {

/// Identifies one agent bus.
#[derive(Debug)]
pub struct BusId {
    pub agent_bus_id: String,
}

/// Where and when an entry was written.
#[derive(Clone, Copy, Debug, PartialEq, Eq, Structural)]
pub struct Header {
    pub log_position: i64,
    pub rt_timestamp_ms: i64,
}

/// A proposed action, carried as text.
#[derive(Debug)]
pub struct Intention {
    pub intention: Option<String>,
}

/// The kind of a vote; only boolean votes are defined.
#[derive(Clone, Copy, Debug, PartialEq, Eq, Structural)]
pub struct VoteType {
    pub boolean_vote: Option<bool>,
}

/// Configuration of an LLM voter.
#[derive(Debug)]
pub struct LlmVoterConfig {
    pub prompt_override: String,
}

/// Configuration of a rule-based voter, of which the logic reads only the
/// number of rules.
#[derive(Debug)]
pub struct RuleBasedVoterConfig {
    pub rule_count: usize,
}

/// A packed message: its type URL and, when the URL names an LLM voter
/// configuration and the bytes decode as one, that configuration.
#[derive(Debug)]
pub struct AnyMessage {
    pub type_url: String,
    pub llm_voter_config: Option<LlmVoterConfig>,
}

/// The configuration of a voter.
#[derive(Debug)]
pub enum VoterConfigKind {
    Llm(LlmVoterConfig),
    RuleBased(RuleBasedVoterConfig),
    Custom(AnyMessage),
}

#[derive(Debug)]
pub struct VoterConfig {
    pub config: Option<VoterConfigKind>,
}

/// A voter's verdict on an intention.
#[derive(Debug)]
pub struct Vote {
    pub intention_id: i64,
    pub abstract_vote: Option<VoteType>,
    pub reason: String,
    pub voter_id: String,
    pub voter_config: Option<VoterConfig>,
}

/// A change of the voters' policy.
#[derive(Debug)]
pub struct VoterPolicy {
    pub config: Option<AnyMessage>,
}

/// A decision to carry out an intention.
#[derive(Debug)]
pub struct Commit {
    pub intention_id: i64,
    pub reason: String,
}

/// A decision not to carry out an intention.
#[derive(Debug)]
pub struct Abort {
    pub intention_id: i64,
    pub reason: String,
}

#[derive(Debug)]
pub struct AddVoter {
    pub config: Option<VoterConfig>,
}

#[derive(Debug)]
pub struct RemoveVoter {
    pub voter_id: String,
}

/// One voter operation of a policy batch.
#[derive(Debug)]
pub enum VoterOpKind {
    Add(AddVoter),
    Remove,
}

#[derive(Debug)]
pub struct VoterOp {
    pub op: Option<VoterOpKind>,
}

/// The voter operations of a policy batch, keyed by voter id. Built with
/// `insert`, each id occurs once and the ids increase along the list.
#[derive(Debug)]
pub enum VoterOps {
    End,
    Entry { voter_id: String, op: VoterOp, rest: Box<VoterOps> },
}

/// A batch of policy changes.
#[derive(Debug)]
pub struct PolicyBatch {
    pub expected_current_version: Option<u64>,
    pub new_version: u64,
    pub decider_policy: Option<i32>,
    pub voter_ops: VoterOps,
}

/// An operation on the base engine.
#[derive(Debug)]
pub enum BaseEngineOp {
    AddVoter(AddVoter),
    RemoveVoter(RemoveVoter),
    PolicyBatch(PolicyBatch),
}

#[derive(Debug)]
pub struct BaseEngineControl {
    pub control: Option<BaseEngineOp>,
}

/// A control entry; the base engine's is the only kind.
#[derive(Debug)]
pub struct Control {
    pub base_engine_control: Option<BaseEngineControl>,
}

#[derive(Debug)]
pub struct InferenceInput {
    pub inference_input: Option<String>,
}

#[derive(Debug)]
pub struct InferenceOutput {
    pub inference_output: Option<String>,
}

#[derive(Debug)]
pub struct ActionOutput {
    pub intention_id: i64,
    pub action_output: Option<String>,
}

#[derive(Debug)]
pub struct AgentInput {
    pub agent_input: Option<String>,
}

#[derive(Debug)]
pub struct AgentOutput {
    pub agent_output: Option<String>,
}

#[derive(Debug)]
pub struct MailMessage {
    pub body: String,
    pub message_id: String,
}

#[derive(Debug)]
pub struct MailReply {
    pub message: Option<MailMessage>,
    pub in_reply_to: String,
}

#[derive(Debug)]
pub enum MailContent {
    Message(MailMessage),
    Reply(MailReply),
}

/// A message between agents.
#[derive(Debug)]
pub struct Mail {
    pub sender_agent_id: String,
    pub content: Option<MailContent>,
}

/// The body of a payload, one of the entry kinds of the log.
#[derive(Debug)]
pub enum PayloadBody {
    Intention(Intention),
    Vote(Vote),
    DeciderPolicy(i32),
    VoterPolicy(VoterPolicy),
    Commit(Commit),
    Abort(Abort),
    Control(Control),
    InferenceInput(InferenceInput),
    InferenceOutput(InferenceOutput),
    ActionOutput(ActionOutput),
    AgentInput(AgentInput),
    AgentOutput(AgentOutput),
    Mail(Mail),
}

/// What an entry carries; a payload without a body is of unknown kind.
#[derive(Debug)]
pub struct Payload {
    pub payload: Option<PayloadBody>,
}

/// One entry of a bus log.
#[derive(Debug)]
pub struct BusEntry {
    pub header: Option<Header>,
    pub payload: Option<Payload>,
}

/// The voter operations of the entry, if it carries a policy batch, list
/// each id once, in increasing order.
pub open spec fn voter_ops_in_order(entry: BusEntry) -> bool {
    match entry.payload {
        Some(
            Payload {
                payload: Some(
                    PayloadBody::Control(
                        Control {
                            base_engine_control: Some(
                                BaseEngineControl { control: Some(BaseEngineOp::PolicyBatch(batch)) },
                            ),
                        },
                    ),
                ),
            },
        ) => batch.voter_ops.increasing(),
        _ => true,
    }
}

/// Whether the voter operations the entry carries, if any, are in order.
pub fn has_ordered_voter_ops(entry: &BusEntry) -> (b: bool)
    ensures
        b == voter_ops_in_order(*entry),
{
    match &entry.payload {
        Some(
            Payload {
                payload: Some(
                    PayloadBody::Control(
                        Control {
                            base_engine_control: Some(
                                BaseEngineControl { control: Some(BaseEngineOp::PolicyBatch(batch)) },
                            ),
                        },
                    ),
                ),
            },
        ) => batch.voter_ops.is_increasing(),
        _ => true,
    }
}

fn clone_opt_string(s: &Option<String>) -> (r: Option<String>)
    ensures
        r == *s,
{
    match s {
        Some(t) => Some(t.clone()),
        None => None,
    }
}

impl Clone for BusId {
    fn clone(&self) -> (r: Self)
        ensures
            r == *self,
    {
        BusId { agent_bus_id: self.agent_bus_id.clone() }
    }
}

impl Clone for Intention {
    fn clone(&self) -> (r: Self)
        ensures
            r == *self,
    {
        Intention { intention: clone_opt_string(&self.intention) }
    }
}

impl Clone for LlmVoterConfig {
    fn clone(&self) -> (r: Self)
        ensures
            r == *self,
    {
        LlmVoterConfig { prompt_override: self.prompt_override.clone() }
    }
}

impl Clone for RuleBasedVoterConfig {
    fn clone(&self) -> (r: Self)
        ensures
            r == *self,
    {
        RuleBasedVoterConfig { rule_count: self.rule_count }
    }
}

impl Clone for AnyMessage {
    fn clone(&self) -> (r: Self)
        ensures
            r == *self,
    {
        AnyMessage {
            type_url: self.type_url.clone(),
            llm_voter_config: match &self.llm_voter_config {
                Some(c) => Some(c.clone()),
                None => None,
            },
        }
    }
}

impl Clone for VoterConfigKind {
    fn clone(&self) -> (r: Self)
        ensures
            r == *self,
    {
        match self {
            VoterConfigKind::Llm(c) => VoterConfigKind::Llm(c.clone()),
            VoterConfigKind::RuleBased(c) => VoterConfigKind::RuleBased(c.clone()),
            VoterConfigKind::Custom(a) => VoterConfigKind::Custom(a.clone()),
        }
    }
}

impl Clone for VoterConfig {
    fn clone(&self) -> (r: Self)
        ensures
            r == *self,
    {
        VoterConfig {
            config: match &self.config {
                Some(c) => Some(c.clone()),
                None => None,
            },
        }
    }
}

fn clone_opt_voter_config(c: &Option<VoterConfig>) -> (r: Option<VoterConfig>)
    ensures
        r == *c,
{
    match c {
        Some(v) => Some(v.clone()),
        None => None,
    }
}

impl Clone for Vote {
    fn clone(&self) -> (r: Self)
        ensures
            r == *self,
    {
        Vote {
            intention_id: self.intention_id,
            abstract_vote: self.abstract_vote,
            reason: self.reason.clone(),
            voter_id: self.voter_id.clone(),
            voter_config: clone_opt_voter_config(&self.voter_config),
        }
    }
}

impl Clone for VoterPolicy {
    fn clone(&self) -> (r: Self)
        ensures
            r == *self,
    {
        VoterPolicy {
            config: match &self.config {
                Some(a) => Some(a.clone()),
                None => None,
            },
        }
    }
}

impl Clone for Commit {
    fn clone(&self) -> (r: Self)
        ensures
            r == *self,
    {
        Commit { intention_id: self.intention_id, reason: self.reason.clone() }
    }
}

impl Clone for Abort {
    fn clone(&self) -> (r: Self)
        ensures
            r == *self,
    {
        Abort { intention_id: self.intention_id, reason: self.reason.clone() }
    }
}

impl Clone for AddVoter {
    fn clone(&self) -> (r: Self)
        ensures
            r == *self,
    {
        AddVoter { config: clone_opt_voter_config(&self.config) }
    }
}

impl Clone for RemoveVoter {
    fn clone(&self) -> (r: Self)
        ensures
            r == *self,
    {
        RemoveVoter { voter_id: self.voter_id.clone() }
    }
}

impl Clone for VoterOp {
    fn clone(&self) -> (r: Self)
        ensures
            r == *self,
    {
        VoterOp {
            op: match &self.op {
                Some(VoterOpKind::Add(a)) => Some(VoterOpKind::Add(a.clone())),
                Some(VoterOpKind::Remove) => Some(VoterOpKind::Remove),
                None => None,
            },
        }
    }
}

impl Clone for VoterOps {
    fn clone(&self) -> (r: Self)
        ensures
            r == *self,
        decreases self,
    {
        match self {
            VoterOps::End => VoterOps::End,
            VoterOps::Entry { voter_id, op, rest } => VoterOps::Entry {
                voter_id: voter_id.clone(),
                op: op.clone(),
                rest: Box::new((&**rest).clone()),
            },
        }
    }
}

impl Clone for PolicyBatch {
    fn clone(&self) -> (r: Self)
        ensures
            r == *self,
    {
        PolicyBatch {
            expected_current_version: self.expected_current_version,
            new_version: self.new_version,
            decider_policy: self.decider_policy,
            voter_ops: self.voter_ops.clone(),
        }
    }
}

/// `a` comes before `b` in the lexicographic order of characters, which is
/// the byte order of their UTF-8 encodings.
pub open spec fn text_before(a: Seq<char>, b: Seq<char>) -> bool {
    exists|i: int|
        0 <= i <= a.len() && i <= b.len() && #[trigger] a.take(i) == b.take(i) && ((i == a.len() && i < b.len())
            || (i < a.len() && i < b.len() && (a[i] as u32) < (b[i] as u32)))
}

/// No text comes before itself, and of two texts at most one comes before
/// the other.
pub proof fn lemma_text_before_strict(a: Seq<char>, b: Seq<char>)
    requires
        text_before(a, b),
    ensures
        !text_before(b, a),
        a != b,
{
    let i = choose|i: int|
        0 <= i <= a.len() && i <= b.len() && #[trigger] a.take(i) == b.take(i) && ((i == a.len() && i < b.len())
            || (i < a.len() && i < b.len() && (a[i] as u32) < (b[i] as u32)));
    if text_before(b, a) {
        let j = choose|j: int|
            0 <= j <= b.len() && j <= a.len() && #[trigger] b.take(j) == a.take(j) && ((j == b.len() && j < a.len())
                || (j < b.len() && j < a.len() && (b[j] as u32) < (a[j] as u32)));
        if i < j {
            assert(a[i] == a.take(j)[i]);
            assert(b[i] == b.take(j)[i]);
        } else if j < i {
            assert(a[j] == a.take(i)[j]);
            assert(b[j] == b.take(i)[j]);
        }
    }
}

/// Where one text stands against another.
#[derive(Clone, Copy, Debug, PartialEq, Eq, Structural)]
pub enum TextOrder {
    Before,
    Same,
    After,
}

/// Compare two texts in the lexicographic order of their characters.
pub fn compare_text(a: &str, b: &str) -> (r: TextOrder)
    ensures
        r == TextOrder::Before ==> text_before(a@, b@),
        r == TextOrder::Same ==> a@ == b@,
        r == TextOrder::After ==> text_before(b@, a@),
{
    let n = a.unicode_len();
    let m = b.unicode_len();
    let mut i: usize = 0;
    while i < n && i < m
        invariant
            n == a@.len(),
            m == b@.len(),
            i <= n,
            i <= m,
            a@.take(i as int) == b@.take(i as int),
        decreases n - i,
    {
        let x = a.get_char(i);
        let y = b.get_char(i);
        if (x as u32) < (y as u32) {
            assert(a@.take(i as int) == b@.take(i as int));
            return TextOrder::Before;
        }
        if (y as u32) < (x as u32) {
            assert(b@.take(i as int) == a@.take(i as int));
            return TextOrder::After;
        }
        assert((x as u32) == (y as u32));
        assert(x == y);
        assert(a@.take(i + 1) =~= a@.take(i as int).push(x));
        assert(b@.take(i + 1) =~= b@.take(i as int).push(y));
        i += 1;
    }
    if n < m {
        assert(a@.take(n as int) == b@.take(n as int));
        TextOrder::Before
    } else if m < n {
        assert(b@.take(m as int) == a@.take(m as int));
        TextOrder::After
    } else {
        assert(a@ =~= a@.take(n as int));
        assert(b@ =~= b@.take(m as int));
        TextOrder::Same
    }
}

impl VoterOps {
    /// The voter ids of the list, in list order.
    pub open spec fn ids(self) -> Seq<Seq<char>>
        decreases self,
    {
        match self {
            VoterOps::End => Seq::empty(),
            VoterOps::Entry { voter_id, rest, .. } => seq![voter_id@] + rest.ids(),
        }
    }

    /// The operation for each voter id.
    pub open spec fn ops(self) -> Map<Seq<char>, VoterOp>
        decreases self,
    {
        match self {
            VoterOps::End => Map::empty(),
            VoterOps::Entry { voter_id, op, rest } => rest.ops().insert(voter_id@, op),
        }
    }

    /// Each id comes before the next along the list.
    pub open spec fn increasing(self) -> bool
        decreases self,
    {
        match self {
            VoterOps::End => true,
            VoterOps::Entry { voter_id, rest, .. } => rest.increasing() && match *rest {
                VoterOps::End => true,
                VoterOps::Entry { voter_id: next, .. } => text_before(voter_id@, next@),
            },
        }
    }

    /// Whether each id comes before the next along the list.
    pub fn is_increasing(&self) -> (b: bool)
        ensures
            b == self.increasing(),
        decreases self,
    {
        match self {
            VoterOps::End => true,
            VoterOps::Entry { voter_id, rest, .. } => {
                if !rest.is_increasing() {
                    return false;
                }
                match &**rest {
                    VoterOps::End => true,
                    VoterOps::Entry { voter_id: next, .. } => {
                        let order = compare_text(voter_id.as_str(), next.as_str());
                        proof {
                            if order == TextOrder::After {
                                lemma_text_before_strict(next@, voter_id@);
                            }
                            if order == TextOrder::Same && text_before(voter_id@, next@) {
                                lemma_text_before_strict(voter_id@, next@);
                            }
                        }
                        order == TextOrder::Before
                    },
                }
            },
        }
    }

    /// The empty list.
    pub fn new() -> (r: VoterOps)
        ensures
            r.ops() == Map::<Seq<char>, VoterOp>::empty(),
            r.increasing(),
    {
        VoterOps::End
    }

    /// Set the operation of `voter_id`, replacing any earlier one and keeping
    /// the ids increasing.
    pub fn insert(self, voter_id: String, op: VoterOp) -> (r: VoterOps)
        requires
            self.increasing(),
        ensures
            r.ops() == self.ops().insert(voter_id@, op),
            r.increasing(),
            match r {
                VoterOps::End => false,
                VoterOps::Entry { voter_id: first, .. } => first@ == voter_id@ || (match self {
                    VoterOps::End => false,
                    VoterOps::Entry { voter_id: old_first, .. } => first@ == old_first@,
                }),
            },
        decreases self,
    {
        match self {
            VoterOps::End => VoterOps::Entry { voter_id, op, rest: Box::new(VoterOps::End) },
            VoterOps::Entry { voter_id: k, op: o, rest } => {
                match compare_text(voter_id.as_str(), k.as_str()) {
                    TextOrder::Same => {
                        proof {
                            assert(rest.ops().insert(k@, o).insert(voter_id@, op) =~= rest.ops().insert(
                                voter_id@,
                                op,
                            ).insert(voter_id@, op));
                        }
                        let r = VoterOps::Entry { voter_id, op, rest };
                        proof {
                            assert(r.ops() =~= rest.ops().insert(k@, o).insert(voter_id@, op));
                        }
                        r
                    },
                    TextOrder::Before => {
                        let old_list = VoterOps::Entry { voter_id: k, op: o, rest };
                        VoterOps::Entry { voter_id, op, rest: Box::new(old_list) }
                    },
                    TextOrder::After => {
                        let ghost k_view = k@;
                        let ghost rest_ops = rest.ops();
                        let new_rest = (*rest).insert(voter_id, op);
                        proof {
                            assert(new_rest.ops().insert(k_view, o) =~= rest_ops.insert(k_view, o).insert(
                                voter_id@,
                                op,
                            ));
                        }
                        VoterOps::Entry { voter_id: k, op: o, rest: Box::new(new_rest) }
                    },
                }
            },
        }
    }
}

impl Clone for BaseEngineOp {
    fn clone(&self) -> (r: Self)
        ensures
            r == *self,
    {
        match self {
            BaseEngineOp::AddVoter(a) => BaseEngineOp::AddVoter(a.clone()),
            BaseEngineOp::RemoveVoter(a) => BaseEngineOp::RemoveVoter(a.clone()),
            BaseEngineOp::PolicyBatch(b) => BaseEngineOp::PolicyBatch(b.clone()),
        }
    }
}

impl Clone for Control {
    fn clone(&self) -> (r: Self)
        ensures
            r == *self,
    {
        Control {
            base_engine_control: match &self.base_engine_control {
                Some(b) => Some(
                    BaseEngineControl {
                        control: match &b.control {
                            Some(op) => Some(op.clone()),
                            None => None,
                        },
                    },
                ),
                None => None,
            },
        }
    }
}

impl Clone for MailMessage {
    fn clone(&self) -> (r: Self)
        ensures
            r == *self,
    {
        MailMessage { body: self.body.clone(), message_id: self.message_id.clone() }
    }
}

impl Clone for Mail {
    fn clone(&self) -> (r: Self)
        ensures
            r == *self,
    {
        Mail {
            sender_agent_id: self.sender_agent_id.clone(),
            content: match &self.content {
                Some(MailContent::Message(m)) => Some(MailContent::Message(m.clone())),
                Some(MailContent::Reply(rp)) => Some(
                    MailContent::Reply(
                        MailReply {
                            message: match &rp.message {
                                Some(m) => Some(m.clone()),
                                None => None,
                            },
                            in_reply_to: rp.in_reply_to.clone(),
                        },
                    ),
                ),
                None => None,
            },
        }
    }
}

impl Clone for PayloadBody {
    fn clone(&self) -> (r: Self)
        ensures
            r == *self,
    {
        match self {
            PayloadBody::Intention(x) => PayloadBody::Intention(x.clone()),
            PayloadBody::Vote(x) => PayloadBody::Vote(x.clone()),
            PayloadBody::DeciderPolicy(p) => PayloadBody::DeciderPolicy(*p),
            PayloadBody::VoterPolicy(x) => PayloadBody::VoterPolicy(x.clone()),
            PayloadBody::Commit(x) => PayloadBody::Commit(x.clone()),
            PayloadBody::Abort(x) => PayloadBody::Abort(x.clone()),
            PayloadBody::Control(x) => PayloadBody::Control(x.clone()),
            PayloadBody::InferenceInput(x) => PayloadBody::InferenceInput(
                InferenceInput { inference_input: clone_opt_string(&x.inference_input) },
            ),
            PayloadBody::InferenceOutput(x) => PayloadBody::InferenceOutput(
                InferenceOutput { inference_output: clone_opt_string(&x.inference_output) },
            ),
            PayloadBody::ActionOutput(x) => PayloadBody::ActionOutput(
                ActionOutput {
                    intention_id: x.intention_id,
                    action_output: clone_opt_string(&x.action_output),
                },
            ),
            PayloadBody::AgentInput(x) => PayloadBody::AgentInput(
                AgentInput { agent_input: clone_opt_string(&x.agent_input) },
            ),
            PayloadBody::AgentOutput(x) => PayloadBody::AgentOutput(
                AgentOutput { agent_output: clone_opt_string(&x.agent_output) },
            ),
            PayloadBody::Mail(x) => PayloadBody::Mail(x.clone()),
        }
    }
}

impl Clone for Payload {
    fn clone(&self) -> (r: Self)
        ensures
            r == *self,
    {
        Payload {
            payload: match &self.payload {
                Some(b) => Some(b.clone()),
                None => None,
            },
        }
    }
}

impl Clone for BusEntry {
    fn clone(&self) -> (r: Self)
        ensures
            r == *self,
    {
        BusEntry {
            header: self.header,
            payload: match &self.payload {
                Some(p) => Some(p.clone()),
                None => None,
            },
        }
    }
}

/// Payload types in the bus log, as used to select entries in polls.
#[derive(Clone, Copy, Debug, PartialEq, Eq, Structural)]
pub enum PayloadType {
    Intention,
    Vote,
    DeciderPolicy,
    Commit,
    Abort,
    VoterPolicy,
    Control,
    InferenceInput,
    InferenceOutput,
    ActionOutput,
    AgentInput,
    AgentOutput,
    Mail,
}

/// The field name of each payload type.
pub open spec fn payload_type_text(t: PayloadType) -> Seq<char> {
    match t {
        PayloadType::Intention => "intention"@,
        PayloadType::Vote => "vote"@,
        PayloadType::DeciderPolicy => "decider_policy"@,
        PayloadType::Commit => "commit"@,
        PayloadType::Abort => "abort"@,
        PayloadType::VoterPolicy => "voter_policy"@,
        PayloadType::Control => "control"@,
        PayloadType::InferenceInput => "inference_input"@,
        PayloadType::InferenceOutput => "inference_output"@,
        PayloadType::ActionOutput => "action_output"@,
        PayloadType::AgentInput => "agent_input"@,
        PayloadType::AgentOutput => "agent_output"@,
        PayloadType::Mail => "mail"@,
    }
}

/// The payload type whose field name is `s`, if any.
pub open spec fn payload_type_named(s: Seq<char>) -> Option<PayloadType> {
    if s == "intention"@ {
        Some(PayloadType::Intention)
    } else if s == "vote"@ {
        Some(PayloadType::Vote)
    } else if s == "decider_policy"@ {
        Some(PayloadType::DeciderPolicy)
    } else if s == "commit"@ {
        Some(PayloadType::Commit)
    } else if s == "abort"@ {
        Some(PayloadType::Abort)
    } else if s == "voter_policy"@ {
        Some(PayloadType::VoterPolicy)
    } else if s == "control"@ {
        Some(PayloadType::Control)
    } else if s == "inference_input"@ {
        Some(PayloadType::InferenceInput)
    } else if s == "inference_output"@ {
        Some(PayloadType::InferenceOutput)
    } else if s == "action_output"@ {
        Some(PayloadType::ActionOutput)
    } else if s == "agent_input"@ {
        Some(PayloadType::AgentInput)
    } else if s == "agent_output"@ {
        Some(PayloadType::AgentOutput)
    } else if s == "mail"@ {
        Some(PayloadType::Mail)
    } else {
        None
    }
}

fn str_eq(a: &str, b: &str) -> (r: bool)
    ensures
        r == (a@ == b@),
{
    let n = a.unicode_len();
    if n != b.unicode_len() {
        return false;
    }
    let mut i: usize = 0;
    while i < n
        invariant
            n == a@.len(),
            a@.len() == b@.len(),
            i <= n,
            forall|k: int| 0 <= k < i ==> a@[k] == b@[k],
        decreases n - i,
    {
        if a.get_char(i) != b.get_char(i) {
            return false;
        }
        i += 1;
    }
    assert(a@ =~= b@);
    true
}

impl PayloadType {
    /// The field name of this payload type.
    pub fn as_str(&self) -> (s: &'static str)
        ensures
            s@ == payload_type_text(*self),
    {
        match self {
            PayloadType::Intention => "intention",
            PayloadType::Vote => "vote",
            PayloadType::DeciderPolicy => "decider_policy",
            PayloadType::Commit => "commit",
            PayloadType::Abort => "abort",
            PayloadType::VoterPolicy => "voter_policy",
            PayloadType::Control => "control",
            PayloadType::InferenceInput => "inference_input",
            PayloadType::InferenceOutput => "inference_output",
            PayloadType::ActionOutput => "action_output",
            PayloadType::AgentInput => "agent_input",
            PayloadType::AgentOutput => "agent_output",
            PayloadType::Mail => "mail",
        }
    }

    /// The payload type whose field name is `s`; `None` for any other text.
    pub fn from_str(s: &str) -> (r: Option<PayloadType>)
        ensures
            r == payload_type_named(s@),
    {
        if str_eq(s, "intention") {
            Some(PayloadType::Intention)
        } else if str_eq(s, "vote") {
            Some(PayloadType::Vote)
        } else if str_eq(s, "decider_policy") {
            Some(PayloadType::DeciderPolicy)
        } else if str_eq(s, "commit") {
            Some(PayloadType::Commit)
        } else if str_eq(s, "abort") {
            Some(PayloadType::Abort)
        } else if str_eq(s, "voter_policy") {
            Some(PayloadType::VoterPolicy)
        } else if str_eq(s, "control") {
            Some(PayloadType::Control)
        } else if str_eq(s, "inference_input") {
            Some(PayloadType::InferenceInput)
        } else if str_eq(s, "inference_output") {
            Some(PayloadType::InferenceOutput)
        } else if str_eq(s, "action_output") {
            Some(PayloadType::ActionOutput)
        } else if str_eq(s, "agent_input") {
            Some(PayloadType::AgentInput)
        } else if str_eq(s, "agent_output") {
            Some(PayloadType::AgentOutput)
        } else if str_eq(s, "mail") {
            Some(PayloadType::Mail)
        } else {
            None
        }
    }

    /// Whether this payload type carries a string content body that the CLI
    /// truncates in non-full-payload mode.
    pub fn has_string_payload(&self) -> (b: bool)
        ensures
            b == match *self {
                PayloadType::Intention | PayloadType::InferenceInput | PayloadType::InferenceOutput
                | PayloadType::ActionOutput | PayloadType::AgentInput | PayloadType::AgentOutput
                | PayloadType::Control => true,
                _ => false,
            },
    {
        match self {
            PayloadType::Intention | PayloadType::InferenceInput | PayloadType::InferenceOutput
            | PayloadType::ActionOutput | PayloadType::AgentInput | PayloadType::AgentOutput
            | PayloadType::Control => true,
            _ => false,
        }
    }
}

/// Reading the field name of a payload type gives the type back.
pub proof fn lemma_payload_type_round_trip(t: PayloadType)
    ensures
        payload_type_named(payload_type_text(t)) == Some(t),
{
    reveal_strlit("intention");
    reveal_strlit("vote");
    reveal_strlit("decider_policy");
    reveal_strlit("commit");
    reveal_strlit("abort");
    reveal_strlit("voter_policy");
    reveal_strlit("control");
    reveal_strlit("inference_input");
    reveal_strlit("inference_output");
    reveal_strlit("action_output");
    reveal_strlit("agent_input");
    reveal_strlit("agent_output");
    reveal_strlit("mail");
    let s = payload_type_text(t);
    if t != PayloadType::Intention {
        assert(s != "intention"@) by {
            if s.len() == 9 {
                assert(s[0] != 'i' || s[2] != 't' || s[8] != 'n');
            }
        }
    }
    if t != PayloadType::Vote && t != PayloadType::Intention {
        assert(s != "vote"@) by {
            if s.len() == 4 {
                assert(s[0] != 'v');
            }
        }
    }
    if t != PayloadType::DeciderPolicy && t != PayloadType::Vote && t != PayloadType::Intention {
        assert(s != "decider_policy"@) by {
            if s.len() == 14 {
                assert(s[0] != 'd');
            }
        }
    }
    if t != PayloadType::Commit && t != PayloadType::DeciderPolicy && t != PayloadType::Vote && t
        != PayloadType::Intention {
        assert(s != "commit"@) by {
            if s.len() == 6 {
                assert(s[0] != 'c' || s[1] != 'o' || s[2] != 'm');
            }
        }
    }
    if t == PayloadType::Abort || t == PayloadType::VoterPolicy || t == PayloadType::Control || t
        == PayloadType::InferenceInput || t == PayloadType::InferenceOutput || t == PayloadType::ActionOutput
        || t == PayloadType::AgentInput || t == PayloadType::AgentOutput || t == PayloadType::Mail {
        if t != PayloadType::Abort {
            assert(s != "abort"@) by {
                if s.len() == 5 {
                    assert(s[0] != 'a' || s[1] != 'b');
                }
            }
        }
        if t != PayloadType::Abort && t != PayloadType::VoterPolicy {
            assert(s != "voter_policy"@) by {
                if s.len() == 12 {
                    assert(s[0] != 'v');
                }
            }
        }
        if t != PayloadType::Abort && t != PayloadType::VoterPolicy && t != PayloadType::Control {
            assert(s != "control"@) by {
                if s.len() == 7 {
                    assert(s[0] != 'c');
                }
            }
        }
        if t == PayloadType::InferenceOutput || t == PayloadType::ActionOutput || t == PayloadType::AgentInput
            || t == PayloadType::AgentOutput || t == PayloadType::Mail {
            assert(s != "inference_input"@) by {
                if s.len() == 15 {
                    assert(s[0] != 'i');
                }
            }
        }
        if t == PayloadType::ActionOutput || t == PayloadType::AgentInput || t == PayloadType::AgentOutput
            || t == PayloadType::Mail {
            assert(s != "inference_output"@) by {
                if s.len() == 16 {
                    assert(s[0] != 'i');
                }
            }
        }
        if t == PayloadType::AgentInput || t == PayloadType::AgentOutput || t == PayloadType::Mail {
            assert(s != "action_output"@) by {
                if s.len() == 13 {
                    assert(s[1] != 'c');
                }
            }
        }
        if t == PayloadType::AgentOutput || t == PayloadType::Mail {
            assert(s != "agent_input"@) by {
                if s.len() == 11 {
                    assert(s[0] != 'a');
                }
            }
        }
        if t == PayloadType::Mail {
            assert(s != "agent_output"@);
        }
    }
}

/// The payload type of a payload body.
pub open spec fn body_type(b: PayloadBody) -> PayloadType {
    match b {
        PayloadBody::Intention(_) => PayloadType::Intention,
        PayloadBody::Vote(_) => PayloadType::Vote,
        PayloadBody::DeciderPolicy(_) => PayloadType::DeciderPolicy,
        PayloadBody::VoterPolicy(_) => PayloadType::VoterPolicy,
        PayloadBody::Commit(_) => PayloadType::Commit,
        PayloadBody::Abort(_) => PayloadType::Abort,
        PayloadBody::Control(_) => PayloadType::Control,
        PayloadBody::InferenceInput(_) => PayloadType::InferenceInput,
        PayloadBody::InferenceOutput(_) => PayloadType::InferenceOutput,
        PayloadBody::ActionOutput(_) => PayloadType::ActionOutput,
        PayloadBody::AgentInput(_) => PayloadType::AgentInput,
        PayloadBody::AgentOutput(_) => PayloadType::AgentOutput,
        PayloadBody::Mail(_) => PayloadType::Mail,
    }
}

/// The payload type of a payload, or `None` when it has no body.
pub open spec fn payload_type_of(p: Payload) -> Option<PayloadType> {
    match p.payload {
        Some(b) => Some(body_type(b)),
        None => None,
    }
}

/// The payload type of a payload, or `None` when the payload is empty.
pub fn get_payload_type(payload: &Payload) -> (r: Option<PayloadType>)
    ensures
        r == payload_type_of(*payload),
{
    match &payload.payload {
        Some(PayloadBody::Intention(_)) => Some(PayloadType::Intention),
        Some(PayloadBody::Vote(_)) => Some(PayloadType::Vote),
        Some(PayloadBody::DeciderPolicy(_)) => Some(PayloadType::DeciderPolicy),
        Some(PayloadBody::VoterPolicy(_)) => Some(PayloadType::VoterPolicy),
        Some(PayloadBody::Commit(_)) => Some(PayloadType::Commit),
        Some(PayloadBody::Abort(_)) => Some(PayloadType::Abort),
        Some(PayloadBody::Control(_)) => Some(PayloadType::Control),
        Some(PayloadBody::InferenceInput(_)) => Some(PayloadType::InferenceInput),
        Some(PayloadBody::InferenceOutput(_)) => Some(PayloadType::InferenceOutput),
        Some(PayloadBody::ActionOutput(_)) => Some(PayloadType::ActionOutput),
        Some(PayloadBody::AgentInput(_)) => Some(PayloadType::AgentInput),
        Some(PayloadBody::AgentOutput(_)) => Some(PayloadType::AgentOutput),
        Some(PayloadBody::Mail(_)) => Some(PayloadType::Mail),
        None => None,
    }
}

/// A payload passes a filter: always without a filter; with one, when it has
/// a type and the filter lists it.
pub open spec fn matches_filter(p: Payload, filter: Option<Seq<PayloadType>>) -> bool {
    match filter {
        None => true,
        Some(types) => match payload_type_of(p) {
            Some(t) => types.contains(t),
            None => false,
        },
    }
}

/// The view of an optional filter.
pub open spec fn filter_view(filter: Option<Vec<PayloadType>>) -> Option<Seq<PayloadType>> {
    match filter {
        None => None,
        Some(v) => Some(v@),
    }
}

/// Each payload body has the payload type of the same name, and a filter
/// selects a payload exactly when it lists that type: a filter listing
/// `Commit` selects every commit, and one without it selects none. A
/// payload without a body has no type and passes no filter.
pub proof fn lemma_payload_types_by_body(b: PayloadBody, types: Seq<PayloadType>)
    ensures
        b is Intention ==> payload_type_of(Payload { payload: Some(b) }) == Some(PayloadType::Intention) && (matches_filter(
            Payload { payload: Some(b) },
            Some(types),
        ) <==> types.contains(PayloadType::Intention)),
        b is Vote ==> payload_type_of(Payload { payload: Some(b) }) == Some(PayloadType::Vote) && (matches_filter(
            Payload { payload: Some(b) },
            Some(types),
        ) <==> types.contains(PayloadType::Vote)),
        b is DeciderPolicy ==> payload_type_of(Payload { payload: Some(b) }) == Some(PayloadType::DeciderPolicy) && (matches_filter(
            Payload { payload: Some(b) },
            Some(types),
        ) <==> types.contains(PayloadType::DeciderPolicy)),
        b is VoterPolicy ==> payload_type_of(Payload { payload: Some(b) }) == Some(PayloadType::VoterPolicy) && (matches_filter(
            Payload { payload: Some(b) },
            Some(types),
        ) <==> types.contains(PayloadType::VoterPolicy)),
        b is Commit ==> payload_type_of(Payload { payload: Some(b) }) == Some(PayloadType::Commit) && (matches_filter(
            Payload { payload: Some(b) },
            Some(types),
        ) <==> types.contains(PayloadType::Commit)),
        b is Abort ==> payload_type_of(Payload { payload: Some(b) }) == Some(PayloadType::Abort) && (matches_filter(
            Payload { payload: Some(b) },
            Some(types),
        ) <==> types.contains(PayloadType::Abort)),
        b is Control ==> payload_type_of(Payload { payload: Some(b) }) == Some(PayloadType::Control) && (matches_filter(
            Payload { payload: Some(b) },
            Some(types),
        ) <==> types.contains(PayloadType::Control)),
        b is InferenceInput ==> payload_type_of(Payload { payload: Some(b) }) == Some(PayloadType::InferenceInput) && (matches_filter(
            Payload { payload: Some(b) },
            Some(types),
        ) <==> types.contains(PayloadType::InferenceInput)),
        b is InferenceOutput ==> payload_type_of(Payload { payload: Some(b) }) == Some(PayloadType::InferenceOutput) && (matches_filter(
            Payload { payload: Some(b) },
            Some(types),
        ) <==> types.contains(PayloadType::InferenceOutput)),
        b is ActionOutput ==> payload_type_of(Payload { payload: Some(b) }) == Some(PayloadType::ActionOutput) && (matches_filter(
            Payload { payload: Some(b) },
            Some(types),
        ) <==> types.contains(PayloadType::ActionOutput)),
        b is AgentInput ==> payload_type_of(Payload { payload: Some(b) }) == Some(PayloadType::AgentInput) && (matches_filter(
            Payload { payload: Some(b) },
            Some(types),
        ) <==> types.contains(PayloadType::AgentInput)),
        b is AgentOutput ==> payload_type_of(Payload { payload: Some(b) }) == Some(PayloadType::AgentOutput) && (matches_filter(
            Payload { payload: Some(b) },
            Some(types),
        ) <==> types.contains(PayloadType::AgentOutput)),
        b is Mail ==> payload_type_of(Payload { payload: Some(b) }) == Some(PayloadType::Mail) && (matches_filter(
            Payload { payload: Some(b) },
            Some(types),
        ) <==> types.contains(PayloadType::Mail)),
        payload_type_of(Payload { payload: None }) == None::<PayloadType>,
        !matches_filter(Payload { payload: None }, Some(types)),
{
}

/// Whether a payload matches the given filter: `true` without a filter;
/// otherwise whether the payload's type is listed (`false` for a payload
/// without a type).
pub fn payload_matches_filter(payload: &Payload, filter: &Option<Vec<PayloadType>>) -> (b: bool)
    ensures
        b == matches_filter(*payload, filter_view(*filter)),
{
    match filter {
        None => true,
        Some(types) => match get_payload_type(payload) {
            Some(t) => {
                let mut i: usize = 0;
                while i < types.len()
                    invariant
                        i <= types@.len(),
                        forall|k: int| 0 <= k < i ==> types@[k] != t,
                        filter_view(*filter) == Some(types@),
                        payload_type_of(*payload) == Some(t),
                    decreases types@.len() - i,
                {
                    if types[i] == t {
                        assert(types@[i as int] == t);
                        assert(types@.contains(t));
                        assert(filter_view(*filter) == Some(types@));
                        return true;
                    }
                    i += 1;
                }
                assert(filter_view(*filter) == Some(types@));
                false
            },
            None => false,
        },
    }
}

/// The bus id a request names: the typed id when present, else the legacy
/// string id.
pub open spec fn resolved_bus_id(agent_bus_id: Seq<char>, bus_id: Option<BusId>) -> Seq<char> {
    match bus_id {
        Some(b) => b.agent_bus_id@,
        None => agent_bus_id,
    }
}

/// Returns the typed bus ID when present, otherwise the legacy string ID.
pub fn resolve_bus_id<'a>(agent_bus_id: &'a str, bus_id: Option<&'a BusId>) -> (r: &'a str)
    ensures
        r@ == match bus_id {
            Some(b) => b.agent_bus_id@,
            None => agent_bus_id@,
        },
{
    match bus_id {
        Some(b) => b.agent_bus_id.as_str(),
        None => agent_bus_id,
    }
}

/// The policies by which the decider settles an intention.
#[derive(Clone, Copy, Debug, PartialEq, Eq, Structural)]
pub enum DeciderPolicy {
    OffByDefault,
    OnByDefault,
    FirstBooleanWins,
}

/// The wire number of each decider policy.
pub open spec fn decider_policy_number(p: DeciderPolicy) -> i32 {
    match p {
        DeciderPolicy::OffByDefault => 0,
        DeciderPolicy::OnByDefault => 1,
        DeciderPolicy::FirstBooleanWins => 2,
    }
}

/// The name of the decider policy with wire number `n`, or `Unknown`.
pub open spec fn decider_policy_name_text(n: i32) -> Seq<char> {
    if n == 0 {
        "OFF_BY_DEFAULT"@
    } else if n == 1 {
        "ON_BY_DEFAULT"@
    } else if n == 2 {
        "FIRST_BOOLEAN_WINS"@
    } else {
        "Unknown"@
    }
}

impl DeciderPolicy {
    /// The wire number of this policy.
    pub fn number(&self) -> (n: i32)
        ensures
            n == decider_policy_number(*self),
    {
        match self {
            DeciderPolicy::OffByDefault => 0,
            DeciderPolicy::OnByDefault => 1,
            DeciderPolicy::FirstBooleanWins => 2,
        }
    }
}

/// The name of the decider policy with wire number `policy`, or `Unknown`
/// for a number that names none.
pub fn decider_policy_name(policy: i32) -> (s: &'static str)
    ensures
        s@ == decider_policy_name_text(policy),
{
    if policy == 0 {
        "OFF_BY_DEFAULT"
    } else if policy == 1 {
        "ON_BY_DEFAULT"
    } else if policy == 2 {
        "FIRST_BOOLEAN_WINS"
    } else {
        "Unknown"
    }
}

/// Error returned by bus operations; each carries its message.
#[derive(Debug)]
pub enum AgentBusError {
    /// The request contained an invalid argument.
    InvalidArgument(String),
    /// The operation did not complete before its deadline.
    Timeout(String),
    /// The bus backend or remote service was unavailable.
    Unavailable(String),
    /// The operation failed for another internal reason.
    Internal(String),
}

impl AgentBusError {
    /// The message of this error.
    pub fn message(&self) -> (m: &String)
        ensures
            *m == match *self {
                AgentBusError::InvalidArgument(s) => s,
                AgentBusError::Timeout(s) => s,
                AgentBusError::Unavailable(s) => s,
                AgentBusError::Internal(s) => s,
            },
    {
        match self {
            AgentBusError::InvalidArgument(s) => s,
            AgentBusError::Timeout(s) => s,
            AgentBusError::Unavailable(s) => s,
            AgentBusError::Internal(s) => s,
        }
    }
}

/// A bus id is valid when it is not empty.
pub open spec fn valid_bus_id(id: Seq<char>) -> bool {
    id.len() > 0
}

/// Check a bus id, refusing an empty one.
pub fn validate_bus_id(id: &str) -> (r: Result<(), String>)
    ensures
        r is Ok <==> valid_bus_id(id@),
        r matches Err(m) ==> m@ == "agent_bus_id must not be empty"@,
{
    if id.unicode_len() == 0 {
        let mut m = String::new();
        append_str(&mut m, "agent_bus_id must not be empty");
        Err(m)
    } else {
        Ok(())
    }
}

/// Clone a sequence of entries.
pub fn clone_entries(entries: &Vec<BusEntry>) -> (r: Vec<BusEntry>)
    ensures
        r@ == entries@,
{
    let mut out: Vec<BusEntry> = Vec::new();
    let mut i: usize = 0;
    while i < entries.len()
        invariant
            i <= entries@.len(),
            out@ == entries@.subrange(0, i as int),
        decreases entries@.len() - i,
    {
        out.push(entries[i].clone());
        i += 1;
        assert(out@ =~= entries@.subrange(0, i as int));
    }
    assert(out@ =~= entries@);
    out
}

/// A filter of payload types for selective reads.
#[derive(Debug)]
pub struct PayloadTypeFilter {
    pub payload_types: Vec<PayloadType>,
}

/// Append a payload to a bus.
#[derive(Debug)]
pub struct AppendRequest {
    pub agent_bus_id: String,
    pub bus_id: Option<BusId>,
    pub payload: Option<Payload>,
}

#[derive(Clone, Copy, Debug)]
pub struct AppendResponse {
    pub log_position: i64,
}

/// Read up to `max_entries` matching entries from `start_log_position`.
#[derive(Debug)]
pub struct PollRequest {
    pub agent_bus_id: String,
    pub bus_id: Option<BusId>,
    pub start_log_position: i64,
    pub max_entries: i32,
    pub filter: Option<PayloadTypeFilter>,
}

#[derive(Debug)]
pub struct PollResponse {
    pub entries: Vec<BusEntry>,
    pub complete: bool,
}

/// Read matching entries of `[start_log_position, end_log_position)`.
#[derive(Debug)]
pub struct ReadNextRequest {
    pub agent_bus_id: String,
    pub bus_id: Option<BusId>,
    pub start_log_position: i64,
    pub end_log_position: i64,
    pub max_entries: i32,
    pub filter: Option<PayloadTypeFilter>,
}

#[derive(Debug)]
pub struct ReadNextResponse {
    pub entries: Vec<BusEntry>,
    pub next_start_position: i64,
}

#[derive(Debug)]
pub struct CheckTailRequest {
    pub agent_bus_id: String,
    pub bus_id: Option<BusId>,
}

#[derive(Clone, Copy, Debug)]
pub struct CheckTailResponse {
    pub tail_position: i64,
}

/// Wait up to `timeout_ms` for entries from `start_log_position`.
#[derive(Debug)]
pub struct BlockingPollRequest {
    pub agent_bus_id: String,
    pub bus_id: Option<BusId>,
    pub start_log_position: i64,
    pub max_entries: i32,
    pub filter: Option<PayloadTypeFilter>,
    pub timeout_ms: i32,
}

#[derive(Debug)]
pub struct BlockingPollResponse {
    pub entries: Vec<BusEntry>,
    pub next_start_position: i64,
}

/// The payload types of an optional filter.
pub open spec fn request_filter(filter: Option<PayloadTypeFilter>) -> Option<Seq<PayloadType>> {
    match filter {
        None => None,
        Some(f) => Some(f.payload_types@),
    }
}

/// Copy the payload types out of an optional filter.
pub fn filter_types(filter: &Option<PayloadTypeFilter>) -> (r: Option<Vec<PayloadType>>)
    ensures
        filter_view(r) == request_filter(*filter),
{
    match filter {
        None => None,
        Some(f) => {
            let mut out: Vec<PayloadType> = Vec::new();
            let mut i: usize = 0;
            while i < f.payload_types.len()
                invariant
                    i <= f.payload_types@.len(),
                    out@ == f.payload_types@.subrange(0, i as int),
                decreases f.payload_types@.len() - i,
            {
                out.push(f.payload_types[i]);
                i += 1;
                assert(out@ =~= f.payload_types@.subrange(0, i as int));
            }
            assert(out@ =~= f.payload_types@);
            Some(out)
        },
    }
}

} // verus!
