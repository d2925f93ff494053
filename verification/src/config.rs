//! The voter definitions of a server's configuration file, and the initial
//! voter configurations they stand for.

use vstd::prelude::*;

use crate::bus::LlmVoterConfig;
use crate::server::app_server_config;
use crate::server::AppServerConfig;
use crate::time::NANOS_PER_MILLI;

verus! {

/// What a rule does when it matches, as written in the file (`deny` unless
/// given).
#[derive(Clone, Copy, Debug, PartialEq, Eq, Structural)]
pub enum RuleAction {
    Allow,
    Deny,
}

/// How a rule's pattern is matched, as written in the file (`substring`
/// unless given).
#[derive(Clone, Copy, Debug, PartialEq, Eq, Structural)]
pub enum RuleMatchType {
    Exact,
    Substring,
    Regex,
}

impl Default for RuleAction {
    fn default() -> (a: Self)
        ensures
            a == RuleAction::Deny,
    {
        RuleAction::Deny
    }
}

impl Default for RuleMatchType {
    fn default() -> (m: Self)
        ensures
            m == RuleMatchType::Substring,
    {
        RuleMatchType::Substring
    }
}

/// A subject a rule is limited to, as written in the file.
#[derive(Debug)]
pub enum RuleSubjectEntry {
    ExactBusId(String),
    BusIdPrefix(String),
}

/// One rule of a rule-based voter, as written in the file.
#[derive(Debug)]
pub struct RuleEntry {
    pub pattern: String,
    pub action: RuleAction,
    pub match_type: RuleMatchType,
    pub reason: String,
    pub subjects: Vec<RuleSubjectEntry>,
}

/// One voter of the configuration file.
#[derive(Debug)]
pub enum VoterConfigEntry {
    Llm { prompt_override: String, model: Option<String>, api_endpoint: Option<String> },
    RuleBased { default_action: RuleAction, rules: Vec<RuleEntry> },
}

/// The action of a voter rule.
#[derive(Clone, Copy, Debug, PartialEq, Eq, Structural)]
pub enum VoterRuleAction {
    VoterRuleAllow,
    VoterRuleDeny,
}

/// How a voter rule's pattern is matched.
#[derive(Clone, Copy, Debug, PartialEq, Eq, Structural)]
pub enum VoterRuleMatchType {
    VoterRuleExact,
    VoterRuleSubstring,
    VoterRuleRegex,
}

/// The buses a voter rule is limited to.
#[derive(Debug)]
pub enum VoterRuleSubjectKind {
    ExactBusId(String),
    BusIdPrefix(String),
}

#[derive(Debug)]
pub struct VoterRuleSubject {
    pub kind: Option<VoterRuleSubjectKind>,
}

/// One rule of a rule-based voter.
#[derive(Debug)]
pub struct VoterRule {
    pub pattern: String,
    pub action: VoterRuleAction,
    pub match_type: VoterRuleMatchType,
    pub reason: String,
    pub subjects: Vec<VoterRuleSubject>,
}

/// The rules of a rule-based voter and the action taken when none matches.
#[derive(Debug)]
pub struct RuleSet {
    pub rules: Vec<VoterRule>,
    pub default_action: VoterRuleAction,
}

/// A voter's configuration before any runtime voter policy applies.
#[derive(Debug)]
pub enum InitialVoterConfig {
    Llm { config: LlmVoterConfig, model: Option<String>, api_endpoint: Option<String> },
    RuleBased(RuleSet),
}

/// The voter-rule action a file action stands for.
pub open spec fn rule_action(a: RuleAction) -> VoterRuleAction {
    match a {
        RuleAction::Allow => VoterRuleAction::VoterRuleAllow,
        RuleAction::Deny => VoterRuleAction::VoterRuleDeny,
    }
}

/// The voter-rule match type a file match type stands for.
pub open spec fn rule_match_type(m: RuleMatchType) -> VoterRuleMatchType {
    match m {
        RuleMatchType::Exact => VoterRuleMatchType::VoterRuleExact,
        RuleMatchType::Substring => VoterRuleMatchType::VoterRuleSubstring,
        RuleMatchType::Regex => VoterRuleMatchType::VoterRuleRegex,
    }
}

/// `s` is the voter-rule subject the file subject `e` stands for.
pub open spec fn subject_from(s: VoterRuleSubject, e: RuleSubjectEntry) -> bool {
    match e {
        RuleSubjectEntry::ExactBusId(id) => s.kind == Some(VoterRuleSubjectKind::ExactBusId(id)),
        RuleSubjectEntry::BusIdPrefix(prefix) => s.kind == Some(VoterRuleSubjectKind::BusIdPrefix(prefix)),
    }
}

/// `r` is the voter rule the file rule `e` stands for: the same pattern and
/// reason, the action and match type it names, and its subjects in order.
pub open spec fn rule_from(r: VoterRule, e: RuleEntry) -> bool {
    &&& r.pattern == e.pattern
    &&& r.action == rule_action(e.action)
    &&& r.match_type == rule_match_type(e.match_type)
    &&& r.reason == e.reason
    &&& r.subjects@.len() == e.subjects@.len()
    &&& forall|j: int| 0 <= j < e.subjects@.len() ==> subject_from(#[trigger] r.subjects@[j], e.subjects@[j])
}

fn action_of(a: RuleAction) -> (r: VoterRuleAction)
    ensures
        r == rule_action(a),
{
    match a {
        RuleAction::Allow => VoterRuleAction::VoterRuleAllow,
        RuleAction::Deny => VoterRuleAction::VoterRuleDeny,
    }
}

fn match_type_of(m: RuleMatchType) -> (r: VoterRuleMatchType)
    ensures
        r == rule_match_type(m),
{
    match m {
        RuleMatchType::Exact => VoterRuleMatchType::VoterRuleExact,
        RuleMatchType::Substring => VoterRuleMatchType::VoterRuleSubstring,
        RuleMatchType::Regex => VoterRuleMatchType::VoterRuleRegex,
    }
}

fn subject_of(e: &RuleSubjectEntry) -> (s: VoterRuleSubject)
    ensures
        subject_from(s, *e),
{
    match e {
        RuleSubjectEntry::ExactBusId(id) => VoterRuleSubject { kind: Some(VoterRuleSubjectKind::ExactBusId(id.clone())) },
        RuleSubjectEntry::BusIdPrefix(prefix) => VoterRuleSubject {
            kind: Some(VoterRuleSubjectKind::BusIdPrefix(prefix.clone())),
        },
    }
}

fn rule_of(e: &RuleEntry) -> (r: VoterRule)
    ensures
        rule_from(r, *e),
{
    let mut subjects: Vec<VoterRuleSubject> = Vec::new();
    let mut j: usize = 0;
    while j < e.subjects.len()
        invariant
            j <= e.subjects@.len(),
            subjects@.len() == j,
            forall|k: int| 0 <= k < j ==> subject_from(#[trigger] subjects@[k], e.subjects@[k]),
        decreases e.subjects@.len() - j,
    {
        subjects.push(subject_of(&e.subjects[j]));
        j += 1;
    }
    VoterRule {
        pattern: e.pattern.clone(),
        action: action_of(e.action),
        match_type: match_type_of(e.match_type),
        reason: e.reason.clone(),
        subjects,
    }
}

impl VoterConfigEntry {
    /// The initial voter configuration this entry stands for: an LLM voter
    /// with its prompt override, model and endpoint; or a rule-based voter
    /// with each rule, in order, and its default action.
    pub fn into_initial_config(self) -> (c: InitialVoterConfig)
        ensures
            match self {
                VoterConfigEntry::Llm { prompt_override, model, api_endpoint } => c matches InitialVoterConfig::Llm {
                    config,
                    model: m,
                    api_endpoint: a,
                } && config.prompt_override == prompt_override && m == model && a == api_endpoint,
                VoterConfigEntry::RuleBased { default_action, rules } => c matches InitialVoterConfig::RuleBased(set)
                    && set.default_action == rule_action(default_action) && set.rules@.len() == rules@.len()
                    && forall|i: int| 0 <= i < rules@.len() ==> rule_from(#[trigger] set.rules@[i], rules@[i]),
            },
    {
        match self {
            VoterConfigEntry::Llm { prompt_override, model, api_endpoint } => InitialVoterConfig::Llm {
                config: LlmVoterConfig { prompt_override },
                model,
                api_endpoint,
            },
            VoterConfigEntry::RuleBased { default_action, rules } => {
                let mut out: Vec<VoterRule> = Vec::new();
                let mut i: usize = 0;
                while i < rules.len()
                    invariant
                        i <= rules@.len(),
                        out@.len() == i,
                        forall|k: int| 0 <= k < i ==> rule_from(#[trigger] out@[k], rules@[k]),
                    decreases rules@.len() - i,
                {
                    out.push(rule_of(&rules[i]));
                    i += 1;
                }
                InitialVoterConfig::RuleBased(RuleSet { rules: out, default_action: action_of(default_action) })
            },
        }
    }
}

/// A server's configuration file: the bus, the decision timeout and the
/// poll interval in milliseconds, and the initial voters.
#[derive(Debug)]
pub struct AppServerConfigFile {
    pub bus_id: String,
    pub gate_check_timeout_ms: u64,
    pub blocking_poll_interval_ms: Option<u64>,
    pub voters: Vec<InitialVoterConfig>,
}

impl AppServerConfigFile {
    /// The server setup the file describes, and its initial voters.
    pub fn into_config(self) -> (r: Result<(AppServerConfig, Vec<InitialVoterConfig>), String>)
        ensures
            r matches Ok((c, voters)) && c.bus_id == self.bus_id && c.gate_check_timeout.nanos
                == self.gate_check_timeout_ms * NANOS_PER_MILLI && match self.blocking_poll_interval_ms {
                Some(ms) => c.blocking_poll_interval matches Some(d) && d.nanos == ms * NANOS_PER_MILLI,
                None => c.blocking_poll_interval is None,
            } && voters == self.voters,
    {
        let config = app_server_config(self.bus_id, self.gate_check_timeout_ms, self.blocking_poll_interval_ms);
        Ok((config, self.voters))
    }
}

} // verus!
