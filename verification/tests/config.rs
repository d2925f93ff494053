use agentbus::config::AppServerConfigFile;
use agentbus::config::InitialVoterConfig;
use agentbus::config::RuleAction;
use agentbus::config::RuleEntry;
use agentbus::config::RuleMatchType;
use agentbus::config::RuleSubjectEntry;
use agentbus::config::VoterConfigEntry;
use agentbus::config::VoterRuleAction;
use agentbus::config::VoterRuleMatchType;
use agentbus::config::VoterRuleSubjectKind;
use agentbus::server::default_gate_timeout;
use agentbus::time::Duration;

#[test]
fn an_llm_entry_becomes_an_llm_voter() {
    let entry = VoterConfigEntry::Llm {
        prompt_override: "custom prompt".to_string(),
        model: Some("test-model".to_string()),
        api_endpoint: Some("http://127.0.0.1:8080".to_string()),
    };
    match entry.into_initial_config() {
        InitialVoterConfig::Llm { config, model, api_endpoint } => {
            assert_eq!(config.prompt_override, "custom prompt");
            assert_eq!(model.as_deref(), Some("test-model"));
            assert_eq!(api_endpoint.as_deref(), Some("http://127.0.0.1:8080"));
        }
        InitialVoterConfig::RuleBased(_) => panic!("expected llm voter"),
    }
}

#[test]
fn a_rule_based_entry_keeps_its_rules_and_subjects_in_order() {
    let entry = VoterConfigEntry::RuleBased {
        default_action: RuleAction::Allow,
        rules: vec![
            RuleEntry {
                pattern: "rm -rf".to_string(),
                action: RuleAction::Deny,
                match_type: RuleMatchType::Substring,
                reason: "destructive".to_string(),
                subjects: vec![
                    RuleSubjectEntry::ExactBusId("fenced-bus".to_string()),
                    RuleSubjectEntry::BusIdPrefix("quarantined/".to_string()),
                ],
            },
            RuleEntry {
                pattern: "echo".to_string(),
                action: RuleAction::Allow,
                match_type: RuleMatchType::Exact,
                reason: "safe".to_string(),
                subjects: Vec::new(),
            },
        ],
    };
    match entry.into_initial_config() {
        InitialVoterConfig::RuleBased(rb) => {
            assert_eq!(rb.rules.len(), 2);
            assert_eq!(rb.default_action, VoterRuleAction::VoterRuleAllow);
            assert_eq!(rb.rules[0].pattern, "rm -rf");
            assert_eq!(rb.rules[0].action, VoterRuleAction::VoterRuleDeny);
            assert_eq!(rb.rules[0].match_type, VoterRuleMatchType::VoterRuleSubstring);
            assert_eq!(rb.rules[0].reason, "destructive");
            assert_eq!(rb.rules[0].subjects.len(), 2);
            assert!(matches!(
                rb.rules[0].subjects[0].kind.as_ref(),
                Some(VoterRuleSubjectKind::ExactBusId(bus_id)) if bus_id == "fenced-bus"
            ));
            assert!(matches!(
                rb.rules[0].subjects[1].kind.as_ref(),
                Some(VoterRuleSubjectKind::BusIdPrefix(prefix)) if prefix == "quarantined/"
            ));
            assert_eq!(rb.rules[1].match_type, VoterRuleMatchType::VoterRuleExact);
            assert!(rb.rules[1].subjects.is_empty());
        }
        InitialVoterConfig::Llm { .. } => panic!("expected rule-based voter"),
    }
}

#[test]
fn file_defaults_deny_by_substring() {
    assert_eq!(RuleAction::default(), RuleAction::Deny);
    assert_eq!(RuleMatchType::default(), RuleMatchType::Substring);
}

#[test]
fn a_config_file_gives_the_server_setup_and_its_voters() {
    let file = AppServerConfigFile {
        bus_id: "test-bus".to_string(),
        gate_check_timeout_ms: default_gate_timeout(),
        blocking_poll_interval_ms: None,
        voters: vec![
            VoterConfigEntry::Llm {
                prompt_override: String::new(),
                model: Some("model-a".to_string()),
                api_endpoint: None,
            }
            .into_initial_config(),
        ],
    };
    let (domain, voters) = file.into_config().unwrap();
    assert_eq!(domain.bus_id, "test-bus");
    assert_eq!(domain.gate_check_timeout, Duration::from_millis(30000));
    assert!(domain.blocking_poll_interval.is_none());
    assert_eq!(voters.len(), 1);
}
