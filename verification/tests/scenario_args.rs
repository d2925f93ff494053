use agentbus::scenario_args::check_scenario_args;
use agentbus::scenario_args::check_scenario_for_args;
use agentbus::scenario_args::scenario_for_key;
use agentbus::scenario_args::scenario_key;
use agentbus::scenario_args::ScenarioEnvs;
use agentbus::scenario_args::ScenarioForKey;
use agentbus::scenario_args::ScenarioKey;

#[test]
fn scenario_keys_are_read_or_refused() {
    assert_eq!(scenario_key("sim_only"), Ok(ScenarioKey::Envs(ScenarioEnvs::SimOnly)));
    assert_eq!(scenario_key("int_only"), Ok(ScenarioKey::Envs(ScenarioEnvs::IntOnly)));
    assert_eq!(scenario_key("cardinality"), Ok(ScenarioKey::Cardinality));
    assert_eq!(scenario_key("seed"), Ok(ScenarioKey::Seed));
    assert_eq!(
        scenario_key("suffix"),
        Err("expected `sim_only`, `int_only`, `cardinality = <int>`, or `seed = <int>`".to_string())
    );
}

#[test]
fn scenario_for_keys_are_read_or_refused() {
    assert_eq!(scenario_for_key("suffix"), Ok(ScenarioForKey::Suffix));
    assert_eq!(scenario_for_key("seed"), Ok(ScenarioForKey::Seed));
    assert_eq!(scenario_for_key("sim_only"), Ok(ScenarioForKey::Envs(ScenarioEnvs::SimOnly)));
    assert_eq!(
        scenario_for_key("cardinality"),
        Err("expected `suffix = <ident>`, `seed = <int>`, `sim_only`, or `int_only`".to_string())
    );
}

#[test]
fn scenario_arguments_follow_the_simulator_only_rules() {
    assert_eq!(check_scenario_args(ScenarioEnvs::All, 1, false), Ok(()));
    assert_eq!(check_scenario_args(ScenarioEnvs::SimOnly, 3, true), Ok(()));
    assert_eq!(
        check_scenario_args(ScenarioEnvs::SimOnly, 0, false),
        Err("`cardinality` must be >= 1".to_string())
    );
    assert_eq!(
        check_scenario_args(ScenarioEnvs::All, 2, false),
        Err("`cardinality > 1` (a determinism scenario) must be `sim_only`".to_string())
    );
    assert_eq!(
        check_scenario_args(ScenarioEnvs::IntOnly, 1, true),
        Err("`seed` requires `sim_only` (a fixed simulator seed is meaningless against a real backend)".to_string())
    );
}

#[test]
fn pinned_scenarios_need_a_suffix() {
    assert_eq!(check_scenario_for_args(true, ScenarioEnvs::IntOnly, false), Ok(()));
    assert_eq!(
        check_scenario_for_args(false, ScenarioEnvs::SimOnly, false),
        Err("`#[scenario_for]` requires `suffix = <ident>`".to_string())
    );
    assert_eq!(
        check_scenario_for_args(true, ScenarioEnvs::All, true),
        Err("`seed` requires `sim_only` (a fixed simulator seed is meaningless against a real backend)".to_string())
    );
}
