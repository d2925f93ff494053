//! The rules of the arguments of the conformance scenario attributes:
//! `#[scenario(..)]` and `#[scenario_for(..)]`. Reading the attribute's
//! tokens is the attribute parser's work; which keys it accepts, and which
//! combinations of them, are decided here.

use vstd::prelude::*;

use crate::bus::compare_text;
use crate::bus::lemma_text_before_strict;
use crate::bus::TextOrder;
use crate::text::append_str;

verus! {

/// The environments a scenario runs in.
#[derive(Clone, Copy, Debug, PartialEq, Eq, Structural)]
pub enum ScenarioEnvs {
    All,
    SimOnly,
    IntOnly,
}

/// A key of `#[scenario(..)]`.
#[derive(Clone, Copy, Debug, PartialEq, Eq, Structural)]
pub enum ScenarioKey {
    /// `sim_only` or `int_only`.
    Envs(ScenarioEnvs),
    /// `cardinality = <int>`.
    Cardinality,
    /// `seed = <int>`.
    Seed,
}

/// A key of `#[scenario_for(..)]`.
#[derive(Clone, Copy, Debug, PartialEq, Eq, Structural)]
pub enum ScenarioForKey {
    /// `suffix = <ident>`.
    Suffix,
    /// `seed = <int>`.
    Seed,
    /// `sim_only` or `int_only`.
    Envs(ScenarioEnvs),
}

/// Whether two texts are the same.
fn same_text(a: &str, b: &str) -> (r: bool)
    ensures
        r == (a@ == b@),
{
    let order = compare_text(a, b);
    proof {
        if order == TextOrder::Before {
            lemma_text_before_strict(a@, b@);
        }
        if order == TextOrder::After {
            lemma_text_before_strict(b@, a@);
        }
    }
    order == TextOrder::Same
}

/// The environment a key names, if it names one.
pub open spec fn envs_key(key: Seq<char>) -> Option<ScenarioEnvs> {
    if key == "sim_only"@ {
        Some(ScenarioEnvs::SimOnly)
    } else if key == "int_only"@ {
        Some(ScenarioEnvs::IntOnly)
    } else {
        None
    }
}

/// The environment `key` names, if it names one.
fn envs_of_key(key: &str) -> (r: Option<ScenarioEnvs>)
    ensures
        r == envs_key(key@),
{
    if same_text(key, "sim_only") {
        Some(ScenarioEnvs::SimOnly)
    } else if same_text(key, "int_only") {
        Some(ScenarioEnvs::IntOnly)
    } else {
        None
    }
}

/// The message for a key that `#[scenario(..)]` does not know.
pub open spec fn unknown_scenario_key_text() -> Seq<char> {
    "expected `sim_only`, `int_only`, `cardinality = <int>`, or `seed = <int>`"@
}

/// The message for a key that `#[scenario_for(..)]` does not know.
pub open spec fn unknown_scenario_for_key_text() -> Seq<char> {
    "expected `suffix = <ident>`, `seed = <int>`, `sim_only`, or `int_only`"@
}

/// A message held as a `String`.
fn message(text: &str) -> (m: String)
    ensures
        m@ == text@,
{
    let mut m = String::new();
    append_str(&mut m, text);
    m
}

/// Read one key of `#[scenario(..)]`: `sim_only`, `int_only`,
/// `cardinality` or `seed`; any other key is refused.
pub fn scenario_key(key: &str) -> (r: Result<ScenarioKey, String>)
    ensures
        match envs_key(key@) {
            Some(e) => r == Ok::<ScenarioKey, String>(ScenarioKey::Envs(e)),
            None => if key@ == "cardinality"@ {
                r == Ok::<ScenarioKey, String>(ScenarioKey::Cardinality)
            } else if key@ == "seed"@ {
                r == Ok::<ScenarioKey, String>(ScenarioKey::Seed)
            } else {
                r matches Err(m) && m@ == unknown_scenario_key_text()
            },
        },
{
    match envs_of_key(key) {
        Some(e) => Ok(ScenarioKey::Envs(e)),
        None => if same_text(key, "cardinality") {
            Ok(ScenarioKey::Cardinality)
        } else if same_text(key, "seed") {
            Ok(ScenarioKey::Seed)
        } else {
            let m = message("expected `sim_only`, `int_only`, `cardinality = <int>`, or `seed = <int>`");
            proof {
                reveal_strlit("expected `sim_only`, `int_only`, `cardinality = <int>`, or `seed = <int>`");
            }
            Err(m)
        },
    }
}

/// Read one key of `#[scenario_for(..)]`: `suffix`, `seed`, `sim_only` or
/// `int_only`; any other key is refused.
pub fn scenario_for_key(key: &str) -> (r: Result<ScenarioForKey, String>)
    ensures
        if key@ == "suffix"@ {
            r == Ok::<ScenarioForKey, String>(ScenarioForKey::Suffix)
        } else if key@ == "seed"@ {
            r == Ok::<ScenarioForKey, String>(ScenarioForKey::Seed)
        } else {
            match envs_key(key@) {
                Some(e) => r == Ok::<ScenarioForKey, String>(ScenarioForKey::Envs(e)),
                None => r matches Err(m) && m@ == unknown_scenario_for_key_text(),
            }
        },
{
    if same_text(key, "suffix") {
        Ok(ScenarioForKey::Suffix)
    } else if same_text(key, "seed") {
        Ok(ScenarioForKey::Seed)
    } else {
        match envs_of_key(key) {
            Some(e) => Ok(ScenarioForKey::Envs(e)),
            None => {
                let m = message("expected `suffix = <ident>`, `seed = <int>`, `sim_only`, or `int_only`");
                proof {
                    reveal_strlit("expected `suffix = <ident>`, `seed = <int>`, `sim_only`, or `int_only`");
                }
                Err(m)
            },
        }
    }
}

/// The message when a pinned seed is given without `sim_only`.
pub open spec fn seed_needs_sim_only_text() -> Seq<char> {
    "`seed` requires `sim_only` (a fixed simulator seed is meaningless against a real backend)"@
}

/// The message when a seed is pinned without `sim_only`.
fn seed_needs_sim_only() -> (m: String)
    ensures
        m@ == seed_needs_sim_only_text(),
{
    let m = message("`seed` requires `sim_only` (a fixed simulator seed is meaningless against a real backend)");
    proof {
        reveal_strlit("`seed` requires `sim_only` (a fixed simulator seed is meaningless against a real backend)");
    }
    m
}

/// Check the arguments read from `#[scenario(..)]`: at least one run; a
/// determinism scenario (more than one run) and a pinned seed are for the
/// simulator only.
pub fn check_scenario_args(envs: ScenarioEnvs, cardinality: usize, seed_given: bool) -> (r: Result<(), String>)
    ensures
        if cardinality == 0 {
            r matches Err(m) && m@ == "`cardinality` must be >= 1"@
        } else if cardinality > 1 && envs != ScenarioEnvs::SimOnly {
            r matches Err(m) && m@ == "`cardinality > 1` (a determinism scenario) must be `sim_only`"@
        } else if seed_given && envs != ScenarioEnvs::SimOnly {
            r matches Err(m) && m@ == seed_needs_sim_only_text()
        } else {
            r is Ok
        },
{
    if cardinality == 0 {
        let m = message("`cardinality` must be >= 1");
        proof {
            reveal_strlit("`cardinality` must be >= 1");
        }
        return Err(m);
    }
    if cardinality > 1 && envs != ScenarioEnvs::SimOnly {
        let m = message("`cardinality > 1` (a determinism scenario) must be `sim_only`");
        proof {
            reveal_strlit("`cardinality > 1` (a determinism scenario) must be `sim_only`");
        }
        return Err(m);
    }
    if seed_given && envs != ScenarioEnvs::SimOnly {
        return Err(seed_needs_sim_only());
    }
    Ok(())
}

/// Check the arguments read from `#[scenario_for(..)]`: the suffix is
/// required, and a pinned seed is for the simulator only.
pub fn check_scenario_for_args(suffix_given: bool, envs: ScenarioEnvs, seed_given: bool) -> (r: Result<(), String>)
    ensures
        if !suffix_given {
            r matches Err(m) && m@ == "`#[scenario_for]` requires `suffix = <ident>`"@
        } else if seed_given && envs != ScenarioEnvs::SimOnly {
            r matches Err(m) && m@ == seed_needs_sim_only_text()
        } else {
            r is Ok
        },
{
    if !suffix_given {
        let m = message("`#[scenario_for]` requires `suffix = <ident>`");
        proof {
            reveal_strlit("`#[scenario_for]` requires `suffix = <ident>`");
        }
        return Err(m);
    }
    if seed_given && envs != ScenarioEnvs::SimOnly {
        return Err(seed_needs_sim_only());
    }
    Ok(())
}

} // verus!
