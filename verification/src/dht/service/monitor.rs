//! Shapes of action/effect reductions as the DHT actor monitor reports them,
//! and the switches that turn tracing on.
use vstd::prelude::*;

verus! {

/// Turns on every DHT trace.
pub const DHT_TRACE_ENV: &'static str = "SUPERSEEDR_DHT_TRACE";

/// Turns on the actor monitor.
pub const DHT_ACTOR_MONITOR_ENV: &'static str = "SUPERSEEDR_DHT_ACTOR_MONITOR";

/// Older switch for the planner monitor, still honoured.
pub const DHT_PLANNER_MONITOR_ENV: &'static str = "SUPERSEEDR_DHT_PLANNER_MONITOR";

/// One reduction: which domain, which action, and the effects it produced.
#[derive(Debug, Clone, PartialEq, Eq)]
pub struct DhtActionEffectSnapshot {
    pub domain: &'static str,
    pub action: &'static str,
    pub effect_count: usize,
    pub effects: Vec<&'static str>,
}

pub fn action_effect_snapshot(
    domain: &'static str,
    action: &'static str,
    effects: Vec<&'static str>,
) -> (r: DhtActionEffectSnapshot)
    ensures
        r.domain == domain,
        r.action == action,
        r.effect_count == effects@.len(),
        r.effects@ == effects@,
{
    let effect_count = effects.len();
    DhtActionEffectSnapshot { domain, action, effect_count, effects }
}

/// Whether any of the switch `names` is set, as `is_set` tells: true as soon
/// as one is, false when `is_set` answered false for every one.
pub fn trace_env_names_enabled<F: Fn(&str) -> bool>(names: &[&str], is_set: F) -> (r: bool)
    requires
        forall|i: int| 0 <= i < names@.len() ==> is_set.requires((names@[i],)),
    ensures
        r ==> exists|i: int| 0 <= i < names@.len() && is_set.ensures((names@[i],), true),
        !r ==> forall|i: int| 0 <= i < names@.len() ==> is_set.ensures((names@[i],), false),
{
    let mut i: usize = 0;
    while i < names.len()
        invariant
            i <= names@.len(),
            forall|j: int| 0 <= j < names@.len() ==> is_set.requires((names@[j],)),
            forall|j: int| 0 <= j < i ==> is_set.ensures((names@[j],), false),
        decreases names@.len() - i,
    {
        let name = names[i];
        let set = is_set(name);
        if set {
            assert(is_set.ensures((names@[i as int],), true));
            return true;
        }
        i = i + 1;
    }
    false
}

} // verus!
