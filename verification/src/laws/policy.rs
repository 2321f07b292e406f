//! Laws of the choice of the model.
use vstd::prelude::*;

use crate::config::ConfigView;
use crate::name_map;
use crate::policy;
use crate::policy::{PolicyView, TranslationPolicy};
use crate::routing::RouteView;

verus! {

/// Whether `model` is the one before the map is looked at: with thinking the
/// reasoning model, without it the completion model, and the target where that
/// is not set.
pub open spec fn wanted(
    policy: PolicyView,
    thinking: bool,
    target: Seq<char>,
    model: Seq<char>,
) -> bool {
    &&& thinking && policy.reasoning_model is Some ==> policy.reasoning_model == Some(model)
    &&& thinking && policy.reasoning_model is None ==> model == target
    &&& !thinking && policy.completion_model is Some ==> policy.completion_model == Some(model)
    &&& !thinking && policy.completion_model is None ==> model == target
}

/// Where the model map leads from the wanted model to another, that one is
/// chosen, whether the wanted one was configured or asked for.
pub proof fn mapped_model_is_chosen(
    policy: PolicyView,
    thinking: bool,
    target: Seq<char>,
    model: Seq<char>,
    k: int,
)
    requires
        wanted(policy, thinking, target, model),
        name_map::ascending(policy.model_map),
        0 <= k < policy.model_map.len(),
        policy.model_map[k].0 == model,
    ensures
        policy::chosen_model(policy, thinking, target) == policy.model_map[k].1,
{
    name_map::lookup_of_entry(policy.model_map, k);
}

/// Where the model map has nothing for the wanted model, that one is chosen.
pub proof fn unmapped_model_is_chosen(
    policy: PolicyView,
    thinking: bool,
    target: Seq<char>,
    model: Seq<char>,
)
    requires
        wanted(policy, thinking, target, model),
        forall|k: int|
            0 <= k < policy.model_map.len() ==> (#[trigger] policy.model_map[k]).0 != model,
    ensures
        policy::chosen_model(policy, thinking, target) == model,
{
    name_map::lookup_of_absent(policy.model_map, model);
}

/// A policy has the reasoning model and the completion model of the route, or
/// else those of the configuration, and everything else from the configuration.
pub proof fn policy_prefers_the_route(config: ConfigView, route: RouteView)
    ensures
        ({
            let policy = policy::policy_for(config, route);
            &&& route.reasoning_model is Some ==> policy.reasoning_model == route.reasoning_model
            &&& route.reasoning_model is None ==> policy.reasoning_model == config.reasoning_model
            &&& route.completion_model is Some ==> policy.completion_model == route.completion_model
            &&& route.completion_model is None ==> policy.completion_model
                == config.completion_model
            &&& policy.model_map == config.model_map
            &&& policy.ignore_terms == config.system_prompt_ignore_terms
            &&& policy.merge_system_messages == config.merge_system_messages
            &&& policy.merge_user_messages == config.merge_user_messages
        }),
{
}

/// The value of a policy holds every field of it.
pub proof fn policy_value_holds_every_field(policy: TranslationPolicy, i: int)
    ensures
        policy.reasoning_model is None ==> policy@.reasoning_model is None,
        policy.reasoning_model is Some ==> policy@.reasoning_model == Some(
            policy.reasoning_model->0@,
        ),
        policy.completion_model is None ==> policy@.completion_model is None,
        policy.completion_model is Some ==> policy@.completion_model == Some(
            policy.completion_model->0@,
        ),
        policy@.model_map == policy.model_map@,
        policy@.ignore_terms.len() == policy.ignore_terms@.len(),
        0 <= i < policy.ignore_terms@.len() ==> policy@.ignore_terms[i]
            == policy.ignore_terms@[i]@,
        policy@.merge_system_messages == policy.merge_system_messages,
        policy@.merge_user_messages == policy.merge_user_messages,
{
}

} // verus!
