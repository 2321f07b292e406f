//! What the translation of a request needs to know of the configuration.
use vstd::prelude::*;

use crate::config::{Config, ConfigView};
use crate::name_map;
use crate::name_map::NameMap;
use crate::routing;
use crate::routing::{ResolvedRoute, RouteView};
use crate::text;

verus! {

/// How a request is translated.
#[derive(Debug, Clone)]
pub struct TranslationPolicy {
    pub reasoning_model: Option<String>,
    pub completion_model: Option<String>,
    pub model_map: NameMap<String>,
    pub ignore_terms: Vec<String>,
    pub merge_system_messages: bool,
    pub merge_user_messages: bool,
}

/// The value of a [`TranslationPolicy`].
pub struct PolicyView {
    pub reasoning_model: Option<Seq<char>>,
    pub completion_model: Option<Seq<char>>,
    pub model_map: Seq<(Seq<char>, Seq<char>)>,
    pub ignore_terms: Seq<Seq<char>>,
    pub merge_system_messages: bool,
    pub merge_user_messages: bool,
}

impl View for TranslationPolicy {
    type V = PolicyView;

    open spec fn view(&self) -> PolicyView {
        PolicyView {
            reasoning_model: text::text_option(self.reasoning_model),
            completion_model: text::text_option(self.completion_model),
            model_map: self.model_map@,
            ignore_terms: text::texts(self.ignore_terms@),
            merge_system_messages: self.merge_system_messages,
            merge_user_messages: self.merge_user_messages,
        }
    }
}

/// How a request that takes the given route is translated: what is configured
/// for the model comes before what is configured for all.
pub open spec fn policy_for(config: ConfigView, route: RouteView) -> PolicyView {
    PolicyView {
        reasoning_model: routing::first_text(route.reasoning_model, config.reasoning_model),
        completion_model: routing::first_text(route.completion_model, config.completion_model),
        model_map: config.model_map,
        ignore_terms: config.system_prompt_ignore_terms,
        merge_system_messages: config.merge_system_messages,
        merge_user_messages: config.merge_user_messages,
    }
}

/// The model that an upstream is asked for in the place of `target`: with
/// thinking the reasoning model, without it the completion model, or else the
/// target itself, and where the model map has that, what it leads to.
pub open spec fn chosen_model(policy: PolicyView, thinking: bool, target: Seq<char>) -> Seq<char> {
    let configured = if thinking {
        policy.reasoning_model
    } else {
        policy.completion_model
    };
    let model = match configured {
        Some(name) => name,
        None => target,
    };
    match name_map::lookup(policy.model_map, model) {
        Some(mapped) => mapped,
        None => model,
    }
}

/// A target for which nothing is configured is asked for as it is.
pub proof fn unconfigured_target_stays(policy: PolicyView, thinking: bool, target: Seq<char>)
    requires
        thinking ==> policy.reasoning_model is None,
        !thinking ==> policy.completion_model is None,
        name_map::lookup(policy.model_map, target) is None,
    ensures
        chosen_model(policy, thinking, target) == target,
{
}

/// What is configured for the model of a route is chosen before what is
/// configured for all.
pub proof fn model_overrides_come_first(config: ConfigView, route: RouteView, thinking: bool)
    ensures
        chosen_model(policy_for(config, route), thinking, route.target) == chosen_model(
            policy_for(
                ConfigView {
                    reasoning_model: if route.reasoning_model is Some {
                        None
                    } else {
                        config.reasoning_model
                    },
                    completion_model: if route.completion_model is Some {
                        None
                    } else {
                        config.completion_model
                    },
                    ..config
                },
                route,
            ),
            thinking,
            route.target,
        ),
{
}

impl TranslationPolicy {
    /// The model that an upstream is asked for in the place of `target`.
    pub fn model_for(&self, thinking: bool, target: &str) -> (r: String)
        ensures
            r@ == chosen_model(self@, thinking, target@),
    {
        let configured = if thinking {
            &self.reasoning_model
        } else {
            &self.completion_model
        };
        let model = match configured {
            Some(name) => name.clone(),
            None => target.to_owned(),
        };
        match self.model_map.get(&model) {
            Some(mapped) => mapped.clone(),
            None => model,
        }
    }
}

impl Config {
    /// How a request that takes the given route is translated.
    pub fn translation_policy(&self, route: &ResolvedRoute) -> (r: TranslationPolicy)
        ensures
            r@ == policy_for(self@, route@),
    {
        let ignore_terms = self.system_prompt_ignore_terms.clone();
        assert(text::texts(ignore_terms@) == text::texts(self.system_prompt_ignore_terms@));
        TranslationPolicy {
            reasoning_model: if route.reasoning_model.is_some() {
                route.reasoning_model.clone()
            } else {
                self.reasoning_model.clone()
            },
            completion_model: if route.completion_model.is_some() {
                route.completion_model.clone()
            } else {
                self.completion_model.clone()
            },
            model_map: self.model_map.duplicate(),
            ignore_terms,
            merge_system_messages: self.merge_system_messages,
            merge_user_messages: self.merge_user_messages,
        }
    }
}

} // verus!
