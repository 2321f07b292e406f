//! Which upstream serves a model, and which others may serve in its place.
use vstd::prelude::*;

use crate::config::{
    Config, ConfigView, ModelConfig, ModelView, UpstreamConfig, UpstreamView,
};
use crate::config;
use crate::endpoint;
use crate::endpoint::{UrlError, UrlErrorView};
use crate::name_map;
use crate::order;
use crate::text;
use crate::text::{same_text, split_text_once};

verus! {

/// Where a request for a model goes.
#[derive(Debug, Clone)]
pub struct ResolvedRoute {
    pub upstream_name: String,
    /// The name under which the upstream knows the model.
    pub target: String,
    /// The chat completions endpoint of the upstream.
    pub base_url: String,
    pub api_key: Option<String>,
    /// Whether another upstream may serve in the place of this one.
    pub allow_failover: bool,
    pub reasoning_model: Option<String>,
    pub completion_model: Option<String>,
    /// Whether no configured upstream serves the model, so that the request
    /// goes to the plain list of upstream URLs.
    pub is_legacy: bool,
}

/// The value of a [`ResolvedRoute`].
pub struct RouteView {
    pub upstream_name: Seq<char>,
    pub target: Seq<char>,
    pub base_url: Seq<char>,
    pub api_key: Option<Seq<char>>,
    pub allow_failover: bool,
    pub reasoning_model: Option<Seq<char>>,
    pub completion_model: Option<Seq<char>>,
    pub is_legacy: bool,
}

impl View for ResolvedRoute {
    type V = RouteView;

    open spec fn view(&self) -> RouteView {
        RouteView {
            upstream_name: self.upstream_name@,
            target: self.target@,
            base_url: self.base_url@,
            api_key: text::text_option(self.api_key),
            allow_failover: self.allow_failover,
            reasoning_model: text::text_option(self.reasoning_model),
            completion_model: text::text_option(self.completion_model),
            is_legacy: self.is_legacy,
        }
    }
}

/// The values of a sequence of routes.
pub open spec fn routes(s: Seq<ResolvedRoute>) -> Seq<RouteView> {
    Seq::new(s.len(), |i: int| s[i]@)
}

/// The first of two texts that is there.
pub open spec fn first_text(a: Option<Seq<char>>, b: Option<Seq<char>>) -> Option<Seq<char>> {
    if a is Some {
        a
    } else {
        b
    }
}

/// The name under which the upstream knows a model that is configured under
/// `name`.
pub open spec fn target_of(model: ModelView, name: Seq<char>) -> Seq<char> {
    match model.target {
        Some(target) => target,
        None => name,
    }
}

/// The model that an upstream serves under `name`. An upstream without any
/// models serves every name, as it is.
pub open spec fn served(upstream: UpstreamView, name: Seq<char>) -> Option<ModelView> {
    if upstream.models.len() == 0 {
        Some(config::plain_model())
    } else {
        name_map::lookup(upstream.models, name)
    }
}

/// The route to a model that is configured under `name` at an upstream.
pub open spec fn route_to(
    config: ConfigView,
    upstream_name: Seq<char>,
    upstream: UpstreamView,
    name: Seq<char>,
    model: ModelView,
) -> Result<RouteView, UrlErrorView> {
    match endpoint::chat_url(upstream.base_url) {
        Ok(url) => Ok(
            RouteView {
                upstream_name,
                target: target_of(model, name),
                base_url: url,
                api_key: first_text(upstream.api_key, config.api_key),
                allow_failover: model.allow_failover,
                reasoning_model: model.reasoning_model,
                completion_model: model.completion_model,
                is_legacy: false,
            },
        ),
        Err(error) => Err(error),
    }
}

/// The route to a model that no configured upstream serves.
pub open spec fn legacy_route(model: Seq<char>) -> RouteView {
    RouteView {
        upstream_name: Seq::empty(),
        target: model,
        base_url: Seq::empty(),
        api_key: None,
        allow_failover: false,
        reasoning_model: None,
        completion_model: None,
        is_legacy: true,
    }
}

/// The upstream that a model of the form `upstream/name` asks for, and the name
/// and the model there, where that upstream is configured and serves the name.
pub open spec fn asked_for(config: ConfigView, model: Seq<char>) -> Option<
    (Seq<char>, UpstreamView, Seq<char>, ModelView),
> {
    match text::split_once(model, '/') {
        None => None,
        Some((prefix, name)) => match name_map::lookup(config.upstreams, prefix) {
            None => None,
            Some(upstream) => match served(upstream, name) {
                None => None,
                Some(found) => Some((prefix, upstream, name, found)),
            },
        },
    }
}

/// The number of upstreams before the first one that serves `name`.
pub open spec fn not_serving(upstreams: Seq<(Seq<char>, UpstreamView)>, name: Seq<char>) -> int
    decreases upstreams.len(),
{
    if upstreams.len() == 0 || served(upstreams.first().1, name) is Some {
        0
    } else {
        1 + not_serving(upstreams.drop_first(), name)
    }
}

/// Where a request for a model goes: to the upstream that its prefix names, or
/// else to the first upstream that serves the whole name, or else to the plain
/// list of upstream URLs.
pub open spec fn resolved(config: ConfigView, model: Seq<char>) -> Result<
    RouteView,
    UrlErrorView,
> {
    match asked_for(config, model) {
        Some((upstream_name, upstream, name, found)) => route_to(
            config,
            upstream_name,
            upstream,
            name,
            found,
        ),
        None => {
            let i = not_serving(config.upstreams, model);
            if 0 <= i < config.upstreams.len() {
                let (upstream_name, upstream) = config.upstreams[i];
                route_to(config, upstream_name, upstream, model, served(upstream, model)->0)
            } else {
                Ok(legacy_route(model))
            }
        },
    }
}

/// The value of a result that holds a route.
pub open spec fn route_outcome(r: Result<ResolvedRoute, UrlError>) -> Result<
    RouteView,
    UrlErrorView,
> {
    match r {
        Ok(route) => Ok(route@),
        Err(error) => Err(error@),
    }
}

/// What comes after the first `/` of a model, or all of it.
pub open spec fn bare_part(model: Seq<char>) -> Seq<char> {
    match text::split_once(model, '/') {
        Some((_, rest)) => rest,
        None => model,
    }
}

/// The name that the upstream of a model would be asked for.
pub open spec fn original_target(config: ConfigView, model: Seq<char>) -> Seq<char> {
    match resolved(config, model) {
        Ok(route) => route.target,
        Err(_) => model,
    }
}

/// The number of entries before the first one that has the name `bare`, or
/// whose target is `target`.
pub open spec fn not_matching(
    models: Seq<(Seq<char>, ModelView)>,
    bare: Seq<char>,
    target: Seq<char>,
) -> int
    decreases models.len(),
{
    if models.len() == 0 || models.first().0 == bare || target_of(
        models.first().1,
        models.first().0,
    ) == target {
        0
    } else {
        1 + not_matching(models.drop_first(), bare, target)
    }
}

/// The route by which an upstream can serve in the place of another: that to
/// its first model with the given name or target.
pub open spec fn alternative(
    config: ConfigView,
    upstream_name: Seq<char>,
    upstream: UpstreamView,
    bare: Seq<char>,
    target: Seq<char>,
) -> Option<RouteView> {
    let i = not_matching(upstream.models, bare, target);
    if 0 <= i < upstream.models.len() {
        match route_to(
            config,
            upstream_name,
            upstream,
            upstream.models[i].0,
            upstream.models[i].1,
        ) {
            Ok(route) => Some(route),
            Err(_) => None,
        }
    } else {
        None
    }
}

/// The alternatives among the given upstreams, in their order, without the one
/// named `exclude`.
pub open spec fn alternatives(
    config: ConfigView,
    upstreams: Seq<(Seq<char>, UpstreamView)>,
    exclude: Seq<char>,
    bare: Seq<char>,
    target: Seq<char>,
) -> Seq<RouteView>
    decreases upstreams.len(),
{
    if upstreams.len() == 0 {
        Seq::empty()
    } else {
        let before = alternatives(config, upstreams.drop_last(), exclude, bare, target);
        let (name, upstream) = upstreams.last();
        if name == exclude {
            before
        } else {
            match alternative(config, name, upstream, bare, target) {
                Some(route) => before.push(route),
                None => before,
            }
        }
    }
}

/// The routes by which a model can be served when the upstream `exclude` fails.
pub open spec fn failovers(
    config: ConfigView,
    model: Seq<char>,
    exclude: Seq<char>,
) -> Seq<RouteView> {
    alternatives(
        config,
        config.upstreams,
        exclude,
        bare_part(model),
        original_target(config, model),
    )
}

proof fn lemma_not_serving(
    upstreams: Seq<(Seq<char>, UpstreamView)>,
    name: Seq<char>,
    n: int,
)
    requires
        0 <= n <= upstreams.len(),
        forall|j: int| 0 <= j < n ==> served((#[trigger] upstreams[j]).1, name) is None,
        n < upstreams.len() ==> served(upstreams[n].1, name) is Some,
    ensures
        not_serving(upstreams, name) == n,
    decreases n,
{
    if n > 0 {
        assert(served(upstreams[0].1, name) is None);
        let rest = upstreams.drop_first();
        assert(forall|j: int| 0 <= j < rest.len() ==> #[trigger] rest[j] == upstreams[j + 1]);
        lemma_not_serving(rest, name, n - 1);
    }
}

proof fn lemma_not_matching(
    models: Seq<(Seq<char>, ModelView)>,
    bare: Seq<char>,
    target: Seq<char>,
    n: int,
)
    requires
        0 <= n <= models.len(),
        forall|j: int|
            0 <= j < n ==> (#[trigger] models[j]).0 != bare && target_of(models[j].1, models[j].0)
                != target,
        n < models.len() ==> models[n].0 == bare || target_of(models[n].1, models[n].0) == target,
    ensures
        not_matching(models, bare, target) == n,
    decreases n,
{
    if n > 0 {
        assert(models[0].0 != bare);
        let rest = models.drop_first();
        assert(forall|j: int| 0 <= j < rest.len() ==> #[trigger] rest[j] == models[j + 1]);
        lemma_not_matching(rest, bare, target, n - 1);
    }
}

/// A name without a `/` is what comes before the first `/` after it.
pub proof fn lemma_split_after(name: Seq<char>, rest: Seq<char>)
    requires
        !name.contains('/'),
    ensures
        text::split_once(name + seq!['/'] + rest, '/') == Some((name, rest)),
{
    let model = name + seq!['/'] + rest;
    let marks = seq!['/'];
    assert(marks[0] == '/');
    assert forall|k: int| 0 <= k < name.len() implies !marks.contains(#[trigger] model[k]) by {
        assert(name[k] == model[k]);
    }
    assert(model[name.len() as int] == '/');
    text::lemma_span_is(model, marks, name.len() as int);
    assert(model.take(name.len() as int) == name);
    assert(model.skip(name.len() as int + 1) == rest);
}

/// A model `upstream/name` that is configured goes to that upstream, under the
/// target that is configured for it, whatever other upstreams serve.
pub proof fn prefix_selects_the_upstream(config: ConfigView, i: int, j: int)
    requires
        name_map::ascending(config.upstreams),
        0 <= i < config.upstreams.len(),
        !config.upstreams[i].0.contains('/'),
        name_map::ascending(config.upstreams[i].1.models),
        0 <= j < config.upstreams[i].1.models.len(),
    ensures
        resolved(
            config,
            config.upstreams[i].0 + seq!['/'] + config.upstreams[i].1.models[j].0,
        ) == route_to(
            config,
            config.upstreams[i].0,
            config.upstreams[i].1,
            config.upstreams[i].1.models[j].0,
            config.upstreams[i].1.models[j].1,
        ),
{
    let (upstream_name, upstream) = config.upstreams[i];
    lemma_split_after(upstream_name, upstream.models[j].0);
    name_map::lookup_of_entry(config.upstreams, i);
    name_map::lookup_of_entry(upstream.models, j);
}

/// An upstream without any models takes every model that its prefix asks for,
/// under the name after the prefix.
pub proof fn upstream_without_models_takes_any(config: ConfigView, i: int, name: Seq<char>)
    requires
        name_map::ascending(config.upstreams),
        0 <= i < config.upstreams.len(),
        !config.upstreams[i].0.contains('/'),
        config.upstreams[i].1.models.len() == 0,
    ensures
        resolved(config, config.upstreams[i].0 + seq!['/'] + name) == route_to(
            config,
            config.upstreams[i].0,
            config.upstreams[i].1,
            name,
            config::plain_model(),
        ),
{
    lemma_split_after(config.upstreams[i].0, name);
    name_map::lookup_of_entry(config.upstreams, i);
}

/// Of the upstreams that serve a model whose prefix asks for none of them, the
/// first in the order of the names is taken.
pub proof fn first_serving_upstream_is_taken(config: ConfigView, model: Seq<char>, i: int)
    requires
        asked_for(config, model) is None,
        0 <= i < config.upstreams.len(),
        served(config.upstreams[i].1, model) is Some,
        forall|j: int|
            0 <= j < i ==> served((#[trigger] config.upstreams[j]).1, model) is None,
    ensures
        resolved(config, model) == route_to(
            config,
            config.upstreams[i].0,
            config.upstreams[i].1,
            model,
            served(config.upstreams[i].1, model)->0,
        ),
{
    lemma_not_serving(config.upstreams, model, i);
}

proof fn lemma_first_serving(
    upstreams: Seq<(Seq<char>, UpstreamView)>,
    name: Seq<char>,
)
    ensures
        0 <= not_serving(upstreams, name) <= upstreams.len(),
        forall|j: int|
            0 <= j < not_serving(upstreams, name) ==> served(
                (#[trigger] upstreams[j]).1,
                name,
            ) is None,
        not_serving(upstreams, name) < upstreams.len() ==> served(
            upstreams[not_serving(upstreams, name)].1,
            name,
        ) is Some,
    decreases upstreams.len(),
{
    if upstreams.len() > 0 && served(upstreams.first().1, name) is None {
        let rest = upstreams.drop_first();
        lemma_first_serving(rest, name);
        assert(forall|j: int| 0 <= j < rest.len() ==> #[trigger] rest[j] == upstreams[j + 1]);
        assert forall|j: int| 0 <= j < not_serving(upstreams, name) implies served(
            (#[trigger] upstreams[j]).1,
            name,
        ) is None by {
            if j > 0 {
                assert(upstreams[j] == rest[j - 1]);
            }
        }
    }
}

/// A request goes to the plain list of upstream URLs if and only if no
/// configured upstream serves the model, by its prefix or by its whole name.
pub proof fn legacy_exactly_when_unserved(config: ConfigView, model: Seq<char>)
    ensures
        resolved(config, model) == Ok::<RouteView, UrlErrorView>(legacy_route(model)) <==> (
        asked_for(config, model) is None && forall|i: int|
            0 <= i < config.upstreams.len() ==> served(
                (#[trigger] config.upstreams[i]).1,
                model,
            ) is None),
{
    lemma_first_serving(config.upstreams, model);
}

/// Whether a route leads to a configured upstream: to its chat completions
/// endpoint, with its own key before that of the configuration.
pub open spec fn leads_to(config: ConfigView, route: RouteView, i: int) -> bool {
    &&& 0 <= i < config.upstreams.len()
    &&& route.upstream_name == config.upstreams[i].0
    &&& endpoint::chat_url(config.upstreams[i].1.base_url) == Ok::<Seq<char>, UrlErrorView>(
        route.base_url,
    )
    &&& route.api_key == first_text(config.upstreams[i].1.api_key, config.api_key)
    &&& !route.is_legacy
}

/// A route is either the one to the plain list of upstream URLs, or leads to a
/// configured upstream.
pub proof fn routes_lead_to_configured_upstreams(config: ConfigView, model: Seq<char>)
    ensures
        match resolved(config, model) {
            Ok(route) => route == legacy_route(model) || exists|i: int|
                #[trigger] leads_to(config, route, i),
            Err(_) => true,
        },
{
    lemma_first_serving(config.upstreams, model);
    if let Ok(route) = resolved(config, model) {
        if let Some((upstream_name, upstream, name, found)) = asked_for(config, model) {
            let i = name_map::position_of_lookup(config.upstreams, upstream_name);
            assert(leads_to(config, route, i));
        } else {
            let i = not_serving(config.upstreams, model);
            if i < config.upstreams.len() {
                assert(leads_to(config, route, i));
            }
        }
    }
}

/// Whether every configured upstream has a base URL that is accepted.
pub open spec fn upstreams_resolve(upstreams: Seq<(Seq<char>, UpstreamView)>) -> bool {
    forall|i: int|
        0 <= i < upstreams.len() ==> endpoint::chat_url(
            (#[trigger] upstreams[i]).1.base_url,
        ) is Ok
}

/// Where every upstream has an accepted base URL, every model has a route.
pub proof fn every_model_has_a_route(config: ConfigView, model: Seq<char>)
    requires
        upstreams_resolve(config.upstreams),
    ensures
        resolved(config, model) is Ok,
{
    if let Some((upstream_name, upstream, name, found)) = asked_for(config, model) {
        let i = name_map::position_of_lookup(config.upstreams, upstream_name);
        assert(endpoint::chat_url(config.upstreams[i].1.base_url) is Ok);
    }
}

proof fn lemma_alternatives(
    config: ConfigView,
    n: int,
    exclude: Seq<char>,
    bare: Seq<char>,
    target: Seq<char>,
) -> (from: Seq<int>)
    requires
        0 <= n <= config.upstreams.len(),
    ensures
        ({
            let found = alternatives(config, config.upstreams.take(n), exclude, bare, target);
            &&& from.len() == found.len()
            &&& forall|k: int|
                0 <= k < found.len() ==> {
                    &&& 0 <= #[trigger] from[k] < n
                    &&& found[k].upstream_name != exclude
                    &&& leads_to(config, found[k], from[k])
                }
            &&& forall|k: int, l: int| 0 <= k < l < found.len() ==> from[k] < from[l]
            &&& forall|i: int|
                0 <= i < n && (#[trigger] config.upstreams[i]).0 != exclude && alternative(
                    config,
                    config.upstreams[i].0,
                    config.upstreams[i].1,
                    bare,
                    target,
                ) is Some ==> from.contains(i)
        }),
    decreases n,
{
    let found = alternatives(config, config.upstreams.take(n), exclude, bare, target);
    if n == 0 {
        Seq::empty()
    } else {
        let init = config.upstreams.take(n - 1);
        assert(config.upstreams.take(n).drop_last() == init);
        let before = lemma_alternatives(config, n - 1, exclude, bare, target);
        let (name, upstream) = config.upstreams[n - 1];
        assert(config.upstreams.take(n).last() == config.upstreams[n - 1]);
        let own = alternative(config, name, upstream, bare, target);
        if name != exclude && own is Some {
            let from = before.push(n - 1);
            assert(from[before.len() as int] == n - 1);
            assert forall|i: int|
                0 <= i < n && (#[trigger] config.upstreams[i]).0 != exclude && alternative(
                    config,
                    config.upstreams[i].0,
                    config.upstreams[i].1,
                    bare,
                    target,
                ) is Some implies from.contains(i) by {
                if i < n - 1 {
                    assert(before.contains(i));
                    let k = before.index_of(i);
                    assert(before[k] == i);
                    assert(from[k] == i);
                }
            }
            from
        } else {
            before
        }
    }
}

/// The failovers of a model lead to configured upstreams other than the
/// excluded one, in the order of their names and to none of them twice.
pub proof fn failovers_avoid_the_failed_upstream(
    config: ConfigView,
    model: Seq<char>,
    exclude: Seq<char>,
)
    requires
        name_map::ascending(config.upstreams),
    ensures
        forall|k: int|
            0 <= k < failovers(config, model, exclude).len() ==> {
                let route = #[trigger] failovers(config, model, exclude)[k];
                &&& route.upstream_name != exclude
                &&& exists|i: int| #[trigger] leads_to(config, route, i)
            },
        forall|k: int, l: int|
            0 <= k < l < failovers(config, model, exclude).len() ==> order::before(
                (#[trigger] failovers(config, model, exclude)[k]).upstream_name,
                (#[trigger] failovers(config, model, exclude)[l]).upstream_name,
            ),
{
    let all = config.upstreams;
    let found = failovers(config, model, exclude);
    assert(all.take(all.len() as int) == all);
    let from = lemma_alternatives(
        config,
        all.len() as int,
        exclude,
        bare_part(model),
        original_target(config, model),
    );
    assert forall|k: int| 0 <= k < found.len() implies {
        let route = #[trigger] found[k];
        &&& route.upstream_name != exclude
        &&& exists|i: int| #[trigger] leads_to(config, route, i)
    } by {
        assert(leads_to(config, found[k], from[k]));
    }
    assert forall|k: int, l: int| 0 <= k < l < found.len() implies order::before(
        (#[trigger] found[k]).upstream_name,
        (#[trigger] found[l]).upstream_name,
    ) by {
        assert(leads_to(config, found[k], from[k]));
        assert(leads_to(config, found[l], from[l]));
        assert(from[k] < from[l]);
    }
}

/// Another upstream that has a model under the same bare name, and an accepted
/// base URL, is among the failovers.
pub proof fn same_name_is_a_failover(
    config: ConfigView,
    model: Seq<char>,
    exclude: Seq<char>,
    i: int,
    j: int,
)
    requires
        0 <= i < config.upstreams.len(),
        config.upstreams[i].0 != exclude,
        endpoint::chat_url(config.upstreams[i].1.base_url) is Ok,
        0 <= j < config.upstreams[i].1.models.len(),
        config.upstreams[i].1.models[j].0 == bare_part(model),
    ensures
        exists|k: int|
            0 <= k < failovers(config, model, exclude).len() && leads_to(
                config,
                #[trigger] failovers(config, model, exclude)[k],
                i,
            ),
{
    let all = config.upstreams;
    let bare = bare_part(model);
    let target = original_target(config, model);
    assert(all.take(all.len() as int) == all);
    let from = lemma_alternatives(config, all.len() as int, exclude, bare, target);
    lemma_match_exists(all[i].1.models, bare, target, j);
    assert(alternative(config, all[i].0, all[i].1, bare, target) is Some);
    assert(from.contains(i));
    let k = from.index_of(i);
    assert(leads_to(config, failovers(config, model, exclude)[k], from[k]));
}

proof fn lemma_match_exists(
    models: Seq<(Seq<char>, ModelView)>,
    bare: Seq<char>,
    target: Seq<char>,
    j: int,
)
    requires
        0 <= j < models.len(),
        models[j].0 == bare || target_of(models[j].1, models[j].0) == target,
    ensures
        0 <= not_matching(models, bare, target) <= j,
    decreases j,
{
    if j > 0 && !(models.first().0 == bare || target_of(models.first().1, models.first().0)
        == target) {
        let rest = models.drop_first();
        assert(rest[j - 1] == models[j]);
        lemma_match_exists(rest, bare, target, j - 1);
    }
}

/// Copies the first of two optional strings that is there.
fn first_of(a: &Option<String>, b: &Option<String>) -> (r: Option<String>)
    ensures
        text::text_option(r) == first_text(text::text_option(*a), text::text_option(*b)),
{
    if a.is_some() {
        a.clone()
    } else {
        b.clone()
    }
}

impl Config {
    /// The model that an upstream serves under `name`.
    fn model_served(upstream: &UpstreamConfig, name: &str) -> (r: Option<ModelConfig>)
        ensures
            match r {
                Some(model) => served(upstream@, name@) == Some(model@),
                None => served(upstream@, name@) is None,
            },
    {
        if upstream.models.is_empty() {
            return Some(ModelConfig::default());
        }
        match upstream.models.get(name) {
            Some(model) => Some(
                ModelConfig {
                    target: model.target.clone(),
                    allow_failover: model.allow_failover,
                    reasoning_model: model.reasoning_model.clone(),
                    completion_model: model.completion_model.clone(),
                },
            ),
            None => None,
        }
    }

    /// The route to a model that is configured under `name` at an upstream.
    fn route(
        &self,
        upstream_name: &String,
        upstream: &UpstreamConfig,
        name: &str,
        model: &ModelConfig,
    ) -> (r: Result<ResolvedRoute, UrlError>)
        ensures
            route_outcome(r) == route_to(self@, upstream_name@, upstream@, name@, model@),
    {
        match Self::resolve_chat_completions_url(&upstream.base_url) {
            Ok(base_url) => Ok(
                ResolvedRoute {
                    upstream_name: upstream_name.clone(),
                    target: match &model.target {
                        Some(target) => target.clone(),
                        None => name.to_owned(),
                    },
                    base_url,
                    api_key: first_of(&upstream.api_key, &self.api_key),
                    allow_failover: model.allow_failover,
                    reasoning_model: model.reasoning_model.clone(),
                    completion_model: model.completion_model.clone(),
                    is_legacy: false,
                },
            ),
            Err(error) => Err(error),
        }
    }

    /// Finds out where a request for `model` goes.
    pub fn resolve_model(&self, model: &str) -> (r: Result<ResolvedRoute, UrlError>)
        ensures
            route_outcome(r) == resolved(self@, model@),
    {
        if let Some((prefix, name)) = split_text_once(model, '/') {
            if let Some(upstream) = self.upstreams.get(&prefix) {
                if let Some(found) = Self::model_served(upstream, &name) {
                    return self.route(&prefix, upstream, &name, &found);
                }
            }
        }
        let mut i: usize = 0;
        while i < self.upstreams.len()
            invariant
                i <= self.upstreams@.len(),
                asked_for(self@, model@) is None,
                forall|j: int|
                    0 <= j < i ==> served((#[trigger] self.upstreams@[j]).1, model@) is None,
            decreases self.upstreams@.len() - i,
        {
            let upstream = self.upstreams.value(i);
            if let Some(found) = Self::model_served(upstream, model) {
                proof {
                    lemma_not_serving(self.upstreams@, model@, i as int);
                }
                return self.route(self.upstreams.name(i), upstream, model, &found);
            }
            i += 1;
        }
        proof {
            lemma_not_serving(self.upstreams@, model@, i as int);
        }
        let route = ResolvedRoute {
            upstream_name: String::new(),
            target: model.to_owned(),
            base_url: String::new(),
            api_key: None,
            allow_failover: false,
            reasoning_model: None,
            completion_model: None,
            is_legacy: true,
        };
        assert(route@ == legacy_route(model@));
        Ok(route)
    }

    /// The route by which an upstream can serve in the place of another.
    fn alternative_at(
        &self,
        upstream_name: &String,
        upstream: &UpstreamConfig,
        bare: &str,
        target: &str,
    ) -> (r: Option<ResolvedRoute>)
        ensures
            match r {
                Some(route) => alternative(self@, upstream_name@, upstream@, bare@, target@)
                    == Some(route@),
                None => alternative(self@, upstream_name@, upstream@, bare@, target@) is None,
            },
    {
        let mut i: usize = 0;
        while i < upstream.models.len()
            invariant
                i <= upstream.models@.len(),
                forall|j: int|
                    0 <= j < i ==> (#[trigger] upstream.models@[j]).0 != bare@ && target_of(
                        upstream.models@[j].1,
                        upstream.models@[j].0,
                    ) != target@,
            decreases upstream.models@.len() - i,
        {
            let name = upstream.models.name(i);
            let model = upstream.models.value(i);
            let has_target = match &model.target {
                Some(own) => same_text(own, target),
                None => same_text(name, target),
            };
            if same_text(name, bare) || has_target {
                proof {
                    lemma_not_matching(upstream.models@, bare@, target@, i as int);
                }
                return match self.route(upstream_name, upstream, name, model) {
                    Ok(route) => Some(route),
                    Err(_) => None,
                };
            }
            i += 1;
        }
        proof {
            lemma_not_matching(upstream.models@, bare@, target@, i as int);
        }
        None
    }

    /// The routes by which `model` can be served when the upstream
    /// `exclude_upstream` fails, in the order of the names of the upstreams.
    pub fn failover_upstreams(&self, model: &str, exclude_upstream: &str) -> (r: Vec<
        ResolvedRoute,
    >)
        ensures
            routes(r@) == failovers(self@, model@, exclude_upstream@),
    {
        let target = match self.resolve_model(model) {
            Ok(route) => route.target,
            Err(_) => model.to_owned(),
        };
        let bare = match split_text_once(model, '/') {
            Some((_, rest)) => rest,
            None => model.to_owned(),
        };
        let mut r: Vec<ResolvedRoute> = Vec::new();
        let mut i: usize = 0;
        let ghost all = self.upstreams@;
        assert(all.take(0) == Seq::<(Seq<char>, UpstreamView)>::empty());
        assert(routes(r@) == Seq::<RouteView>::empty());
        while i < self.upstreams.len()
            invariant
                i <= all.len(),
                all == self.upstreams@,
                routes(r@) == alternatives(
                    self@,
                    all.take(i as int),
                    exclude_upstream@,
                    bare@,
                    target@,
                ),
            decreases all.len() - i,
        {
            let ghost done = routes(r@);
            assert(all.take(i + 1).drop_last() == all.take(i as int));
            assert(all.take(i + 1).last() == all[i as int]);
            let name = self.upstreams.name(i);
            if !same_text(name, exclude_upstream) {
                if let Some(route) = self.alternative_at(
                    name,
                    self.upstreams.value(i),
                    &bare,
                    &target,
                ) {
                    let ghost added = route@;
                    r.push(route);
                    assert(routes(r@) == done.push(added));
                }
            }
            i += 1;
        }
        assert(all.take(i as int) == all);
        r
    }
}

} // verus!
