//! Laws of routes: what a route carries, where it leads, and which others can
//! take its place.
use vstd::prelude::*;

use crate::config::{ConfigView, ModelConfig, UpstreamConfig, UpstreamView};
use crate::endpoint;
use crate::endpoint::UrlErrorView;
use crate::name_map;
use crate::order;
use crate::routing;
use crate::routing::{ResolvedRoute, RouteView};
use crate::text;

verus! {

/// The value of a route holds every field of it.
pub proof fn route_value_holds_every_field(route: ResolvedRoute)
    ensures
        route@.upstream_name == route.upstream_name@,
        route@.target == route.target@,
        route@.base_url == route.base_url@,
        route.api_key is None ==> route@.api_key is None,
        route.api_key is Some ==> route@.api_key == Some(route.api_key->0@),
        route@.allow_failover == route.allow_failover,
        route.reasoning_model is None ==> route@.reasoning_model is None,
        route.reasoning_model is Some ==> route@.reasoning_model == Some(
            route.reasoning_model->0@,
        ),
        route.completion_model is None ==> route@.completion_model is None,
        route.completion_model is Some ==> route@.completion_model == Some(
            route.completion_model->0@,
        ),
        route@.is_legacy == route.is_legacy,
{
}

/// The values of routes are the values of each, in their order.
pub proof fn values_of_routes(s: Seq<ResolvedRoute>)
    ensures
        routing::routes(s).len() == s.len(),
        forall|i: int| 0 <= i < s.len() ==> #[trigger] routing::routes(s)[i] == s[i]@,
{
}

/// The values of models and upstreams hold every field of them.
pub proof fn upstream_value_holds_every_field(upstream: UpstreamConfig, model: ModelConfig)
    ensures
        upstream@.base_url == upstream.base_url@,
        upstream.api_key is None ==> upstream@.api_key is None,
        upstream.api_key is Some ==> upstream@.api_key == Some(upstream.api_key->0@),
        upstream@.models == upstream.models@,
        model.target is None ==> model@.target is None,
        model.target is Some ==> model@.target == Some(model.target->0@),
        model@.allow_failover == model.allow_failover,
        model.reasoning_model is None ==> model@.reasoning_model is None,
        model.reasoning_model is Some ==> model@.reasoning_model == Some(
            model.reasoning_model->0@,
        ),
        model.completion_model is None ==> model@.completion_model is None,
        model.completion_model is Some ==> model@.completion_model == Some(
            model.completion_model->0@,
        ),
{
}

/// Whether a route carries the settings of the model at place `j` of the
/// upstream at place `i`: each of the model's own, the name and the key of the
/// upstream, or the key of the configuration where the upstream has none.
pub open spec fn carries(config: ConfigView, route: RouteView, i: int, j: int) -> bool {
    let upstream = config.upstreams[i].1;
    let (name, model) = upstream.models[j];
    &&& 0 <= i < config.upstreams.len()
    &&& 0 <= j < upstream.models.len()
    &&& route.upstream_name == config.upstreams[i].0
    &&& model.target is Some ==> route.target == model.target->0
    &&& model.target is None ==> route.target == name
    &&& endpoint::chat_url(upstream.base_url) == Ok::<Seq<char>, UrlErrorView>(route.base_url)
    &&& upstream.api_key is Some ==> route.api_key == upstream.api_key
    &&& upstream.api_key is None ==> route.api_key == config.api_key
    &&& route.allow_failover == model.allow_failover
    &&& route.reasoning_model == model.reasoning_model
    &&& route.completion_model == model.completion_model
    &&& !route.is_legacy
}

/// Whether a route leads to an upstream without models, and asks it for `name`
/// and for nothing else.
pub open spec fn passes_on(config: ConfigView, route: RouteView, i: int, name: Seq<char>) -> bool {
    let upstream = config.upstreams[i].1;
    &&& 0 <= i < config.upstreams.len()
    &&& upstream.models.len() == 0
    &&& route.upstream_name == config.upstreams[i].0
    &&& route.target == name
    &&& endpoint::chat_url(upstream.base_url) == Ok::<Seq<char>, UrlErrorView>(route.base_url)
    &&& upstream.api_key is Some ==> route.api_key == upstream.api_key
    &&& upstream.api_key is None ==> route.api_key == config.api_key
    &&& !route.allow_failover
    &&& route.reasoning_model is None
    &&& route.completion_model is None
    &&& !route.is_legacy
}

/// A model asked for as `upstream/name` gets a route with the settings of that
/// model at that upstream, or the refusal of the upstream's URL.
pub proof fn prefixed_model_keeps_its_settings(config: ConfigView, i: int, j: int)
    requires
        name_map::ascending(config.upstreams),
        0 <= i < config.upstreams.len(),
        !config.upstreams[i].0.contains('/'),
        name_map::ascending(config.upstreams[i].1.models),
        0 <= j < config.upstreams[i].1.models.len(),
    ensures
        match routing::resolved(
            config,
            config.upstreams[i].0.push('/') + config.upstreams[i].1.models[j].0,
        ) {
            Ok(route) => carries(config, route, i, j),
            Err(error) => endpoint::chat_url(config.upstreams[i].1.base_url) == Err::<
                Seq<char>,
                UrlErrorView,
            >(error),
        },
{
    let (name, upstream) = config.upstreams[i];
    assert(name.push('/') == name + seq!['/']);
    routing::prefix_selects_the_upstream(config, i, j);
}

/// A model asked for at an upstream without models is passed on under the name
/// after the prefix.
pub proof fn prefixed_model_is_passed_on(config: ConfigView, i: int, name: Seq<char>)
    requires
        name_map::ascending(config.upstreams),
        0 <= i < config.upstreams.len(),
        !config.upstreams[i].0.contains('/'),
        config.upstreams[i].1.models.len() == 0,
    ensures
        match routing::resolved(config, config.upstreams[i].0.push('/') + name) {
            Ok(route) => passes_on(config, route, i, name),
            Err(error) => endpoint::chat_url(config.upstreams[i].1.base_url) == Err::<
                Seq<char>,
                UrlErrorView,
            >(error),
        },
{
    assert(config.upstreams[i].0.push('/') == config.upstreams[i].0 + seq!['/']);
    routing::upstream_without_models_takes_any(config, i, name);
}

/// Whether the prefix of a model asks for no configured upstream that has it.
pub open spec fn prefix_asks_for_none(config: ConfigView, model: Seq<char>) -> bool {
    &&& forall|k: int, l: int|
        0 <= k < config.upstreams.len() && 0 <= l < config.upstreams[k].1.models.len()
            ==> #[trigger] config.upstreams[k].1.models[l].0 != model.skip(
            config.upstreams[k].0.len() as int + 1,
        ) || config.upstreams[k].0.push('/') != model.take(
            config.upstreams[k].0.len() as int + 1,
        ) || model.len() <= config.upstreams[k].0.len()
    &&& forall|k: int|
        0 <= k < config.upstreams.len() && (#[trigger] config.upstreams[k]).1.models.len() == 0
            ==> model.len() <= config.upstreams[k].0.len() || config.upstreams[k].0.push('/')
            != model.take(config.upstreams[k].0.len() as int + 1)
}

/// Whether an upstream has no model under `name`, and is not one without models.
pub open spec fn lacks(upstream: UpstreamView, name: Seq<char>) -> bool {
    &&& upstream.models.len() > 0
    &&& forall|l: int| 0 <= l < upstream.models.len() ==> (#[trigger] upstream.models[l]).0 != name
}

proof fn lemma_not_asked_for(config: ConfigView, model: Seq<char>)
    requires
        prefix_asks_for_none(config, model),
    ensures
        routing::asked_for(config, model) is None,
{
    if let Some((prefix, upstream, name, found)) = routing::asked_for(config, model) {
        let marks = seq!['/'];
        text::lemma_span(model, marks);
        let n = text::span(model, marks);
        assert(marks.contains(model[n]));
        assert(model[n] == '/');
        assert(prefix == model.take(n));
        assert(name == model.skip(n + 1));
        let k = name_map::position_of_lookup(config.upstreams, prefix);
        assert(prefix.push('/') == model.take(n + 1));
        if upstream.models.len() == 0 {
            assert(config.upstreams[k].1.models.len() == 0);
        } else {
            let l = name_map::position_of_lookup(upstream.models, name);
            assert(config.upstreams[k].1.models[l].0 == name);
        }
    }
}

proof fn lemma_lacks(upstream: UpstreamView, name: Seq<char>)
    requires
        lacks(upstream, name),
    ensures
        routing::served(upstream, name) is None,
{
    name_map::lookup_of_absent(upstream.models, name);
}

/// A model that no prefix asks for gets a route with the settings of the first
/// upstream, in the order of the names, that has it.
pub proof fn bare_model_keeps_its_settings(config: ConfigView, model: Seq<char>, i: int, j: int)
    requires
        prefix_asks_for_none(config, model),
        0 <= i < config.upstreams.len(),
        forall|k: int| 0 <= k < i ==> lacks((#[trigger] config.upstreams[k]).1, model),
        name_map::ascending(config.upstreams[i].1.models),
        0 <= j < config.upstreams[i].1.models.len(),
        config.upstreams[i].1.models[j].0 == model,
    ensures
        match routing::resolved(config, model) {
            Ok(route) => carries(config, route, i, j),
            Err(error) => endpoint::chat_url(config.upstreams[i].1.base_url) == Err::<
                Seq<char>,
                UrlErrorView,
            >(error),
        },
{
    lemma_not_asked_for(config, model);
    assert forall|k: int| 0 <= k < i implies routing::served(
        (#[trigger] config.upstreams[k]).1,
        model,
    ) is None by {
        lemma_lacks(config.upstreams[k].1, model);
    }
    name_map::lookup_of_entry(config.upstreams[i].1.models, j);
    routing::first_serving_upstream_is_taken(config, model, i);
}

/// A model that no prefix asks for is passed on to the first upstream where that
/// has no models.
pub proof fn bare_model_is_passed_on(config: ConfigView, model: Seq<char>, i: int)
    requires
        prefix_asks_for_none(config, model),
        0 <= i < config.upstreams.len(),
        forall|k: int| 0 <= k < i ==> lacks((#[trigger] config.upstreams[k]).1, model),
        config.upstreams[i].1.models.len() == 0,
    ensures
        match routing::resolved(config, model) {
            Ok(route) => passes_on(config, route, i, model),
            Err(error) => endpoint::chat_url(config.upstreams[i].1.base_url) == Err::<
                Seq<char>,
                UrlErrorView,
            >(error),
        },
{
    lemma_not_asked_for(config, model);
    assert forall|k: int| 0 <= k < i implies routing::served(
        (#[trigger] config.upstreams[k]).1,
        model,
    ) is None by {
        lemma_lacks(config.upstreams[k].1, model);
    }
    routing::first_serving_upstream_is_taken(config, model, i);
}

/// A model that no upstream has goes on under its own name, without an upstream,
/// a key or any settings.
pub proof fn unserved_model_is_left_alone(config: ConfigView, model: Seq<char>)
    requires
        prefix_asks_for_none(config, model),
        forall|k: int|
            0 <= k < config.upstreams.len() ==> lacks((#[trigger] config.upstreams[k]).1, model),
    ensures
        routing::resolved(config, model) is Ok,
        ({
            let route = routing::resolved(config, model)->Ok_0;
            &&& route.is_legacy
            &&& route.target == model
            &&& route.upstream_name.len() == 0
            &&& route.base_url.len() == 0
            &&& route.api_key is None
            &&& !route.allow_failover
            &&& route.reasoning_model is None
            &&& route.completion_model is None
        }),
{
    lemma_not_asked_for(config, model);
    assert forall|k: int| 0 <= k < config.upstreams.len() implies routing::served(
        (#[trigger] config.upstreams[k]).1,
        model,
    ) is None by {
        lemma_lacks(config.upstreams[k].1, model);
    }
    routing::legacy_exactly_when_unserved(config, model);
}

/// Whether the model at place `j` of an upstream is called `bare`, or known to
/// the upstream as `target`.
pub open spec fn matches_by_name(
    upstream: UpstreamView,
    j: int,
    bare: Seq<char>,
    target: Seq<char>,
) -> bool {
    let (name, model) = upstream.models[j];
    ||| name == bare
    ||| model.target is Some && model.target->0 == target
    ||| model.target is None && name == target
}

/// Whether `bare` is what comes after the first `/` of a model, or all of it
/// where it has none.
pub open spec fn bare_name(model: Seq<char>, bare: Seq<char>) -> bool {
    ||| !model.contains('/') && bare == model
    ||| exists|n: int|
        0 <= n < model.len() && #[trigger] model[n] == '/' && !model.take(n).contains('/') && bare
            == model.skip(n + 1)
}

proof fn lemma_bare_name(model: Seq<char>, bare: Seq<char>)
    requires
        bare_name(model, bare),
    ensures
        routing::bare_part(model) == bare,
{
    if !model.contains('/') && bare == model {
        let marks = seq!['/'];
        assert forall|i: int| 0 <= i < model.len() implies !marks.contains(#[trigger] model[i]) by {
            assert(model[i] != '/');
        }
        text::lemma_span_is(model, marks, model.len() as int);
    } else {
        let n = choose|n: int|
            0 <= n < model.len() && #[trigger] model[n] == '/' && !model.take(n).contains('/')
                && bare == model.skip(n + 1);
        routing::lemma_split_after(model.take(n), bare);
        assert(model.take(n) + seq!['/'] + bare == model);
    }
}

/// Whether `target` is what the upstream of a model would be asked for, or the
/// model itself where it has no route.
pub open spec fn asked_target(config: ConfigView, model: Seq<char>, target: Seq<char>) -> bool {
    match routing::resolved(config, model) {
        Ok(route) => target == route.target,
        Err(_) => target == model,
    }
}

/// Another upstream that has a model of the same bare name or the same target is
/// a failover, by the first such model it has, with the settings of that model.
pub proof fn every_match_is_a_failover(
    config: ConfigView,
    model: Seq<char>,
    exclude: Seq<char>,
    bare: Seq<char>,
    target: Seq<char>,
    i: int,
    j: int,
)
    requires
        bare_name(model, bare),
        asked_target(config, model, target),
        0 <= i < config.upstreams.len(),
        config.upstreams[i].0 != exclude,
        endpoint::chat_url(config.upstreams[i].1.base_url) is Ok,
        0 <= j < config.upstreams[i].1.models.len(),
        matches_by_name(config.upstreams[i].1, j, bare, target),
        forall|l: int|
            0 <= l < j ==> !#[trigger] matches_by_name(
                config.upstreams[i].1,
                l,
                bare,
                target,
            ),
    ensures
        exists|k: int|
            0 <= k < routing::failovers(config, model, exclude).len() && carries(
                config,
                #[trigger] routing::failovers(config, model, exclude)[k],
                i,
                j,
            ),
{
    lemma_bare_name(model, bare);
    lemma_first_match(config.upstreams[i].1, bare, target, j);
    let n = config.upstreams.len() as int;
    assert(config.upstreams.take(n) == config.upstreams);
    let k = lemma_alternative_listed(config, n, exclude, bare, target, i);
    assert(carries(config, routing::failovers(config, model, exclude)[k], i, j));
}

proof fn lemma_first_match(upstream: UpstreamView, bare: Seq<char>, target: Seq<char>, j: int)
    requires
        0 <= j < upstream.models.len(),
        matches_by_name(upstream, j, bare, target),
        forall|l: int| 0 <= l < j ==> !#[trigger] matches_by_name(upstream, l, bare, target),
    ensures
        routing::not_matching(upstream.models, bare, target) == j,
    decreases j,
{
    if j > 0 {
        assert(!matches_by_name(upstream, 0, bare, target));
        let rest = UpstreamView { models: upstream.models.drop_first(), ..upstream };
        assert(forall|l: int|
            0 <= l < rest.models.len() ==> #[trigger] rest.models[l] == upstream.models[l + 1]);
        assert forall|l: int| 0 <= l < j - 1 implies !#[trigger] matches_by_name(
            rest,
            l,
            bare,
            target,
        ) by {
            assert(!matches_by_name(upstream, l + 1, bare, target));
        }
        lemma_first_match(rest, bare, target, j - 1);
    }
}

proof fn lemma_alternative_listed(
    config: ConfigView,
    n: int,
    exclude: Seq<char>,
    bare: Seq<char>,
    target: Seq<char>,
    i: int,
) -> (k: int)
    requires
        0 <= i < n <= config.upstreams.len(),
        config.upstreams[i].0 != exclude,
        routing::alternative(
            config,
            config.upstreams[i].0,
            config.upstreams[i].1,
            bare,
            target,
        ) is Some,
    ensures
        0 <= k < routing::alternatives(
            config,
            config.upstreams.take(n),
            exclude,
            bare,
            target,
        ).len(),
        routing::alternatives(config, config.upstreams.take(n), exclude, bare, target)[k]
            == routing::alternative(
            config,
            config.upstreams[i].0,
            config.upstreams[i].1,
            bare,
            target,
        )->0,
    decreases n,
{
    let s = config.upstreams.take(n);
    assert(s.drop_last() == config.upstreams.take(n - 1));
    assert(s.last() == config.upstreams[n - 1]);
    if i == n - 1 {
        routing::alternatives(config, s.drop_last(), exclude, bare, target).len() as int
    } else {
        lemma_alternative_listed(config, n - 1, exclude, bare, target, i)
    }
}

/// A failover is the route to a model of another upstream that has the same bare
/// name or the same target, with the settings of that model.
pub proof fn every_failover_is_a_match(
    config: ConfigView,
    model: Seq<char>,
    exclude: Seq<char>,
    bare: Seq<char>,
    target: Seq<char>,
    k: int,
) -> (r: (int, int))
    requires
        bare_name(model, bare),
        asked_target(config, model, target),
        0 <= k < routing::failovers(config, model, exclude).len(),
    ensures
        carries(config, routing::failovers(config, model, exclude)[k], r.0, r.1),
        config.upstreams[r.0].0 != exclude,
        matches_by_name(config.upstreams[r.0].1, r.1, bare, target),
{
    lemma_bare_name(model, bare);
    let n = config.upstreams.len() as int;
    assert(config.upstreams.take(n) == config.upstreams);
    lemma_alternative_source(config, n, exclude, bare, target, k)
}

proof fn lemma_alternative_source(
    config: ConfigView,
    n: int,
    exclude: Seq<char>,
    bare: Seq<char>,
    target: Seq<char>,
    k: int,
) -> (r: (int, int))
    requires
        0 <= n <= config.upstreams.len(),
        0 <= k < routing::alternatives(
            config,
            config.upstreams.take(n),
            exclude,
            bare,
            target,
        ).len(),
    ensures
        carries(
            config,
            routing::alternatives(config, config.upstreams.take(n), exclude, bare, target)[k],
            r.0,
            r.1,
        ),
        config.upstreams[r.0].0 != exclude,
        matches_by_name(config.upstreams[r.0].1, r.1, bare, target),
    decreases n,
{
    let s = config.upstreams.take(n);
    assert(s.drop_last() == config.upstreams.take(n - 1));
    assert(s.last() == config.upstreams[n - 1]);
    let before = routing::alternatives(config, s.drop_last(), exclude, bare, target);
    if k < before.len() {
        lemma_alternative_source(config, n - 1, exclude, bare, target, k)
    } else {
        let upstream = config.upstreams[n - 1].1;
        let j = routing::not_matching(upstream.models, bare, target);
        lemma_stops_at_match(upstream, bare, target);
        (n - 1, j)
    }
}

proof fn lemma_stops_at_match(upstream: UpstreamView, bare: Seq<char>, target: Seq<char>)
    ensures
        ({
            let j = routing::not_matching(upstream.models, bare, target);
            0 <= j < upstream.models.len() ==> matches_by_name(upstream, j, bare, target)
        }),
        routing::not_matching(upstream.models, bare, target) >= 0,
    decreases upstream.models.len(),
{
    if upstream.models.len() > 0 && !matches_by_name(upstream, 0, bare, target) {
        let rest = UpstreamView { models: upstream.models.drop_first(), ..upstream };
        lemma_stops_at_match(rest, bare, target);
        let j = routing::not_matching(upstream.models, bare, target);
        if 1 <= j < upstream.models.len() {
            assert(rest.models[j - 1] == upstream.models[j]);
        }
    }
}

/// The failovers follow the order of the names of their upstreams, so that none
/// of these is there twice.
pub proof fn failovers_are_in_order(
    config: ConfigView,
    model: Seq<char>,
    exclude: Seq<char>,
    k: int,
    l: int,
)
    requires
        name_map::ascending(config.upstreams),
        0 <= k < l < routing::failovers(config, model, exclude).len(),
    ensures
        order::before(
            routing::failovers(config, model, exclude)[k].upstream_name,
            routing::failovers(config, model, exclude)[l].upstream_name,
        ),
{
    routing::failovers_avoid_the_failed_upstream(config, model, exclude);
}

/// Of two texts the first is taken where it is there, and else the second.
pub proof fn first_of_two_texts(a: Seq<char>, b: Option<Seq<char>>)
    ensures
        routing::first_text(Some(a), b) == Some(a),
        routing::first_text(None, b) == b,
{
}

/// Upstreams resolve where the URL of each of them is accepted.
pub proof fn resolving_upstreams(config: ConfigView)
    ensures
        routing::upstreams_resolve(config.upstreams) <==> forall|i: int|
            0 <= i < config.upstreams.len() ==> endpoint::chat_url(
                (#[trigger] config.upstreams[i]).1.base_url,
            ) is Ok,
{
}

} // verus!
