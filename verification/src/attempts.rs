//! The attempts at a request: which upstreams are tried, in which order, and
//! what each reply leads to.
use vstd::prelude::*;
use vstd::string::StringExecFns;

use crate::boundary;
use crate::config::{Config, ConfigView};
use crate::endpoint;
use crate::endpoint::{UrlError, UrlErrorView};
use crate::lists;
use crate::metrics;
use crate::metrics::{upstream_error, upstream_latency, Update, UpdateView};
use crate::name_map;
use crate::routing;
use crate::routing::{ResolvedRoute, RouteView};
use crate::status;
use crate::status::{is_retriable_status, Status};
use crate::text;

verus! {

/// The attempt at one of the plain upstream URLs.
pub open spec fn legacy_attempt(config: ConfigView, model: Seq<char>, url: Seq<char>) -> RouteView {
    RouteView { base_url: url, api_key: config.api_key, ..routing::legacy_route(model) }
}

/// The attempts at a request for a model that has the given route: at the plain
/// upstream URLs where no configured upstream serves the model, or else at the
/// upstream of the route and, where that is allowed, at those that can serve
/// in its place.
pub open spec fn planned(config: ConfigView, model: Seq<char>, route: RouteView) -> Seq<
    RouteView,
> {
    if route.is_legacy {
        Seq::new(
            config.upstream_urls.len(),
            |i: int|
                legacy_attempt(config, route.target, lists::chat_urls(config.upstream_urls)[i]),
        )
    } else if route.allow_failover {
        seq![route] + routing::failovers(config, model, route.upstream_name)
    } else {
        seq![route]
    }
}

/// What came back from an upstream.
#[derive(Debug, Clone)]
pub enum Reply {
    /// No response; holds what the client says of it.
    Unreachable(String),
    /// A response, with its body where that was read.
    Answered { status: Status, body: Option<String> },
}

/// The value of a [`Reply`].
pub enum ReplyView {
    Unreachable(Seq<char>),
    Answered { status: u16, body: Option<Seq<char>> },
}

impl View for Reply {
    type V = ReplyView;

    open spec fn view(&self) -> ReplyView {
        match self {
            Reply::Unreachable(message) => ReplyView::Unreachable(message@),
            Reply::Answered { status, body } => ReplyView::Answered {
                status: status@,
                body: text::text_option(*body),
            },
        }
    }
}

/// Why a request failed.
#[derive(Debug, Clone)]
pub enum RequestError {
    /// The last upstream was not reached.
    Http(String),
    /// An upstream refused the request, or there was none.
    Upstream(String),
}

/// The value of a [`RequestError`].
pub enum RequestErrorView {
    Http(Seq<char>),
    Upstream(Seq<char>),
}

impl View for RequestError {
    type V = RequestErrorView;

    open spec fn view(&self) -> RequestErrorView {
        match self {
            RequestError::Http(message) => RequestErrorView::Http(message@),
            RequestError::Upstream(message) => RequestErrorView::Upstream(message@),
        }
    }
}

/// What is done next.
#[derive(Debug, Clone)]
pub enum Step {
    /// Make the attempt at this place of the plan.
    Try(usize),
    /// Hand the response on.
    Deliver,
    /// Give up.
    Fail(RequestError),
}

/// The value of a [`Step`].
pub enum StepView {
    Try(int),
    Deliver,
    Fail(RequestErrorView),
}

impl View for Step {
    type V = StepView;

    open spec fn view(&self) -> StepView {
        match self {
            Step::Try(index) => StepView::Try(*index as int),
            Step::Deliver => StepView::Deliver,
            Step::Fail(error) => StepView::Fail(error@),
        }
    }
}

/// The step with which a plan of `count` attempts starts.
pub open spec fn first_step(count: int) -> StepView {
    if count > 0 {
        StepView::Try(0)
    } else {
        StepView::Fail(RequestErrorView::Upstream("All upstreams failed"@))
    }
}

/// Whether a reply lets the next upstream be tried.
pub open spec fn lets_retry(reply: ReplyView) -> bool {
    match reply {
        ReplyView::Unreachable(_) => true,
        ReplyView::Answered { status, .. } => status::retriable(status),
    }
}

/// Whether a reply is handed on.
pub open spec fn delivers(reply: ReplyView) -> bool {
    reply matches ReplyView::Answered { status, .. } && status::success(status)
}

/// What is said of a response that was refused.
pub open spec fn refusal(code: u16, body: Option<Seq<char>>) -> Seq<char> {
    "Upstream returned "@ + boundary::status_line(code)->0 + ": "@ + match body {
        Some(content) => content,
        None => "Unknown error"@,
    }
}

/// The error that a reply stands for.
pub open spec fn error_of(reply: ReplyView) -> RequestErrorView {
    match reply {
        ReplyView::Unreachable(message) => RequestErrorView::Http(message),
        ReplyView::Answered { status, body } => RequestErrorView::Upstream(refusal(status, body)),
    }
}

/// The step after the reply to the attempt at place `index` of `count`.
pub open spec fn next_step(count: int, index: int, reply: ReplyView) -> StepView {
    if delivers(reply) {
        StepView::Deliver
    } else if lets_retry(reply) && index + 1 < count {
        StepView::Try(index + 1)
    } else {
        StepView::Fail(error_of(reply))
    }
}

/// What a reply changes in the metrics: how long it took, where the upstream
/// answered, and one more error, where the reply is not handed on.
pub open spec fn metrics_after(reply: ReplyView) -> Seq<UpdateView> {
    let answered = if reply is Answered {
        metrics::upstream_answered("chat_completions"@)
    } else {
        Seq::empty()
    };
    if delivers(reply) {
        answered
    } else {
        answered + metrics::upstream_failed("chat_completions"@)
    }
}

/// The place of the last attempt that is made, from place `index` on, where the
/// reply to each attempt is the one at its place.
pub open spec fn last_attempt(replies: Seq<ReplyView>, index: int) -> int
    decreases replies.len() - index,
{
    if 0 <= index < replies.len() {
        match next_step(replies.len() as int, index, replies[index]) {
            StepView::Try(next) => if index < next {
                last_attempt(replies, next)
            } else {
                index
            },
            _ => index,
        }
    } else {
        index
    }
}

proof fn lemma_last_attempt(replies: Seq<ReplyView>, index: int, last: int)
    requires
        0 <= index <= last < replies.len(),
        forall|i: int| index <= i < last ==> lets_retry(#[trigger] replies[i]),
        last + 1 == replies.len() || !lets_retry(replies[last]),
    ensures
        last_attempt(replies, index) == last,
    decreases last - index,
{
    if index < last {
        assert(lets_retry(replies[index]));
        lemma_last_attempt(replies, index + 1, last);
    }
}

/// The upstreams are tried in the order of the plan, each of them once, until
/// one succeeds or refuses the request for good, or none is left. What that
/// last one replied decides: a success is delivered, anything else is the error
/// that is reported.
pub proof fn first_decisive_reply_counts(replies: Seq<ReplyView>, last: int)
    requires
        0 <= last < replies.len(),
        forall|i: int| 0 <= i < last ==> lets_retry(#[trigger] replies[i]),
        last + 1 == replies.len() || !lets_retry(replies[last]),
    ensures
        last_attempt(replies, 0) == last,
        next_step(replies.len() as int, last, replies[last]) == if delivers(replies[last]) {
            StepView::Deliver
        } else {
            StepView::Fail(error_of(replies[last]))
        },
{
    lemma_last_attempt(replies, 0, last);
}

/// After every reply the plan ends or goes on with the attempt that comes next.
pub proof fn attempts_go_forward(count: int, index: int, reply: ReplyView)
    requires
        0 <= index < count,
    ensures
        match next_step(count, index, reply) {
            StepView::Try(next) => next == index + 1 && next < count && lets_retry(reply),
            StepView::Deliver => delivers(reply),
            StepView::Fail(error) => !delivers(reply) && error == error_of(reply),
        },
{
}

/// A model that may not fail over is tried at one upstream alone.
pub proof fn without_failover_one_attempt(config: ConfigView, model: Seq<char>, route: RouteView)
    requires
        !route.is_legacy,
        !route.allow_failover,
    ensures
        planned(config, model, route) == seq![route],
{
}

/// A request for a model that no configured upstream serves is tried at every
/// one of the plain upstream URLs, in their order and with the key of the
/// configuration.
pub proof fn legacy_requests_try_every_url(config: ConfigView, model: Seq<char>)
    requires
        lists::all_resolve(config.upstream_urls),
    ensures
        planned(config, model, routing::legacy_route(model)).len() == config.upstream_urls.len(),
        forall|i: int|
            0 <= i < config.upstream_urls.len() ==> {
                let attempt = #[trigger] planned(config, model, routing::legacy_route(model))[i];
                &&& endpoint::chat_url(config.upstream_urls[i]) == Ok::<Seq<char>, UrlErrorView>(
                    attempt.base_url,
                )
                &&& attempt.api_key == config.api_key
                &&& attempt.target == model
            },
{
    assert forall|i: int| 0 <= i < config.upstream_urls.len() implies endpoint::chat_url(
        config.upstream_urls[i],
    ) == Ok::<Seq<char>, UrlErrorView>(
        (#[trigger] planned(config, model, routing::legacy_route(model))[i]).base_url,
    ) by {
        assert(endpoint::chat_url(config.upstream_urls[i]) is Ok);
    }
}

/// The attempts of a routed request start with its route, and no upstream is
/// tried twice.
pub proof fn no_upstream_twice(config: ConfigView, model: Seq<char>, route: RouteView)
    requires
        name_map::ascending(config.upstreams),
        !route.is_legacy,
    ensures
        planned(config, model, route).len() > 0,
        planned(config, model, route)[0] == route,
        forall|i: int, j: int|
            0 <= i < j < planned(config, model, route).len() ==> (#[trigger] planned(
                config,
                model,
                route,
            )[i]).upstream_name != (#[trigger] planned(config, model, route)[j]).upstream_name,
{
    let others = routing::failovers(config, model, route.upstream_name);
    let plan = planned(config, model, route);
    routing::failovers_avoid_the_failed_upstream(config, model, route.upstream_name);
    assert forall|i: int, j: int| 0 <= i < j < plan.len() implies (
        #[trigger] plan[i]).upstream_name != (#[trigger] plan[j]).upstream_name by {
        assert(plan[j] == others[j - 1]);
        if i > 0 {
            assert(plan[i] == others[i - 1]);
            crate::order::order_is_irreflexive(others[i - 1].upstream_name);
        }
    }
}

/// The step with which a plan starts.
pub fn first_attempt(count: usize) -> (r: Step)
    ensures
        r@ == first_step(count as int),
{
    if count > 0 {
        Step::Try(0)
    } else {
        Step::Fail(RequestError::Upstream("All upstreams failed".to_owned()))
    }
}

/// The step after a reply.
pub fn after_reply(count: usize, index: usize, reply: Reply) -> (r: Step)
    ensures
        r@ == next_step(count as int, index as int, reply@),
{
    let more = index < count && count - index > 1;
    match reply {
        Reply::Unreachable(message) => {
            if more {
                Step::Try(index + 1)
            } else {
                Step::Fail(RequestError::Http(message))
            }
        },
        Reply::Answered { status, body } => {
            if status.is_success() {
                Step::Deliver
            } else if more && is_retriable_status(status.code()) {
                Step::Try(index + 1)
            } else {
                let content = match body {
                    Some(content) => content,
                    None => "Unknown error".to_owned(),
                };
                let line = status.line();
                Step::Fail(
                    RequestError::Upstream(
                        "Upstream returned ".to_owned().concat(&line).concat(": ").concat(&content),
                    ),
                )
            }
        },
    }
}

/// What a reply changes in the metrics.
pub fn reply_metrics(reply: &Reply) -> (r: Vec<Update>)
    ensures
        metrics::updates(r@) == metrics_after(reply@),
{
    let mut r: Vec<Update> = Vec::new();
    let ghost none = Seq::<UpdateView>::empty();
    assert(metrics::updates(r@) == none);
    let mut failed = true;
    if let Reply::Answered { status, .. } = reply {
        r = upstream_latency("chat_completions");
        failed = !status.is_success();
    }
    if failed {
        let ghost before = metrics::updates(r@);
        let mut error = upstream_error("chat_completions");
        let ghost added = metrics::updates(error@);
        r.append(&mut error);
        assert(metrics::updates(r@) == before + added);
    }
    r
}

impl Config {
    /// The attempts at a request for `model` that has the given route.
    pub fn plan(&self, model: &str, route: ResolvedRoute) -> (r: Vec<ResolvedRoute>)
        requires
            route.is_legacy ==> lists::all_resolve(self@.upstream_urls),
        ensures
            routing::routes(r@) == planned(self@, model@, route@),
    {
        let ghost given = route@;
        let mut r: Vec<ResolvedRoute> = Vec::new();
        if route.is_legacy {
            let urls = self.chat_completions_urls();
            let ghost all = text::texts(urls@);
            let ghost plan = planned(self@, model@, given);
            let mut i: usize = 0;
            assert(given.is_legacy);
            assert(all.len() == plan.len());
            while i < urls.len()
                invariant
                    i <= urls@.len(),
                    all.len() == plan.len(),
                    all == text::texts(urls@),
                    all == lists::chat_urls(self@.upstream_urls),
                    given == route@,
                    route.is_legacy,
                    plan == planned(self@, model@, given),
                    routing::routes(r@) == plan.take(i as int),
                decreases urls@.len() - i,
            {
                let attempt = ResolvedRoute {
                    upstream_name: String::new(),
                    target: route.target.clone(),
                    base_url: urls[i].clone(),
                    api_key: self.api_key.clone(),
                    allow_failover: false,
                    reasoning_model: None,
                    completion_model: None,
                    is_legacy: true,
                };
                assert(all[i as int] == urls@[i as int]@);
                assert(attempt@ == plan[i as int]);
                let ghost done = routing::routes(r@);
                r.push(attempt);
                assert(routing::routes(r@) == done.push(plan[i as int]));
                assert(plan.take(i + 1) == plan.take(i as int).push(plan[i as int]));
                i += 1;
            }
            assert(plan.take(i as int) == plan);
        } else if route.allow_failover {
            let mut others = self.failover_upstreams(model, &route.upstream_name);
            r.push(route);
            let ghost found = others@;
            r.append(&mut others);
            assert(routing::routes(r@) == seq![given] + routing::routes(found));
        } else {
            r.push(route);
            assert(routing::routes(r@) == seq![given]);
        }
        r
    }

    /// The attempts at a request for `model`. There is no plan where the model
    /// goes to the plain upstream URLs and one of these is not accepted.
    pub fn plan_request(&self, model: &str) -> (r: Result<Option<Vec<ResolvedRoute>>, UrlError>)
        ensures
            match r {
                Err(error) => routing::resolved(self@, model@) == Err::<RouteView, UrlErrorView>(
                    error@,
                ),
                Ok(plan) => routing::resolved(self@, model@) is Ok && ({
                    let route = routing::resolved(self@, model@)->Ok_0;
                    match plan {
                        Some(attempts) => routing::routes(attempts@) == planned(
                            self@,
                            model@,
                            route,
                        ) && (route.is_legacy ==> lists::all_resolve(self@.upstream_urls)),
                        None => route.is_legacy && !lists::all_resolve(self@.upstream_urls),
                    }
                }),
            },
    {
        match self.resolve_model(model) {
            Err(error) => Err(error),
            Ok(route) => {
                if route.is_legacy && !self.upstream_urls_resolve() {
                    Ok(None)
                } else {
                    Ok(Some(self.plan(model, route)))
                }
            },
        }
    }
}

} // verus!
