//! Laws of attempts: what a plan holds, and where a reply leads.
use vstd::prelude::*;

use crate::attempts;
use crate::attempts::{Reply, ReplyView, RequestError, RequestErrorView, Step, StepView};
use crate::boundary;
use crate::config::ConfigView;
use crate::endpoint;
use crate::endpoint::UrlErrorView;
use crate::laws::routing as routes;
use crate::routing;
use crate::routing::RouteView;

verus! {

/// The plan for a model that may fail over is its route and then every failover
/// there is, in their order; each of them is tried.
pub proof fn every_failover_is_tried(config: ConfigView, model: Seq<char>, route: RouteView)
    requires
        !route.is_legacy,
        route.allow_failover,
    ensures
        ({
            let plan = attempts::planned(config, model, route);
            let others = routing::failovers(config, model, route.upstream_name);
            &&& plan.len() == 1 + others.len()
            &&& plan[0] == route
            &&& forall|k: int| 0 <= k < others.len() ==> plan[k + 1] == #[trigger] others[k]
        }),
{
}

/// Every other upstream that has the model, by its bare name or its target, and
/// whose URL is accepted, is tried by a plan that may fail over.
pub proof fn every_matching_upstream_is_tried(
    config: ConfigView,
    model: Seq<char>,
    bare: Seq<char>,
    i: int,
    j: int,
)
    requires
        routes::bare_name(model, bare),
        routing::resolved(config, model) is Ok,
        ({
            let route = routing::resolved(config, model)->Ok_0;
            &&& !route.is_legacy
            &&& route.allow_failover
            &&& 0 <= i < config.upstreams.len()
            &&& config.upstreams[i].0 != route.upstream_name
            &&& endpoint::chat_url(config.upstreams[i].1.base_url) is Ok
            &&& 0 <= j < config.upstreams[i].1.models.len()
            &&& routes::matches_by_name(config.upstreams[i].1, j, bare, route.target)
            &&& forall|l: int|
                0 <= l < j ==> !#[trigger] routes::matches_by_name(
                    config.upstreams[i].1,
                    l,
                    bare,
                    route.target,
                )
        }),
    ensures
        ({
            let plan = attempts::planned(config, model, routing::resolved(config, model)->Ok_0);
            exists|k: int| 1 <= k < plan.len() && routes::carries(config, #[trigger] plan[k], i, j)
        }),
{
    let route = routing::resolved(config, model)->Ok_0;
    let others = routing::failovers(config, model, route.upstream_name);
    let plan = attempts::planned(config, model, route);
    routes::every_match_is_a_failover(
        config,
        model,
        route.upstream_name,
        bare,
        route.target,
        i,
        j,
    );
    let k = choose|k: int| 0 <= k < others.len() && routes::carries(
        config,
        #[trigger] others[k],
        i,
        j,
    );
    every_failover_is_tried(config, model, route);
    assert(plan[k + 1] == others[k]);
    assert(routes::carries(config, plan[k + 1], i, j));
}

/// The plan for a model that may not fail over is its route alone.
pub proof fn nothing_else_is_tried(config: ConfigView, model: Seq<char>, route: RouteView)
    requires
        !route.is_legacy,
        !route.allow_failover,
    ensures
        attempts::planned(config, model, route).len() == 1,
        attempts::planned(config, model, route)[0] == route,
{
}

/// The plan for a model that no upstream has is one attempt for each plain URL,
/// in their order: at its endpoint, for the target of the route, with the key
/// of the configuration and no settings.
pub proof fn every_plain_url_is_tried(
    config: ConfigView,
    model: Seq<char>,
    route: RouteView,
    i: int,
)
    requires
        route.is_legacy,
        0 <= i < config.upstream_urls.len(),
        endpoint::chat_url(config.upstream_urls[i]) is Ok,
    ensures
        ({
            let plan = attempts::planned(config, model, route);
            &&& plan.len() == config.upstream_urls.len()
            &&& endpoint::chat_url(config.upstream_urls[i]) == Ok::<Seq<char>, UrlErrorView>(
                plan[i].base_url,
            )
            &&& plan[i].target == route.target
            &&& plan[i].api_key == config.api_key
            &&& plan[i].upstream_name.len() == 0
            &&& !plan[i].allow_failover
            &&& plan[i].reasoning_model is None
            &&& plan[i].completion_model is None
            &&& plan[i].is_legacy
        }),
{
}

/// A reply with a status leads to the next upstream, where there is one, if and
/// only if the status is 429 or from 500 to 599; it is delivered if and only if
/// the status is from 200 to 299; and it fails the request in every other case.
pub proof fn statuses_decide(count: int, index: int, status: u16, body: Option<Seq<char>>)
    requires
        0 <= index < count,
    ensures
        ({
            let step = attempts::next_step(count, index, ReplyView::Answered { status, body });
            &&& index + 1 < count ==> (step == StepView::Try(index + 1) <==> status == 429 || 500
                <= status <= 599)
            &&& step == StepView::Deliver <==> 200 <= status <= 299
            &&& step is Fail <==> !(200 <= status <= 299) && (index + 1 == count || !(status == 429
                || 500 <= status <= 599))
            &&& step is Try ==> step == StepView::Try(index + 1)
        }),
{
}

/// An upstream that is not reached is followed by the next one; the last one
/// fails the request with what is said of it.
pub proof fn unreachable_upstreams_are_skipped(count: int, index: int, message: Seq<char>)
    requires
        0 <= index < count,
    ensures
        ({
            let step = attempts::next_step(count, index, ReplyView::Unreachable(message));
            &&& index + 1 < count ==> step == StepView::Try(index + 1)
            &&& index + 1 == count ==> step == StepView::Fail(RequestErrorView::Http(message))
        }),
{
}

/// A request that a status fails is reported with the status and the body, or
/// with the words for a body that could not be read.
pub proof fn refusals_are_reported(
    count: int,
    index: int,
    status: u16,
    line: Seq<char>,
    body: Seq<char>,
)
    requires
        0 <= index < count,
        !(200 <= status <= 299),
        index + 1 == count || !(status == 429 || 500 <= status <= 599),
        boundary::status_line(status) == Some(line),
    ensures
        attempts::next_step(count, index, ReplyView::Answered { status, body: Some(body) })
            == StepView::Fail(
            RequestErrorView::Upstream("Upstream returned "@ + line + ": "@ + body),
        ),
        attempts::next_step(count, index, ReplyView::Answered { status, body: None })
            == StepView::Fail(
            RequestErrorView::Upstream("Upstream returned "@ + line + ": "@ + "Unknown error"@),
        ),
{
}

/// A plan starts with its first attempt, and fails where it has none.
pub proof fn plans_start_at_the_front(count: int)
    requires
        count >= 0,
    ensures
        count > 0 ==> attempts::first_step(count) == StepView::Try(0),
        count == 0 ==> attempts::first_step(count) == StepView::Fail(
            RequestErrorView::Upstream("All upstreams failed"@),
        ),
{
}

/// Whether a reply is from an upstream that is down or overloaded.
pub open spec fn is_down(reply: ReplyView) -> bool {
    match reply {
        ReplyView::Unreachable(_) => true,
        ReplyView::Answered { status, .. } => status == 429 || 500 <= status <= 599,
    }
}

/// A request goes past every upstream that is down or overloaded, to the first
/// that is not.
pub proof fn upstreams_that_are_down_are_passed(replies: Seq<ReplyView>, first: int)
    requires
        0 <= first < replies.len(),
        forall|i: int| 0 <= i < first ==> is_down(#[trigger] replies[i]),
        !is_down(replies[first]),
    ensures
        attempts::last_attempt(replies, 0) == first,
{
    lemma_passed(replies, 0, first);
}

proof fn lemma_passed(replies: Seq<ReplyView>, index: int, first: int)
    requires
        0 <= index <= first < replies.len(),
        forall|i: int| index <= i < first ==> is_down(#[trigger] replies[i]),
        !is_down(replies[first]),
    ensures
        attempts::last_attempt(replies, index) == first,
    decreases first - index,
{
    if index < first {
        assert(is_down(replies[index]));
        lemma_passed(replies, index + 1, first);
    }
}

/// The values of replies, steps and errors say what they hold.
pub proof fn values_of_attempts(message: String, reply: Reply, index: usize)
    ensures
        Reply::Unreachable(message)@ == ReplyView::Unreachable(message@),
        reply matches Reply::Answered { status, body } ==> reply@ is Answered && reply@->status
            == status@ && (body is None ==> reply@->body is None) && (body is Some ==> reply@->body
            == Some(body->0@)),
        Step::Try(index)@ == StepView::Try(index as int),
        Step::Deliver@ == StepView::Deliver,
        Step::Fail(RequestError::Http(message))@ == StepView::Fail(
            RequestErrorView::Http(message@),
        ),
        Step::Fail(RequestError::Upstream(message))@ == StepView::Fail(
            RequestErrorView::Upstream(message@),
        ),
{
}

} // verus!
