//! Laws of the metrics: how much each update adds up to.
use vstd::prelude::*;

use crate::attempts;
use crate::attempts::ReplyView;
use crate::metrics;
use crate::metrics::{Update, UpdateView};
use crate::number;

verus! {

/// By how much updates raise a counter with the given labels.
pub open spec fn counted(
    updates: Seq<UpdateView>,
    counter: Seq<char>,
    with: Seq<(Seq<char>, Seq<char>)>,
) -> int
    decreases updates.len(),
{
    if updates.len() == 0 {
        0
    } else {
        counted(updates.drop_last(), counter, with) + match updates.last() {
            UpdateView::Count { name, labels, by } => if name == counter && labels == with {
                by
            } else {
                0int
            },
            _ => 0int,
        }
    }
}

/// How often updates record a time under a name with the given labels.
pub open spec fn timed(
    updates: Seq<UpdateView>,
    timer: Seq<char>,
    with: Seq<(Seq<char>, Seq<char>)>,
) -> int
    decreases updates.len(),
{
    if updates.len() == 0 {
        0
    } else {
        timed(updates.drop_last(), timer, with) + match updates.last() {
            UpdateView::Time { name, labels } => if name == timer && labels == with {
                1int
            } else {
                0int
            },
            _ => 0int,
        }
    }
}

proof fn lemma_one(a: UpdateView, counter: Seq<char>, with: Seq<(Seq<char>, Seq<char>)>)
    ensures
        counted(seq![a], counter, with) == match a {
            UpdateView::Count { name, labels, by } => if name == counter && labels == with {
                by
            } else {
                0int
            },
            _ => 0int,
        },
        timed(seq![a], counter, with) == match a {
            UpdateView::Time { name, labels } => if name == counter && labels == with {
                1int
            } else {
                0int
            },
            _ => 0int,
        },
{
    assert(seq![a].drop_last() == Seq::<UpdateView>::empty());
    assert(counted(Seq::<UpdateView>::empty(), counter, with) == 0);
    assert(timed(Seq::<UpdateView>::empty(), counter, with) == 0);
}

/// The tokens of a response are counted in full: those of the input and those
/// of the output, each under its type and the model, and nothing else is.
pub proof fn all_tokens_are_counted(
    input: u32,
    output: u32,
    model: Seq<char>,
    labels: Seq<(Seq<char>, Seq<char>)>,
)
    ensures
        ({
            let updates = metrics::tokens_used(input, output, model);
            let name = "proxy_tokens_total"@;
            let of_input = seq![("type"@, "input"@), ("model"@, model)];
            let of_output = seq![("type"@, "output"@), ("model"@, model)];
            &&& counted(updates, name, of_input) == input
            &&& counted(updates, name, of_output) == output
            &&& labels != of_input && labels != of_output ==> counted(updates, name, labels) == 0
        }),
{
    reveal_strlit("input");
    reveal_strlit("output");
    let updates = metrics::tokens_used(input, output, model);
    let a = updates[0];
    let b = updates[1];
    let name = "proxy_tokens_total"@;
    let of_input = seq![("type"@, "input"@), ("model"@, model)];
    let of_output = seq![("type"@, "output"@), ("model"@, model)];
    assert(of_input[0].1 == "input"@);
    assert(of_output[0].1 == "output"@);
    assert("input"@.len() == 5);
    assert("output"@.len() == 6);
    assert(of_input != of_output);
    assert(updates.drop_last() == seq![a]);
    lemma_one(a, name, of_input);
    lemma_one(a, name, of_output);
    lemma_one(a, name, labels);
}

/// A request that starts is counted once, under the way in which it is answered.
pub proof fn started_requests_are_counted(streaming: bool)
    ensures
        ({
            let updates = metrics::started(streaming);
            let name = "proxy_requests_total"@;
            let as_stream = seq![("mode"@, "streaming"@)];
            let as_batch = seq![("mode"@, "batch"@)];
            &&& streaming ==> counted(updates, name, as_stream) == 1
            &&& !streaming ==> counted(updates, name, as_batch) == 1
            &&& updates.len() == 2
            &&& updates[1] == UpdateView::Raise { name: "proxy_requests_in_flight"@ }
        }),
{
    let updates = metrics::started(streaming);
    let a = updates[0];
    assert(updates.drop_last() == seq![a]);
    lemma_one(a, "proxy_requests_total"@, seq![("mode"@, "streaming"@)]);
    lemma_one(a, "proxy_requests_total"@, seq![("mode"@, "batch"@)]);
}

/// A request that is answered is counted and timed once, under its status and
/// the way in which it was answered.
pub proof fn answered_requests_are_counted(status: u16, streaming: bool)
    ensures
        ({
            let updates = metrics::finished(status, streaming);
            let digits = number::decimal(status as nat);
            let as_stream = seq![("mode"@, "streaming"@), ("status"@, digits)];
            let as_batch = seq![("mode"@, "batch"@), ("status"@, digits)];
            let with = if streaming {
                as_stream
            } else {
                as_batch
            };
            &&& counted(updates, "proxy_responses_total"@, with) == 1
            &&& timed(updates, "proxy_request_duration_seconds"@, with) == 1
            &&& updates.len() == 3
            &&& updates[2] == UpdateView::Lower { name: "proxy_requests_in_flight"@ }
        }),
{
    let updates = metrics::finished(status, streaming);
    let digits = number::decimal(status as nat);
    let with = if streaming {
        seq![("mode"@, "streaming"@), ("status"@, digits)]
    } else {
        seq![("mode"@, "batch"@), ("status"@, digits)]
    };
    let a = updates[0];
    let b = updates[1];
    let two = seq![a, b];
    assert(updates.drop_last() == two);
    assert(two.drop_last() == seq![a]);
    lemma_one(a, "proxy_responses_total"@, with);
    lemma_one(a, "proxy_request_duration_seconds"@, with);
    assert(b == (UpdateView::Count { name: "proxy_responses_total"@, labels: with, by: 1 }));
    assert(a == (UpdateView::Time { name: "proxy_request_duration_seconds"@, labels: with }));
    assert(two.last() == b);
    assert(counted(two, "proxy_responses_total"@, with) == 1);
    assert(timed(two, "proxy_request_duration_seconds"@, with) == 1);
}

/// Every reply that is no success counts as one error, and no other does; every
/// reply with a status is timed once.
pub proof fn failed_replies_are_counted(
    status: u16,
    body: Option<Seq<char>>,
    message: Seq<char>,
)
    ensures
        ({
            let with = seq![("endpoint"@, "chat_completions"@)];
            let errors = "proxy_upstream_errors_total"@;
            let latency = "proxy_upstream_latency_seconds"@;
            let answered = attempts::metrics_after(ReplyView::Answered { status, body });
            let unreachable = attempts::metrics_after(ReplyView::Unreachable(message));
            &&& 200 <= status <= 299 ==> counted(answered, errors, with) == 0 && answered.len() == 1
            &&& !(200 <= status <= 299) ==> counted(answered, errors, with) == 1 && answered.len()
                == 2
            &&& timed(answered, latency, with) == 1
            &&& counted(unreachable, errors, with) == 1
            &&& timed(unreachable, latency, with) == 0
            &&& unreachable.len() == 1
        }),
{
    let with = seq![("endpoint"@, "chat_completions"@)];
    let errors = "proxy_upstream_errors_total"@;
    let latency = "proxy_upstream_latency_seconds"@;
    let answered = attempts::metrics_after(ReplyView::Answered { status, body });
    let unreachable = attempts::metrics_after(ReplyView::Unreachable(message));
    let a = answered[0];
    assert(unreachable == seq![unreachable[0]]);
    lemma_one(unreachable[0], errors, with);
    lemma_one(unreachable[0], latency, with);
    lemma_one(a, errors, with);
    lemma_one(a, latency, with);
    if 200 <= status <= 299 {
        assert(answered == seq![a]);
    } else {
        assert(answered.drop_last() == seq![a]);
    }
}

/// The value of an update says what it holds.
pub proof fn value_of_an_update(update: Update)
    ensures
        match update {
            Update::Count { name, labels, by } => update@ is Count && update@->Count_name == name@
                && update@->Count_labels == metrics::label_pairs(labels@) && update@->by == by,
            Update::Raise { name } => update@ is Raise && update@->Raise_name == name@,
            Update::Lower { name } => update@ is Lower && update@->Lower_name == name@,
            Update::Time { name, labels } => update@ is Time && update@->Time_name == name@
                && update@->Time_labels == metrics::label_pairs(labels@),
        },
{
}

/// The values of updates and labels are those of each, in their order.
pub proof fn values_of_updates(updates: Seq<Update>, labels: Seq<(String, String)>)
    ensures
        metrics::updates(updates).len() == updates.len(),
        forall|i: int|
            0 <= i < updates.len() ==> #[trigger] metrics::updates(updates)[i] == updates[i]@,
        metrics::label_pairs(labels).len() == labels.len(),
        forall|i: int|
            0 <= i < labels.len() ==> #[trigger] metrics::label_pairs(labels)[i] == (
                labels[i].0@,
                labels[i].1@,
            ),
{
}

} // verus!
