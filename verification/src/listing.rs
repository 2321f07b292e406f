//! Lists of models, each with its id and the name to show, in the order of the
//! ids.
use vstd::prelude::*;
use vstd::string::StringExecFns;

use crate::config::{Config, ConfigView, ModelView, UpstreamView};
use crate::name_map;
use crate::order;
use crate::order::comes_before;
use crate::routing;

verus! {

/// The ids and names of listed models.
pub open spec fn listed(models: Seq<(String, String)>) -> Seq<(Seq<char>, Seq<char>)> {
    Seq::new(models.len(), |i: int| (models[i].0@, models[i].1@))
}

/// The id of a model at an upstream.
pub open spec fn namespaced(upstream_name: Seq<char>, name: Seq<char>) -> Seq<char> {
    upstream_name + seq!['/'] + name
}

/// The models of one upstream.
pub open spec fn models_at(upstream_name: Seq<char>, models: Seq<(Seq<char>, ModelView)>) -> Seq<
    (Seq<char>, Seq<char>),
> {
    Seq::new(
        models.len(),
        |i: int|
            (
                namespaced(upstream_name, models[i].0),
                routing::target_of(models[i].1, models[i].0),
            ),
    )
}

/// The models of the upstreams, one upstream after the other.
pub open spec fn models_of(upstreams: Seq<(Seq<char>, UpstreamView)>) -> Seq<
    (Seq<char>, Seq<char>),
>
    decreases upstreams.len(),
{
    if upstreams.len() == 0 {
        Seq::empty()
    } else {
        models_of(upstreams.drop_last()) + models_at(
            upstreams.last().0,
            upstreams.last().1.models,
        )
    }
}

/// The entries with one more in its place: before the first whose id is
/// greater.
pub open spec fn placed(
    entries: Seq<(Seq<char>, Seq<char>)>,
    entry: (Seq<char>, Seq<char>),
) -> Seq<(Seq<char>, Seq<char>)>
    decreases entries.len(),
{
    if entries.len() == 0 {
        seq![entry]
    } else if order::before(entry.0, entries.first().0) {
        seq![entry] + entries
    } else {
        seq![entries.first()] + placed(entries.drop_first(), entry)
    }
}

/// The entries in the order of their ids; those with one id stay in the order
/// in which they were.
pub open spec fn sorted(entries: Seq<(Seq<char>, Seq<char>)>) -> Seq<(Seq<char>, Seq<char>)>
    decreases entries.len(),
{
    if entries.len() == 0 {
        Seq::empty()
    } else {
        placed(sorted(entries.drop_last()), entries.last())
    }
}

/// The configured models.
pub open spec fn static_models(config: ConfigView) -> Seq<(Seq<char>, Seq<char>)> {
    sorted(models_of(config.upstreams))
}

/// Whether the ids are in order; one id may occur more than once.
pub open spec fn in_order(entries: Seq<(Seq<char>, Seq<char>)>) -> bool {
    forall|i: int, j: int|
        0 <= i < j < entries.len() ==> order::not_after(
            (#[trigger] entries[i]).0,
            (#[trigger] entries[j]).0,
        )
}

/// Whether no id occurs more than once.
pub open spec fn distinct_ids(entries: Seq<(Seq<char>, Seq<char>)>) -> bool {
    forall|i: int, j: int|
        0 <= i < j < entries.len() ==> (#[trigger] entries[i]).0 != (#[trigger] entries[j]).0
}

/// The entries that have the given id, in their order.
pub open spec fn with_id(entries: Seq<(Seq<char>, Seq<char>)>, id: Seq<char>) -> Seq<
    (Seq<char>, Seq<char>),
>
    decreases entries.len(),
{
    if entries.len() == 0 {
        Seq::empty()
    } else if entries.first().0 == id {
        seq![entries.first()] + with_id(entries.drop_first(), id)
    } else {
        with_id(entries.drop_first(), id)
    }
}

proof fn lemma_placed_all(
    entries: Seq<(Seq<char>, Seq<char>)>,
    entry: (Seq<char>, Seq<char>),
    p: spec_fn((Seq<char>, Seq<char>)) -> bool,
)
    requires
        p(entry),
        forall|i: int| 0 <= i < entries.len() ==> p(#[trigger] entries[i]),
    ensures
        forall|i: int|
            0 <= i < placed(entries, entry).len() ==> p(#[trigger] placed(entries, entry)[i]),
    decreases entries.len(),
{
    let result = placed(entries, entry);
    if entries.len() > 0 {
        let rest = entries.drop_first();
        let tail = placed(rest, entry);
        assert(forall|i: int| 0 <= i < rest.len() ==> #[trigger] rest[i] == entries[i + 1]);
        lemma_placed_all(rest, entry, p);
        assert forall|i: int| 0 <= i < result.len() implies p(#[trigger] result[i]) by {
            if order::before(entry.0, entries.first().0) {
                if i > 0 {
                    assert(result[i] == entries[i - 1]);
                }
            } else if i > 0 {
                assert(result[i] == tail[i - 1]);
            } else {
                assert(result[0] == entries[0]);
            }
        }
    }
}

proof fn lemma_placed_in_order(
    entries: Seq<(Seq<char>, Seq<char>)>,
    entry: (Seq<char>, Seq<char>),
)
    requires
        in_order(entries),
    ensures
        in_order(placed(entries, entry)),
    decreases entries.len(),
{
    let result = placed(entries, entry);
    if entries.len() > 0 {
        let first = entries.first();
        let rest = entries.drop_first();
        assert(forall|i: int| 0 <= i < rest.len() ==> #[trigger] rest[i] == entries[i + 1]);
        assert(in_order(rest));
        if order::before(entry.0, first.0) {
            assert forall|i: int, j: int| 0 <= i < j < result.len() implies order::not_after(
                (#[trigger] result[i]).0,
                (#[trigger] result[j]).0,
            ) by {
                assert(result[j] == entries[j - 1]);
                if i > 0 {
                    assert(result[i] == entries[i - 1]);
                } else if j > 1 {
                    assert(order::not_after(entries[0].0, entries[j - 1].0));
                    if first.0 != entries[j - 1].0 {
                        order::order_is_transitive(entry.0, first.0, entries[j - 1].0);
                    }
                }
            }
        } else {
            order::order_is_total(entry.0, first.0);
            lemma_placed_in_order(rest, entry);
            let p = |x: (Seq<char>, Seq<char>)| order::not_after(first.0, x.0);
            assert forall|i: int| 0 <= i < rest.len() implies p(#[trigger] rest[i]) by {
                assert(entries[0] == first);
                assert(order::not_after(entries[0].0, entries[i + 1].0));
            }
            lemma_placed_all(rest, entry, p);
            let tail = placed(rest, entry);
            assert forall|i: int, j: int| 0 <= i < j < result.len() implies order::not_after(
                (#[trigger] result[i]).0,
                (#[trigger] result[j]).0,
            ) by {
                assert(result[j] == tail[j - 1]);
                if i > 0 {
                    assert(result[i] == tail[i - 1]);
                } else {
                    assert(p(tail[j - 1]));
                }
            }
        }
    }
}

/// A sorted list is in the order of its ids.
pub proof fn sorted_is_in_order(entries: Seq<(Seq<char>, Seq<char>)>)
    ensures
        in_order(sorted(entries)),
    decreases entries.len(),
{
    if entries.len() > 0 {
        sorted_is_in_order(entries.drop_last());
        lemma_placed_in_order(sorted(entries.drop_last()), entries.last());
    }
}

proof fn lemma_with_id_absent(entries: Seq<(Seq<char>, Seq<char>)>, id: Seq<char>)
    requires
        forall|i: int| 0 <= i < entries.len() ==> (#[trigger] entries[i]).0 != id,
    ensures
        with_id(entries, id) == Seq::<(Seq<char>, Seq<char>)>::empty(),
    decreases entries.len(),
{
    if entries.len() > 0 {
        let rest = entries.drop_first();
        assert(entries[0].0 != id);
        assert(forall|i: int| 0 <= i < rest.len() ==> #[trigger] rest[i] == entries[i + 1]);
        lemma_with_id_absent(rest, id);
    }
}

proof fn lemma_with_id_pushed(
    entries: Seq<(Seq<char>, Seq<char>)>,
    entry: (Seq<char>, Seq<char>),
    id: Seq<char>,
)
    ensures
        with_id(entries.push(entry), id) == if entry.0 == id {
            with_id(entries, id).push(entry)
        } else {
            with_id(entries, id)
        },
    decreases entries.len(),
{
    let all = entries.push(entry);
    if entries.len() == 0 {
        assert(all.drop_first() == entries);
        assert(with_id(entries, id) == Seq::<(Seq<char>, Seq<char>)>::empty());
        assert(entry.0 == id ==> with_id(all, id) == seq![entry] + with_id(entries, id));
        assert(entry.0 == id ==> with_id(all, id) == with_id(entries, id).push(entry));
    } else {
        let rest = entries.drop_first();
        lemma_with_id_pushed(rest, entry, id);
        assert(all.drop_first() == rest.push(entry));
        assert(all.first() == entries.first());
        let head = seq![entries.first()];
        assert(head + with_id(rest, id).push(entry) == (head + with_id(rest, id)).push(entry));
    }
}

proof fn lemma_with_id_placed(
    entries: Seq<(Seq<char>, Seq<char>)>,
    entry: (Seq<char>, Seq<char>),
    id: Seq<char>,
)
    requires
        in_order(entries),
    ensures
        with_id(placed(entries, entry), id) == if entry.0 == id {
            with_id(entries, id).push(entry)
        } else {
            with_id(entries, id)
        },
    decreases entries.len(),
{
    let result = placed(entries, entry);
    let none = Seq::<(Seq<char>, Seq<char>)>::empty();
    if entries.len() == 0 {
        assert(result.drop_first() == entries);
        assert(seq![entry] + none == none.push(entry));
    } else if order::before(entry.0, entries.first().0) {
        assert(result.drop_first() == entries);
        if entry.0 == id {
            assert forall|i: int| 0 <= i < entries.len() implies (#[trigger] entries[i]).0
                != id by {
                order::order_is_irreflexive(id);
                if i > 0 {
                    assert(order::not_after(entries[0].0, entries[i].0));
                    order::order_is_asymmetric(id, entries[0].0);
                }
            }
            lemma_with_id_absent(entries, id);
            assert(seq![entry] + none == none.push(entry));
        }
    } else {
        let rest = entries.drop_first();
        assert(forall|i: int| 0 <= i < rest.len() ==> #[trigger] rest[i] == entries[i + 1]);
        assert(in_order(rest));
        lemma_with_id_placed(rest, entry, id);
        assert(result.drop_first() == placed(rest, entry));
        assert(result.first() == entries.first());
        let head = seq![entries.first()];
        assert(head + with_id(rest, id).push(entry) == (head + with_id(rest, id)).push(entry));
    }
}

/// A sorted list holds what the list held, and those with one id in the order
/// in which they were.
pub proof fn sorting_keeps_the_entries(
    entries: Seq<(Seq<char>, Seq<char>)>,
    id: Seq<char>,
)
    ensures
        with_id(sorted(entries), id) == with_id(entries, id),
    decreases entries.len(),
{
    if entries.len() > 0 {
        let init = entries.drop_last();
        sorting_keeps_the_entries(init, id);
        sorted_is_in_order(init);
        lemma_with_id_placed(sorted(init), entries.last(), id);
        lemma_with_id_pushed(init, entries.last(), id);
        assert(init.push(entries.last()) == entries);
    }
}

/// What holds of every entry holds of every entry of the sorted list.
pub proof fn lemma_sorted_all(
    entries: Seq<(Seq<char>, Seq<char>)>,
    p: spec_fn((Seq<char>, Seq<char>)) -> bool,
)
    requires
        forall|i: int| 0 <= i < entries.len() ==> p(#[trigger] entries[i]),
    ensures
        forall|i: int| 0 <= i < sorted(entries).len() ==> p(#[trigger] sorted(entries)[i]),
    decreases entries.len(),
{
    if entries.len() > 0 {
        let init = entries.drop_last();
        assert(forall|i: int| 0 <= i < init.len() ==> #[trigger] init[i] == entries[i]);
        assert(entries[entries.len() - 1] == entries.last());
        lemma_sorted_all(init, p);
        lemma_placed_all(sorted(init), entries.last(), p);
    }
}

proof fn lemma_placed_distinct(
    entries: Seq<(Seq<char>, Seq<char>)>,
    entry: (Seq<char>, Seq<char>),
)
    requires
        distinct_ids(entries),
        forall|i: int| 0 <= i < entries.len() ==> (#[trigger] entries[i]).0 != entry.0,
    ensures
        distinct_ids(placed(entries, entry)),
    decreases entries.len(),
{
    let result = placed(entries, entry);
    if entries.len() > 0 {
        let first = entries.first();
        let rest = entries.drop_first();
        assert(forall|i: int| 0 <= i < rest.len() ==> #[trigger] rest[i] == entries[i + 1]);
        assert(entries[0] == first);
        if order::before(entry.0, first.0) {
            assert forall|i: int, j: int| 0 <= i < j < result.len() implies (
                #[trigger] result[i]).0 != (#[trigger] result[j]).0 by {
                assert(result[j] == entries[j - 1]);
                if i > 0 {
                    assert(result[i] == entries[i - 1]);
                }
            }
        } else {
            lemma_placed_distinct(rest, entry);
            let p = |x: (Seq<char>, Seq<char>)| x.0 != first.0;
            assert forall|i: int| 0 <= i < rest.len() implies p(#[trigger] rest[i]) by {
                assert(entries[0].0 != entries[i + 1].0);
            }
            lemma_placed_all(rest, entry, p);
            let tail = placed(rest, entry);
            assert forall|i: int, j: int| 0 <= i < j < result.len() implies (
                #[trigger] result[i]).0 != (#[trigger] result[j]).0 by {
                assert(result[j] == tail[j - 1]);
                if i > 0 {
                    assert(result[i] == tail[i - 1]);
                } else {
                    assert(p(tail[j - 1]));
                }
            }
        }
    }
}

/// A sorted list of distinct ids is strictly in their order.
pub proof fn sorted_distinct_ids_ascend(entries: Seq<(Seq<char>, Seq<char>)>)
    requires
        distinct_ids(entries),
    ensures
        name_map::ascending(sorted(entries)),
{
    lemma_sorted_distinct(entries);
    sorted_is_in_order(entries);
    let result = sorted(entries);
    assert forall|i: int, j: int| 0 <= i < j < result.len() implies order::before(
        (#[trigger] result[i]).0,
        (#[trigger] result[j]).0,
    ) by {
        assert(order::not_after(result[i].0, result[j].0));
    }
}

proof fn lemma_sorted_distinct(entries: Seq<(Seq<char>, Seq<char>)>)
    requires
        distinct_ids(entries),
    ensures
        distinct_ids(sorted(entries)),
    decreases entries.len(),
{
    if entries.len() > 0 {
        let init = entries.drop_last();
        let last = entries.last();
        assert(forall|i: int| 0 <= i < init.len() ==> #[trigger] init[i] == entries[i]);
        lemma_sorted_distinct(init);
        let p = |x: (Seq<char>, Seq<char>)| x.0 != last.0;
        assert forall|i: int| 0 <= i < init.len() implies p(#[trigger] init[i]) by {
            assert(entries[i].0 != entries[entries.len() - 1].0);
        }
        lemma_sorted_all(init, p);
        lemma_placed_distinct(sorted(init), last);
    }
}

/// Whether the names of upstreams and models are in order and no name of an
/// upstream holds the `/` that sets it off from the name of a model.
pub open spec fn plainly_named(upstreams: Seq<(Seq<char>, UpstreamView)>) -> bool {
    &&& name_map::ascending(upstreams)
    &&& forall|i: int|
        0 <= i < upstreams.len() ==> !(#[trigger] upstreams[i]).0.contains('/')
            && name_map::ascending(upstreams[i].1.models)
}

proof fn lemma_models_at_distinct(
    upstream_name: Seq<char>,
    models: Seq<(Seq<char>, ModelView)>,
)
    requires
        name_map::ascending(models),
    ensures
        distinct_ids(models_at(upstream_name, models)),
{
    let at = models_at(upstream_name, models);
    assert forall|i: int, j: int| 0 <= i < j < at.len() implies (#[trigger] at[i]).0 != (
    #[trigger] at[j]).0 by {
        assert(order::before(models[i].0, models[j].0));
        order::order_is_irreflexive(models[i].0);
        let n = upstream_name.len() as int;
        assert(at[i].0.skip(n + 1) == models[i].0);
        assert(at[j].0.skip(n + 1) == models[j].0);
    }
}

/// Every listed model is that of one of the upstreams.
pub proof fn lemma_models_of_sources(upstreams: Seq<(Seq<char>, UpstreamView)>, k: int) -> (r: (
    int,
    int,
))
    requires
        0 <= k < models_of(upstreams).len(),
    ensures
        0 <= r.0 < upstreams.len(),
        0 <= r.1 < upstreams[r.0].1.models.len(),
        models_of(upstreams)[k] == models_at(upstreams[r.0].0, upstreams[r.0].1.models)[r.1],
    decreases upstreams.len(),
{
    let init = upstreams.drop_last();
    let before = models_of(init);
    if k < before.len() {
        let r = lemma_models_of_sources(init, k);
        assert(init[r.0] == upstreams[r.0]);
        r
    } else {
        (upstreams.len() - 1, k - before.len())
    }
}

/// Every model of an upstream is listed.
pub proof fn lemma_models_of_holds(
    upstreams: Seq<(Seq<char>, UpstreamView)>,
    i: int,
    j: int,
) -> (k: int)
    requires
        0 <= i < upstreams.len(),
        0 <= j < upstreams[i].1.models.len(),
    ensures
        0 <= k < models_of(upstreams).len(),
        models_of(upstreams)[k] == models_at(upstreams[i].0, upstreams[i].1.models)[j],
    decreases upstreams.len(),
{
    let init = upstreams.drop_last();
    if i < init.len() {
        assert(init[i] == upstreams[i]);
        lemma_models_of_holds(init, i, j)
    } else {
        models_of(init).len() + j
    }
}

proof fn lemma_models_of_distinct(upstreams: Seq<(Seq<char>, UpstreamView)>)
    requires
        plainly_named(upstreams),
    ensures
        distinct_ids(models_of(upstreams)),
    decreases upstreams.len(),
{
    if upstreams.len() > 0 {
        let init = upstreams.drop_last();
        let last = upstreams.last();
        assert(forall|i: int| 0 <= i < init.len() ==> #[trigger] init[i] == upstreams[i]);
        lemma_models_of_distinct(init);
        assert(upstreams[upstreams.len() - 1] == last);
        lemma_models_at_distinct(last.0, last.1.models);
        let before = models_of(init);
        let at = models_at(last.0, last.1.models);
        let all = models_of(upstreams);
        assert forall|k: int, l: int| 0 <= k < l < all.len() implies (#[trigger] all[k]).0 != (
        #[trigger] all[l]).0 by {
            if l < before.len() {
                assert(all[k] == before[k]);
                assert(all[l] == before[l]);
            } else if k >= before.len() {
                assert(all[k] == at[k - before.len()]);
                assert(all[l] == at[l - before.len()]);
            } else {
                assert(all[k] == before[k]);
                let (i, j) = lemma_models_of_sources(init, k);
                let m = l - before.len();
                assert(all[l] == at[m]);
                assert(order::before(upstreams[i].0, upstreams[upstreams.len() - 1].0));
                order::order_is_irreflexive(last.0);
                routing::lemma_split_after(init[i].0, init[i].1.models[j].0);
                routing::lemma_split_after(last.0, last.1.models[m].0);
            }
        }
    }
}

/// The list of configured models is strictly in the order of its ids, so that
/// no id is in it twice.
pub proof fn static_models_ascend(config: ConfigView)
    requires
        plainly_named(config.upstreams),
    ensures
        name_map::ascending(static_models(config)),
{
    lemma_models_of_distinct(config.upstreams);
    sorted_distinct_ids_ascend(models_of(config.upstreams));
}

/// Every configured model is listed, and what is listed under an id is what a
/// request for that id asks the upstream for.
pub proof fn listed_models_are_routed(config: ConfigView, i: int, j: int)
    requires
        plainly_named(config.upstreams),
        0 <= i < config.upstreams.len(),
        0 <= j < config.upstreams[i].1.models.len(),
    ensures
        name_map::lookup(
            static_models(config),
            namespaced(config.upstreams[i].0, config.upstreams[i].1.models[j].0),
        ) == Some(
            routing::target_of(
                config.upstreams[i].1.models[j].1,
                config.upstreams[i].1.models[j].0,
            ),
        ),
        match routing::resolved(
            config,
            namespaced(config.upstreams[i].0, config.upstreams[i].1.models[j].0),
        ) {
            Ok(route) => route.target == routing::target_of(
                config.upstreams[i].1.models[j].1,
                config.upstreams[i].1.models[j].0,
            ) && routing::leads_to(config, route, i),
            Err(error) => crate::endpoint::chat_url(config.upstreams[i].1.base_url) == Err::<
                Seq<char>,
                _,
            >(error),
        },
{
    let (name, upstream) = config.upstreams[i];
    routing::prefix_selects_the_upstream(config, i, j);
    let entries = models_of(config.upstreams);
    let k = lemma_models_of_holds(config.upstreams, i, j);
    lemma_models_of_distinct(config.upstreams);
    lemma_sorted_lookup(entries, k);
}

/// In a sorted list of distinct ids every id leads to its own name.
pub proof fn lemma_sorted_lookup(entries: Seq<(Seq<char>, Seq<char>)>, k: int)
    requires
        distinct_ids(entries),
        0 <= k < entries.len(),
    ensures
        name_map::lookup(sorted(entries), entries[k].0) == Some(entries[k].1),
{
    let id = entries[k].0;
    sorting_keeps_the_entries(entries, id);
    lemma_with_id_distinct(entries, k);
    lemma_lookup_is_first(sorted(entries), id);
}

proof fn lemma_with_id_distinct(entries: Seq<(Seq<char>, Seq<char>)>, k: int)
    requires
        distinct_ids(entries),
        0 <= k < entries.len(),
    ensures
        with_id(entries, entries[k].0) == seq![entries[k]],
    decreases entries.len(),
{
    let rest = entries.drop_first();
    assert(forall|i: int| 0 <= i < rest.len() ==> #[trigger] rest[i] == entries[i + 1]);
    if k == 0 {
        assert forall|i: int| 0 <= i < rest.len() implies (#[trigger] rest[i]).0
            != entries[0].0 by {
            assert(entries[0].0 != entries[i + 1].0);
        }
        lemma_with_id_absent(rest, entries[0].0);
        assert(seq![entries[0]] + Seq::<(Seq<char>, Seq<char>)>::empty() == seq![entries[0]]);
    } else {
        assert(entries[0].0 != entries[k].0);
        assert(rest[k - 1] == entries[k]);
        lemma_with_id_distinct(rest, k - 1);
    }
}

proof fn lemma_lookup_is_first(entries: Seq<(Seq<char>, Seq<char>)>, id: Seq<char>)
    ensures
        with_id(entries, id).len() > 0 ==> name_map::lookup(entries, id) == Some(
            with_id(entries, id)[0].1,
        ),
    decreases entries.len(),
{
    if entries.len() > 0 {
        lemma_lookup_is_first(entries.drop_first(), id);
    }
}

/// Puts an entry in its place.
fn place(entries: &mut Vec<(String, String)>, entry: (String, String))
    ensures
        listed(final(entries)@) == placed(listed(old(entries)@), (entry.0@, entry.1@)),
{
    let ghost start = listed(entries@);
    let ghost new = (entry.0@, entry.1@);
    let mut i: usize = 0;
    assert(start.skip(0) == start);
    assert(start.take(0) + placed(start, new) == placed(start, new));
    while i < entries.len() && !comes_before(&entry.0, &entries[i].0)
        invariant
            i <= entries@.len(),
            start == listed(entries@),
            new == (entry.0@, entry.1@),
            placed(start, new) == start.take(i as int) + placed(start.skip(i as int), new),
        decreases entries@.len() - i,
    {
        let ghost n = i as int;
        proof {
            let rest = start.skip(n);
            assert(rest.first() == start[n]);
            assert(rest.drop_first() == start.skip(n + 1));
            assert(start.take(n) + (seq![start[n]] + placed(start.skip(n + 1), new)) == start.take(
                n + 1,
            ) + placed(start.skip(n + 1), new));
        }
        i += 1;
    }
    let ghost n = i as int;
    proof {
        if n < start.len() {
            assert(start.skip(n).first() == start[n]);
        } else {
            assert(start.skip(n) == Seq::<(Seq<char>, Seq<char>)>::empty());
        }
    }
    entries.insert(i, entry);
    assert(listed(entries@) == start.insert(n, new));
    assert(start.insert(n, new) == start.take(n) + (seq![new] + start.skip(n)));
    assert(n == start.len() ==> seq![new] + start.skip(n) == seq![new]);
}

/// Sorts a list by the ids.
pub fn sort_by_id(models: Vec<(String, String)>) -> (r: Vec<(String, String)>)
    ensures
        listed(r@) == sorted(listed(models@)),
{
    let ghost all = listed(models@);
    let mut r: Vec<(String, String)> = Vec::new();
    assert(all.take(0) == Seq::<(Seq<char>, Seq<char>)>::empty());
    assert(listed(r@) == Seq::<(Seq<char>, Seq<char>)>::empty());
    for entry in it: models
        invariant
            it.seq() == models@,
            all == listed(models@),
            listed(r@) == sorted(all.take(it.index() as int)),
    {
        let ghost n = it.index() as int;
        assert(all.take(n + 1).drop_last() == all.take(n));
        assert(all.take(n + 1).last() == (entry.0@, entry.1@));
        place(&mut r, entry);
    }
    assert(all.take(all.len() as int) == all);
    r
}

/// The id of a model at an upstream.
pub fn namespaced_id(upstream_name: &str, name: &str) -> (r: String)
    ensures
        r@ == namespaced(upstream_name@, name@),
{
    let mut r = upstream_name.to_owned();
    r.push('/');
    assert(upstream_name@.push('/') == upstream_name@ + seq!['/']);
    r.concat(name)
}

impl Config {
    /// The configured models, in the order of their ids.
    pub fn static_models_list(&self) -> (r: Vec<(String, String)>)
        ensures
            listed(r@) == static_models(self@),
    {
        let ghost all = self.upstreams@;
        let mut models: Vec<(String, String)> = Vec::new();
        let mut i: usize = 0;
        assert(all.take(0) == Seq::<(Seq<char>, UpstreamView)>::empty());
        assert(listed(models@) == Seq::<(Seq<char>, Seq<char>)>::empty());
        while i < self.upstreams.len()
            invariant
                i <= all.len(),
                all == self.upstreams@,
                listed(models@) == models_of(all.take(i as int)),
            decreases all.len() - i,
        {
            let name = self.upstreams.name(i);
            let upstream = self.upstreams.value(i);
            let ghost done = listed(models@);
            let ghost here = models_at(name@, upstream.models@);
            let mut j: usize = 0;
            assert(done + here.take(0) == done);
            while j < upstream.models.len()
                invariant
                    j <= upstream.models@.len(),
                    here == models_at(name@, upstream.models@),
                    listed(models@) == done + here.take(j as int),
                decreases upstream.models@.len() - j,
            {
                let model = upstream.models.value(j);
                let own = upstream.models.name(j);
                let shown = match &model.target {
                    Some(target) => target.clone(),
                    None => own.clone(),
                };
                let ghost before = listed(models@);
                let ghost added = here[j as int];
                models.push((namespaced_id(name, own), shown));
                assert(listed(models@) == before.push(added));
                assert(done + here.take(j + 1) == (done + here.take(j as int)).push(added));
                j += 1;
            }
            assert(here.take(j as int) == here);
            assert(all.take(i + 1).drop_last() == all.take(i as int));
            assert(all.take(i + 1).last() == all[i as int]);
            i += 1;
        }
        assert(all.take(i as int) == all);
        sort_by_id(models)
    }
}

} // verus!
