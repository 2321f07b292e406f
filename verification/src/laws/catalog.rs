//! Laws of the lists of models.
use vstd::prelude::*;

use crate::boundary;
use crate::catalog;
use crate::catalog::{
    FetchView, ModelInfo, ModelsPage, ModelsReply, ModelsReplyView, ModelsRequest,
    ModelsRequestView,
};
use crate::config::{ConfigView, ModelsListMode};
use crate::endpoint;
use crate::endpoint::UrlErrorView;
use crate::laws::config as sets;
use crate::listing;
use crate::order;

verus! {

/// Whether `entry` is the model at place `j` of the upstream at place `i`, under
/// the names of both, with the name by which the upstream knows it.
pub open spec fn shows(config: ConfigView, entry: (Seq<char>, Seq<char>), i: int, j: int) -> bool {
    let (upstream_name, upstream) = config.upstreams[i];
    let (name, model) = upstream.models[j];
    &&& 0 <= i < config.upstreams.len()
    &&& 0 <= j < upstream.models.len()
    &&& entry.0 == upstream_name.push('/') + name
    &&& model.target is Some ==> entry.1 == model.target->0
    &&& model.target is None ==> entry.1 == name
}

proof fn lemma_sorted_members(entries: Seq<(Seq<char>, Seq<char>)>)
    ensures
        forall|k: int|
            0 <= k < entries.len() ==> listing::sorted(entries).contains(#[trigger] entries[k]),
        forall|k: int|
            0 <= k < listing::sorted(entries).len() ==> entries.contains(
                #[trigger] listing::sorted(entries)[k],
            ),
        listing::sorted(entries).len() == entries.len(),
    decreases entries.len(),
{
    if entries.len() > 0 {
        let init = entries.drop_last();
        let last = entries.last();
        let before = listing::sorted(init);
        let after = listing::sorted(entries);
        lemma_sorted_members(init);
        lemma_placed_members(before, last);
        assert(entries[entries.len() - 1] == last);
        assert forall|k: int| 0 <= k < entries.len() implies after.contains(
            #[trigger] entries[k],
        ) by {
            if k < init.len() {
                assert(init[k] == entries[k]);
                let m = before.index_of(init[k]);
                assert(before[m] == init[k]);
                assert(after.contains(before[m]));
            }
        }
        assert forall|k: int| 0 <= k < after.len() implies entries.contains(
            #[trigger] after[k],
        ) by {
            if after[k] != last {
                assert(before.contains(after[k]));
                let m = before.index_of(after[k]);
                assert(init.contains(before[m]));
                let l = init.index_of(before[m]);
                assert(entries[l] == init[l]);
            }
        }
    }
}

proof fn lemma_placed_members(
    entries: Seq<(Seq<char>, Seq<char>)>,
    entry: (Seq<char>, Seq<char>),
)
    ensures
        listing::placed(entries, entry).len() == entries.len() + 1,
        listing::placed(entries, entry).contains(entry),
        forall|k: int|
            0 <= k < entries.len() ==> listing::placed(entries, entry).contains(
                #[trigger] entries[k],
            ),
        forall|k: int|
            0 <= k < listing::placed(entries, entry).len() ==> #[trigger] listing::placed(
                entries,
                entry,
            )[k] == entry || entries.contains(listing::placed(entries, entry)[k]),
    decreases entries.len(),
{
    let result = listing::placed(entries, entry);
    if entries.len() == 0 {
        assert(result[0] == entry);
    } else {
        let rest = entries.drop_first();
        let tail = listing::placed(rest, entry);
        lemma_placed_members(rest, entry);
        assert(forall|k: int| 0 <= k < rest.len() ==> #[trigger] rest[k] == entries[k + 1]);
        if order::before(entry.0, entries.first().0) {
            assert(result[0] == entry);
            assert forall|k: int| 0 <= k < entries.len() implies result.contains(
                #[trigger] entries[k],
            ) by {
                assert(result[k + 1] == entries[k]);
            }
            assert forall|k: int| 0 <= k < result.len() implies #[trigger] result[k] == entry
                || entries.contains(result[k]) by {
                if k > 0 {
                    assert(entries[k - 1] == result[k]);
                }
            }
        } else {
            assert(result[0] == entries[0]);
            let m = tail.index_of(entry);
            assert(result[m + 1] == tail[m]);
            assert forall|k: int| 0 <= k < entries.len() implies result.contains(
                #[trigger] entries[k],
            ) by {
                if k > 0 {
                    assert(rest[k - 1] == entries[k]);
                    let l = tail.index_of(rest[k - 1]);
                    assert(result[l + 1] == tail[l]);
                }
            }
            assert forall|k: int| 0 <= k < result.len() implies #[trigger] result[k] == entry
                || entries.contains(result[k]) by {
                if k > 0 {
                    assert(result[k] == tail[k - 1]);
                    if tail[k - 1] != entry {
                        let l = rest.index_of(tail[k - 1]);
                        assert(entries[l + 1] == rest[l]);
                    }
                } else {
                    assert(entries[0] == result[0]);
                }
            }
        }
    }
}

/// A sorted list has the entries of the list and as many of them, and no id in
/// it comes before one that stands ahead of it.
pub proof fn sorting_orders_the_entries(entries: Seq<(Seq<char>, Seq<char>)>)
    ensures
        listing::sorted(entries).len() == entries.len(),
        forall|k: int|
            0 <= k < entries.len() ==> listing::sorted(entries).contains(#[trigger] entries[k]),
        forall|k: int|
            0 <= k < listing::sorted(entries).len() ==> entries.contains(
                #[trigger] listing::sorted(entries)[k],
            ),
        forall|i: int, j: int|
            0 <= i < j < listing::sorted(entries).len() ==> !order::before(
                (#[trigger] listing::sorted(entries)[j]).0,
                (#[trigger] listing::sorted(entries)[i]).0,
            ),
{
    lemma_sorted_members(entries);
    listing::sorted_is_in_order(entries);
    let result = listing::sorted(entries);
    assert forall|i: int, j: int| 0 <= i < j < result.len() implies !order::before(
        (#[trigger] result[j]).0,
        (#[trigger] result[i]).0,
    ) by {
        assert(order::not_after(result[i].0, result[j].0));
        if order::before(result[i].0, result[j].0) {
            order::order_is_asymmetric(result[i].0, result[j].0);
        } else {
            order::order_is_irreflexive(result[i].0);
        }
    }
}

/// Every configured model is listed.
pub proof fn every_configured_model_is_listed(config: ConfigView, i: int, j: int)
    requires
        0 <= i < config.upstreams.len(),
        0 <= j < config.upstreams[i].1.models.len(),
    ensures
        exists|k: int|
            0 <= k < listing::static_models(config).len() && shows(
                config,
                #[trigger] listing::static_models(config)[k],
                i,
                j,
            ),
{
    let entries = listing::models_of(config.upstreams);
    let m = listing::lemma_models_of_holds(config.upstreams, i, j);
    lemma_sorted_members(entries);
    let all = listing::static_models(config);
    assert(all.contains(entries[m]));
    let k = all.index_of(entries[m]);
    let name = config.upstreams[i].0;
    assert(name.push('/') == name + seq!['/']);
    assert(shows(config, all[k], i, j));
}

/// Every listed model is configured.
pub proof fn every_listed_model_is_configured(config: ConfigView, k: int) -> (r: (int, int))
    requires
        0 <= k < listing::static_models(config).len(),
    ensures
        shows(config, listing::static_models(config)[k], r.0, r.1),
{
    let entries = listing::models_of(config.upstreams);
    lemma_sorted_members(entries);
    let all = listing::static_models(config);
    assert(entries.contains(all[k]));
    let m = entries.index_of(all[k]);
    let r = listing::lemma_models_of_sources(config.upstreams, m);
    let name = config.upstreams[r.0].0;
    assert(name.push('/') == name + seq!['/']);
    r
}

/// There is one listed model for each configured one, no more and no fewer.
pub proof fn as_many_are_listed_as_are_configured(config: ConfigView)
    ensures
        listing::static_models(config).len() == models_in(config, config.upstreams.len() as int),
{
    lemma_sorted_members(listing::models_of(config.upstreams));
    let n = config.upstreams.len() as int;
    assert(config.upstreams.take(n) == config.upstreams);
    lemma_models_in(config, n);
}

/// The number of models that the first upstreams have.
pub open spec fn models_in(config: ConfigView, n: int) -> int
    decreases n,
{
    if n <= 0 {
        0
    } else {
        models_in(config, n - 1) + config.upstreams[n - 1].1.models.len()
    }
}

proof fn lemma_models_in(config: ConfigView, n: int)
    requires
        0 <= n <= config.upstreams.len(),
    ensures
        listing::models_of(config.upstreams.take(n)).len() == models_in(config, n),
    decreases n,
{
    if n > 0 {
        lemma_models_in(config, n - 1);
        assert(config.upstreams.take(n).drop_last() == config.upstreams.take(n - 1));
        assert(config.upstreams.take(n).last() == config.upstreams[n - 1]);
    }
}

/// A page lists every model at its place, and says which is the first, which the
/// last, and that there are no more.
pub proof fn pages_list_every_model(models: Seq<(Seq<char>, Seq<char>)>)
    ensures
        ({
            let page = catalog::page_of(models);
            &&& page.data.len() == models.len()
            &&& forall|i: int|
                0 <= i < models.len() ==> {
                    &&& (#[trigger] page.data[i]).id == models[i].0
                    &&& page.data[i].display_name == models[i].1
                    &&& page.data[i].created_at == "1970-01-01T00:00:00Z"@
                    &&& page.data[i].model_type == "model"@
                }
            &&& !page.has_more
            &&& models.len() == 0 ==> page.first_id is None && page.last_id is None
            &&& models.len() > 0 ==> page.first_id == Some(models[0].0) && page.last_id == Some(
                models[models.len() - 1].0,
            )
        }),
{
}

/// The mode decides which list is answered: the configured models, the fetched
/// ones, or both merged.
pub proof fn modes_decide_the_list(config: ConfigView, fetched: Seq<(Seq<char>, Seq<char>)>)
    ensures
        config.models_list_mode == ModelsListMode::Static ==> catalog::answered_models(
            config,
            fetched,
        ) == listing::static_models(config),
        config.models_list_mode == ModelsListMode::Upstream ==> catalog::answered_models(
            config,
            fetched,
        ) == fetched,
        config.models_list_mode == ModelsListMode::Merge ==> catalog::answered_models(
            config,
            fetched,
        ) == catalog::merged(listing::static_models(config), fetched),
{
}

/// A merged list holds every configured model, and every fetched one whose id is
/// neither an id nor a shown name of a configured one.
pub proof fn merging_keeps_models(
    models: Seq<(Seq<char>, Seq<char>)>,
    fetched: Seq<(Seq<char>, Seq<char>)>,
    k: int,
)
    ensures
        0 <= k < models.len() ==> catalog::merged(models, fetched).contains(models[k]),
        0 <= k < fetched.len() && (forall|i: int|
            0 <= i < models.len() ==> (#[trigger] models[i]).0 != fetched[k].0 && models[i].1
                != fetched[k].0) ==> catalog::merged(models, fetched).contains(fetched[k]),
{
    let more = catalog::unlisted(models, fetched);
    let all = models + more;
    lemma_sorted_members(all);
    if 0 <= k < models.len() {
        assert(all[k] == models[k]);
    }
    if 0 <= k < fetched.len() && (forall|i: int|
        0 <= i < models.len() ==> (#[trigger] models[i]).0 != fetched[k].0 && models[i].1
            != fetched[k].0) {
        assert(!catalog::already_listed(models, fetched[k].0));
        let j = catalog::lemma_unlisted_holds(models, fetched, k);
        assert(all[models.len() + j] == fetched[k]);
    }
}

/// A merged list holds nothing but configured models and fetched ones whose id
/// is neither an id nor a shown name of a configured one.
pub proof fn merging_adds_nothing_else(
    models: Seq<(Seq<char>, Seq<char>)>,
    fetched: Seq<(Seq<char>, Seq<char>)>,
    k: int,
)
    requires
        0 <= k < catalog::merged(models, fetched).len(),
    ensures
        models.contains(catalog::merged(models, fetched)[k]) || (fetched.contains(
            catalog::merged(models, fetched)[k],
        ) && forall|i: int|
            0 <= i < models.len() ==> (#[trigger] models[i]).0 != catalog::merged(
                models,
                fetched,
            )[k].0 && models[i].1 != catalog::merged(models, fetched)[k].0),
{
    let more = catalog::unlisted(models, fetched);
    let all = models + more;
    let result = catalog::merged(models, fetched);
    lemma_sorted_members(all);
    assert(all.contains(result[k]));
    let m = all.index_of(result[k]);
    if m < models.len() {
        assert(models[m] == result[k]);
    } else {
        let j = m - models.len();
        assert(more[j] == result[k]);
        lemma_unlisted_source(models, fetched, j);
        assert forall|i: int| 0 <= i < models.len() implies (#[trigger] models[i]).0
            != result[k].0 && models[i].1 != result[k].0 by {
            assert(!catalog::already_listed(models, more[j].0));
        }
    }
}

proof fn lemma_unlisted_source(
    models: Seq<(Seq<char>, Seq<char>)>,
    fetched: Seq<(Seq<char>, Seq<char>)>,
    j: int,
)
    requires
        0 <= j < catalog::unlisted(models, fetched).len(),
    ensures
        fetched.contains(catalog::unlisted(models, fetched)[j]),
        !catalog::already_listed(models, catalog::unlisted(models, fetched)[j].0),
    decreases fetched.len(),
{
    let init = fetched.drop_last();
    let before = catalog::unlisted(models, init);
    if j < before.len() {
        lemma_unlisted_source(models, init, j);
        let k = init.index_of(before[j]);
        assert(fetched[k] == before[j]);
    } else {
        assert(fetched[fetched.len() - 1] == fetched.last());
    }
}

/// A merged list is in the order of its ids.
pub proof fn merged_lists_are_in_order(
    models: Seq<(Seq<char>, Seq<char>)>,
    fetched: Seq<(Seq<char>, Seq<char>)>,
    i: int,
    j: int,
)
    requires
        0 <= i < j < catalog::merged(models, fetched).len(),
    ensures
        !order::before(
            catalog::merged(models, fetched)[j].0,
            catalog::merged(models, fetched)[i].0,
        ),
{
    sorting_orders_the_entries(models + catalog::unlisted(models, fetched));
}

/// A fetch that has no list yet asks the next upstream at its models endpoint,
/// with its own key or else that of the configuration; where no upstream has a
/// name, the next plain URL.
pub proof fn fetches_ask_the_next_upstream(config: ConfigView, fetch: FetchView)
    requires
        !fetch.done,
        fetch.asked >= 0,
    ensures
        ({
            let n = fetch.asked;
            let request = catalog::fetch_request(config, fetch);
            &&& config.upstreams.len() > 0 && n < config.upstreams.len() ==> match request {
                Ok(Some(r)) => {
                    let upstream = config.upstreams[n].1;
                    &&& r.upstream_name == config.upstreams[n].0
                    &&& endpoint::models_url(upstream.base_url) == Ok::<Seq<char>, UrlErrorView>(
                        r.url,
                    )
                    &&& sets::first_set(upstream.api_key, config.api_key, r.api_key)
                },
                Ok(None) => false,
                Err(error) => endpoint::models_url(config.upstreams[n].1.base_url) == Err::<
                    Seq<char>,
                    UrlErrorView,
                >(error),
            }
            &&& config.upstreams.len() == 0 && n < config.upstream_urls.len() ==> match request {
                Ok(Some(r)) => {
                    &&& r.upstream_name == config.upstream_urls[n]
                    &&& endpoint::models_url(config.upstream_urls[n]) == Ok::<
                        Seq<char>,
                        UrlErrorView,
                    >(r.url)
                    &&& r.api_key == config.api_key
                },
                Ok(None) => false,
                Err(error) => endpoint::models_url(config.upstream_urls[n]) == Err::<
                    Seq<char>,
                    UrlErrorView,
                >(error),
            }
        }),
{
}

/// A fetch asks nobody once it has a list, or when all were asked.
pub proof fn fetches_end(config: ConfigView, fetch: FetchView)
    requires
        fetch.asked >= 0,
        fetch.done || (config.upstreams.len() > 0 && fetch.asked >= config.upstreams.len()) || (
        config.upstreams.len() == 0 && fetch.asked >= config.upstream_urls.len()),
    ensures
        catalog::fetch_request(config, fetch) == Ok::<Option<ModelsRequestView>, UrlErrorView>(
            None,
        ),
        forall|reply: ModelsReplyView| #[trigger]
            catalog::fetch_after(config, fetch, reply) == fetch,
{
}

/// Whether a fetch still has somebody to ask, who is called `name`.
pub open spec fn asks(config: ConfigView, fetch: FetchView, name: Seq<char>) -> bool {
    &&& !fetch.done
    &&& fetch.asked >= 0
    &&& config.upstreams.len() > 0 ==> fetch.asked < config.upstreams.len() && name
        == config.upstreams[fetch.asked].0
    &&& config.upstreams.len() == 0 ==> fetch.asked < config.upstream_urls.len() && name
        == config.upstream_urls[fetch.asked]
}

/// A list ends a fetch with its ids; what is no list is remembered as the error
/// of the upstream, and the fetch goes on.
pub proof fn replies_move_a_fetch(
    config: ConfigView,
    fetch: FetchView,
    name: Seq<char>,
    ids: Seq<Seq<char>>,
    code: u16,
    line: Seq<char>,
    message: Seq<char>,
)
    requires
        asks(config, fetch, name),
        boundary::status_line(code) == Some(line),
    ensures
        ({
            let after = catalog::fetch_after(config, fetch, ModelsReplyView::Listed(ids));
            &&& after.done
            &&& after.asked == fetch.asked + 1
            &&& after.models == catalog::models_with_ids(ids)
            &&& after.last_error == fetch.last_error
        }),
        ({
            let after = catalog::fetch_after(config, fetch, ModelsReplyView::Refused(code));
            &&& !after.done
            &&& after.asked == fetch.asked + 1
            &&& after.models == fetch.models
            &&& after.last_error == Some(name + " returned "@ + line)
        }),
        ({
            let after = catalog::fetch_after(config, fetch, ModelsReplyView::Unreachable(message));
            &&& !after.done
            &&& after.asked == fetch.asked + 1
            &&& after.models == fetch.models
            &&& after.last_error == Some(name + ": "@ + message)
        }),
{
}

/// The fetched models are the listed ids, each as its own id and name, none
/// twice and none left out.
pub proof fn fetched_models_are_the_listed_ids(ids: Seq<Seq<char>>)
    ensures
        forall|k: int|
            0 <= k < ids.len() ==> catalog::models_with_ids(ids).contains(
                (#[trigger] ids[k], ids[k]),
            ),
        forall|i: int|
            0 <= i < catalog::models_with_ids(ids).len() ==> ids.contains(
                (#[trigger] catalog::models_with_ids(ids)[i]).0,
            ) && catalog::models_with_ids(ids)[i].1 == catalog::models_with_ids(ids)[i].0,
        forall|i: int, j: int|
            0 <= i < j < catalog::models_with_ids(ids).len() ==> (
            #[trigger] catalog::models_with_ids(ids)[i]).0 != (
            #[trigger] catalog::models_with_ids(ids)[j]).0,
{
    catalog::fetched_ids_stay_as_they_are(ids);
    let models = catalog::models_with_ids(ids);
    assert forall|k: int| 0 <= k < ids.len() implies models.contains(
        (#[trigger] ids[k], ids[k]),
    ) by {
        assert(catalog::has_id(models, ids[k]));
        let i = choose|i: int| 0 <= i < models.len() && (#[trigger] models[i]).0 == ids[k];
        assert(models[i] == (ids[k], ids[k]));
    }
    assert forall|i: int, j: int| 0 <= i < j < models.len() implies (#[trigger] models[i]).0 != (
    #[trigger] models[j]).0 by {}
}

/// A fetch gives its models in the order of their ids; it fails, with the last
/// error, where there is an error and no list.
pub proof fn fetches_give_a_list_or_the_last_error(fetch: FetchView)
    ensures
        fetch.done || fetch.last_error is None ==> catalog::fetch_result(fetch) == Ok::<
            Seq<(Seq<char>, Seq<char>)>,
            Seq<char>,
        >(listing::sorted(fetch.models)),
        !fetch.done && fetch.last_error is Some ==> catalog::fetch_result(fetch) == Err::<
            Seq<(Seq<char>, Seq<char>)>,
            Seq<char>,
        >(fetch.last_error->0),
        catalog::fetch_start().asked == 0,
        !catalog::fetch_start().done,
        catalog::fetch_start().models.len() == 0,
        catalog::fetch_start().last_error is None,
{
}

/// The values of pages, requests and replies hold every field of them.
pub proof fn values_of_pages(page: ModelsPage, info: ModelInfo, request: ModelsRequest)
    ensures
        page@.data.len() == page.data@.len(),
        forall|i: int| 0 <= i < page.data@.len() ==> #[trigger] page@.data[i] == page.data@[i]@,
        page.first_id is None <==> page@.first_id is None,
        page.first_id is Some ==> page@.first_id->0 == page.first_id->0@,
        page@.has_more == page.has_more,
        page.last_id is None <==> page@.last_id is None,
        page.last_id is Some ==> page@.last_id->0 == page.last_id->0@,
        info@.id == info.id@,
        info@.display_name == info.display_name@,
        info@.created_at == info.created_at@,
        info@.model_type == info.model_type@,
        request@.upstream_name == request.upstream_name@,
        request@.url == request.url@,
        request.api_key is None <==> request@.api_key is None,
        request.api_key is Some ==> request@.api_key->0 == request.api_key->0@,
{
}

/// The value of a reply says what it holds, and listed models are their ids and
/// names, in their order.
pub proof fn values_of_lists(reply: ModelsReply, models: Seq<(String, String)>)
    ensures
        match reply {
            ModelsReply::Listed(ids) => reply@ is Listed && reply@->Listed_0
                == crate::text::texts(ids@),
            ModelsReply::Refused(status) => reply@ is Refused && reply@->Refused_0 == status@,
            ModelsReply::Unreachable(message) => reply@ is Unreachable && reply@->Unreachable_0
                == message@,
        },
        listing::listed(models).len() == models.len(),
        forall|i: int|
            0 <= i < models.len() ==> #[trigger] listing::listed(models)[i] == (
                models[i].0@,
                models[i].1@,
            ),
{
}

} // verus!
