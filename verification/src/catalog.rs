//! The answer to a request for the list of models.
use vstd::prelude::*;
use vstd::string::StringExecFns;

use crate::boundary;
use crate::config::{Config, ConfigView, ModelsListMode};
use crate::endpoint;
use crate::endpoint::{UrlError, UrlErrorView};
use crate::listing;
use crate::listing::sort_by_id;
use crate::name_map;
use crate::routing;
use crate::status::Status;
use crate::text;

verus! {

/// A model as the client sees it.
#[derive(Debug, Clone)]
pub struct ModelInfo {
    pub id: String,
    pub display_name: String,
    pub created_at: String,
    pub model_type: String,
}

/// A list of models as the client sees it.
#[derive(Debug, Clone)]
pub struct ModelsPage {
    pub data: Vec<ModelInfo>,
    pub first_id: Option<String>,
    pub has_more: bool,
    pub last_id: Option<String>,
}

/// The value of a [`ModelInfo`].
pub struct ModelInfoView {
    pub id: Seq<char>,
    pub display_name: Seq<char>,
    pub created_at: Seq<char>,
    pub model_type: Seq<char>,
}

impl View for ModelInfo {
    type V = ModelInfoView;

    open spec fn view(&self) -> ModelInfoView {
        ModelInfoView {
            id: self.id@,
            display_name: self.display_name@,
            created_at: self.created_at@,
            model_type: self.model_type@,
        }
    }
}

/// The value of a [`ModelsPage`].
pub struct PageView {
    pub data: Seq<ModelInfoView>,
    pub first_id: Option<Seq<char>>,
    pub has_more: bool,
    pub last_id: Option<Seq<char>>,
}

impl View for ModelsPage {
    type V = PageView;

    open spec fn view(&self) -> PageView {
        PageView {
            data: Seq::new(self.data@.len(), |i: int| self.data@[i]@),
            first_id: text::text_option(self.first_id),
            has_more: self.has_more,
            last_id: text::text_option(self.last_id),
        }
    }
}

/// A listed model as the client sees it.
pub open spec fn info_of(model: (Seq<char>, Seq<char>)) -> ModelInfoView {
    ModelInfoView {
        id: model.0,
        display_name: model.1,
        created_at: "1970-01-01T00:00:00Z"@,
        model_type: "model"@,
    }
}

/// The page that lists all the models.
pub open spec fn page_of(models: Seq<(Seq<char>, Seq<char>)>) -> PageView {
    PageView {
        data: Seq::new(models.len(), |i: int| info_of(models[i])),
        first_id: if models.len() == 0 {
            None
        } else {
            Some(models.first().0)
        },
        has_more: false,
        last_id: if models.len() == 0 {
            None
        } else {
            Some(models.last().0)
        },
    }
}

/// Whether a fetched id is listed already: as an id or as a name to show.
pub open spec fn already_listed(models: Seq<(Seq<char>, Seq<char>)>, id: Seq<char>) -> bool {
    exists|i: int|
        0 <= i < models.len() && ((#[trigger] models[i]).0 == id || models[i].1 == id)
}

/// The fetched models that are not listed already.
pub open spec fn unlisted(
    models: Seq<(Seq<char>, Seq<char>)>,
    fetched: Seq<(Seq<char>, Seq<char>)>,
) -> Seq<(Seq<char>, Seq<char>)>
    decreases fetched.len(),
{
    if fetched.len() == 0 {
        Seq::empty()
    } else {
        let before = unlisted(models, fetched.drop_last());
        if already_listed(models, fetched.last().0) {
            before
        } else {
            before.push(fetched.last())
        }
    }
}

/// The configured models and those fetched ones that are not among them.
pub open spec fn merged(
    models: Seq<(Seq<char>, Seq<char>)>,
    fetched: Seq<(Seq<char>, Seq<char>)>,
) -> Seq<(Seq<char>, Seq<char>)> {
    listing::sorted(models + unlisted(models, fetched))
}

/// The models that the client is told of, given those that were fetched.
pub open spec fn answered_models(
    config: ConfigView,
    fetched: Seq<(Seq<char>, Seq<char>)>,
) -> Seq<(Seq<char>, Seq<char>)> {
    match config.models_list_mode {
        ModelsListMode::Static => listing::static_models(config),
        ModelsListMode::Upstream => fetched,
        ModelsListMode::Merge => merged(listing::static_models(config), fetched),
    }
}

/// A request for the models of an upstream.
#[derive(Debug, Clone)]
pub struct ModelsRequest {
    pub upstream_name: String,
    pub url: String,
    pub api_key: Option<String>,
}

/// The value of a [`ModelsRequest`].
pub struct ModelsRequestView {
    pub upstream_name: Seq<char>,
    pub url: Seq<char>,
    pub api_key: Option<Seq<char>>,
}

impl View for ModelsRequest {
    type V = ModelsRequestView;

    open spec fn view(&self) -> ModelsRequestView {
        ModelsRequestView {
            upstream_name: self.upstream_name@,
            url: self.url@,
            api_key: text::text_option(self.api_key),
        }
    }
}

/// What came back from an upstream that was asked for its models.
#[derive(Debug, Clone)]
pub enum ModelsReply {
    /// The ids of its models.
    Listed(Vec<String>),
    /// A status that is no success.
    Refused(Status),
    /// No response; holds what the client says of it.
    Unreachable(String),
}

/// The value of a [`ModelsReply`].
pub enum ModelsReplyView {
    Listed(Seq<Seq<char>>),
    Refused(u16),
    Unreachable(Seq<char>),
}

impl View for ModelsReply {
    type V = ModelsReplyView;

    open spec fn view(&self) -> ModelsReplyView {
        match self {
            ModelsReply::Listed(ids) => ModelsReplyView::Listed(text::texts(ids@)),
            ModelsReply::Refused(status) => ModelsReplyView::Refused(status@),
            ModelsReply::Unreachable(message) => ModelsReplyView::Unreachable(message@),
        }
    }
}

/// Where models are fetched from.
struct ModelSource {
    name: String,
    base_url: String,
    api_key: Option<String>,
}

/// Where models are fetched from: what an error names, the base URL and the key.
pub struct SourceView {
    pub name: Seq<char>,
    pub base_url: Seq<char>,
    pub api_key: Option<Seq<char>>,
}

/// Where models are fetched from, in the order in which it is tried: the
/// upstreams or, where none has a name, the plain upstream URLs.
pub open spec fn model_sources(config: ConfigView) -> Seq<SourceView> {
    if config.upstreams.len() > 0 {
        Seq::new(
            config.upstreams.len(),
            |i: int|
                SourceView {
                    name: config.upstreams[i].0,
                    base_url: config.upstreams[i].1.base_url,
                    api_key: routing::first_text(config.upstreams[i].1.api_key, config.api_key),
                },
        )
    } else {
        Seq::new(
            config.upstream_urls.len(),
            |i: int|
                SourceView {
                    name: config.upstream_urls[i],
                    base_url: config.upstream_urls[i],
                    api_key: config.api_key,
                },
        )
    }
}

/// What was fetched so far. The upstreams are asked one after the other, until
/// one lists its models.
#[derive(Debug, Clone)]
pub struct ModelFetch {
    asked: usize,
    models: Vec<(String, String)>,
    done: bool,
    last_error: Option<String>,
}

/// The value of a [`ModelFetch`].
pub struct FetchView {
    /// How many upstreams have replied.
    pub asked: int,
    /// The models that were listed.
    pub models: Seq<(Seq<char>, Seq<char>)>,
    /// Whether an upstream listed its models.
    pub done: bool,
    /// What is said of the last upstream that did not.
    pub last_error: Option<Seq<char>>,
}

impl View for ModelFetch {
    type V = FetchView;

    closed spec fn view(&self) -> FetchView {
        FetchView {
            asked: self.asked as int,
            models: listing::listed(self.models@),
            done: self.done,
            last_error: text::text_option(self.last_error),
        }
    }
}

/// The fetch before any upstream was asked.
pub open spec fn fetch_start() -> FetchView {
    FetchView { asked: 0, models: Seq::empty(), done: false, last_error: None }
}

/// Whether there is an upstream that a fetch still asks.
pub open spec fn goes_on(config: ConfigView, fetch: FetchView) -> bool {
    !fetch.done && 0 <= fetch.asked < model_sources(config).len()
}

/// The request with which a fetch goes on; none where an upstream listed its
/// models or every one was asked.
pub open spec fn fetch_request(config: ConfigView, fetch: FetchView) -> Result<
    Option<ModelsRequestView>,
    UrlErrorView,
> {
    if goes_on(config, fetch) {
        let source = model_sources(config)[fetch.asked];
        match endpoint::models_url(source.base_url) {
            Ok(url) => Ok(
                Some(
                    ModelsRequestView {
                        upstream_name: source.name,
                        url,
                        api_key: source.api_key,
                    },
                ),
            ),
            Err(error) => Err(error),
        }
    } else {
        Ok(None)
    }
}

/// Whether a model with the given id was listed.
pub open spec fn has_id(models: Seq<(Seq<char>, Seq<char>)>, id: Seq<char>) -> bool {
    exists|i: int| 0 <= i < models.len() && (#[trigger] models[i]).0 == id
}

/// The models with the given ids, each shown under its id, and no id twice.
pub open spec fn models_with_ids(ids: Seq<Seq<char>>) -> Seq<(Seq<char>, Seq<char>)>
    decreases ids.len(),
{
    if ids.len() == 0 {
        Seq::empty()
    } else {
        let before = models_with_ids(ids.drop_last());
        if has_id(before, ids.last()) {
            before
        } else {
            before.push((ids.last(), ids.last()))
        }
    }
}

/// The fetch after one more reply, which is that of the upstream that is next.
pub open spec fn fetch_after(
    config: ConfigView,
    fetch: FetchView,
    reply: ModelsReplyView,
) -> FetchView {
    if goes_on(config, fetch) {
        let name = model_sources(config)[fetch.asked].name;
        match reply {
            ModelsReplyView::Listed(ids) => FetchView {
                asked: fetch.asked + 1,
                models: models_with_ids(ids),
                done: true,
                last_error: fetch.last_error,
            },
            ModelsReplyView::Refused(code) => FetchView {
                asked: fetch.asked + 1,
                last_error: Some(name + " returned "@ + boundary::status_line(code)->0),
                ..fetch
            },
            ModelsReplyView::Unreachable(message) => FetchView {
                asked: fetch.asked + 1,
                last_error: Some(name + ": "@ + message),
                ..fetch
            },
        }
    } else {
        fetch
    }
}

/// What a fetch gives: the models in the order of their ids, unless upstreams
/// failed and none listed its models.
pub open spec fn fetch_result(fetch: FetchView) -> Result<
    Seq<(Seq<char>, Seq<char>)>,
    Seq<char>,
> {
    if fetch.last_error is Some && !fetch.done {
        Err(fetch.last_error->0)
    } else {
        Ok(listing::sorted(fetch.models))
    }
}

/// The fetch after the replies of the first upstreams.
pub open spec fn fetch_after_all(config: ConfigView, replies: Seq<ModelsReplyView>) -> FetchView
    decreases replies.len(),
{
    if replies.len() == 0 {
        fetch_start()
    } else {
        fetch_after(config, fetch_after_all(config, replies.drop_last()), replies.last())
    }
}

/// The fetched models are those with the listed ids, under these ids as they
/// are, and none of them twice.
pub proof fn fetched_ids_stay_as_they_are(ids: Seq<Seq<char>>)
    ensures
        listing::distinct_ids(models_with_ids(ids)),
        forall|i: int|
            0 <= i < models_with_ids(ids).len() ==> (#[trigger] models_with_ids(ids)[i]).0
                == models_with_ids(ids)[i].1 && ids.contains(models_with_ids(ids)[i].0),
        forall|k: int| 0 <= k < ids.len() ==> has_id(models_with_ids(ids), #[trigger] ids[k]),
    decreases ids.len(),
{
    if ids.len() > 0 {
        let init = ids.drop_last();
        let last = ids.last();
        let before = models_with_ids(init);
        let after = models_with_ids(ids);
        fetched_ids_stay_as_they_are(init);
        assert(ids[ids.len() - 1] == last);
        assert forall|i: int, j: int| 0 <= i < j < after.len() implies (#[trigger] after[i]).0 != (
        #[trigger] after[j]).0 by {
            assert(after[i] == before[i]);
            if j < before.len() {
                assert(after[j] == before[j]);
            }
        }
        assert forall|i: int| 0 <= i < after.len() implies (#[trigger] after[i]).0 == after[i].1
            && ids.contains(after[i].0) by {
            if i < before.len() {
                assert(after[i] == before[i]);
                let k = init.index_of(before[i].0);
                assert(ids[k] == init[k]);
            }
        }
        assert forall|k: int| 0 <= k < ids.len() implies has_id(after, #[trigger] ids[k]) by {
            if k < init.len() {
                assert(init[k] == ids[k]);
                assert(has_id(before, init[k]));
                let i = choose|i: int| 0 <= i < before.len() && (#[trigger] before[i]).0 == init[k];
                assert(after[i] == before[i]);
            } else if !has_id(before, last) {
                assert(after[before.len() as int] == (last, last));
            }
        }
    }
}

/// As long as no upstream lists its models, they are asked one after the other.
pub proof fn fetch_asks_in_order(config: ConfigView, replies: Seq<ModelsReplyView>)
    requires
        replies.len() <= model_sources(config).len(),
        forall|i: int| 0 <= i < replies.len() ==> !(#[trigger] replies[i] is Listed),
    ensures
        fetch_after_all(config, replies).asked == replies.len(),
        !fetch_after_all(config, replies).done,
        fetch_after_all(config, replies).models.len() == 0,
        fetch_after_all(config, replies).last_error is Some <==> replies.len() > 0,
    decreases replies.len(),
{
    if replies.len() > 0 {
        let init = replies.drop_last();
        assert(forall|i: int| 0 <= i < init.len() ==> #[trigger] init[i] == replies[i]);
        assert(replies[replies.len() - 1] == replies.last());
        fetch_asks_in_order(config, init);
    }
}

/// The first upstream that lists its models ends the fetch: its models are
/// what the fetch gives, nobody else is asked, and no later reply counts.
pub proof fn first_list_is_taken(config: ConfigView, replies: Seq<ModelsReplyView>, first: int)
    requires
        0 <= first < replies.len(),
        first < model_sources(config).len(),
        forall|i: int| 0 <= i < first ==> !(#[trigger] replies[i] is Listed),
        replies[first] is Listed,
    ensures
        fetch_after_all(config, replies).done,
        fetch_after_all(config, replies).asked == first + 1,
        fetch_request(config, fetch_after_all(config, replies)) == Ok::<
            Option<ModelsRequestView>,
            UrlErrorView,
        >(None),
        fetch_result(fetch_after_all(config, replies)) == Ok::<
            Seq<(Seq<char>, Seq<char>)>,
            Seq<char>,
        >(listing::sorted(models_with_ids(replies[first]->Listed_0))),
    decreases replies.len(),
{
    let init = replies.drop_last();
    assert(forall|i: int| 0 <= i < init.len() ==> #[trigger] init[i] == replies[i]);
    if first < init.len() {
        first_list_is_taken(config, init, first);
    } else {
        fetch_asks_in_order(config, init);
        assert(replies.last() == replies[first]);
    }
}

/// A fetch fails if and only if some upstream replied, and none of the replies
/// listed models.
pub proof fn fetch_fails_without_a_list(config: ConfigView, replies: Seq<ModelsReplyView>)
    requires
        replies.len() <= model_sources(config).len(),
    ensures
        fetch_result(fetch_after_all(config, replies)) is Err <==> replies.len() > 0 && forall|
            i: int,
        |
            0 <= i < replies.len() ==> !(#[trigger] replies[i] is Listed),
{
    if exists|i: int| 0 <= i < replies.len() && #[trigger] replies[i] is Listed {
        let k = lemma_first_list(replies);
        first_list_is_taken(config, replies, k);
        assert(replies[k] is Listed);
    } else {
        fetch_asks_in_order(config, replies);
    }
}

proof fn lemma_first_list(replies: Seq<ModelsReplyView>) -> (first: int)
    requires
        exists|i: int| 0 <= i < replies.len() && #[trigger] replies[i] is Listed,
    ensures
        0 <= first < replies.len(),
        replies[first] is Listed,
        forall|i: int| 0 <= i < first ==> !(#[trigger] replies[i] is Listed),
    decreases replies.len(),
{
    let init = replies.drop_last();
    assert(forall|i: int| 0 <= i < init.len() ==> #[trigger] init[i] == replies[i]);
    if exists|i: int| 0 <= i < init.len() && #[trigger] init[i] is Listed {
        let first = lemma_first_list(init);
        assert forall|i: int| 0 <= i < first implies !(#[trigger] replies[i] is Listed) by {
            assert(init[i] == replies[i]);
        }
        first
    } else {
        let i = choose|i: int| 0 <= i < replies.len() && #[trigger] replies[i] is Listed;
        assert(i == replies.len() - 1) by {
            if i < init.len() {
                assert(init[i] is Listed);
            }
        }
        assert forall|j: int| 0 <= j < i implies !(#[trigger] replies[j] is Listed) by {
            assert(init[j] == replies[j]);
        }
        i
    }
}

proof fn lemma_unlisted(
    models: Seq<(Seq<char>, Seq<char>)>,
    fetched: Seq<(Seq<char>, Seq<char>)>,
)
    ensures
        forall|i: int|
            0 <= i < unlisted(models, fetched).len() ==> !already_listed(
                models,
                (#[trigger] unlisted(models, fetched)[i]).0,
            ) && has_id(fetched, unlisted(models, fetched)[i].0),
        listing::distinct_ids(fetched) ==> listing::distinct_ids(unlisted(models, fetched)),
    decreases fetched.len(),
{
    if fetched.len() > 0 {
        let init = fetched.drop_last();
        let last = fetched.last();
        let before = unlisted(models, init);
        let after = unlisted(models, fetched);
        lemma_unlisted(models, init);
        assert(forall|i: int| 0 <= i < init.len() ==> #[trigger] init[i] == fetched[i]);
        assert(fetched[fetched.len() - 1] == last);
        assert forall|i: int| 0 <= i < after.len() implies !already_listed(
            models,
            (#[trigger] after[i]).0,
        ) && has_id(fetched, after[i].0) by {
            if i < before.len() {
                assert(after[i] == before[i]);
                let k = choose|k: int| 0 <= k < init.len() && (#[trigger] init[k]).0 == before[i].0;
                assert(fetched[k].0 == before[i].0);
            }
        }
        if listing::distinct_ids(fetched) {
            assert(listing::distinct_ids(init));
            assert forall|i: int, j: int| 0 <= i < j < after.len() implies (
                #[trigger] after[i]).0 != (#[trigger] after[j]).0 by {
                assert(after[i] == before[i]);
                if j < before.len() {
                    assert(after[j] == before[j]);
                } else {
                    let k = choose|k: int|
                        0 <= k < init.len() && (#[trigger] init[k]).0 == before[i].0;
                    assert(fetched[k].0 != fetched[fetched.len() - 1].0);
                }
            }
        }
    }
}

proof fn lemma_union_distinct(
    models: Seq<(Seq<char>, Seq<char>)>,
    fetched: Seq<(Seq<char>, Seq<char>)>,
)
    requires
        listing::distinct_ids(models),
        listing::distinct_ids(fetched),
    ensures
        listing::distinct_ids(models + unlisted(models, fetched)),
{
    lemma_unlisted(models, fetched);
    let more = unlisted(models, fetched);
    let all = models + more;
    assert forall|i: int, j: int| 0 <= i < j < all.len() implies (#[trigger] all[i]).0 != (
    #[trigger] all[j]).0 by {
        let n = models.len() as int;
        if j < n {
            assert(all[i] == models[i]);
            assert(all[j] == models[j]);
        } else if i >= n {
            assert(all[i] == more[i - n]);
            assert(all[j] == more[j - n]);
        } else {
            assert(all[i] == models[i]);
            assert(all[j] == more[j - n]);
            assert(!already_listed(models, more[j - n].0));
        }
    }
}

/// A merged list names no id twice and is in the order of the ids, where
/// neither of its parts names one twice.
pub proof fn merged_models_ascend(
    models: Seq<(Seq<char>, Seq<char>)>,
    fetched: Seq<(Seq<char>, Seq<char>)>,
)
    requires
        listing::distinct_ids(models),
        listing::distinct_ids(fetched),
    ensures
        name_map::ascending(merged(models, fetched)),
{
    lemma_union_distinct(models, fetched);
    let all = models + unlisted(models, fetched);
    listing::sorted_distinct_ids_ascend(all);
}

/// A merged list holds every configured model, with the name that is configured
/// for it.
pub proof fn merged_models_hold_the_configured(
    models: Seq<(Seq<char>, Seq<char>)>,
    fetched: Seq<(Seq<char>, Seq<char>)>,
    k: int,
)
    requires
        listing::distinct_ids(models),
        listing::distinct_ids(fetched),
        0 <= k < models.len(),
    ensures
        name_map::lookup(merged(models, fetched), models[k].0) == Some(models[k].1),
{
    lemma_union_distinct(models, fetched);
    let all = models + unlisted(models, fetched);
    assert(all[k] == models[k]);
    listing::lemma_sorted_lookup(all, k);
}

/// A fetched id that is the target of a configured model is not listed by
/// itself: the configured model stands for it.
pub proof fn configured_models_supersede_fetched(
    models: Seq<(Seq<char>, Seq<char>)>,
    fetched: Seq<(Seq<char>, Seq<char>)>,
    id: Seq<char>,
)
    requires
        already_listed(models, id),
        !has_id(models, id),
    ensures
        !has_id(merged(models, fetched), id),
{
    lemma_unlisted(models, fetched);
    let more = unlisted(models, fetched);
    let all = models + more;
    let p = |x: (Seq<char>, Seq<char>)| x.0 != id;
    assert forall|i: int| 0 <= i < all.len() implies p(#[trigger] all[i]) by {
        if i < models.len() {
            assert(all[i] == models[i]);
        } else {
            assert(all[i] == more[i - models.len()]);
        }
    }
    listing::lemma_sorted_all(all, p);
    let result = merged(models, fetched);
    assert forall|i: int| 0 <= i < result.len() implies (#[trigger] result[i]).0 != id by {
        assert(p(result[i]));
    }
}

/// A fetched model that no configured one stands for is listed under its own
/// id.
pub proof fn unmatched_models_keep_their_ids(
    models: Seq<(Seq<char>, Seq<char>)>,
    fetched: Seq<(Seq<char>, Seq<char>)>,
    k: int,
)
    requires
        listing::distinct_ids(models),
        listing::distinct_ids(fetched),
        0 <= k < fetched.len(),
        !already_listed(models, fetched[k].0),
    ensures
        name_map::lookup(merged(models, fetched), fetched[k].0) == Some(fetched[k].1),
{
    lemma_union_distinct(models, fetched);
    let more = unlisted(models, fetched);
    let all = models + more;
    let j = lemma_unlisted_holds(models, fetched, k);
    assert(all[models.len() + j] == more[j]);
    listing::lemma_sorted_lookup(all, models.len() + j);
}

/// A fetched model that is not listed already is among those that are not.
pub proof fn lemma_unlisted_holds(
    models: Seq<(Seq<char>, Seq<char>)>,
    fetched: Seq<(Seq<char>, Seq<char>)>,
    k: int,
) -> (j: int)
    requires
        0 <= k < fetched.len(),
        !already_listed(models, fetched[k].0),
    ensures
        0 <= j < unlisted(models, fetched).len(),
        unlisted(models, fetched)[j] == fetched[k],
    decreases fetched.len(),
{
    let init = fetched.drop_last();
    if k < init.len() {
        assert(init[k] == fetched[k]);
        lemma_unlisted_holds(models, init, k)
    } else {
        unlisted(models, init).len() as int
    }
}

/// The page that lists all the models.
pub fn models_page(models: Vec<(String, String)>) -> (r: ModelsPage)
    ensures
        r@ == page_of(listing::listed(models@)),
{
    let ghost all = listing::listed(models@);
    let first_id = if models.len() > 0 {
        Some(models[0].0.clone())
    } else {
        None
    };
    let last_id = if models.len() > 0 {
        Some(models[models.len() - 1].0.clone())
    } else {
        None
    };
    let mut data: Vec<ModelInfo> = Vec::new();
    for model in it: models
        invariant
            it.seq() == models@,
            all == listing::listed(models@),
            data@.len() == it.index(),
            forall|i: int| 0 <= i < it.index() ==> (#[trigger] data@[i])@ == info_of(all[i]),
    {
        assert(all[it.index() as int] == (model.0@, model.1@));
        data.push(
            ModelInfo {
                id: model.0,
                display_name: model.1,
                created_at: "1970-01-01T00:00:00Z".to_owned(),
                model_type: "model".to_owned(),
            },
        );
    }
    let r = ModelsPage { data, first_id, has_more: false, last_id };
    assert(r@.data == page_of(all).data);
    r
}

/// Whether an id is listed already.
fn is_listed(models: &Vec<(String, String)>, count: usize, id: &String) -> (r: bool)
    requires
        count <= models@.len(),
    ensures
        r == already_listed(listing::listed(models@).take(count as int), id@),
{
    let ghost all = listing::listed(models@).take(count as int);
    let mut i: usize = 0;
    while i < count
        invariant
            i <= count <= models@.len(),
            all == listing::listed(models@).take(count as int),
            forall|j: int|
                0 <= j < i ==> (#[trigger] all[j]).0 != id@ && all[j].1 != id@,
        decreases count - i,
    {
        assert(all[i as int] == (models@[i as int].0@, models@[i as int].1@));
        if models[i].0 == *id || models[i].1 == *id {
            return true;
        }
        i += 1;
    }
    false
}

/// The configured models and those fetched ones that are not among them.
pub fn merge_models(models: Vec<(String, String)>, fetched: Vec<(String, String)>) -> (r: Vec<
    (String, String),
>)
    ensures
        listing::listed(r@) == merged(listing::listed(models@), listing::listed(fetched@)),
{
    let ghost own = listing::listed(models@);
    let ghost more = listing::listed(fetched@);
    let count: usize = models.len();
    let mut all = models;
    assert(more.take(0) == Seq::<(Seq<char>, Seq<char>)>::empty());
    assert(own + unlisted(own, more.take(0)) == own);
    for model in it: fetched
        invariant
            it.seq() == fetched@,
            more == listing::listed(fetched@),
            count == own.len(),
            listing::listed(all@) == own + unlisted(own, more.take(it.index() as int)),
    {
        let ghost n = it.index() as int;
        let ghost before = listing::listed(all@);
        let ghost added = (model.0@, model.1@);
        assert(more.take(n + 1).drop_last() == more.take(n));
        assert(more.take(n + 1).last() == added);
        assert(before.len() == all@.len());
        assert(before.take(count as int) == own);
        if !is_listed(&all, count, &model.0) {
            all.push(model);
            assert(listing::listed(all@) == before.push(added));
            assert(own + unlisted(own, more.take(n)).push(added) == before.push(added));
        }
    }
    assert(more.take(more.len() as int) == more);
    sort_by_id(all)
}

/// Whether a model with the given id was listed.
fn has_listed(models: &Vec<(String, String)>, id: &String) -> (r: bool)
    ensures
        r == has_id(listing::listed(models@), id@),
{
    let ghost all = listing::listed(models@);
    let mut i: usize = 0;
    while i < models.len()
        invariant
            i <= models@.len(),
            all == listing::listed(models@),
            forall|j: int| 0 <= j < i ==> (#[trigger] all[j]).0 != id@,
        decreases models@.len() - i,
    {
        assert(all[i as int] == (models@[i as int].0@, models@[i as int].1@));
        if models[i].0 == *id {
            return true;
        }
        i += 1;
    }
    false
}

/// The models with the given ids, each shown under its id, and no id twice.
fn models_of_ids(ids: Vec<String>) -> (r: Vec<(String, String)>)
    ensures
        listing::listed(r@) == models_with_ids(text::texts(ids@)),
{
    let ghost all = text::texts(ids@);
    let mut models: Vec<(String, String)> = Vec::new();
    assert(all.take(0) == Seq::<Seq<char>>::empty());
    assert(listing::listed(models@) == Seq::<(Seq<char>, Seq<char>)>::empty());
    for id in it: ids
        invariant
            it.seq() == ids@,
            all == text::texts(ids@),
            listing::listed(models@) == models_with_ids(all.take(it.index() as int)),
    {
        let ghost n = it.index() as int;
        let ghost before = listing::listed(models@);
        assert(all.take(n + 1).drop_last() == all.take(n));
        assert(all.take(n + 1).last() == id@);
        if !has_listed(&models, &id) {
            let ghost added = (id@, id@);
            models.push((id.clone(), id));
            assert(listing::listed(models@) == before.push(added));
        }
    }
    assert(all.take(all.len() as int) == all);
    models
}

/// The place from which models are fetched at `index`, where there is one.
fn source_at(config: &Config, index: usize) -> (r: Option<ModelSource>)
    ensures
        match r {
            Some(source) => index < model_sources(config@).len() && model_sources(
                config@,
            )[index as int] == (SourceView {
                name: source.name@,
                base_url: source.base_url@,
                api_key: text::text_option(source.api_key),
            }),
            None => index >= model_sources(config@).len(),
        },
        r is Some ==> index < usize::MAX,
{
    if config.upstreams.len() > 0 {
        if index < config.upstreams.len() {
            let upstream = config.upstreams.value(index);
            Some(
                ModelSource {
                    name: config.upstreams.name(index).clone(),
                    base_url: upstream.base_url.clone(),
                    api_key: if upstream.api_key.is_some() {
                        upstream.api_key.clone()
                    } else {
                        config.api_key.clone()
                    },
                },
            )
        } else {
            None
        }
    } else if index < config.upstream_urls.len() {
        Some(
            ModelSource {
                name: config.upstream_urls[index].clone(),
                base_url: config.upstream_urls[index].clone(),
                api_key: config.api_key.clone(),
            },
        )
    } else {
        None
    }
}

impl ModelFetch {
    /// The fetch before any upstream was asked.
    pub fn new() -> (r: Self)
        ensures
            r@ == fetch_start(),
    {
        let r = ModelFetch {
            asked: 0,
            models: Vec::new(),
            done: false,
            last_error: None,
        };
        assert(r@.models == fetch_start().models);
        r
    }

    /// The request with which the fetch goes on.
    pub fn next_request(&self, config: &Config) -> (r: Result<Option<ModelsRequest>, UrlError>)
        ensures
            match r {
                Ok(Some(request)) => fetch_request(config@, self@) == Ok::<_, UrlErrorView>(
                    Some(request@),
                ),
                Ok(None) => fetch_request(config@, self@) == Ok::<
                    Option<ModelsRequestView>,
                    UrlErrorView,
                >(None),
                Err(error) => fetch_request(config@, self@) == Err::<
                    Option<ModelsRequestView>,
                    UrlErrorView,
                >(error@),
            },
    {
        if self.done {
            return Ok(None);
        }
        match source_at(config, self.asked) {
            Some(source) => match Config::resolve_models_url(&source.base_url) {
                Ok(url) => Ok(
                    Some(
                        ModelsRequest {
                            upstream_name: source.name,
                            url,
                            api_key: source.api_key,
                        },
                    ),
                ),
                Err(error) => Err(error),
            },
            None => Ok(None),
        }
    }

    /// Takes in the reply of the upstream that is next.
    pub fn record(&mut self, config: &Config, reply: ModelsReply)
        ensures
            final(self)@ == fetch_after(config@, old(self)@, reply@),
    {
        if self.done {
            return;
        }
        if let Some(source) = source_at(config, self.asked) {
            match reply {
                ModelsReply::Listed(ids) => {
                    self.models = models_of_ids(ids);
                    self.done = true;
                },
                ModelsReply::Refused(status) => {
                    let line = status.line();
                    self.last_error = Some(source.name.concat(" returned ").concat(&line));
                },
                ModelsReply::Unreachable(message) => {
                    self.last_error = Some(source.name.concat(": ").concat(&message));
                },
            }
            self.asked = self.asked + 1;
        }
    }

    /// What the fetch gives.
    pub fn finish(self) -> (r: Result<Vec<(String, String)>, String>)
        ensures
            match r {
                Ok(models) => fetch_result(self@) == Ok::<_, Seq<char>>(listing::listed(models@)),
                Err(error) => fetch_result(self@) == Err::<Seq<(Seq<char>, Seq<char>)>, _>(error@),
            },
    {
        match self.last_error {
            Some(error) => {
                if !self.done {
                    return Err(error);
                }
            },
            None => {},
        }
        Ok(sort_by_id(self.models))
    }
}

impl Config {
    /// Whether the upstreams are asked for their models.
    pub fn fetches_models(&self) -> (r: bool)
        ensures
            r == (self.models_list_mode != ModelsListMode::Static),
    {
        self.models_list_mode != ModelsListMode::Static
    }

    /// The answer to a request for the list of models, given those that were
    /// fetched.
    pub fn models_answer(&self, fetched: Vec<(String, String)>) -> (r: ModelsPage)
        ensures
            r@ == page_of(answered_models(self@, listing::listed(fetched@))),
    {
        let models = match self.models_list_mode {
            ModelsListMode::Static => self.static_models_list(),
            ModelsListMode::Upstream => fetched,
            ModelsListMode::Merge => merge_models(self.static_models_list(), fetched),
        };
        models_page(models)
    }
}

/// Where no models are fetched, what was fetched makes no difference.
pub proof fn static_answer_ignores_upstreams(
    config: ConfigView,
    fetched: Seq<(Seq<char>, Seq<char>)>,
    other: Seq<(Seq<char>, Seq<char>)>,
)
    requires
        config.models_list_mode == ModelsListMode::Static,
    ensures
        answered_models(config, fetched) == answered_models(config, other),
{
}

} // verus!
