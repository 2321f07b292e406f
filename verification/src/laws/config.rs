//! Laws of the configuration: what every field of it comes from.
use vstd::prelude::*;

use crate::attempts;
use crate::config;
use crate::config::{Config, ConfigErrorView, ConfigView, ModelsListMode, UpstreamView};
use crate::endpoint;
use crate::endpoint::UrlErrorView;
use crate::lists;
use crate::name_map;
use crate::number;
use crate::order;
use crate::overrides;
use crate::overrides::{CliOverrides, CliView, LogLevel};
use crate::routing;
use crate::sources;
use crate::sources::{EnvVars, EnvView, FileConfig, FileView};
use crate::text;

verus! {

/// The value of a configuration holds every field of it.
pub proof fn config_value_holds_every_field(config: Config, i: int)
    ensures
        config@.port == config.port,
        config@.upstream_urls.len() == config.upstream_urls@.len(),
        0 <= i < config.upstream_urls@.len() ==> config@.upstream_urls[i]
            == config.upstream_urls@[i]@,
        config.api_key is None ==> config@.api_key is None,
        config.api_key is Some ==> config@.api_key == Some(config.api_key->0@),
        config@.model_map == config.model_map@,
        config@.system_prompt_ignore_terms.len() == config.system_prompt_ignore_terms@.len(),
        0 <= i < config.system_prompt_ignore_terms@.len() ==> config@.system_prompt_ignore_terms[i]
            == config.system_prompt_ignore_terms@[i]@,
        config.reasoning_model is None ==> config@.reasoning_model is None,
        config.reasoning_model is Some ==> config@.reasoning_model == Some(
            config.reasoning_model->0@,
        ),
        config.completion_model is None ==> config@.completion_model is None,
        config.completion_model is Some ==> config@.completion_model == Some(
            config.completion_model->0@,
        ),
        config@.merge_system_messages == config.merge_system_messages,
        config@.merge_user_messages == config.merge_user_messages,
        config@.debug == config.debug,
        config@.verbose == config.verbose,
        config@.models_list_mode == config.models_list_mode,
        config@.upstreams == config.upstreams@,
{
}

/// The value of an environment holds the texts of its variables.
pub proof fn environment_value_holds_every_variable(env: EnvVars)
    ensures
        env.port is None <==> env@.port is None,
        env.port is Some ==> env@.port->0 == env.port->0@,
        env.upstream_base_url is None <==> env@.upstream_base_url is None,
        env.upstream_base_url is Some ==> env@.upstream_base_url->0 == env.upstream_base_url->0@,
        env.anthropic_proxy_base_url is None <==> env@.anthropic_proxy_base_url is None,
        env.anthropic_proxy_base_url is Some ==> env@.anthropic_proxy_base_url->0
            == env.anthropic_proxy_base_url->0@,
        env.upstream_api_key is None <==> env@.upstream_api_key is None,
        env.upstream_api_key is Some ==> env@.upstream_api_key->0 == env.upstream_api_key->0@,
        env.openrouter_api_key is None <==> env@.openrouter_api_key is None,
        env.openrouter_api_key is Some ==> env@.openrouter_api_key->0
            == env.openrouter_api_key->0@,
        env.model_map is None <==> env@.model_map is None,
        env.model_map is Some ==> env@.model_map->0 == env.model_map->0@,
        env.system_prompt_ignore_terms is None <==> env@.system_prompt_ignore_terms is None,
        env.system_prompt_ignore_terms is Some ==> env@.system_prompt_ignore_terms->0
            == env.system_prompt_ignore_terms->0@,
        env.reasoning_model is None <==> env@.reasoning_model is None,
        env.reasoning_model is Some ==> env@.reasoning_model->0 == env.reasoning_model->0@,
        env.completion_model is None <==> env@.completion_model is None,
        env.completion_model is Some ==> env@.completion_model->0 == env.completion_model->0@,
        env.debug is None <==> env@.debug is None,
        env.debug is Some ==> env@.debug->0 == env.debug->0@,
        env.verbose is None <==> env@.verbose is None,
        env.verbose is Some ==> env@.verbose->0 == env.verbose->0@,
        env.models_list_mode is None <==> env@.models_list_mode is None,
        env.models_list_mode is Some ==> env@.models_list_mode->0 == env.models_list_mode->0@,
{
}

/// The values of a file and of a command line hold every field of them.
pub proof fn file_value_holds_every_field(file: FileConfig, cli: CliOverrides, i: int)
    ensures
        file@.port == file.port,
        file@.debug == file.debug,
        file@.verbose == file.verbose,
        file@.merge_system_messages == file.merge_system_messages,
        file@.merge_user_messages == file.merge_user_messages,
        file.system_prompt_ignore_terms is None <==> file@.system_prompt_ignore_terms is None,
        file.system_prompt_ignore_terms is Some ==> file@.system_prompt_ignore_terms->0
            == text::texts(file.system_prompt_ignore_terms->0@),
        file.reasoning_model is None <==> file@.reasoning_model is None,
        file.reasoning_model is Some ==> file@.reasoning_model->0 == file.reasoning_model->0@,
        file.completion_model is None <==> file@.completion_model is None,
        file.completion_model is Some ==> file@.completion_model->0 == file.completion_model->0@,
        file@.models_list_mode == file.models_list_mode,
        file.upstreams is None <==> file@.upstreams is None,
        file.upstreams is Some ==> file@.upstreams->0 == file.upstreams->0@,
        cli@.debug == cli.debug,
        cli@.verbose == cli.verbose,
        cli@.port == cli.port,
        cli@.system_prompt_ignore.len() == cli.system_prompt_ignore@.len(),
        0 <= i < cli.system_prompt_ignore@.len() ==> cli@.system_prompt_ignore[i]
            == cli.system_prompt_ignore@[i]@,
        cli@.merge_system_messages == cli.merge_system_messages,
        cli@.merge_user_messages == cli.merge_user_messages,
{
}

/// Whether a text is a word of small letters, in whatever case it is written.
pub open spec fn reads(value: Seq<char>, word: Seq<char>) -> bool {
    &&& value.len() == word.len()
    &&& forall|i: int|
        0 <= i < word.len() ==> #[trigger] value[i] == word[i] || (65 <= value[i] as int <= 90
            && value[i] as int + 32 == word[i] as int)
}

proof fn lemma_reads(value: Seq<char>, word: Seq<char>)
    requires
        forall|i: int| 0 <= i < word.len() ==> 97 <= (#[trigger] word[i]) as int <= 122,
    ensures
        text::lower(value) == word <==> reads(value, word),
{
    let low = text::lower(value);
    if low == word {
        assert forall|i: int| 0 <= i < word.len() implies #[trigger] value[i] == word[i] || (65
            <= value[i] as int <= 90 && value[i] as int + 32 == word[i] as int) by {
            assert(low[i] == word[i]);
        }
    }
    if reads(value, word) {
        assert forall|i: int| 0 <= i < word.len() implies #[trigger] low[i] == word[i] by {
            assert(value[i] == value[i]);
            assert(97 <= word[i] as int <= 122);
        }
        assert(low == word);
    }
}

/// A variable switches something on if and only if it is `1` or the word `true`.
pub proof fn switches_are_on_or_off(value: Seq<char>)
    ensures
        sources::switched_on(Some(value)) <==> value == seq!['1'] || reads(
            value,
            seq!['t', 'r', 'u', 'e'],
        ),
        !sources::switched_on(None),
        forall|other: bool|
            #![trigger sources::switch_or(Some(value), other)]
            sources::switch_or(Some(value), other) <==> value == seq!['1'] || reads(
                value,
                seq!['t', 'r', 'u', 'e'],
            ),
        forall|other: bool|
            #![trigger sources::switch_or(None, other)]
            sources::switch_or(None, other) == other,
{
    reveal_strlit("1");
    reveal_strlit("true");
    assert("1"@ == seq!['1']);
    assert("true"@ == seq!['t', 'r', 'u', 'e']);
    lemma_reads(value, "true"@);
}

/// A variable names a mode if and only if it is the word for it.
pub proof fn modes_have_names(value: Seq<char>)
    ensures
        sources::named_mode(value) == Some(ModelsListMode::Static) <==> reads(
            value,
            seq!['s', 't', 'a', 't', 'i', 'c'],
        ),
        sources::named_mode(value) == Some(ModelsListMode::Upstream) <==> reads(
            value,
            seq!['u', 'p', 's', 't', 'r', 'e', 'a', 'm'],
        ),
        sources::named_mode(value) == Some(ModelsListMode::Merge) <==> reads(
            value,
            seq!['m', 'e', 'r', 'g', 'e'],
        ),
        forall|other: ModelsListMode|
            #![trigger sources::mode_or(Some(value), other)]
            sources::named_mode(value) is None ==> sources::mode_or(Some(value), other) == other,
        forall|other: ModelsListMode|
            #![trigger sources::mode_or(Some(value), other)]
            sources::named_mode(value) is Some ==> sources::mode_or(Some(value), other)
                == sources::named_mode(value)->0,
        forall|other: ModelsListMode|
            #![trigger sources::mode_or(None, other)]
            sources::mode_or(None, other) == other,
{
    reveal_strlit("static");
    reveal_strlit("upstream");
    reveal_strlit("merge");
    assert("static"@ == seq!['s', 't', 'a', 't', 'i', 'c']);
    assert("upstream"@ == seq!['u', 'p', 's', 't', 'r', 'e', 'a', 'm']);
    assert("merge"@ == seq!['m', 'e', 'r', 'g', 'e']);
    lemma_reads(value, "static"@);
    lemma_reads(value, "upstream"@);
    lemma_reads(value, "merge"@);
}

/// Whether a port is the one in a variable, or another where there is none in
/// it.
pub open spec fn port_from(value: Option<Seq<char>>, other: u16, port: u16) -> bool {
    &&& value is None ==> port == other
    &&& value is Some && number::u16_value(value->0) is Some ==> Some(port as int)
        == number::u16_value(value->0)
    &&& value is Some && number::u16_value(value->0) is None ==> port == other
}

/// Whether a text is the first of two that is set.
pub open spec fn first_set(
    a: Option<Seq<char>>,
    b: Option<Seq<char>>,
    value: Option<Seq<char>>,
) -> bool {
    &&& a is Some ==> value == a
    &&& a is None ==> value == b
}

/// Whether a key is that of the environment: the first of the two variables that
/// is set, unless it is empty.
pub open spec fn key_from(env: EnvView, key: Option<Seq<char>>) -> bool {
    let set = if env.upstream_api_key is Some {
        env.upstream_api_key
    } else {
        env.openrouter_api_key
    };
    &&& set is None ==> key is None
    &&& set is Some && set->0.len() == 0 ==> key is None
    &&& set is Some && set->0.len() > 0 ==> key == set
}

/// The list of URLs that an environment sets.
pub open spec fn url_text(env: EnvView) -> Option<Seq<char>> {
    if env.upstream_base_url is Some {
        env.upstream_base_url
    } else {
        env.anthropic_proxy_base_url
    }
}

proof fn lemma_port(value: Option<Seq<char>>, other: u16)
    ensures
        port_from(value, other, sources::port_or(value, other)),
{
    if let Some(v) = value {
        if let Some(n) = number::u16_value(v) {
            let s = if v.len() > 0 && v.first() == '+' {
                v.drop_first()
            } else {
                v
            };
            assert(n == number::digits_value(s));
            number::lemma_value_not_negative(s);
        }
    }
}

/// Where the environment alone gives a configuration, every field comes from its
/// variable.
pub proof fn environment_gives_every_field(env: EnvView)
    ensures
        sources::env_config(env) matches Ok(c) ==> {
            &&& port_from(env.port, 3000, c.port)
            &&& url_text(env) is Some
            &&& lists::upstream_url_list(url_text(env)->0) == Ok::<Seq<Seq<char>>, UrlErrorView>(
                c.upstream_urls,
            )
            &&& key_from(env, c.api_key)
            &&& env.model_map is None ==> c.model_map.len() == 0
            &&& env.model_map is Some ==> lists::model_map(env.model_map->0) is Ok && c.model_map
                == lists::model_map(env.model_map->0)->Ok_0
            &&& env.system_prompt_ignore_terms is None ==> c.system_prompt_ignore_terms.len() == 0
            &&& env.system_prompt_ignore_terms is Some ==> c.system_prompt_ignore_terms
                == lists::deduped(lists::ignore_terms(env.system_prompt_ignore_terms->0))
            &&& c.reasoning_model == env.reasoning_model
            &&& c.completion_model == env.completion_model
            &&& !c.merge_system_messages
            &&& !c.merge_user_messages
            &&& c.debug == sources::switched_on(env.debug)
            &&& c.verbose == sources::switched_on(env.verbose)
            &&& c.models_list_mode == sources::mode_or(env.models_list_mode, ModelsListMode::Static)
            &&& c.upstreams.len() == 0
        },
{
    lemma_port(env.port, 3000);
}

/// An environment is refused if and only if it sets no URLs, or URLs that are
/// refused, or a model map that is; the first of these is reported.
pub proof fn environment_is_refused_for_its_lists(env: EnvView)
    ensures
        url_text(env) is None ==> sources::env_config(env) == Err::<ConfigView, ConfigErrorView>(
            ConfigErrorView::MissingBaseUrl,
        ),
        url_text(env) is Some ==> match lists::upstream_url_list(url_text(env)->0) {
            Err(error) => sources::env_config(env) == Err::<ConfigView, ConfigErrorView>(
                ConfigErrorView::Url(error),
            ),
            Ok(_) => env.model_map is None ==> sources::env_config(env) is Ok,
        },
        url_text(env) is Some && lists::upstream_url_list(url_text(env)->0) is Ok && env.model_map
            is Some ==> match lists::model_map(env.model_map->0) {
            Err(error) => sources::env_config(env) == Err::<ConfigView, ConfigErrorView>(
                ConfigErrorView::ModelMap(error),
            ),
            Ok(_) => sources::env_config(env) is Ok,
        },
{
}

/// The upstreams of a file; none where it has none.
pub open spec fn upstreams_of(file: FileView) -> Seq<(Seq<char>, UpstreamView)> {
    if file.upstreams is Some {
        file.upstreams->0
    } else {
        Seq::empty()
    }
}

/// A file that is accepted gives every field, and one upstream URL for each of
/// its upstreams, in their order.
pub proof fn file_gives_every_field(file: FileView)
    ensures
        sources::file_config(file) matches Ok(c) ==> {
            &&& c.port == if file.port is Some {
                file.port->0
            } else {
                3000
            }
            &&& c.upstream_urls.len() == upstreams_of(file).len()
            &&& forall|i: int|
                0 <= i < upstreams_of(file).len() ==> #[trigger] c.upstream_urls[i]
                    == upstreams_of(file)[i].1.base_url
            &&& c.api_key is None
            &&& file.system_prompt_ignore_terms is None ==> c.system_prompt_ignore_terms.len() == 0
            &&& file.system_prompt_ignore_terms is Some ==> c.system_prompt_ignore_terms
                == lists::deduped(file.system_prompt_ignore_terms->0)
            &&& c.reasoning_model == file.reasoning_model
            &&& c.completion_model == file.completion_model
            &&& c.merge_system_messages == (file.merge_system_messages == Some(true))
            &&& c.merge_user_messages == (file.merge_user_messages == Some(true))
            &&& c.debug == (file.debug == Some(true))
            &&& c.verbose == (file.verbose == Some(true))
            &&& file.models_list_mode is Some ==> c.models_list_mode == file.models_list_mode->0
            &&& file.models_list_mode is None ==> c.models_list_mode == ModelsListMode::Static
            &&& c.upstreams == upstreams_of(file)
        },
{
}

/// A model that no upstream of a file has is tried at the endpoint of every
/// upstream of the file.
pub proof fn unserved_models_are_tried_at_every_upstream(
    file: FileView,
    model: Seq<char>,
    i: int,
)
    requires
        sources::file_config(file) is Ok,
        0 <= i < upstreams_of(file).len(),
    ensures
        ({
            let config = sources::file_config(file)->Ok_0;
            let plan = attempts::planned(config, model, routing::legacy_route(model));
            &&& plan.len() == upstreams_of(file).len()
            &&& endpoint::chat_url(upstreams_of(file)[i].1.base_url) == Ok::<
                Seq<char>,
                UrlErrorView,
            >(plan[i].base_url)
        }),
{
    overrides::file_config_is_usable(file);
    let config = sources::file_config(file)->Ok_0;
    assert(config.upstream_urls[i] == upstreams_of(file)[i].1.base_url);
    assert(endpoint::chat_url(config.upstream_urls[i]) is Ok);
}

/// A file is refused if and only if the URL of one of its upstreams is, and the
/// first of these is reported, with its name.
pub proof fn file_is_refused_for_its_first_bad_url(file: FileView, n: int)
    requires
        0 <= n <= upstreams_of(file).len(),
        forall|i: int|
            0 <= i < n ==> endpoint::chat_url((#[trigger] upstreams_of(file)[i]).1.base_url) is Ok,
        n < upstreams_of(file).len() ==> endpoint::chat_url(upstreams_of(file)[n].1.base_url)
            is Err,
    ensures
        n == upstreams_of(file).len() ==> sources::file_config(file) is Ok,
        n < upstreams_of(file).len() ==> sources::file_config(file) == Err::<
            ConfigView,
            ConfigErrorView,
        >(
            ConfigErrorView::Upstream {
                name: upstreams_of(file)[n].0,
                error: endpoint::chat_url(upstreams_of(file)[n].1.base_url)->Err_0,
            },
        ),
{
    let upstreams = upstreams_of(file);
    assert(upstreams == sources::value_or(file.upstreams, Seq::empty()));
    if n < upstreams.len() {
        sources::lemma_refused_after(upstreams, n);
    } else {
        sources::lemma_none_refused(upstreams);
    }
}

/// What the environment sets overrides a configuration field by field; what it
/// does not set, or what is refused, leaves the field as it is.
pub proof fn environment_overrides_every_field(config: ConfigView, env: EnvView)
    ensures
        ({
            let c = overrides::env_overridden(config, env);
            let raw = url_text(env);
            let set = raw is Some && lists::upstream_url_list(raw->0) is Ok;
            &&& port_from(env.port, config.port, c.port)
            &&& set ==> c.upstream_urls == lists::upstream_url_list(raw->0)->Ok_0
            &&& !set ==> c.upstream_urls == config.upstream_urls && c.upstreams == config.upstreams
            &&& key_from(env, env.key())
            &&& first_set(env.key(), config.api_key, c.api_key)
            &&& env.model_map is None ==> c.model_map == config.model_map
            &&& env.model_map is Some && lists::model_map(env.model_map->0) is Err ==> c.model_map
                == config.model_map
            &&& first_set(env.reasoning_model, config.reasoning_model, c.reasoning_model)
            &&& first_set(env.completion_model, config.completion_model, c.completion_model)
            &&& c.merge_system_messages == config.merge_system_messages
            &&& c.merge_user_messages == config.merge_user_messages
            &&& c.debug == if env.debug is Some {
                sources::switched_on(env.debug)
            } else {
                config.debug
            }
            &&& c.verbose == if env.verbose is Some {
                sources::switched_on(env.verbose)
            } else {
                config.verbose
            }
            &&& env.models_list_mode is None ==> c.models_list_mode == config.models_list_mode
            &&& env.models_list_mode is Some && sources::named_mode(env.models_list_mode->0) is None
                ==> c.models_list_mode == config.models_list_mode
            &&& env.models_list_mode is Some && sources::named_mode(env.models_list_mode->0) is Some
                ==> Some(c.models_list_mode) == sources::named_mode(env.models_list_mode->0)
        }),
{
    lemma_port(env.port, config.port);
}

/// The model map of the environment is added to that of a configuration: where
/// it has a source, it decides, and where it has not, nothing changes.
pub proof fn environment_adds_its_model_map(config: ConfigView, env: EnvView, source: Seq<char>)
    requires
        env.model_map is Some,
        lists::model_map(env.model_map->0) is Ok,
    ensures
        ({
            let own = name_map::lookup(lists::model_map(env.model_map->0)->Ok_0, source);
            let after = name_map::lookup(
                overrides::env_overridden(config, env).model_map,
                source,
            );
            &&& own is Some ==> after == own
            &&& own is None ==> after == name_map::lookup(config.model_map, source)
        }),
{
    overrides::model_maps_add_up(config, env, env.model_map->0, source);
}

/// The terms of the environment come after those of a configuration, without
/// repetitions; where it has none, nothing changes.
pub proof fn environment_adds_its_terms(config: ConfigView, env: EnvView)
    ensures
        env.system_prompt_ignore_terms is None ==> overrides::env_overridden(
            config,
            env,
        ).system_prompt_ignore_terms == config.system_prompt_ignore_terms,
        env.system_prompt_ignore_terms is Some ==> {
            let added = lists::ignore_terms(env.system_prompt_ignore_terms->0);
            let after = overrides::env_overridden(config, env).system_prompt_ignore_terms;
            &&& added.len() == 0 ==> after == config.system_prompt_ignore_terms
            &&& added.len() > 0 ==> after == lists::deduped(
                config.system_prompt_ignore_terms + added,
            )
        },
{
}

/// The URLs of the environment become upstreams that serve every model: one
/// under the name of each URL, with that URL and the key. Of two URLs with one
/// name the later is kept.
pub proof fn environment_names_an_upstream_for_each_url(config: ConfigView, env: EnvView, i: int)
    requires
        url_text(env) is Some,
        lists::upstream_url_list(url_text(env)->0) is Ok,
        ({
            let urls = lists::upstream_url_list(url_text(env)->0)->Ok_0;
            &&& 0 <= i < urls.len()
            &&& forall|k: int|
                i < k < urls.len() ==> overrides::automatic_name(#[trigger] urls[k])
                    != overrides::automatic_name(urls[i])
        }),
    ensures
        ({
            let urls = lists::upstream_url_list(url_text(env)->0)->Ok_0;
            let c = overrides::env_overridden(config, env);
            let found = name_map::lookup(c.upstreams, overrides::automatic_name(urls[i]));
            &&& found is Some
            &&& found->0.base_url == urls[i]
            &&& found->0.api_key == c.api_key
            &&& found->0.models.len() == 0
        }),
{
    let urls = lists::upstream_url_list(url_text(env)->0)->Ok_0;
    let c = overrides::env_overridden(config, env);
    let added = Seq::new(
        urls.len(),
        |k: int| overrides::automatic_upstream(urls[k], c.api_key),
    );
    assert forall|k: int| i < k < added.len() implies (#[trigger] added[k]).0 != added[i].0 by {
        assert(added[k].0 == overrides::automatic_name(urls[k]));
    }
    lemma_last_insertion_counts(added, i);
}

proof fn lemma_last_insertion_counts(added: Seq<(Seq<char>, UpstreamView)>, i: int)
    requires
        0 <= i < added.len(),
        forall|k: int| i < k < added.len() ==> (#[trigger] added[k]).0 != added[i].0,
    ensures
        name_map::lookup(name_map::extended(Seq::empty(), added), added[i].0) == Some(added[i].1),
    decreases added.len(),
{
    let init = added.drop_last();
    let last = added.last();
    name_map::lookup_after_insert(
        name_map::extended(Seq::empty(), init),
        last.0,
        last.1,
        added[i].0,
    );
    if i < init.len() {
        assert(forall|k: int| 0 <= k < init.len() ==> #[trigger] init[k] == added[k]);
        assert(added[added.len() - 1] == last);
        lemma_last_insertion_counts(init, i);
    }
}

/// Every upstream that the environment names is that of one of its URLs.
pub proof fn environment_names_no_other_upstream(
    config: ConfigView,
    env: EnvView,
    k: int,
) -> (i: int)
    requires
        url_text(env) is Some,
        lists::upstream_url_list(url_text(env)->0) is Ok,
        0 <= k < overrides::env_overridden(config, env).upstreams.len(),
    ensures
        ({
            let urls = lists::upstream_url_list(url_text(env)->0)->Ok_0;
            let (name, upstream) = overrides::env_overridden(config, env).upstreams[k];
            &&& 0 <= i < urls.len()
            &&& name == overrides::automatic_name(urls[i])
            &&& upstream.base_url == urls[i]
            &&& upstream.models.len() == 0
        }),
{
    let urls = lists::upstream_url_list(url_text(env)->0)->Ok_0;
    let c = overrides::env_overridden(config, env);
    let added = Seq::new(
        urls.len(),
        |k: int| overrides::automatic_upstream(urls[k], c.api_key),
    );
    let i = lemma_extended_source(added, k);
    assert(added[i] == overrides::automatic_upstream(urls[i], c.api_key));
    i
}

proof fn lemma_inserted_source(
    entries: Seq<(Seq<char>, UpstreamView)>,
    name: Seq<char>,
    value: UpstreamView,
    k: int,
)
    requires
        0 <= k < name_map::inserted(entries, name, value).len(),
    ensures
        name_map::inserted(entries, name, value)[k] == (name, value) || exists|l: int|
            0 <= l < entries.len() && name_map::inserted(entries, name, value)[k]
                == #[trigger] entries[l],
    decreases entries.len(),
{
    let result = name_map::inserted(entries, name, value);
    if entries.len() > 0 {
        let rest = entries.drop_first();
        assert(forall|l: int| 0 <= l < rest.len() ==> #[trigger] rest[l] == entries[l + 1]);
        if entries.first().0 == name {
            if k > 0 {
                assert(result[k] == rest[k - 1]);
                assert(result[k] == entries[k]);
            }
        } else if order::before(name, entries.first().0) {
            if k > 0 {
                assert(result[k] == entries[k - 1]);
            }
        } else if k > 0 {
            lemma_inserted_source(rest, name, value, k - 1);
            let tail = name_map::inserted(rest, name, value);
            assert(result[k] == tail[k - 1]);
            if tail[k - 1] != (name, value) {
                let l = choose|l: int| 0 <= l < rest.len() && tail[k - 1] == #[trigger] rest[l];
                assert(result[k] == entries[l + 1]);
            }
        } else {
            assert(result[0] == entries[0]);
        }
    }
}

proof fn lemma_extended_source(added: Seq<(Seq<char>, UpstreamView)>, k: int) -> (i: int)
    requires
        0 <= k < name_map::extended(Seq::empty(), added).len(),
    ensures
        0 <= i < added.len(),
        name_map::extended(Seq::empty(), added)[k] == added[i],
    decreases added.len(),
{
    let init = added.drop_last();
    let last = added.last();
    let before = name_map::extended(Seq::<(Seq<char>, UpstreamView)>::empty(), init);
    let after = name_map::extended(Seq::empty(), added);
    lemma_inserted_source(before, last.0, last.1, k);
    if after[k] == last {
        added.len() - 1
    } else {
        let l = choose|l: int| 0 <= l < before.len() && after[k] == #[trigger] before[l];
        let i = lemma_extended_source(init, l);
        assert(init[i] == added[i]);
        i
    }
}

/// Whether a character is a dot, a slash or a colon.
pub open spec fn punctuation(c: char) -> bool {
    c == '.' || c == '/' || c == ':'
}

/// The name of an automatic upstream is `upstream_` and its URL, in which each
/// run of dots, slashes and colons is one underscore, without underscores at
/// its end.
pub proof fn automatic_names_follow_the_url(url: Seq<char>) -> (n: int)
    ensures
        0 <= n <= overrides::underscored(url).len(),
        overrides::automatic_name(url) == "upstream_"@ + overrides::underscored(url).take(n),
        forall|i: int|
            n <= i < overrides::underscored(url).len() ==> #[trigger] overrides::underscored(url)[i]
                == '_',
        n > 0 ==> overrides::underscored(url)[n - 1] != '_',
{
    crate::laws::text::trimmed_end_is_where_the_characters_start(
        overrides::underscored(url),
        '_',
    )
}

/// A text without dots, slashes and colons stays; a run of them becomes one
/// underscore; and what follows a run is treated by itself.
pub proof fn runs_become_underscores(a: Seq<char>, mark: char, more: char, b: Seq<char>)
    requires
        punctuation(mark),
        punctuation(more),
        b.len() > 0 ==> !punctuation(b[0]),
    ensures
        (forall|i: int| 0 <= i < a.len() ==> !punctuation(#[trigger] a[i]))
            ==> overrides::underscored(a) == a,
        a.len() == 0 || !punctuation(a.last()) ==> overrides::underscored(a.push(mark))
            == overrides::underscored(a).push('_'),
        overrides::underscored(a.push(mark).push(more)) == overrides::underscored(a.push(mark)),
        overrides::underscored(a.push(mark) + b) == overrides::underscored(a.push(mark))
            + overrides::underscored(b),
{
    if forall|i: int| 0 <= i < a.len() ==> !punctuation(#[trigger] a[i]) {
        lemma_plain_stays(a);
    }
    assert(a.push(mark).drop_last() == a);
    assert(a.push(mark).push(more).drop_last() == a.push(mark));
    lemma_after_a_run(a.push(mark), b);
}

proof fn lemma_plain_stays(a: Seq<char>)
    requires
        forall|i: int| 0 <= i < a.len() ==> !punctuation(#[trigger] a[i]),
    ensures
        overrides::underscored(a) == a,
    decreases a.len(),
{
    if a.len() > 0 {
        let init = a.drop_last();
        assert(forall|i: int| 0 <= i < init.len() ==> #[trigger] init[i] == a[i]);
        lemma_plain_stays(init);
        assert(a[a.len() - 1] == a.last());
        assert(init.push(a.last()) == a);
    }
}

proof fn lemma_after_a_run(a: Seq<char>, b: Seq<char>)
    requires
        b.len() > 0 ==> !punctuation(b[0]),
    ensures
        overrides::underscored(a + b) == overrides::underscored(a) + overrides::underscored(b),
    decreases b.len(),
{
    if b.len() == 0 {
        assert(a + b == a);
        assert(overrides::underscored(a) + overrides::underscored(b) == overrides::underscored(a));
    } else {
        let init = b.drop_last();
        lemma_after_a_run(a, init);
        assert((a + b).drop_last() == a + init);
        assert((a + b).last() == b.last());
        let x = overrides::underscored(a);
        let y = overrides::underscored(init);
        assert(x + y.push(b.last()) == (x + y).push(b.last()));
        assert(x + y.push('_') == (x + y).push('_'));
        if b.len() >= 2 {
            assert((a + b)[(a + b).len() - 2] == b[b.len() - 2]);
        } else {
            assert(b.last() == b[0]);
        }
    }
}

/// The command line overrides a configuration field by field, and touches
/// nothing but what it names.
pub proof fn command_line_overrides_every_field(config: ConfigView, cli: CliView)
    ensures
        ({
            let c = overrides::cli_overridden(config, cli);
            &&& cli.port is Some ==> c.port == cli.port->0
            &&& cli.port is None ==> c.port == config.port
            &&& c.debug == (config.debug || cli.debug)
            &&& c.verbose == (config.verbose || cli.verbose)
            &&& c.merge_system_messages == (config.merge_system_messages
                || cli.merge_system_messages)
            &&& c.merge_user_messages == (config.merge_user_messages || cli.merge_user_messages)
            &&& cli.system_prompt_ignore.len() == 0 ==> c.system_prompt_ignore_terms
                == config.system_prompt_ignore_terms
            &&& cli.system_prompt_ignore.len() > 0 ==> c.system_prompt_ignore_terms
                == lists::deduped(
                config.system_prompt_ignore_terms + text::trimmed_parts(cli.system_prompt_ignore),
            )
            &&& c.upstream_urls == config.upstream_urls
            &&& c.api_key == config.api_key
            &&& c.model_map == config.model_map
            &&& c.reasoning_model == config.reasoning_model
            &&& c.completion_model == config.completion_model
            &&& c.models_list_mode == config.models_list_mode
            &&& c.upstreams == config.upstreams
        }),
{
}

/// A loaded configuration is what the command line makes of what the environment
/// makes of the file, or of the environment alone where there is no file. A file
/// or an environment that is refused is what refuses it.
pub proof fn sources_follow_each_other(file: FileView, env: EnvView, cli: CliView)
    ensures
        sources::file_config(file) matches Ok(c) ==> overrides::loaded(Some(file), env, cli)
            == Ok::<ConfigView, ConfigErrorView>(overrides::cli_overridden(overrides::env_overridden(c, env), cli)),
        sources::file_config(file) matches Err(e) ==> overrides::loaded(Some(file), env, cli)
            == Err::<ConfigView, ConfigErrorView>(e),
        sources::env_config(env) matches Ok(c) ==> overrides::loaded(None, env, cli) == Ok::<
            ConfigView,
            ConfigErrorView,
        >(overrides::cli_overridden(c, cli)),
        sources::env_config(env) matches Err(e) ==> overrides::loaded(None, env, cli) == Err::<
            ConfigView,
            ConfigErrorView,
        >(e),
{
}

/// The configuration where nothing is configured.
pub proof fn defaults_are_local()
    ensures
        ({
            let c = config::default_config();
            &&& c.port == 3000
            &&& c.upstream_urls.len() == 1
            &&& c.upstream_urls[0] == "http://localhost:11434"@
            &&& c.api_key is None
            &&& c.model_map.len() == 0
            &&& c.system_prompt_ignore_terms.len() == 0
            &&& c.reasoning_model is None
            &&& c.completion_model is None
            &&& !c.merge_system_messages
            &&& !c.merge_user_messages
            &&& !c.debug
            &&& !c.verbose
            &&& c.models_list_mode == ModelsListMode::Static
            &&& c.upstreams.len() == 0
        }),
{
}

/// Each level of logging has its filter.
pub proof fn levels_have_filters()
    ensures
        LogLevel::Info.filter_text() == "anthropic_proxy=INFO"@,
        LogLevel::Debug.filter_text() == "anthropic_proxy=DEBUG"@,
        LogLevel::Trace.filter_text() == "anthropic_proxy=TRACE"@,
{
}

} // verus!
