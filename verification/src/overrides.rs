//! What overrides a configuration: the environment over a file, and the command
//! line over both.
use vstd::prelude::*;
use vstd::string::StringExecFns;

use crate::config::{
    Config, ConfigError, ConfigErrorView, ConfigView, ModelsListMode, UpstreamConfig, UpstreamView,
};
use crate::endpoint;
use crate::endpoint::UrlErrorView;
use crate::lists;
use crate::name_map;
use crate::name_map::NameMap;
use crate::order;
use crate::routing;
use crate::routing::RouteView;
use crate::sources;
use crate::sources::{is_switched_on, read_port, EnvVars, EnvView, FileConfig, FileView};
use crate::text;
use crate::text::{is_one_of, trimmed_end_char, trimmed_entries};

verus! {

/// The characters of a URL that a name does not have.
pub open spec fn url_mark(c: char) -> bool {
    c == '.' || c == '/' || c == ':'
}

/// A text with every run of `.`, `/` and `:` as one `_`.
pub open spec fn underscored(s: Seq<char>) -> Seq<char>
    decreases s.len(),
{
    if s.len() == 0 {
        Seq::empty()
    } else {
        let before = underscored(s.drop_last());
        if !url_mark(s.last()) {
            before.push(s.last())
        } else if s.len() >= 2 && url_mark(s[s.len() - 2]) {
            before
        } else {
            before.push('_')
        }
    }
}

/// The name of an upstream of which only the URL is given.
pub open spec fn automatic_name(url: Seq<char>) -> Seq<char> {
    "upstream_"@ + text::trim_end_char(underscored(url), '_')
}

/// An upstream of which only the URL is given: it serves every model.
pub open spec fn automatic_upstream(url: Seq<char>, key: Option<Seq<char>>) -> (
    Seq<char>,
    UpstreamView,
) {
    (automatic_name(url), UpstreamView { base_url: url, api_key: key, models: Seq::empty() })
}

/// The upstreams for a list of URLs; of two with one name the later counts.
pub open spec fn automatic_upstreams(urls: Seq<Seq<char>>, key: Option<Seq<char>>) -> Seq<
    (Seq<char>, UpstreamView),
> {
    name_map::extended(
        Seq::empty(),
        Seq::new(urls.len(), |i: int| automatic_upstream(urls[i], key)),
    )
}

/// The URLs that the environment sets, where it sets any that are accepted.
pub open spec fn accepted_urls(env: EnvView) -> Option<Seq<Seq<char>>> {
    match env.base_urls() {
        Some(raw) => match lists::upstream_url_list(raw) {
            Ok(urls) => Some(urls),
            Err(_) => None,
        },
        None => None,
    }
}

/// The terms with more terms added to them.
pub open spec fn terms_with(terms: Seq<Seq<char>>, added: Seq<Seq<char>>) -> Seq<Seq<char>> {
    if added.len() == 0 {
        terms
    } else {
        lists::deduped(terms + added)
    }
}

/// A model map with that of the environment added to it, where that one is
/// accepted.
pub open spec fn model_map_with(
    map: Seq<(Seq<char>, Seq<char>)>,
    value: Option<Seq<char>>,
) -> Seq<(Seq<char>, Seq<char>)> {
    match value {
        Some(v) => match lists::model_map(v) {
            Ok(added) => name_map::extended(map, added),
            Err(_) => map,
        },
        None => map,
    }
}

/// A configuration as the environment overrides it. URLs of the environment
/// replace all upstreams; terms and model maps are added; what is not accepted
/// changes nothing.
pub open spec fn env_overridden(config: ConfigView, env: EnvView) -> ConfigView {
    let api_key = routing::first_text(env.key(), config.api_key);
    ConfigView {
        port: sources::port_or(env.port, config.port),
        upstream_urls: match accepted_urls(env) {
            Some(urls) => urls,
            None => config.upstream_urls,
        },
        api_key,
        model_map: model_map_with(config.model_map, env.model_map),
        system_prompt_ignore_terms: terms_with(config.system_prompt_ignore_terms, env.terms()),
        reasoning_model: routing::first_text(env.reasoning_model, config.reasoning_model),
        completion_model: routing::first_text(env.completion_model, config.completion_model),
        merge_system_messages: config.merge_system_messages,
        merge_user_messages: config.merge_user_messages,
        debug: sources::switch_or(env.debug, config.debug),
        verbose: sources::switch_or(env.verbose, config.verbose),
        models_list_mode: sources::mode_or(env.models_list_mode, config.models_list_mode),
        upstreams: match accepted_urls(env) {
            Some(urls) => automatic_upstreams(urls, api_key),
            None => config.upstreams,
        },
    }
}

/// What the command line sets.
#[derive(Debug, Clone)]
pub struct CliOverrides {
    pub debug: bool,
    pub verbose: bool,
    pub port: Option<u16>,
    pub system_prompt_ignore: Vec<String>,
    pub merge_system_messages: bool,
    pub merge_user_messages: bool,
}

/// The value of [`CliOverrides`].
pub struct CliView {
    pub debug: bool,
    pub verbose: bool,
    pub port: Option<u16>,
    pub system_prompt_ignore: Seq<Seq<char>>,
    pub merge_system_messages: bool,
    pub merge_user_messages: bool,
}

impl View for CliOverrides {
    type V = CliView;

    open spec fn view(&self) -> CliView {
        CliView {
            debug: self.debug,
            verbose: self.verbose,
            port: self.port,
            system_prompt_ignore: text::texts(self.system_prompt_ignore@),
            merge_system_messages: self.merge_system_messages,
            merge_user_messages: self.merge_user_messages,
        }
    }
}

/// A configuration as the command line overrides it. Switches only switch on;
/// terms are added.
pub open spec fn cli_overridden(config: ConfigView, cli: CliView) -> ConfigView {
    ConfigView {
        port: sources::value_or(cli.port, config.port),
        system_prompt_ignore_terms: if cli.system_prompt_ignore.len() == 0 {
            config.system_prompt_ignore_terms
        } else {
            lists::deduped(
                config.system_prompt_ignore_terms + text::trimmed_parts(cli.system_prompt_ignore),
            )
        },
        merge_system_messages: config.merge_system_messages || cli.merge_system_messages,
        merge_user_messages: config.merge_user_messages || cli.merge_user_messages,
        debug: config.debug || cli.debug,
        verbose: config.verbose || cli.verbose,
        ..config
    }
}

/// The configuration that all sources give together: that of a file as the
/// environment overrides it, or that of the environment alone where there is no
/// file, and then as the command line overrides it.
pub open spec fn loaded(file: Option<FileView>, env: EnvView, cli: CliView) -> Result<
    ConfigView,
    ConfigErrorView,
> {
    match file {
        Some(file) => match sources::file_config(file) {
            Ok(config) => Ok(cli_overridden(env_overridden(config, env), cli)),
            Err(error) => Err(error),
        },
        None => match sources::env_config(env) {
            Ok(config) => Ok(cli_overridden(config, cli)),
            Err(error) => Err(error),
        },
    }
}

/// The value of a file that may be there.
pub open spec fn file_option(file: Option<FileConfig>) -> Option<FileView> {
    match file {
        Some(file) => Some(file@),
        None => None,
    }
}

/// How much is logged.
#[derive(Debug, Clone, Copy, PartialEq, Eq, Structural)]
pub enum LogLevel {
    Info,
    Debug,
    Trace,
}

impl LogLevel {
    /// The filter that lets the proxy log this much.
    pub open spec fn filter_text(self) -> Seq<char> {
        match self {
            LogLevel::Info => "anthropic_proxy=INFO"@,
            LogLevel::Debug => "anthropic_proxy=DEBUG"@,
            LogLevel::Trace => "anthropic_proxy=TRACE"@,
        }
    }

    /// The filter that lets the proxy log this much.
    pub fn filter(&self) -> (r: String)
        ensures
            r@ == self.filter_text(),
    {
        match self {
            LogLevel::Info => "anthropic_proxy=INFO".to_owned(),
            LogLevel::Debug => "anthropic_proxy=DEBUG".to_owned(),
            LogLevel::Trace => "anthropic_proxy=TRACE".to_owned(),
        }
    }
}

/// Whether every URL that requests are sent to is accepted.
pub open spec fn usable(config: ConfigView) -> bool {
    lists::all_resolve(config.upstream_urls) && routing::upstreams_resolve(config.upstreams)
}

/// A configuration from the environment has usable URLs.
pub proof fn env_config_is_usable(env: EnvView)
    ensures
        sources::env_config(env) matches Ok(config) ==> usable(config)
            && config.upstream_urls.len() > 0,
{
    if let Some(raw) = env.base_urls() {
        lists::accepted_urls_resolve(raw);
    }
}

/// With the environment alone every request goes to the plain upstream URLs.
pub proof fn env_config_routes_to_its_urls(env: EnvView, model: Seq<char>)
    ensures
        sources::env_config(env) matches Ok(config) ==> routing::resolved(config, model) == Ok::<
            RouteView,
            UrlErrorView,
        >(routing::legacy_route(model)),
{
    if let Ok(config) = sources::env_config(env) {
        routing::legacy_exactly_when_unserved(config, model);
    }
}

/// A configuration from a file has usable URLs.
pub proof fn file_config_is_usable(file: FileView)
    ensures
        sources::file_config(file) matches Ok(config) ==> usable(config),
{
    let upstreams = sources::value_or(file.upstreams, Seq::empty());
    sources::lemma_none_refused(upstreams);
    if routing::upstreams_resolve(upstreams) {
        let urls = sources::base_urls_of(upstreams);
        assert forall|i: int| 0 <= i < urls.len() implies endpoint::chat_url(
            #[trigger] urls[i],
        ) is Ok by {
            assert(urls[i] == upstreams[i].1.base_url);
        }
    }
}

proof fn lemma_inserted_resolves(
    entries: Seq<(Seq<char>, UpstreamView)>,
    name: Seq<char>,
    upstream: UpstreamView,
)
    requires
        routing::upstreams_resolve(entries),
        endpoint::chat_url(upstream.base_url) is Ok,
    ensures
        routing::upstreams_resolve(name_map::inserted(entries, name, upstream)),
    decreases entries.len(),
{
    let result = name_map::inserted(entries, name, upstream);
    if entries.len() > 0 {
        let rest = entries.drop_first();
        assert(forall|i: int| 0 <= i < rest.len() ==> #[trigger] rest[i] == entries[i + 1]);
        assert(routing::upstreams_resolve(rest));
        lemma_inserted_resolves(rest, name, upstream);
        let tail = name_map::inserted(rest, name, upstream);
        assert forall|i: int| 0 <= i < result.len() implies endpoint::chat_url(
            (#[trigger] result[i]).1.base_url,
        ) is Ok by {
            if entries.first().0 == name {
                if i > 0 {
                    assert(result[i] == rest[i - 1]);
                }
            } else if order::before(name, entries.first().0) {
                if i > 0 {
                    assert(result[i] == entries[i - 1]);
                }
            } else if i > 0 {
                assert(result[i] == tail[i - 1]);
            } else {
                assert(result[0] == entries[0]);
            }
        }
    }
}

proof fn lemma_extended_resolves(
    entries: Seq<(Seq<char>, UpstreamView)>,
    added: Seq<(Seq<char>, UpstreamView)>,
)
    requires
        routing::upstreams_resolve(entries),
        routing::upstreams_resolve(added),
    ensures
        routing::upstreams_resolve(name_map::extended(entries, added)),
    decreases added.len(),
{
    if added.len() > 0 {
        let init = added.drop_last();
        assert(forall|i: int| 0 <= i < init.len() ==> #[trigger] init[i] == added[i]);
        assert(routing::upstreams_resolve(init));
        assert(added[added.len() - 1] == added.last());
        lemma_extended_resolves(entries, init);
        lemma_inserted_resolves(
            name_map::extended(entries, init),
            added.last().0,
            added.last().1,
        );
    }
}

/// URLs that the environment sets are usable, whatever was configured.
pub proof fn env_urls_are_usable(config: ConfigView, env: EnvView)
    requires
        accepted_urls(env) is Some,
    ensures
        usable(env_overridden(config, env)),
{
    let urls = accepted_urls(env)->0;
    let key = routing::first_text(env.key(), config.api_key);
    let added = Seq::new(urls.len(), |i: int| automatic_upstream(urls[i], key));
    lists::accepted_urls_resolve(env.base_urls()->0);
    assert forall|i: int| 0 <= i < added.len() implies endpoint::chat_url(
        (#[trigger] added[i]).1.base_url,
    ) is Ok by {
        assert(added[i].1.base_url == urls[i]);
    }
    lemma_extended_resolves(Seq::empty(), added);
}

/// What the environment and the command line override leaves usable URLs
/// usable.
pub proof fn overrides_keep_usable(config: ConfigView, env: EnvView, cli: CliView)
    requires
        usable(config),
    ensures
        usable(env_overridden(config, env)),
        usable(cli_overridden(config, cli)),
{
    if accepted_urls(env) is Some {
        env_urls_are_usable(config, env);
    }
}

/// With a usable configuration every model has a route, and there is a plan for
/// it.
pub proof fn usable_config_serves(config: ConfigView, model: Seq<char>)
    requires
        usable(config),
    ensures
        routing::resolved(config, model) is Ok,
        lists::all_resolve(config.upstream_urls),
{
    routing::every_model_has_a_route(config, model);
}

/// An environment in which nothing is set changes nothing.
pub proof fn empty_environment_changes_nothing(config: ConfigView)
    ensures
        env_overridden(config, sources::no_variables()) == config,
{
}

/// A configuration has usable URLs, whatever it was loaded from.
pub proof fn loaded_config_is_usable(file: Option<FileView>, env: EnvView, cli: CliView)
    ensures
        loaded(file, env, cli) matches Ok(config) ==> usable(config),
{
    match file {
        Some(file) => {
            file_config_is_usable(file);
            if let Ok(config) = sources::file_config(file) {
                overrides_keep_usable(config, env, cli);
            }
        },
        None => {
            env_config_is_usable(env);
        },
    }
}

/// What the command line sets comes before the environment, that before the
/// file, and that before the defaults, whether there is a file or not.
pub proof fn command_line_comes_first(given: Option<FileView>, env: EnvView, cli: CliView)
    requires
        loaded(given, env, cli) is Ok,
    ensures
        ({
            let file = sources::value_or(given, sources::empty_file());
            let config = loaded(given, env, cli)->Ok_0;
            &&& config.port == sources::value_or(
                cli.port,
                sources::port_or(env.port, sources::value_or(file.port, 3000)),
            )
            &&& config.debug == (cli.debug || sources::switch_or(
                env.debug,
                sources::value_or(file.debug, false),
            ))
            &&& config.verbose == (cli.verbose || sources::switch_or(
                env.verbose,
                sources::value_or(file.verbose, false),
            ))
            &&& config.merge_system_messages == (cli.merge_system_messages || sources::value_or(
                file.merge_system_messages,
                false,
            ))
            &&& config.merge_user_messages == (cli.merge_user_messages || sources::value_or(
                file.merge_user_messages,
                false,
            ))
            &&& config.reasoning_model == routing::first_text(
                env.reasoning_model,
                file.reasoning_model,
            )
            &&& config.completion_model == routing::first_text(
                env.completion_model,
                file.completion_model,
            )
            &&& config.models_list_mode == sources::mode_or(
                env.models_list_mode,
                sources::value_or(file.models_list_mode, ModelsListMode::Static),
            )
            &&& config.api_key == env.key()
        }),
{
}

/// `ANTHROPIC_PROXY_BASE_URL` stands for `UPSTREAM_BASE_URL` where that is not
/// set, and is not looked at where it is.
pub proof fn base_url_names_are_equivalent(
    config: ConfigView,
    env: EnvView,
    urls: Seq<char>,
    hidden: Option<Seq<char>>,
)
    ensures
        ({
            let one = EnvView {
                upstream_base_url: Some(urls),
                anthropic_proxy_base_url: hidden,
                ..env
            };
            let other = EnvView {
                upstream_base_url: None,
                anthropic_proxy_base_url: Some(urls),
                ..env
            };
            &&& sources::env_config(one) == sources::env_config(other)
            &&& env_overridden(config, one) == env_overridden(config, other)
        }),
{
}

/// `OPENROUTER_API_KEY` stands for `UPSTREAM_API_KEY` where that is not set, and
/// is not looked at where it is.
pub proof fn key_names_are_equivalent(
    config: ConfigView,
    env: EnvView,
    key: Seq<char>,
    hidden: Option<Seq<char>>,
)
    ensures
        ({
            let one = EnvView { upstream_api_key: Some(key), openrouter_api_key: hidden, ..env };
            let other = EnvView { upstream_api_key: None, openrouter_api_key: Some(key), ..env };
            &&& sources::env_config(one) == sources::env_config(other)
            &&& env_overridden(config, one) == env_overridden(config, other)
        }),
{
    let one = EnvView { upstream_api_key: Some(key), openrouter_api_key: hidden, ..env };
    let other = EnvView { upstream_api_key: None, openrouter_api_key: Some(key), ..env };
    assert(one.key() == other.key());
    assert(one.base_urls() == other.base_urls());
    assert(one.terms() == other.terms());
}

/// The model map of the environment is added to that of the configuration, and
/// comes before it.
pub proof fn model_maps_add_up(
    config: ConfigView,
    env: EnvView,
    value: Seq<char>,
    source: Seq<char>,
)
    requires
        env.model_map == Some(value),
        lists::model_map(value) is Ok,
    ensures
        name_map::lookup(env_overridden(config, env).model_map, source) == routing::first_text(
            name_map::lookup(lists::model_map(value)->Ok_0, source),
            name_map::lookup(config.model_map, source),
        ),
{
    lists::model_map_is_ordered(text::list_entries(value, seq![';', '\n']));
    name_map::lookup_after_extend(config.model_map, lists::model_map(value)->Ok_0, source);
}

/// The terms of the environment are added to those of the configuration: what
/// is ignored afterwards is what one of the two ignores.
pub proof fn terms_add_up(config: ConfigView, env: EnvView, term: Seq<char>)
    ensures
        lists::repeats(env_overridden(config, env).system_prompt_ignore_terms, term) <==> (
        lists::repeats(config.system_prompt_ignore_terms, term) || lists::repeats(
            env.terms(),
            term,
        )),
{
    let own = config.system_prompt_ignore_terms;
    let added = env.terms();
    let both = own + added;
    lists::deduped_terms_are_distinct(both);
    if added.len() > 0 {
        assert(lists::repeats(lists::deduped(both), term) <==> lists::repeats(both, term));
        if lists::repeats(both, term) {
            let j = choose|j: int|
                0 <= j < both.len() && lists::fold(#[trigger] both[j]) == lists::fold(term);
            if j < own.len() {
                assert(own[j] == both[j]);
            } else {
                assert(added[j - own.len()] == both[j]);
            }
        }
        if lists::repeats(own, term) {
            let j = choose|j: int|
                0 <= j < own.len() && lists::fold(#[trigger] own[j]) == lists::fold(term);
            assert(both[j] == own[j]);
        }
        if lists::repeats(added, term) {
            let j = choose|j: int|
                0 <= j < added.len() && lists::fold(#[trigger] added[j]) == lists::fold(term);
            assert(both[own.len() + j] == added[j]);
        }
    }
}

/// Whether every upstream serves every model.
pub open spec fn all_open(upstreams: Seq<(Seq<char>, UpstreamView)>) -> bool {
    forall|i: int| 0 <= i < upstreams.len() ==> (#[trigger] upstreams[i]).1.models.len() == 0
}

proof fn lemma_inserted_open(
    entries: Seq<(Seq<char>, UpstreamView)>,
    name: Seq<char>,
    upstream: UpstreamView,
)
    requires
        all_open(entries),
        upstream.models.len() == 0,
    ensures
        all_open(name_map::inserted(entries, name, upstream)),
        name_map::inserted(entries, name, upstream).len() > 0,
    decreases entries.len(),
{
    let result = name_map::inserted(entries, name, upstream);
    if entries.len() > 0 {
        let rest = entries.drop_first();
        assert(forall|i: int| 0 <= i < rest.len() ==> #[trigger] rest[i] == entries[i + 1]);
        lemma_inserted_open(rest, name, upstream);
        let tail = name_map::inserted(rest, name, upstream);
        assert forall|i: int| 0 <= i < result.len() implies (
            #[trigger] result[i]).1.models.len() == 0 by {
            if entries.first().0 == name {
                if i > 0 {
                    assert(result[i] == rest[i - 1]);
                }
            } else if order::before(name, entries.first().0) {
                if i > 0 {
                    assert(result[i] == entries[i - 1]);
                }
            } else if i > 0 {
                assert(result[i] == tail[i - 1]);
            } else {
                assert(result[0] == entries[0]);
            }
        }
    }
}

proof fn lemma_extended_open(added: Seq<(Seq<char>, UpstreamView)>)
    requires
        all_open(added),
    ensures
        all_open(name_map::extended(Seq::empty(), added)),
        added.len() > 0 ==> name_map::extended(Seq::empty(), added).len() > 0,
    decreases added.len(),
{
    if added.len() > 0 {
        let init = added.drop_last();
        assert(forall|i: int| 0 <= i < init.len() ==> #[trigger] init[i] == added[i]);
        assert(added[added.len() - 1] == added.last());
        lemma_extended_open(init);
        lemma_inserted_open(
            name_map::extended(Seq::empty(), init),
            added.last().0,
            added.last().1,
        );
    }
}

/// The upstreams that the environment sets serve every model: no request falls
/// back to the plain list of upstream URLs.
pub proof fn env_upstreams_serve_every_model(config: ConfigView, env: EnvView, model: Seq<char>)
    requires
        accepted_urls(env) is Some,
    ensures
        routing::resolved(env_overridden(config, env), model) matches Ok(route)
            && !route.is_legacy,
{
    let after = env_overridden(config, env);
    let urls = accepted_urls(env)->0;
    let key = routing::first_text(env.key(), config.api_key);
    let added = Seq::new(urls.len(), |i: int| automatic_upstream(urls[i], key));
    lists::accepted_urls_resolve(env.base_urls()->0);
    lemma_extended_open(added);
    env_urls_are_usable(config, env);
    routing::every_model_has_a_route(after, model);
    assert(after.upstreams[0].1.models.len() == 0);
    routing::legacy_exactly_when_unserved(after, model);
    routing::routes_lead_to_configured_upstreams(after, model);
    assert(routing::served(after.upstreams[0].1, model) is Some);
}

/// URLs in the environment replace the configured upstreams altogether: no
/// model goes to one of them any more.
pub proof fn env_urls_replace_upstreams(config: ConfigView, other: ConfigView, env: EnvView)
    requires
        accepted_urls(env) is Some,
        config.api_key == other.api_key,
    ensures
        env_overridden(config, env).upstreams == env_overridden(other, env).upstreams,
        env_overridden(config, env).upstream_urls == env_overridden(other, env).upstream_urls,
{
}

/// A text with every run of `.`, `/` and `:` as one `_`.
fn with_underscores(url: &str) -> (r: String)
    ensures
        r@ == underscored(url@),
{
    let marks: [char; 3] = ['.', '/', ':'];
    assert(marks@ == seq!['.', '/', ':']);
    assert(forall|c: char| marks@.contains(c) <==> url_mark(c)) by {
        assert(marks@[0] == '.' && marks@[1] == '/' && marks@[2] == ':');
    }
    let mut r = String::new();
    let mut in_run: bool = false;
    for c in it: url.chars()
        invariant
            it.seq() == url@,
            forall|c: char| marks@.contains(c) <==> url_mark(c),
            r@ == underscored(url@.take(it.index() as int)),
            in_run == (it.index() > 0 && url_mark(url@[it.index() - 1])),
    {
        let ghost n = it.index() as int;
        let ghost s = url@.take(n + 1);
        assert(s.drop_last() == url@.take(n));
        assert(s.last() == c);
        assert(n > 0 ==> s[n - 1] == url@[n - 1]);
        if !is_one_of(c, &marks) {
            r.push(c);
            in_run = false;
        } else {
            if !in_run {
                r.push('_');
            }
            in_run = true;
        }
    }
    assert(url@.take(url@.len() as int) == url@);
    r
}

/// The name of an upstream of which only the URL is given.
pub fn automatic_upstream_name(url: &str) -> (r: String)
    ensures
        r@ == automatic_name(url@),
{
    let plain = with_underscores(url);
    let tail = trimmed_end_char(&plain, '_');
    "upstream_".to_owned().concat(&tail)
}

/// The upstreams for a list of URLs.
fn upstreams_for(urls: &Vec<String>, key: &Option<String>) -> (r: NameMap<UpstreamConfig>)
    ensures
        r@ == automatic_upstreams(text::texts(urls@), text::text_option(*key)),
{
    let ghost k = text::text_option(*key);
    let ghost all = Seq::new(
        urls@.len(),
        |i: int| automatic_upstream(text::texts(urls@)[i], k),
    );
    let mut upstreams: Vec<(String, UpstreamConfig)> = Vec::new();
    let mut i: usize = 0;
    while i < urls.len()
        invariant
            i <= urls@.len(),
            k == text::text_option(*key),
            all == Seq::new(
                urls@.len(),
                |i: int| automatic_upstream(text::texts(urls@)[i], k),
            ),
            name_map::pairs(upstreams@) == all.take(i as int),
        decreases urls@.len() - i,
    {
        let upstream = UpstreamConfig {
            base_url: urls[i].clone(),
            api_key: key.clone(),
            models: NameMap::new(),
        };
        assert(upstream@ == all[i as int].1);
        let ghost done = name_map::pairs(upstreams@);
        upstreams.push((automatic_upstream_name(&urls[i]), upstream));
        assert(name_map::pairs(upstreams@) == done.push(all[i as int]));
        assert(all.take(i + 1) == all.take(i as int).push(all[i as int]));
        i += 1;
    }
    assert(all.take(i as int) == all);
    NameMap::from_pairs(upstreams)
}

/// Adds terms to a list of terms.
fn add_terms(terms: &mut Vec<String>, added: Vec<String>)
    ensures
        text::texts(final(terms)@) == lists::deduped(
            text::texts(old(terms)@) + text::texts(added@),
        ),
{
    let ghost start = text::texts(terms@);
    let ghost more = text::texts(added@);
    let mut added = added;
    terms.append(&mut added);
    assert(text::texts(terms@) == start + more);
    Config::dedupe_ignore_terms(terms);
}

/// Overrides what does not concern the upstreams.
fn merge_settings(config: &mut Config, env: &EnvVars)
    ensures
        final(config)@ == (ConfigView {
            upstream_urls: old(config)@.upstream_urls,
            upstreams: old(config)@.upstreams,
            model_map: old(config)@.model_map,
            ..env_overridden(old(config)@, env@)
        }),
{
    config.port = read_port(&env.port, config.port);
    if env.debug.is_some() {
        config.debug = is_switched_on(&env.debug);
    }
    if env.verbose.is_some() {
        config.verbose = is_switched_on(&env.verbose);
    }
    if let Some(key) = env.key() {
        config.api_key = Some(key);
    }
    if env.reasoning_model.is_some() {
        config.reasoning_model = env.reasoning_model.clone();
    }
    if env.completion_model.is_some() {
        config.completion_model = env.completion_model.clone();
    }
    config.models_list_mode = env.mode_or(config.models_list_mode);
    let added = env.terms();
    if added.len() > 0 {
        add_terms(&mut config.system_prompt_ignore_terms, added);
    }
}

/// Overrides a configuration by the environment.
pub fn merge_env_overrides(config: &mut Config, env: &EnvVars)
    ensures
        final(config)@ == env_overridden(old(config)@, env@),
{
    merge_settings(config, env);
    if let Some(raw) = env.base_urls() {
        if let Ok(urls) = Config::parse_upstream_urls(&raw) {
            config.upstreams = upstreams_for(&urls, &config.api_key);
            config.upstream_urls = urls;
        }
    }
    if let Some(value) = &env.model_map {
        if let Ok(map) = Config::parse_model_map(value) {
            config.model_map.extend(map);
        }
    }
}

impl Config {
    /// The configuration that all sources give together.
    pub fn from_sources(file: Option<FileConfig>, env: &EnvVars, cli: &CliOverrides) -> (r: Result<
        Config,
        ConfigError,
    >)
        ensures
            sources::config_outcome(r) == loaded(file_option(file), env@, cli@),
    {
        let outcome = match file {
            Some(file) => match Self::from_file_config(file) {
                Ok(mut config) => {
                    merge_env_overrides(&mut config, env);
                    Ok(config)
                },
                Err(error) => Err(error),
            },
            None => Self::from_env(env),
        };
        match outcome {
            Ok(mut config) => {
                config.apply_cli(cli);
                Ok(config)
            },
            Err(error) => Err(error),
        }
    }

    /// Overrides the configuration by the command line.
    pub fn apply_cli(&mut self, cli: &CliOverrides)
        ensures
            final(self)@ == cli_overridden(old(self)@, cli@),
    {
        if cli.debug {
            self.debug = true;
        }
        if cli.verbose {
            self.verbose = true;
        }
        if let Some(port) = cli.port {
            self.port = port;
        }
        if cli.system_prompt_ignore.len() > 0 {
            add_terms(
                &mut self.system_prompt_ignore_terms,
                trimmed_entries(&cli.system_prompt_ignore),
            );
        }
        if cli.merge_system_messages {
            self.merge_system_messages = true;
        }
        if cli.merge_user_messages {
            self.merge_user_messages = true;
        }
    }

    /// How much is logged: all where the configuration is verbose, or else more
    /// where it debugs.
    pub fn log_level(&self) -> (r: LogLevel)
        ensures
            r == if self.verbose {
                LogLevel::Trace
            } else if self.debug {
                LogLevel::Debug
            } else {
                LogLevel::Info
            },
    {
        if self.verbose {
            LogLevel::Trace
        } else if self.debug {
            LogLevel::Debug
        } else {
            LogLevel::Info
        }
    }
}

} // verus!
