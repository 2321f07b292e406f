//! Where the configuration comes from: the environment, a configuration file
//! and the command line.
use vstd::prelude::*;

use crate::config;
use crate::config::{
    Config, ConfigError, ConfigErrorView, ConfigView, ModelConfig, ModelsListMode, UpstreamConfig,
    UpstreamView,
};
use crate::endpoint;
use crate::endpoint::UrlErrorView;
use crate::listing;
use crate::listing::namespaced_id;
use crate::lists;
use crate::name_map;
use crate::name_map::NameMap;
use crate::number;
use crate::number::parse_u16;
use crate::order;
use crate::routing;
use crate::text;
use crate::text::{lowered, same_text};

verus! {

/// The variables of the environment that the configuration is read from.
#[derive(Debug, Clone)]
pub struct EnvVars {
    /// `PORT`.
    pub port: Option<String>,
    /// `UPSTREAM_BASE_URL`.
    pub upstream_base_url: Option<String>,
    /// `ANTHROPIC_PROXY_BASE_URL`.
    pub anthropic_proxy_base_url: Option<String>,
    /// `UPSTREAM_API_KEY`.
    pub upstream_api_key: Option<String>,
    /// `OPENROUTER_API_KEY`.
    pub openrouter_api_key: Option<String>,
    /// `ANTHROPIC_PROXY_MODEL_MAP`.
    pub model_map: Option<String>,
    /// `ANTHROPIC_PROXY_SYSTEM_PROMPT_IGNORE_TERMS`.
    pub system_prompt_ignore_terms: Option<String>,
    /// `REASONING_MODEL`.
    pub reasoning_model: Option<String>,
    /// `COMPLETION_MODEL`.
    pub completion_model: Option<String>,
    /// `DEBUG`.
    pub debug: Option<String>,
    /// `VERBOSE`.
    pub verbose: Option<String>,
    /// `MODELS_LIST_MODE`.
    pub models_list_mode: Option<String>,
}

/// The value of [`EnvVars`].
pub struct EnvView {
    pub port: Option<Seq<char>>,
    pub upstream_base_url: Option<Seq<char>>,
    pub anthropic_proxy_base_url: Option<Seq<char>>,
    pub upstream_api_key: Option<Seq<char>>,
    pub openrouter_api_key: Option<Seq<char>>,
    pub model_map: Option<Seq<char>>,
    pub system_prompt_ignore_terms: Option<Seq<char>>,
    pub reasoning_model: Option<Seq<char>>,
    pub completion_model: Option<Seq<char>>,
    pub debug: Option<Seq<char>>,
    pub verbose: Option<Seq<char>>,
    pub models_list_mode: Option<Seq<char>>,
}

impl View for EnvVars {
    type V = EnvView;

    open spec fn view(&self) -> EnvView {
        EnvView {
            port: text::text_option(self.port),
            upstream_base_url: text::text_option(self.upstream_base_url),
            anthropic_proxy_base_url: text::text_option(self.anthropic_proxy_base_url),
            upstream_api_key: text::text_option(self.upstream_api_key),
            openrouter_api_key: text::text_option(self.openrouter_api_key),
            model_map: text::text_option(self.model_map),
            system_prompt_ignore_terms: text::text_option(self.system_prompt_ignore_terms),
            reasoning_model: text::text_option(self.reasoning_model),
            completion_model: text::text_option(self.completion_model),
            debug: text::text_option(self.debug),
            verbose: text::text_option(self.verbose),
            models_list_mode: text::text_option(self.models_list_mode),
        }
    }
}

/// An environment in which no variable is set.
pub open spec fn no_variables() -> EnvView {
    EnvView {
        port: None,
        upstream_base_url: None,
        anthropic_proxy_base_url: None,
        upstream_api_key: None,
        openrouter_api_key: None,
        model_map: None,
        system_prompt_ignore_terms: None,
        reasoning_model: None,
        completion_model: None,
        debug: None,
        verbose: None,
        models_list_mode: None,
    }
}

impl Default for EnvVars {
    fn default() -> (r: Self)
        ensures
            r@ == no_variables(),
    {
        EnvVars {
            port: None,
            upstream_base_url: None,
            anthropic_proxy_base_url: None,
            upstream_api_key: None,
            openrouter_api_key: None,
            model_map: None,
            system_prompt_ignore_terms: None,
            reasoning_model: None,
            completion_model: None,
            debug: None,
            verbose: None,
            models_list_mode: None,
        }
    }
}

/// Whether a variable switches something on: it is `1` or, in any case, `true`.
pub open spec fn switched_on(value: Option<Seq<char>>) -> bool {
    value matches Some(v) && (v == "1"@ || text::lower(v) == "true"@)
}

/// Whether a variable switches something on, or as given where it is not set.
pub open spec fn switch_or(value: Option<Seq<char>>, other: bool) -> bool {
    match value {
        Some(_) => switched_on(value),
        None => other,
    }
}

/// The port in a variable, or the given one where it holds none.
pub open spec fn port_or(value: Option<Seq<char>>, port: u16) -> u16 {
    match value {
        Some(v) => match number::u16_value(v) {
            Some(n) => n as u16,
            None => port,
        },
        None => port,
    }
}

/// The mode that a text names, in any case.
pub open spec fn named_mode(value: Seq<char>) -> Option<ModelsListMode> {
    let name = text::lower(value);
    if name == "static"@ {
        Some(ModelsListMode::Static)
    } else if name == "upstream"@ {
        Some(ModelsListMode::Upstream)
    } else if name == "merge"@ {
        Some(ModelsListMode::Merge)
    } else {
        None
    }
}

/// The mode in a variable, or the given one where it names none.
pub open spec fn mode_or(value: Option<Seq<char>>, mode: ModelsListMode) -> ModelsListMode {
    match value {
        Some(v) => match named_mode(v) {
            Some(named) => named,
            None => mode,
        },
        None => mode,
    }
}

impl EnvView {
    /// The list of upstream URLs.
    pub open spec fn base_urls(self) -> Option<Seq<char>> {
        routing::first_text(self.upstream_base_url, self.anthropic_proxy_base_url)
    }

    /// The key for the upstreams. One that is set and empty counts as none,
    /// and hides the other.
    pub open spec fn key(self) -> Option<Seq<char>> {
        match routing::first_text(self.upstream_api_key, self.openrouter_api_key) {
            Some(key) => if key.len() == 0 {
                None
            } else {
                Some(key)
            },
            None => None,
        }
    }

    /// The terms to ignore.
    pub open spec fn terms(self) -> Seq<Seq<char>> {
        match self.system_prompt_ignore_terms {
            Some(value) => lists::ignore_terms(value),
            None => Seq::empty(),
        }
    }
}

/// The configuration that the environment alone gives.
pub open spec fn env_config(env: EnvView) -> Result<ConfigView, ConfigErrorView> {
    match env.base_urls() {
        None => Err(ConfigErrorView::MissingBaseUrl),
        Some(raw) => match lists::upstream_url_list(raw) {
            Err(error) => Err(ConfigErrorView::Url(error)),
            Ok(urls) => match env.model_map {
                None => Ok(env_config_with(env, urls, Seq::empty())),
                Some(value) => match lists::model_map(value) {
                    Err(error) => Err(ConfigErrorView::ModelMap(error)),
                    Ok(map) => Ok(env_config_with(env, urls, map)),
                },
            },
        },
    }
}

/// The configuration that the environment gives, with its URLs and its model
/// map.
pub open spec fn env_config_with(
    env: EnvView,
    urls: Seq<Seq<char>>,
    model_map: Seq<(Seq<char>, Seq<char>)>,
) -> ConfigView {
    ConfigView {
        port: port_or(env.port, 3000),
        upstream_urls: urls,
        api_key: env.key(),
        model_map,
        system_prompt_ignore_terms: lists::deduped(env.terms()),
        reasoning_model: env.reasoning_model,
        completion_model: env.completion_model,
        merge_system_messages: false,
        merge_user_messages: false,
        debug: switched_on(env.debug),
        verbose: switched_on(env.verbose),
        models_list_mode: mode_or(env.models_list_mode, ModelsListMode::Static),
        upstreams: Seq::empty(),
    }
}

/// The value of a result that holds a configuration.
pub open spec fn config_outcome(r: Result<Config, ConfigError>) -> Result<
    ConfigView,
    ConfigErrorView,
> {
    match r {
        Ok(config) => Ok(config@),
        Err(error) => Err(error@),
    }
}

/// Copies an optional string.
fn copy_of(value: &Option<String>) -> (r: Option<String>)
    ensures
        text::text_option(r) == text::text_option(*value),
{
    value.clone()
}

/// Whether a variable switches something on.
pub fn is_switched_on(value: &Option<String>) -> (r: bool)
    ensures
        r == switched_on(text::text_option(*value)),
{
    match value {
        Some(v) => {
            let low = lowered(v);
            same_text(v, "1") || same_text(&low, "true")
        },
        None => false,
    }
}

/// The port in a variable, or the given one where it holds none.
pub fn read_port(value: &Option<String>, port: u16) -> (r: u16)
    ensures
        r == port_or(text::text_option(*value), port),
{
    match value {
        Some(v) => match parse_u16(v) {
            Some(n) => n,
            None => port,
        },
        None => port,
    }
}

impl ModelsListMode {
    /// The mode that a text names, in any case.
    pub fn from_name(value: &str) -> (r: Option<ModelsListMode>)
        ensures
            r == named_mode(value@),
    {
        let name = lowered(value);
        if same_text(&name, "static") {
            Some(ModelsListMode::Static)
        } else if same_text(&name, "upstream") {
            Some(ModelsListMode::Upstream)
        } else if same_text(&name, "merge") {
            Some(ModelsListMode::Merge)
        } else {
            None
        }
    }
}

impl EnvVars {
    pub(crate) fn base_urls(&self) -> (r: Option<String>)
        ensures
            text::text_option(r) == self@.base_urls(),
    {
        if self.upstream_base_url.is_some() {
            copy_of(&self.upstream_base_url)
        } else {
            copy_of(&self.anthropic_proxy_base_url)
        }
    }

    pub(crate) fn key(&self) -> (r: Option<String>)
        ensures
            text::text_option(r) == self@.key(),
    {
        let key = if self.upstream_api_key.is_some() {
            copy_of(&self.upstream_api_key)
        } else {
            copy_of(&self.openrouter_api_key)
        };
        match key {
            Some(key) => if key.as_str().is_empty() {
                None
            } else {
                Some(key)
            },
            None => None,
        }
    }

    pub(crate) fn terms(&self) -> (r: Vec<String>)
        ensures
            text::texts(r@) == self@.terms(),
    {
        match &self.system_prompt_ignore_terms {
            Some(value) => Config::parse_system_prompt_ignore_terms(value),
            None => {
                let r: Vec<String> = Vec::new();
                assert(text::texts(r@) == Seq::<Seq<char>>::empty());
                r
            },
        }
    }

    pub(crate) fn mode_or(&self, mode: ModelsListMode) -> (r: ModelsListMode)
        ensures
            r == mode_or(self@.models_list_mode, mode),
    {
        match &self.models_list_mode {
            Some(value) => match ModelsListMode::from_name(value) {
                Some(named) => named,
                None => mode,
            },
            None => mode,
        }
    }

    /// The value of `MODELS_LIST_MODE`, where it names no mode.
    pub fn unknown_mode(&self) -> (r: Option<String>)
        ensures
            text::text_option(r) == match self@.models_list_mode {
                Some(value) => if named_mode(value) is None {
                    Some(value)
                } else {
                    None
                },
                None => None,
            },
    {
        match &self.models_list_mode {
            Some(value) => match ModelsListMode::from_name(value) {
                Some(_) => None,
                None => Some(value.clone()),
            },
            None => None,
        }
    }
}

impl Config {
    /// The configuration that the environment alone gives.
    pub fn from_env(env: &EnvVars) -> (r: Result<Config, ConfigError>)
        ensures
            config_outcome(r) == env_config(env@),
    {
        let raw = match env.base_urls() {
            Some(raw) => raw,
            None => return Err(ConfigError::MissingBaseUrl),
        };
        let upstream_urls = match Self::parse_upstream_urls(&raw) {
            Ok(urls) => urls,
            Err(error) => return Err(ConfigError::Url(error)),
        };
        let model_map = match &env.model_map {
            None => NameMap::new(),
            Some(value) => match Self::parse_model_map(value) {
                Ok(map) => map,
                Err(error) => return Err(ConfigError::ModelMap(error)),
            },
        };
        let mut system_prompt_ignore_terms = env.terms();
        Self::dedupe_ignore_terms(&mut system_prompt_ignore_terms);
        let config = Config {
            port: read_port(&env.port, 3000),
            upstream_urls,
            api_key: env.key(),
            model_map,
            system_prompt_ignore_terms,
            reasoning_model: copy_of(&env.reasoning_model),
            completion_model: copy_of(&env.completion_model),
            merge_system_messages: false,
            merge_user_messages: false,
            debug: is_switched_on(&env.debug),
            verbose: is_switched_on(&env.verbose),
            models_list_mode: env.mode_or(ModelsListMode::Static),
            upstreams: NameMap::new(),
        };
        Ok(config)
    }
}

/// A configuration file.
#[derive(Debug, Clone)]
pub struct FileConfig {
    pub port: Option<u16>,
    pub debug: Option<bool>,
    pub verbose: Option<bool>,
    pub merge_system_messages: Option<bool>,
    pub merge_user_messages: Option<bool>,
    pub system_prompt_ignore_terms: Option<Vec<String>>,
    pub reasoning_model: Option<String>,
    pub completion_model: Option<String>,
    pub models_list_mode: Option<ModelsListMode>,
    pub upstreams: Option<NameMap<UpstreamConfig>>,
}

/// The value of a [`FileConfig`].
pub struct FileView {
    pub port: Option<u16>,
    pub debug: Option<bool>,
    pub verbose: Option<bool>,
    pub merge_system_messages: Option<bool>,
    pub merge_user_messages: Option<bool>,
    pub system_prompt_ignore_terms: Option<Seq<Seq<char>>>,
    pub reasoning_model: Option<Seq<char>>,
    pub completion_model: Option<Seq<char>>,
    pub models_list_mode: Option<ModelsListMode>,
    pub upstreams: Option<Seq<(Seq<char>, UpstreamView)>>,
}

impl View for FileConfig {
    type V = FileView;

    open spec fn view(&self) -> FileView {
        FileView {
            port: self.port,
            debug: self.debug,
            verbose: self.verbose,
            merge_system_messages: self.merge_system_messages,
            merge_user_messages: self.merge_user_messages,
            system_prompt_ignore_terms: match self.system_prompt_ignore_terms {
                Some(terms) => Some(text::texts(terms@)),
                None => None,
            },
            reasoning_model: text::text_option(self.reasoning_model),
            completion_model: text::text_option(self.completion_model),
            models_list_mode: self.models_list_mode,
            upstreams: match self.upstreams {
                Some(upstreams) => Some(upstreams@),
                None => None,
            },
        }
    }
}

/// A file in which nothing is set.
pub open spec fn empty_file() -> FileView {
    FileView {
        port: None,
        debug: None,
        verbose: None,
        merge_system_messages: None,
        merge_user_messages: None,
        system_prompt_ignore_terms: None,
        reasoning_model: None,
        completion_model: None,
        models_list_mode: None,
        upstreams: None,
    }
}

/// An optional value, or another where there is none.
pub open spec fn value_or<T>(value: Option<T>, other: T) -> T {
    match value {
        Some(v) => v,
        None => other,
    }
}

/// The first upstream whose base URL is refused, and why.
pub open spec fn refused_upstream(upstreams: Seq<(Seq<char>, UpstreamView)>) -> Option<
    (Seq<char>, UrlErrorView),
>
    decreases upstreams.len(),
{
    if upstreams.len() == 0 {
        None
    } else {
        match endpoint::chat_url(upstreams.first().1.base_url) {
            Err(error) => Some((upstreams.first().0, error)),
            Ok(_) => refused_upstream(upstreams.drop_first()),
        }
    }
}

/// The base URLs of the upstreams, in their order.
pub open spec fn base_urls_of(upstreams: Seq<(Seq<char>, UpstreamView)>) -> Seq<Seq<char>> {
    Seq::new(upstreams.len(), |i: int| upstreams[i].1.base_url)
}

/// The models of an upstream that it knows under another name: the id of each
/// with that name.
pub open spec fn renamed_at(
    upstream_name: Seq<char>,
    models: Seq<(Seq<char>, config::ModelView)>,
) -> Seq<(Seq<char>, Seq<char>)>
    decreases models.len(),
{
    if models.len() == 0 {
        Seq::empty()
    } else {
        let before = renamed_at(upstream_name, models.drop_last());
        let (name, model) = models.last();
        let target = routing::target_of(model, name);
        if target == name {
            before
        } else {
            before.push((listing::namespaced(upstream_name, name), target))
        }
    }
}

/// The models that their upstreams know under another name.
pub open spec fn renamed(upstreams: Seq<(Seq<char>, UpstreamView)>) -> Seq<
    (Seq<char>, Seq<char>),
>
    decreases upstreams.len(),
{
    if upstreams.len() == 0 {
        Seq::empty()
    } else {
        renamed(upstreams.drop_last()) + renamed_at(upstreams.last().0, upstreams.last().1.models)
    }
}

/// The configuration that a file gives.
pub open spec fn file_config(file: FileView) -> Result<ConfigView, ConfigErrorView> {
    let upstreams = value_or(file.upstreams, Seq::empty());
    match refused_upstream(upstreams) {
        Some((name, error)) => Err(ConfigErrorView::Upstream { name, error }),
        None => Ok(
            ConfigView {
                port: value_or(file.port, 3000),
                upstream_urls: base_urls_of(upstreams),
                api_key: None,
                model_map: name_map::extended(Seq::empty(), renamed(upstreams)),
                system_prompt_ignore_terms: lists::deduped(
                    value_or(file.system_prompt_ignore_terms, Seq::empty()),
                ),
                reasoning_model: file.reasoning_model,
                completion_model: file.completion_model,
                merge_system_messages: value_or(file.merge_system_messages, false),
                merge_user_messages: value_or(file.merge_user_messages, false),
                debug: value_or(file.debug, false),
                verbose: value_or(file.verbose, false),
                models_list_mode: value_or(file.models_list_mode, ModelsListMode::Static),
                upstreams,
            },
        ),
    }
}

/// The first upstream whose base URL is refused is the one that is reported.
pub proof fn lemma_refused_after(upstreams: Seq<(Seq<char>, UpstreamView)>, n: int)
    requires
        0 <= n < upstreams.len(),
        forall|i: int|
            0 <= i < n ==> endpoint::chat_url((#[trigger] upstreams[i]).1.base_url) is Ok,
        endpoint::chat_url(upstreams[n].1.base_url) is Err,
    ensures
        refused_upstream(upstreams) == Some(
            (upstreams[n].0, endpoint::chat_url(upstreams[n].1.base_url)->Err_0),
        ),
    decreases n,
{
    if n > 0 {
        assert(endpoint::chat_url(upstreams[0].1.base_url) is Ok);
        let rest = upstreams.drop_first();
        assert(forall|i: int| 0 <= i < rest.len() ==> #[trigger] rest[i] == upstreams[i + 1]);
        lemma_refused_after(rest, n - 1);
    }
}

/// A file is not refused if and only if every upstream has an accepted base URL.
pub proof fn lemma_none_refused(upstreams: Seq<(Seq<char>, UpstreamView)>)
    ensures
        refused_upstream(upstreams) is None <==> routing::upstreams_resolve(upstreams),
    decreases upstreams.len(),
{
    if upstreams.len() > 0 {
        let rest = upstreams.drop_first();
        lemma_none_refused(rest);
        assert(forall|i: int| 0 <= i < rest.len() ==> #[trigger] rest[i] == upstreams[i + 1]);
        if routing::upstreams_resolve(upstreams) {
            assert(endpoint::chat_url(upstreams[0].1.base_url) is Ok);
            assert(routing::upstreams_resolve(rest));
        }
        if refused_upstream(upstreams) is None {
            assert forall|i: int| 0 <= i < upstreams.len() implies endpoint::chat_url(
                (#[trigger] upstreams[i]).1.base_url,
            ) is Ok by {
                if i > 0 {
                    assert(rest[i - 1] == upstreams[i]);
                }
            }
        }
    }
}

/// Whether a source of the model map stands for a configured model that its
/// upstream knows under another name.
pub open spec fn stands_for(
    upstreams: Seq<(Seq<char>, UpstreamView)>,
    source: Seq<char>,
    i: int,
    j: int,
) -> bool {
    &&& 0 <= i < upstreams.len()
    &&& 0 <= j < upstreams[i].1.models.len()
    &&& source == listing::namespaced(upstreams[i].0, upstreams[i].1.models[j].0)
    &&& target_at(upstreams, i, j) != upstreams[i].1.models[j].0
}

/// The name under which an upstream knows one of its models.
pub open spec fn target_at(upstreams: Seq<(Seq<char>, UpstreamView)>, i: int, j: int) -> Seq<
    char,
> {
    routing::target_of(upstreams[i].1.models[j].1, upstreams[i].1.models[j].0)
}

proof fn lemma_renamed_at_source(
    upstream_name: Seq<char>,
    models: Seq<(Seq<char>, config::ModelView)>,
    k: int,
) -> (j: int)
    requires
        0 <= k < renamed_at(upstream_name, models).len(),
    ensures
        0 <= j < models.len(),
        routing::target_of(models[j].1, models[j].0) != models[j].0,
        renamed_at(upstream_name, models)[k] == (
            listing::namespaced(upstream_name, models[j].0),
            routing::target_of(models[j].1, models[j].0),
        ),
    decreases models.len(),
{
    let init = models.drop_last();
    if k < renamed_at(upstream_name, init).len() {
        let j = lemma_renamed_at_source(upstream_name, init, k);
        assert(init[j] == models[j]);
        j
    } else {
        models.len() - 1
    }
}

proof fn lemma_renamed_at_holds(
    upstream_name: Seq<char>,
    models: Seq<(Seq<char>, config::ModelView)>,
    j: int,
) -> (k: int)
    requires
        0 <= j < models.len(),
        routing::target_of(models[j].1, models[j].0) != models[j].0,
    ensures
        0 <= k < renamed_at(upstream_name, models).len(),
        renamed_at(upstream_name, models)[k].0 == listing::namespaced(upstream_name, models[j].0),
    decreases models.len(),
{
    let init = models.drop_last();
    if j < init.len() {
        assert(init[j] == models[j]);
        lemma_renamed_at_holds(upstream_name, init, j)
    } else {
        renamed_at(upstream_name, init).len() as int
    }
}

proof fn lemma_renamed_source(upstreams: Seq<(Seq<char>, UpstreamView)>, k: int) -> (r: (int, int))
    requires
        0 <= k < renamed(upstreams).len(),
    ensures
        stands_for(upstreams, renamed(upstreams)[k].0, r.0, r.1),
        renamed(upstreams)[k].1 == target_at(upstreams, r.0, r.1),
    decreases upstreams.len(),
{
    let init = upstreams.drop_last();
    let before = renamed(init);
    if k < before.len() {
        let r = lemma_renamed_source(init, k);
        assert(init[r.0] == upstreams[r.0]);
        r
    } else {
        let last = upstreams.last();
        let j = lemma_renamed_at_source(last.0, last.1.models, k - before.len());
        (upstreams.len() - 1, j)
    }
}

proof fn lemma_renamed_holds(upstreams: Seq<(Seq<char>, UpstreamView)>, i: int, j: int) -> (k: int)
    requires
        0 <= i < upstreams.len(),
        0 <= j < upstreams[i].1.models.len(),
        target_at(upstreams, i, j) != upstreams[i].1.models[j].0,
    ensures
        0 <= k < renamed(upstreams).len(),
        renamed(upstreams)[k].0 == listing::namespaced(
            upstreams[i].0,
            upstreams[i].1.models[j].0,
        ),
    decreases upstreams.len(),
{
    let init = upstreams.drop_last();
    if i < init.len() {
        assert(init[i] == upstreams[i]);
        lemma_renamed_holds(init, i, j)
    } else {
        let last = upstreams.last();
        renamed(init).len() + lemma_renamed_at_holds(last.0, last.1.models, j)
    }
}

proof fn lemma_one_model_per_id(
    upstreams: Seq<(Seq<char>, UpstreamView)>,
    i: int,
    j: int,
    k: int,
    l: int,
)
    requires
        listing::plainly_named(upstreams),
        0 <= i < upstreams.len(),
        0 <= j < upstreams[i].1.models.len(),
        0 <= k < upstreams.len(),
        0 <= l < upstreams[k].1.models.len(),
        listing::namespaced(upstreams[i].0, upstreams[i].1.models[j].0) == listing::namespaced(
            upstreams[k].0,
            upstreams[k].1.models[l].0,
        ),
    ensures
        i == k,
        j == l,
{
    routing::lemma_split_after(upstreams[i].0, upstreams[i].1.models[j].0);
    routing::lemma_split_after(upstreams[k].0, upstreams[k].1.models[l].0);
    order::order_is_irreflexive(upstreams[i].0);
    order::order_is_irreflexive(upstreams[i].1.models[j].0);
}

/// The model map of a file leads from the id of every configured model that its
/// upstream knows under another name to that name, and has nothing under the
/// ids of the others.
pub proof fn file_maps_renamed_models(file: FileView, i: int, j: int)
    requires
        file_config(file) is Ok,
        listing::plainly_named((file_config(file)->Ok_0).upstreams),
        0 <= i < (file_config(file)->Ok_0).upstreams.len(),
        0 <= j < (file_config(file)->Ok_0).upstreams[i].1.models.len(),
    ensures
        ({
            let config = file_config(file)->Ok_0;
            let name = config.upstreams[i].1.models[j].0;
            let target = target_at(config.upstreams, i, j);
            name_map::lookup(
                config.model_map,
                listing::namespaced(config.upstreams[i].0, name),
            ) == if target == name {
                None
            } else {
                Some(target)
            }
        }),
{
    let upstreams = (file_config(file)->Ok_0).upstreams;
    let added = renamed(upstreams);
    let name = upstreams[i].1.models[j].0;
    let id = listing::namespaced(upstreams[i].0, name);
    let target = target_at(upstreams, i, j);
    assert forall|k: int| 0 <= k < added.len() && (#[trigger] added[k]).0 == id implies added[k].1
        == target && target != name by {
        let (m, n) = lemma_renamed_source(upstreams, k);
        lemma_one_model_per_id(upstreams, i, j, m, n);
    }
    name_map::lookup_after_agreeing(Seq::<(Seq<char>, Seq<char>)>::empty(), added, id, target);
    assert(name_map::lookup(Seq::<(Seq<char>, Seq<char>)>::empty(), id) is None);
    if target != name {
        let k = lemma_renamed_holds(upstreams, i, j);
        assert(added[k].0 == id);
    } else if exists|k: int| 0 <= k < added.len() && (#[trigger] added[k]).0 == id {
        let k = choose|k: int| 0 <= k < added.len() && (#[trigger] added[k]).0 == id;
        assert(target != name);
    }
}

/// The model map of a file holds nothing but configured models that their
/// upstreams know under another name.
pub proof fn file_maps_nothing_else(file: FileView, source: Seq<char>)
    requires
        file_config(file) is Ok,
        name_map::lookup((file_config(file)->Ok_0).model_map, source) is Some,
    ensures
        exists|i: int, j: int|
            #[trigger] stands_for((file_config(file)->Ok_0).upstreams, source, i, j),
{
    let upstreams = (file_config(file)->Ok_0).upstreams;
    let added = renamed(upstreams);
    if exists|k: int| 0 <= k < added.len() && (#[trigger] added[k]).0 == source {
        let k = choose|k: int| 0 <= k < added.len() && (#[trigger] added[k]).0 == source;
        let (i, j) = lemma_renamed_source(upstreams, k);
        assert(stands_for(upstreams, source, i, j));
    } else {
        name_map::lookup_after_agreeing(
            Seq::<(Seq<char>, Seq<char>)>::empty(),
            added,
            source,
            source,
        );
        assert(name_map::lookup(Seq::<(Seq<char>, Seq<char>)>::empty(), source) is None);
    }
}

/// The map of the models that their upstreams know under another name.
fn renamed_models(upstreams: &NameMap<UpstreamConfig>) -> (r: NameMap<String>)
    ensures
        r@ == name_map::extended(Seq::empty(), renamed(upstreams@)),
{
    let ghost all = upstreams@;
    let mut pairs: Vec<(String, String)> = Vec::new();
    let mut i: usize = 0;
    assert(all.take(0) == Seq::<(Seq<char>, UpstreamView)>::empty());
    assert(listing::listed(pairs@) == Seq::<(Seq<char>, Seq<char>)>::empty());
    while i < upstreams.len()
        invariant
            i <= all.len(),
            all == upstreams@,
            listing::listed(pairs@) == renamed(all.take(i as int)),
        decreases all.len() - i,
    {
        let upstream_name = upstreams.name(i);
        let upstream = upstreams.value(i);
        let ghost done = listing::listed(pairs@);
        let ghost models = upstream.models@;
        let mut j: usize = 0;
        assert(models.take(0) == Seq::<(Seq<char>, config::ModelView)>::empty());
        assert(done + renamed_at(upstream_name@, models.take(0)) == done);
        while j < upstream.models.len()
            invariant
                j <= models.len(),
                models == upstream.models@,
                listing::listed(pairs@) == done + renamed_at(
                    upstream_name@,
                    models.take(j as int),
                ),
            decreases models.len() - j,
        {
            let name = upstream.models.name(j);
            let model: &ModelConfig = upstream.models.value(j);
            let ghost before = listing::listed(pairs@);
            assert(models.take(j + 1).drop_last() == models.take(j as int));
            assert(models.take(j + 1).last() == models[j as int]);
            if let Some(target) = &model.target {
                if !same_text(target, name) {
                    let ghost added = (listing::namespaced(upstream_name@, name@), target@);
                    pairs.push((namespaced_id(upstream_name, name), target.clone()));
                    assert(listing::listed(pairs@) == before.push(added));
                    assert(done + renamed_at(upstream_name@, models.take(j as int)).push(added)
                        == before.push(added));
                }
            }
            j += 1;
        }
        assert(models.take(j as int) == models);
        assert(all.take(i + 1).drop_last() == all.take(i as int));
        assert(all.take(i + 1).last() == all[i as int]);
        i += 1;
    }
    assert(all.take(i as int) == all);
    assert(name_map::pairs(pairs@) == listing::listed(pairs@));
    NameMap::from_pairs(pairs)
}

impl Config {
    /// The configuration that a file gives.
    pub fn from_file_config(file: FileConfig) -> (r: Result<Config, ConfigError>)
        ensures
            config_outcome(r) == file_config(file@),
    {
        let upstreams: NameMap<UpstreamConfig> = match file.upstreams {
            Some(upstreams) => upstreams,
            None => NameMap::new(),
        };
        let mut system_prompt_ignore_terms: Vec<String> = match file.system_prompt_ignore_terms {
            Some(terms) => terms,
            None => Vec::new(),
        };
        assert(text::texts(system_prompt_ignore_terms@) == value_or(
            file@.system_prompt_ignore_terms,
            Seq::empty(),
        ));
        Self::dedupe_ignore_terms(&mut system_prompt_ignore_terms);
        let ghost all = upstreams@;
        let mut upstream_urls: Vec<String> = Vec::new();
        let mut i: usize = 0;
        assert(text::texts(upstream_urls@) == base_urls_of(all.take(0)));
        while i < upstreams.len()
            invariant
                i <= all.len(),
                all == upstreams@,
                all == value_or(file@.upstreams, Seq::empty()),
                text::texts(upstream_urls@) == base_urls_of(all.take(i as int)),
                forall|j: int|
                    0 <= j < i ==> endpoint::chat_url((#[trigger] all[j]).1.base_url) is Ok,
            decreases all.len() - i,
        {
            let upstream = upstreams.value(i);
            if let Err(error) = Self::resolve_chat_completions_url(&upstream.base_url) {
                proof {
                    lemma_refused_after(all, i as int);
                }
                return Err(ConfigError::Upstream { name: upstreams.name(i).clone(), error });
            }
            let ghost done = text::texts(upstream_urls@);
            upstream_urls.push(upstream.base_url.clone());
            assert(text::texts(upstream_urls@) == done.push(all[i as int].1.base_url));
            assert(base_urls_of(all.take(i + 1)) == base_urls_of(all.take(i as int)).push(
                all[i as int].1.base_url,
            ));
            i += 1;
        }
        assert(all.take(i as int) == all);
        proof {
            lemma_none_refused(all);
        }
        let model_map = renamed_models(&upstreams);
        Ok(
            Config {
                port: match file.port {
                    Some(port) => port,
                    None => 3000,
                },
                upstream_urls,
                api_key: None,
                model_map,
                system_prompt_ignore_terms,
                reasoning_model: file.reasoning_model,
                completion_model: file.completion_model,
                merge_system_messages: match file.merge_system_messages {
                    Some(merge) => merge,
                    None => false,
                },
                merge_user_messages: match file.merge_user_messages {
                    Some(merge) => merge,
                    None => false,
                },
                debug: match file.debug {
                    Some(debug) => debug,
                    None => false,
                },
                verbose: match file.verbose {
                    Some(verbose) => verbose,
                    None => false,
                },
                models_list_mode: match file.models_list_mode {
                    Some(mode) => mode,
                    None => ModelsListMode::Static,
                },
                upstreams,
            },
        )
    }
}

} // verus!
