//! The configuration of the proxy.
use vstd::prelude::*;
use vstd::string::StringExecFns;

use crate::endpoint::{UrlError, UrlErrorView};
use crate::name_map::NameMap;
use crate::text;

verus! {

/// Where the list of models comes from.
#[derive(Debug, Clone, Copy, PartialEq, Eq, Structural)]
pub enum ModelsListMode {
    /// The configured models.
    Static,
    /// What the upstreams list.
    Upstream,
    /// Both.
    Merge,
}

impl Default for ModelsListMode {
    fn default() -> (r: Self)
        ensures
            r == ModelsListMode::Static,
    {
        ModelsListMode::Static
    }
}

/// A model that an upstream serves.
#[derive(Debug, Clone)]
pub struct ModelConfig {
    /// The name under which the upstream knows the model, where it is not the
    /// name that it is configured under.
    pub target: Option<String>,
    /// Whether another upstream may serve in the place of this one.
    pub allow_failover: bool,
    pub reasoning_model: Option<String>,
    pub completion_model: Option<String>,
}

/// The value of a [`ModelConfig`].
pub struct ModelView {
    pub target: Option<Seq<char>>,
    pub allow_failover: bool,
    pub reasoning_model: Option<Seq<char>>,
    pub completion_model: Option<Seq<char>>,
}

impl View for ModelConfig {
    type V = ModelView;

    open spec fn view(&self) -> ModelView {
        ModelView {
            target: text::text_option(self.target),
            allow_failover: self.allow_failover,
            reasoning_model: text::text_option(self.reasoning_model),
            completion_model: text::text_option(self.completion_model),
        }
    }
}

/// A model of which nothing is configured.
pub open spec fn plain_model() -> ModelView {
    ModelView { target: None, allow_failover: false, reasoning_model: None, completion_model: None }
}

impl Default for ModelConfig {
    fn default() -> (r: Self)
        ensures
            r@ == plain_model(),
    {
        ModelConfig {
            target: None,
            allow_failover: false,
            reasoning_model: None,
            completion_model: None,
        }
    }
}

/// An upstream with the models that it serves, under the names by which they
/// are asked for. One without any serves every model.
#[derive(Debug, Clone)]
pub struct UpstreamConfig {
    pub base_url: String,
    pub api_key: Option<String>,
    pub models: NameMap<ModelConfig>,
}

/// The value of an [`UpstreamConfig`].
pub struct UpstreamView {
    pub base_url: Seq<char>,
    pub api_key: Option<Seq<char>>,
    pub models: Seq<(Seq<char>, ModelView)>,
}

impl View for UpstreamConfig {
    type V = UpstreamView;

    open spec fn view(&self) -> UpstreamView {
        UpstreamView {
            base_url: self.base_url@,
            api_key: text::text_option(self.api_key),
            models: self.models@,
        }
    }
}

/// The configuration of the proxy.
#[derive(Debug, Clone)]
pub struct Config {
    pub port: u16,
    pub upstream_urls: Vec<String>,
    pub api_key: Option<String>,
    pub model_map: NameMap<String>,
    pub system_prompt_ignore_terms: Vec<String>,
    pub reasoning_model: Option<String>,
    pub completion_model: Option<String>,
    pub merge_system_messages: bool,
    pub merge_user_messages: bool,
    pub debug: bool,
    pub verbose: bool,
    pub models_list_mode: ModelsListMode,
    pub upstreams: NameMap<UpstreamConfig>,
}

/// The value of a [`Config`].
pub struct ConfigView {
    pub port: u16,
    pub upstream_urls: Seq<Seq<char>>,
    pub api_key: Option<Seq<char>>,
    pub model_map: Seq<(Seq<char>, Seq<char>)>,
    pub system_prompt_ignore_terms: Seq<Seq<char>>,
    pub reasoning_model: Option<Seq<char>>,
    pub completion_model: Option<Seq<char>>,
    pub merge_system_messages: bool,
    pub merge_user_messages: bool,
    pub debug: bool,
    pub verbose: bool,
    pub models_list_mode: ModelsListMode,
    pub upstreams: Seq<(Seq<char>, UpstreamView)>,
}

impl View for Config {
    type V = ConfigView;

    open spec fn view(&self) -> ConfigView {
        ConfigView {
            port: self.port,
            upstream_urls: text::texts(self.upstream_urls@),
            api_key: text::text_option(self.api_key),
            model_map: self.model_map@,
            system_prompt_ignore_terms: text::texts(self.system_prompt_ignore_terms@),
            reasoning_model: text::text_option(self.reasoning_model),
            completion_model: text::text_option(self.completion_model),
            merge_system_messages: self.merge_system_messages,
            merge_user_messages: self.merge_user_messages,
            debug: self.debug,
            verbose: self.verbose,
            models_list_mode: self.models_list_mode,
            upstreams: self.upstreams@,
        }
    }
}

/// The configuration where nothing is configured.
pub open spec fn default_config() -> ConfigView {
    ConfigView {
        port: 3000,
        upstream_urls: seq!["http://localhost:11434"@],
        api_key: None,
        model_map: Seq::empty(),
        system_prompt_ignore_terms: Seq::empty(),
        reasoning_model: None,
        completion_model: None,
        merge_system_messages: false,
        merge_user_messages: false,
        debug: false,
        verbose: false,
        models_list_mode: ModelsListMode::Static,
        upstreams: Seq::empty(),
    }
}

impl Default for Config {
    fn default() -> (r: Self)
        ensures
            r@ == default_config(),
    {
        let mut upstream_urls: Vec<String> = Vec::new();
        upstream_urls.push("http://localhost:11434".to_owned());
        let r = Config {
            port: 3000,
            upstream_urls,
            api_key: None,
            model_map: NameMap::new(),
            system_prompt_ignore_terms: Vec::new(),
            reasoning_model: None,
            completion_model: None,
            merge_system_messages: false,
            merge_user_messages: false,
            debug: false,
            verbose: false,
            models_list_mode: ModelsListMode::Static,
            upstreams: NameMap::new(),
        };
        assert(r@.upstream_urls == default_config().upstream_urls);
        assert(r@.system_prompt_ignore_terms == default_config().system_prompt_ignore_terms);
        r
    }
}

/// Why an entry of a model map is refused; holds the entry.
#[derive(Debug, Clone)]
pub enum ModelMapError {
    /// The entry has no `=`.
    NoTarget(String),
    /// One side of the `=` is empty.
    EmptySide(String),
}

/// The value of a [`ModelMapError`].
pub enum ModelMapErrorView {
    NoTarget(Seq<char>),
    EmptySide(Seq<char>),
}

impl View for ModelMapError {
    type V = ModelMapErrorView;

    open spec fn view(&self) -> ModelMapErrorView {
        match self {
            ModelMapError::NoTarget(entry) => ModelMapErrorView::NoTarget(entry@),
            ModelMapError::EmptySide(entry) => ModelMapErrorView::EmptySide(entry@),
        }
    }
}

impl ModelMapErrorView {
    /// What is said of the error.
    pub open spec fn message(self) -> Seq<char> {
        match self {
            ModelMapErrorView::NoTarget(entry) => "Invalid ANTHROPIC_PROXY_MODEL_MAP entry '"@
                + entry + "'. Expected source=target"@,
            ModelMapErrorView::EmptySide(entry) => "Invalid ANTHROPIC_PROXY_MODEL_MAP entry '"@
                + entry + "'. Source and target models must be non-empty"@,
        }
    }
}

impl ModelMapError {
    /// What is said of the error.
    pub fn message(&self) -> (r: String)
        ensures
            r@ == self@.message(),
    {
        let start = "Invalid ANTHROPIC_PROXY_MODEL_MAP entry '".to_owned();
        match self {
            ModelMapError::NoTarget(entry) => start.concat(entry).concat(
                "'. Expected source=target",
            ),
            ModelMapError::EmptySide(entry) => start.concat(entry).concat(
                "'. Source and target models must be non-empty",
            ),
        }
    }
}

/// Why a configuration is refused.
#[derive(Debug, Clone)]
pub enum ConfigError {
    /// No base URL is given.
    MissingBaseUrl,
    /// A base URL is refused.
    Url(UrlError),
    /// The base URL of a named upstream is refused.
    Upstream { name: String, error: UrlError },
    /// The model map is refused.
    ModelMap(ModelMapError),
}

/// The value of a [`ConfigError`].
pub enum ConfigErrorView {
    MissingBaseUrl,
    Url(UrlErrorView),
    Upstream { name: Seq<char>, error: UrlErrorView },
    ModelMap(ModelMapErrorView),
}

impl View for ConfigError {
    type V = ConfigErrorView;

    open spec fn view(&self) -> ConfigErrorView {
        match self {
            ConfigError::MissingBaseUrl => ConfigErrorView::MissingBaseUrl,
            ConfigError::Url(error) => ConfigErrorView::Url(error@),
            ConfigError::Upstream { name, error } => ConfigErrorView::Upstream {
                name: name@,
                error: error@,
            },
            ConfigError::ModelMap(error) => ConfigErrorView::ModelMap(error@),
        }
    }
}

impl ConfigErrorView {
    /// What is said of the error.
    pub open spec fn message(self) -> Seq<char> {
        match self {
            ConfigErrorView::MissingBaseUrl =>
                "UPSTREAM_BASE_URL is required. Set it to your OpenAI-compatible endpoint.\nExamples:\n- OpenRouter: https://openrouter.ai/api\n- OpenAI: https://api.openai.com\n- Multiple (failover): https://openrouter.ai/api;https://api.openai.com\n- Local: http://localhost:11434"@,
            ConfigErrorView::Url(error) => error.message(),
            ConfigErrorView::Upstream { name, error } => "Upstream '"@ + name + "': "@
                + error.message(),
            ConfigErrorView::ModelMap(error) => error.message(),
        }
    }
}

impl ConfigError {
    /// What is said of the error.
    pub fn message(&self) -> (r: String)
        ensures
            r@ == self@.message(),
    {
        match self {
            ConfigError::MissingBaseUrl =>
                "UPSTREAM_BASE_URL is required. Set it to your OpenAI-compatible endpoint.\nExamples:\n- OpenRouter: https://openrouter.ai/api\n- OpenAI: https://api.openai.com\n- Multiple (failover): https://openrouter.ai/api;https://api.openai.com\n- Local: http://localhost:11434".to_owned(),
            ConfigError::Url(error) => error.message(),
            ConfigError::Upstream { name, error } => {
                let start = "Upstream '".to_owned();
                start.concat(name).concat("': ").concat(&error.message())
            },
            ConfigError::ModelMap(error) => error.message(),
        }
    }
}

} // verus!
