use anthropic_proxy::config::{Config, ConfigError, ModelConfig, ModelsListMode, UpstreamConfig};
use anthropic_proxy::name_map::NameMap;
use anthropic_proxy::overrides::{
    automatic_upstream_name, merge_env_overrides, CliOverrides, LogLevel,
};
use anthropic_proxy::sources::{is_switched_on, read_port, EnvVars, FileConfig};
use anthropic_proxy::startup::{
    config_file_candidates, dotenv_file_candidates, listen_address, parse_pid, path_in,
};

fn some(text: &str) -> Option<String> {
    Some(text.to_string())
}

#[test]
fn defaults_are_those_of_a_local_upstream() {
    let config = Config::default();
    assert_eq!(config.port, 3000);
    assert_eq!(config.upstream_urls, vec!["http://localhost:11434".to_string()]);
    assert!(config.api_key.is_none() && config.upstreams.is_empty());
    assert_eq!(config.models_list_mode, ModelsListMode::Static);
    assert_eq!(ModelsListMode::default(), ModelsListMode::Static);
    let model = ModelConfig::default();
    assert!(model.target.is_none() && !model.allow_failover);
}

#[test]
fn the_environment_alone_gives_a_configuration() {
    let env = EnvVars {
        port: some("8080"),
        upstream_base_url: some("https://openrouter.ai/api;https://api.openai.com"),
        anthropic_proxy_base_url: some("ignored"),
        upstream_api_key: some("sk-1"),
        openrouter_api_key: some("sk-2"),
        model_map: some("a=b"),
        system_prompt_ignore_terms: some("rm -rf;RM  -RF\nsudo"),
        reasoning_model: some("r"),
        completion_model: some(""),
        debug: some("TRUE"),
        verbose: some("yes"),
        models_list_mode: some("Merge"),
    };
    let config = Config::from_env(&env).unwrap();
    assert_eq!(config.port, 8080);
    assert_eq!(config.upstream_urls.len(), 2);
    assert_eq!(config.api_key.as_deref(), Some("sk-1"));
    assert_eq!(config.model_map.get("a"), Some(&"b".to_string()));
    assert_eq!(
        config.system_prompt_ignore_terms,
        vec!["rm -rf".to_string(), "sudo".to_string()]
    );
    assert_eq!(config.reasoning_model.as_deref(), Some("r"));
    assert_eq!(config.completion_model.as_deref(), Some(""));
    assert!(config.debug && !config.verbose);
    assert_eq!(config.models_list_mode, ModelsListMode::Merge);
    assert!(config.upstreams.is_empty());
}

#[test]
fn aliases_are_read_where_the_first_name_is_not_set() {
    let mut env = EnvVars {
        anthropic_proxy_base_url: some("https://a.example"),
        openrouter_api_key: some("sk-2"),
        ..Default::default()
    };
    let config = Config::from_env(&env).unwrap();
    assert_eq!(config.upstream_urls, vec!["https://a.example".to_string()]);
    assert_eq!(config.api_key.as_deref(), Some("sk-2"));
    assert_eq!(config.port, 3000);
    env.upstream_api_key = some("");
    assert!(Config::from_env(&env).unwrap().api_key.is_none());
}

#[test]
fn an_environment_is_refused_with_its_reason() {
    let mut env = EnvVars::default();
    let err = Config::from_env(&env).unwrap_err();
    assert!(matches!(err, ConfigError::MissingBaseUrl));
    assert!(err.message().starts_with("UPSTREAM_BASE_URL is required."));
    assert!(err.message().ends_with("\n- Local: http://localhost:11434"));

    env.upstream_base_url = some("");
    env.model_map = some("a");
    let err = Config::from_env(&env).unwrap_err();
    assert!(matches!(err, ConfigError::Url(_)));
    assert_eq!(err.message(), "UPSTREAM_BASE_URL must not be empty");

    env.upstream_base_url = some("https://a.example");
    let err = Config::from_env(&env).unwrap_err();
    assert!(matches!(err, ConfigError::ModelMap(_)));
    assert_eq!(
        err.message(),
        "Invalid ANTHROPIC_PROXY_MODEL_MAP entry 'a'. Expected source=target"
    );
}

fn file_like_config() -> Config {
    Config {
        port: 8080,
        upstream_urls: vec!["https://file.example".to_string()],
        system_prompt_ignore_terms: vec!["one".to_string()],
        reasoning_model: some("file"),
        model_map: NameMap::from_pairs(vec![
            ("a".to_string(), "file".to_string()),
            ("b".to_string(), "file".to_string()),
        ]),
        upstreams: NameMap::from_pairs(vec![(
            "file".to_string(),
            UpstreamConfig {
                base_url: "https://file.example".to_string(),
                api_key: some("own"),
                models: NameMap::new(),
            },
        )]),
        ..Default::default()
    }
}

#[test]
fn the_environment_overrides_a_file() {
    let mut config = file_like_config();
    let env = EnvVars {
        port: some("9090"),
        openrouter_api_key: some("sk-env"),
        model_map: some("b=env;c=env"),
        system_prompt_ignore_terms: some("ONE;two"),
        completion_model: some("c"),
        verbose: some("1"),
        models_list_mode: some("UPSTREAM"),
        ..Default::default()
    };
    merge_env_overrides(&mut config, &env);
    assert_eq!(config.port, 9090);
    assert_eq!(config.api_key.as_deref(), Some("sk-env"));
    assert_eq!(config.model_map.get("a"), Some(&"file".to_string()));
    assert_eq!(config.model_map.get("b"), Some(&"env".to_string()));
    assert_eq!(config.model_map.get("c"), Some(&"env".to_string()));
    assert_eq!(config.system_prompt_ignore_terms, vec!["one".to_string(), "two".to_string()]);
    assert_eq!(config.reasoning_model.as_deref(), Some("file"));
    assert_eq!(config.completion_model.as_deref(), Some("c"));
    assert!(config.verbose && !config.debug);
    assert_eq!(config.models_list_mode, ModelsListMode::Upstream);
    assert_eq!(config.upstreams.get("file").unwrap().api_key.as_deref(), Some("own"));
}

#[test]
fn switches_of_the_environment_override_a_file() {
    let mut config = Config { debug: true, verbose: true, ..Default::default() };
    merge_env_overrides(&mut config, &EnvVars::default());
    assert!(config.debug && config.verbose);
    let env = EnvVars { debug: some("false"), verbose: some("0"), ..Default::default() };
    merge_env_overrides(&mut config, &env);
    assert!(!config.debug && !config.verbose);
    let env = EnvVars { debug: some("1"), verbose: some("True"), ..Default::default() };
    merge_env_overrides(&mut config, &env);
    assert!(config.debug && config.verbose);
}

#[test]
fn urls_of_the_environment_replace_the_upstreams() {
    let mut config = file_like_config();
    let env = EnvVars {
        upstream_base_url: some("https://openrouter.ai/api;http://localhost:11434/"),
        upstream_api_key: some("sk-env"),
        ..Default::default()
    };
    merge_env_overrides(&mut config, &env);
    assert_eq!(
        config.upstream_urls,
        vec!["https://openrouter.ai/api".to_string(), "http://localhost:11434/".to_string()]
    );
    assert_eq!(config.upstreams.len(), 2);
    assert!(config.upstreams.get("file").is_none());
    let upstream = config.upstreams.get("upstream_https_openrouter_ai_api").unwrap();
    assert_eq!(upstream.base_url, "https://openrouter.ai/api");
    assert_eq!(upstream.api_key.as_deref(), Some("sk-env"));
    assert!(upstream.models.is_empty());
    let route = config.resolve_model("any").unwrap();
    assert_eq!(route.upstream_name, "upstream_http_localhost_11434");
    assert!(!route.is_legacy);
}

#[test]
fn what_is_refused_overrides_nothing() {
    let mut config = file_like_config();
    let env = EnvVars {
        port: some("70000"),
        upstream_base_url: some("ftp://a.example"),
        upstream_api_key: some(""),
        openrouter_api_key: some("hidden"),
        model_map: some("x"),
        system_prompt_ignore_terms: some(" ; "),
        debug: some("on"),
        models_list_mode: some("all"),
        ..Default::default()
    };
    merge_env_overrides(&mut config, &env);
    assert_eq!(config.port, 8080);
    assert_eq!(config.upstream_urls, vec!["https://file.example".to_string()]);
    assert_eq!(config.upstreams.len(), 1);
    assert!(config.api_key.is_none());
    assert_eq!(config.model_map.len(), 2);
    assert_eq!(config.system_prompt_ignore_terms, vec!["one".to_string()]);
    assert!(!config.debug);
    assert_eq!(config.models_list_mode, ModelsListMode::Static);
    assert_eq!(env.unknown_mode(), some("all"));
    assert_eq!(EnvVars::default().unknown_mode(), None);
}

#[test]
fn upstreams_are_named_after_their_urls() {
    assert_eq!(
        automatic_upstream_name("https://openrouter.ai/api"),
        "upstream_https_openrouter_ai_api"
    );
    assert_eq!(automatic_upstream_name("http://a.b:1//"), "upstream_http_a_b_1");
    assert_eq!(automatic_upstream_name("https://a_b.c"), "upstream_https_a_b_c");
}

#[test]
fn the_command_line_comes_first() {
    let mut config = file_like_config();
    merge_env_overrides(
        &mut config,
        &EnvVars { port: some("9090"), ..Default::default() },
    );
    let mut cli = CliOverrides {
        debug: true,
        verbose: false,
        port: Some(7070),
        system_prompt_ignore: vec![" two ".to_string(), " ".to_string(), "One".to_string()],
        merge_system_messages: true,
        merge_user_messages: false,
    };
    config.apply_cli(&cli);
    assert_eq!(config.port, 7070);
    assert!(config.debug && !config.verbose);
    assert!(config.merge_system_messages && !config.merge_user_messages);
    assert_eq!(config.system_prompt_ignore_terms, vec!["one".to_string(), "two".to_string()]);
    assert_eq!(config.log_level(), LogLevel::Debug);
    assert_eq!(config.log_level().filter(), "anthropic_proxy=DEBUG");

    cli = CliOverrides {
        debug: false,
        verbose: true,
        port: None,
        system_prompt_ignore: vec![],
        merge_system_messages: false,
        merge_user_messages: true,
    };
    config.apply_cli(&cli);
    assert_eq!(config.port, 7070);
    assert!(config.debug && config.merge_system_messages && config.merge_user_messages);
    assert_eq!(config.log_level(), LogLevel::Trace);
    assert_eq!(Config::default().log_level(), LogLevel::Info);
}

fn no_options() -> CliOverrides {
    CliOverrides {
        debug: false,
        verbose: false,
        port: None,
        system_prompt_ignore: vec![],
        merge_system_messages: false,
        merge_user_messages: false,
    }
}

fn small_file() -> FileConfig {
    FileConfig {
        port: Some(8080),
        debug: Some(true),
        verbose: None,
        merge_system_messages: None,
        merge_user_messages: Some(true),
        system_prompt_ignore_terms: Some(vec!["one".to_string()]),
        reasoning_model: some("file"),
        completion_model: some("file"),
        models_list_mode: Some(ModelsListMode::Merge),
        upstreams: None,
    }
}

#[test]
fn all_sources_are_put_together() {
    let env = EnvVars {
        port: some("9090"),
        debug: some("0"),
        reasoning_model: some("env"),
        system_prompt_ignore_terms: some("two"),
        ..Default::default()
    };
    let cli = CliOverrides {
        port: Some(7070),
        system_prompt_ignore: vec!["three".to_string()],
        ..no_options()
    };
    let config = Config::from_sources(Some(small_file()), &env, &cli).unwrap();
    assert_eq!(config.port, 7070);
    assert!(!config.debug && config.merge_user_messages);
    assert_eq!(config.reasoning_model.as_deref(), Some("env"));
    assert_eq!(config.completion_model.as_deref(), Some("file"));
    assert_eq!(config.models_list_mode, ModelsListMode::Merge);
    assert_eq!(config.system_prompt_ignore_terms, vec!["one", "two", "three"]);
    let config = Config::from_sources(Some(small_file()), &env, &no_options()).unwrap();
    assert_eq!(config.port, 9090);
    let config =
        Config::from_sources(Some(small_file()), &EnvVars::default(), &no_options()).unwrap();
    assert_eq!(config.port, 8080);
}

#[test]
fn without_a_file_the_environment_is_needed() {
    let err = Config::from_sources(None, &EnvVars::default(), &no_options()).unwrap_err();
    assert!(matches!(err, ConfigError::MissingBaseUrl));
    let env = EnvVars { upstream_base_url: some("https://a.example"), ..Default::default() };
    let cli = CliOverrides { verbose: true, ..no_options() };
    let config = Config::from_sources(None, &env, &cli).unwrap();
    assert_eq!(config.port, 3000);
    assert!(config.verbose && config.upstreams.is_empty());
    assert_eq!(config.upstream_urls, vec!["https://a.example".to_string()]);
    let config = Config::from_sources(Some(small_file()), &env, &cli).unwrap();
    assert_eq!(config.upstreams.len(), 1);
}

#[test]
fn switches_and_ports() {
    for (value, on) in [("1", true), ("true", true), ("True", true), ("0", false), ("", false)] {
        assert_eq!(is_switched_on(&some(value)), on);
    }
    assert!(!is_switched_on(&None));
    assert_eq!(read_port(&some("+80"), 1), 80);
    assert_eq!(read_port(&some("x"), 1), 1);
    assert_eq!(read_port(&None, 1), 1);
    assert_eq!(ModelsListMode::from_name("StaTic"), Some(ModelsListMode::Static));
    assert_eq!(ModelsListMode::from_name("none"), None);
}

#[test]
fn files_are_looked_for_in_order() {
    assert_eq!(
        config_file_candidates(&None, &some("/home/me")),
        vec![
            "anthropic-proxy.json".to_string(),
            "/home/me/.anthropic-proxy.json".to_string(),
            "/etc/anthropic-proxy/config.json".to_string(),
        ]
    );
    assert_eq!(config_file_candidates(&None, &None).len(), 2);
    assert_eq!(
        config_file_candidates(&some("mine.json"), &some("/home/me")),
        vec!["mine.json".to_string()]
    );
    assert_eq!(
        dotenv_file_candidates(&some("/root/")),
        vec!["/root/.anthropic-proxy.env".to_string(), "/etc/anthropic-proxy/.env".to_string()]
    );
    for home in ["", "/", "a", "a/", "/a/b"] {
        let joined = std::path::PathBuf::from(home).join(".x");
        assert_eq!(path_in(home, ".x"), joined.to_str().unwrap());
    }
}

#[test]
fn pid_files_name_a_process() {
    assert_eq!(parse_pid(" 4711\n").unwrap(), 4711);
    assert_eq!(parse_pid("-1").unwrap(), -1);
    assert_eq!(parse_pid(" x\n").unwrap_err().message(), "Invalid PID in file:  x\n");
    assert!(parse_pid("").is_err());
    assert_eq!(listen_address(3000), "0.0.0.0:3000");
}
