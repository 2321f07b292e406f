use std::io::{Read, Write};

use anthropic_proxy::config::{Config, ConfigError, ModelConfig, ModelsListMode, UpstreamConfig};
use anthropic_proxy::name_map::NameMap;
use anthropic_proxy::sources::FileConfig;
use serde_json::Value;

fn text(value: &Value) -> Option<String> {
    value.as_str().map(|s| s.to_string())
}

fn model(value: &Value) -> ModelConfig {
    ModelConfig {
        target: text(&value["target"]),
        allow_failover: value["allow_failover"].as_bool().unwrap_or(false),
        reasoning_model: text(&value["reasoning_model"]),
        completion_model: text(&value["completion_model"]),
    }
}

fn upstream(value: &Value) -> UpstreamConfig {
    let models = value["models"].as_object().unwrap();
    UpstreamConfig {
        base_url: text(&value["base_url"]).unwrap(),
        api_key: text(&value["api_key"]),
        models: NameMap::from_pairs(
            models.iter().map(|(name, m)| (name.clone(), model(m))).collect(),
        ),
    }
}

fn file_config(content: &str) -> FileConfig {
    let value: Value = serde_json::from_str(content).unwrap();
    FileConfig {
        port: value["port"].as_u64().map(|port| port as u16),
        debug: value["debug"].as_bool(),
        verbose: value["verbose"].as_bool(),
        merge_system_messages: value["merge_system_messages"].as_bool(),
        merge_user_messages: value["merge_user_messages"].as_bool(),
        system_prompt_ignore_terms: value["system_prompt_ignore_terms"]
            .as_array()
            .map(|terms| terms.iter().filter_map(text).collect()),
        reasoning_model: text(&value["reasoning_model"]),
        completion_model: text(&value["completion_model"]),
        models_list_mode: value["models_list_mode"].as_str().and_then(ModelsListMode::from_name),
        upstreams: value["upstreams"].as_object().map(|upstreams| {
            NameMap::from_pairs(
                upstreams.iter().map(|(name, u)| (name.clone(), upstream(u))).collect(),
            )
        }),
    }
}

fn through_a_file(content: &str) -> String {
    let mut tmp = tempfile::NamedTempFile::new().unwrap();
    tmp.write_all(content.as_bytes()).unwrap();
    let mut read = String::new();
    tmp.reopen().unwrap().read_to_string(&mut read).unwrap();
    read
}

#[test]
fn load_config_from_json_file() {
    let json = r#"{
        "port": 8080,
        "debug": true,
        "models_list_mode": "static",
        "upstreams": {
            "openai": {
                "base_url": "https://api.openai.com",
                "api_key": "sk-test123",
                "models": {
                    "gpt-4.1": {},
                    "o1-pro": { "target": "o1-pro" }
                }
            }
        }
    }"#;

    let config = Config::from_file_config(file_config(&through_a_file(json))).unwrap();
    assert_eq!(config.port, 8080);
    assert!(config.debug);
    assert_eq!(config.models_list_mode, ModelsListMode::Static);
    assert_eq!(config.upstreams.len(), 1);

    let upstream = config.upstreams.get("openai").unwrap();
    assert_eq!(upstream.base_url, "https://api.openai.com");
    assert_eq!(upstream.api_key.as_deref(), Some("sk-test123"));
    assert_eq!(upstream.models.len(), 2);

    let gpt_model = upstream.models.get("gpt-4.1").unwrap();
    assert!(gpt_model.target.is_none());
    assert!(!gpt_model.allow_failover);

    let o1_model = upstream.models.get("o1-pro").unwrap();
    assert_eq!(o1_model.target.as_deref(), Some("o1-pro"));
}

#[test]
fn full_config_json_round_trip() {
    let json = r#"{
        "port": 8080,
        "debug": true,
        "models_list_mode": "static",
        "merge_system_messages": true,
        "upstreams": {
            "openai": {
                "base_url": "https://api.openai.com",
                "api_key": "sk-test",
                "models": {
                    "gpt-4.1": { "allow_failover": true },
                    "o1-pro": { "target": "o1-pro" }
                }
            },
            "openrouter": {
                "base_url": "https://openrouter.ai/api/v1",
                "api_key": "sk-or",
                "models": {
                    "anthropic/model-opus-4-7": { "target": "anthropic/model-opus-4-7" },
                    "openai/gpt-4.1": { "target": "openai/gpt-4.1", "allow_failover": true }
                }
            }
        }
    }"#;

    let config = Config::from_file_config(file_config(&through_a_file(json))).unwrap();

    let route = config.resolve_model("openai/gpt-4.1").unwrap();
    assert_eq!(route.upstream_name, "openai");
    assert_eq!(route.target, "gpt-4.1");
    assert_eq!(route.base_url, "https://api.openai.com/v1/chat/completions");
    assert!(route.allow_failover);

    let route = config.resolve_model("o1-pro").unwrap();
    assert_eq!(route.upstream_name, "openai");
    assert_eq!(route.target, "o1-pro");

    let route = config.resolve_model("unknown").unwrap();
    assert!(route.is_legacy);

    let models = config.static_models_list();
    assert_eq!(models.len(), 4);
}

#[test]
fn an_empty_file_gives_the_defaults() {
    let config = Config::from_file_config(file_config("{}")).unwrap();
    assert_eq!(config.port, 3000);
    assert!(config.upstream_urls.is_empty());
    assert!(config.upstreams.is_empty());
    assert!(config.model_map.is_empty());
    assert!(config.api_key.is_none());
    assert!(!config.debug && !config.verbose);
    assert!(!config.merge_system_messages && !config.merge_user_messages);
    assert_eq!(config.models_list_mode, ModelsListMode::Static);
}

#[test]
fn renamed_models_enter_the_model_map() {
    let json = r#"{
        "system_prompt_ignore_terms": ["A  b", "a B", "c"],
        "upstreams": {
            "openrouter": {
                "base_url": "https://openrouter.ai/api",
                "models": {
                    "model-sonnet-4-20250514": { "target": "anthropic/model-sonnet-4-20250514" },
                    "gpt-4.1": { "target": "openai/gpt-4.1" },
                    "o3": {},
                    "o4": { "target": "o4" }
                }
            }
        }
    }"#;
    let config = Config::from_file_config(file_config(json)).unwrap();
    assert_eq!(config.model_map.len(), 2);
    assert_eq!(
        config.model_map.get("openrouter/model-sonnet-4-20250514"),
        Some(&"anthropic/model-sonnet-4-20250514".to_string())
    );
    assert_eq!(
        config.model_map.get("openrouter/gpt-4.1"),
        Some(&"openai/gpt-4.1".to_string())
    );
    assert_eq!(config.upstream_urls, vec!["https://openrouter.ai/api".to_string()]);
    assert_eq!(
        config.system_prompt_ignore_terms,
        vec!["A  b".to_string(), "c".to_string()]
    );
}

#[test]
fn a_refused_upstream_is_named() {
    let json = r#"{
        "upstreams": {
            "good": { "base_url": "https://a.example", "models": {} },
            "bad": { "base_url": "ftp://b.example", "models": {} }
        }
    }"#;
    let err = Config::from_file_config(file_config(json)).unwrap_err();
    assert!(matches!(err, ConfigError::Upstream { .. }));
    assert_eq!(err.message(), "Upstream 'bad': UPSTREAM_BASE_URL must use http or https");
}
