use anthropic_proxy::config::{Config, ModelConfig, ModelsListMode, UpstreamConfig};
use anthropic_proxy::endpoint::UrlError;
use anthropic_proxy::name_map::NameMap;

#[test]
fn resolve_model_prefix_match() {
    let config = Config {
        upstreams: NameMap::from_pairs(vec![(
            "openai".to_string(),
            UpstreamConfig {
                base_url: "https://api.openai.com".to_string(),
                api_key: Some("sk-test".to_string()),
                models: NameMap::from_pairs(vec![(
                    "gpt-4.1".to_string(),
                    ModelConfig {
                        target: Some("gpt-4.1".to_string()),
                        allow_failover: false,
                        reasoning_model: None,
                        completion_model: None,
                    },
                )]),
            },
        )]),
        ..Default::default()
    };

    let route = config.resolve_model("openai/gpt-4.1").unwrap();
    assert_eq!(route.upstream_name, "openai");
    assert_eq!(route.target, "gpt-4.1");
    assert_eq!(route.base_url, "https://api.openai.com/v1/chat/completions");
    assert_eq!(route.api_key.as_deref(), Some("sk-test"));
    assert!(!route.allow_failover);
}

#[test]
fn resolve_model_bare_name_match() {
    let config = Config {
        upstreams: NameMap::from_pairs(vec![(
            "openai".to_string(),
            UpstreamConfig {
                base_url: "https://api.openai.com".to_string(),
                api_key: None,
                models: NameMap::from_pairs(vec![(
                    "gpt-4.1".to_string(),
                    ModelConfig {
                        target: Some("gpt-4.1".to_string()),
                        allow_failover: false,
                        reasoning_model: None,
                        completion_model: None,
                    },
                )]),
            },
        )]),
        ..Default::default()
    };

    let route = config.resolve_model("gpt-4.1").unwrap();
    assert_eq!(route.upstream_name, "openai");
    assert_eq!(route.target, "gpt-4.1");
}

#[test]
fn resolve_model_no_match_returns_legacy() {
    let config = Config {
        upstream_urls: vec!["https://api.openai.com".to_string()],
        api_key: Some("sk-global".to_string()),
        ..Default::default()
    };

    let route = config.resolve_model("unknown-model").unwrap();
    assert!(route.is_legacy);
    assert_eq!(route.target, "unknown-model");
}

#[test]
fn static_models_list_from_config() {
    let config = Config {
        upstreams: NameMap::from_pairs(vec![
            (
                "openai".to_string(),
                UpstreamConfig {
                    base_url: "https://api.openai.com".to_string(),
                    api_key: None,
                    models: NameMap::from_pairs(vec![(
                        "gpt-4.1".to_string(),
                        ModelConfig {
                            target: Some("gpt-4.1".to_string()),
                            allow_failover: false,
                            reasoning_model: None,
                            completion_model: None,
                        },
                    )]),
                },
            ),
            (
                "openrouter".to_string(),
                UpstreamConfig {
                    base_url: "https://openrouter.ai/api".to_string(),
                    api_key: None,
                    models: NameMap::from_pairs(vec![(
                        "anthropic/model-opus-4-7".to_string(),
                        ModelConfig {
                            target: Some("anthropic/model-opus-4-7".to_string()),
                            allow_failover: false,
                            reasoning_model: None,
                            completion_model: None,
                        },
                    )]),
                },
            ),
        ]),
        models_list_mode: ModelsListMode::Static,
        ..Default::default()
    };

    let models = config.static_models_list();
    assert_eq!(models.len(), 2);
    assert_eq!(models[0].0, "openai/gpt-4.1");
    assert_eq!(models[0].1, "gpt-4.1");
    assert_eq!(models[1].0, "openrouter/anthropic/model-opus-4-7");
}

fn model(target: Option<&str>, allow_failover: bool) -> ModelConfig {
    ModelConfig {
        target: target.map(|t| t.to_string()),
        allow_failover,
        reasoning_model: None,
        completion_model: None,
    }
}

fn upstream(url: &str, key: Option<&str>, models: Vec<(&str, ModelConfig)>) -> UpstreamConfig {
    UpstreamConfig {
        base_url: url.to_string(),
        api_key: key.map(|k| k.to_string()),
        models: NameMap::from_pairs(
            models.into_iter().map(|(name, m)| (name.to_string(), m)).collect(),
        ),
    }
}

fn config(upstreams: Vec<(&str, UpstreamConfig)>) -> Config {
    Config {
        api_key: Some("global".to_string()),
        upstreams: NameMap::from_pairs(
            upstreams.into_iter().map(|(name, u)| (name.to_string(), u)).collect(),
        ),
        ..Default::default()
    }
}

fn three_upstreams() -> Config {
    config(vec![
        (
            "openrouter",
            upstream(
                "https://openrouter.ai/api",
                Some("sk-or"),
                vec![("gpt-4.1", model(Some("openai/gpt-4.1"), true))],
            ),
        ),
        ("openai", upstream("https://api.openai.com", None, vec![("gpt-4.1", model(None, false))])),
        ("ollama", upstream("http://localhost:11434", None, vec![("llama3", model(None, false))])),
    ])
}

#[test]
fn models_are_routed_as_documented() {
    let config = three_upstreams();

    let route = config.resolve_model("openrouter/gpt-4.1").unwrap();
    assert_eq!(route.upstream_name, "openrouter");
    assert_eq!(route.target, "openai/gpt-4.1");
    assert_eq!(route.api_key.as_deref(), Some("sk-or"));
    assert!(route.allow_failover);

    let route = config.resolve_model("gpt-4.1").unwrap();
    assert_eq!(route.upstream_name, "openai");
    assert_eq!(route.target, "gpt-4.1");
    assert_eq!(route.api_key.as_deref(), Some("global"));

    let route = config.resolve_model("llama-99").unwrap();
    assert!(route.is_legacy);
    assert_eq!(route.upstream_name, "");
    assert_eq!(route.base_url, "");
    assert!(route.api_key.is_none());
}

#[test]
fn another_upstream_serves_in_the_place_of_the_failed_one() {
    let config = three_upstreams();
    let others = config.failover_upstreams("openrouter/gpt-4.1", "openrouter");
    assert_eq!(others.len(), 1);
    assert_eq!(others[0].upstream_name, "openai");
    assert_eq!(others[0].target, "gpt-4.1");
    assert_eq!(others[0].base_url, "https://api.openai.com/v1/chat/completions");

    let others = config.failover_upstreams("llama3", "ollama");
    assert!(others.is_empty());
}

#[test]
fn failovers_match_by_target_too() {
    let config = config(vec![
        ("a", upstream("https://a.example", None, vec![("x", model(Some("t"), true))])),
        (
            "b",
            upstream(
                "https://b.example",
                None,
                vec![("m", model(Some("t"), false)), ("x", model(Some("u"), false))],
            ),
        ),
        ("c", upstream("not a url", None, vec![("x", model(None, false))])),
        ("d", upstream("https://d.example", None, vec![("t", model(None, false))])),
        ("e", upstream("https://e.example", None, vec![])),
    ]);
    let others = config.failover_upstreams("a/x", "a");
    let found: Vec<(&str, &str)> =
        others.iter().map(|r| (r.upstream_name.as_str(), r.target.as_str())).collect();
    assert_eq!(found, vec![("b", "t"), ("d", "t")]);
}

#[test]
fn an_upstream_without_models_takes_any() {
    let config = config(vec![
        ("a", upstream("https://a.example", None, vec![("x", model(None, false))])),
        ("z", upstream("https://z.example/v3", None, vec![])),
    ]);
    for (asked, target) in [("z/any/thing", "any/thing"), ("other", "other"), ("a/y", "a/y")] {
        let route = config.resolve_model(asked).unwrap();
        assert_eq!(route.upstream_name, "z");
        assert_eq!(route.target, target);
        assert_eq!(route.base_url, "https://z.example/v3/chat/completions");
        assert!(!route.is_legacy && !route.allow_failover);
    }
}

#[test]
fn a_bare_name_may_hold_a_slash() {
    let config = config(vec![(
        "openrouter",
        upstream("https://openrouter.ai/api", None, vec![("vendor/m", model(None, false))]),
    )]);
    for asked in ["openrouter/vendor/m", "vendor/m"] {
        let route = config.resolve_model(asked).unwrap();
        assert_eq!(route.upstream_name, "openrouter");
        assert_eq!(route.target, "vendor/m");
    }
}

#[test]
fn a_refused_url_stops_the_route() {
    let config = config(vec![("a", upstream("ftp://a.example", None, vec![]))]);
    assert!(matches!(config.resolve_model("x"), Err(UrlError::Scheme)));
    assert!(matches!(config.resolve_model("a/x"), Err(UrlError::Scheme)));
    assert!(matches!(config.plan_request("x"), Err(UrlError::Scheme)));
    assert!(config.failover_upstreams("x", "").is_empty());
}

#[test]
fn listed_models_lead_to_their_targets() {
    let config = three_upstreams();
    let models = config.static_models_list();
    assert_eq!(
        models,
        vec![
            ("ollama/llama3".to_string(), "llama3".to_string()),
            ("openai/gpt-4.1".to_string(), "gpt-4.1".to_string()),
            ("openrouter/gpt-4.1".to_string(), "openai/gpt-4.1".to_string()),
        ]
    );
    for (id, shown) in models {
        assert_eq!(config.resolve_model(&id).unwrap().target, shown);
    }
}

#[test]
fn ids_are_sorted_across_upstreams() {
    let config = config(vec![
        ("a", upstream("https://a.example", None, vec![("z", model(None, false))])),
        ("a-b", upstream("https://b.example", None, vec![("c", model(None, false))])),
    ]);
    let ids: Vec<String> = config.static_models_list().into_iter().map(|m| m.0).collect();
    assert_eq!(ids, vec!["a-b/c".to_string(), "a/z".to_string()]);
}
