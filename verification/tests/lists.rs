use anthropic_proxy::config::{Config, ModelMapError};
use anthropic_proxy::endpoint::UrlError;

#[test]
fn parse_system_prompt_ignore_terms_supports_semicolons_and_newlines() {
    let terms =
        Config::parse_system_prompt_ignore_terms("rm -rf;git reset --hard\nsudo rm -rf");

    assert_eq!(
        terms,
        vec![
            "rm -rf".to_string(),
            "git reset --hard".to_string(),
            "sudo rm -rf".to_string()
        ]
    );
}

#[test]
fn dedupe_ignore_terms_normalizes_case_and_whitespace() {
    let mut terms = vec![
        "rm -rf".to_string(),
        " RM\t-rF ".to_string(),
        "git reset --hard".to_string(),
    ];

    Config::dedupe_ignore_terms(&mut terms);

    assert_eq!(
        terms,
        vec!["rm -rf".to_string(), "git reset --hard".to_string()]
    );
}

#[test]
fn parse_model_map_supports_semicolons_and_newlines() {
    let model_map = Config::parse_model_map(
        "model-3-5-sonnet=openai/gpt-5.2-chat\nmodel-haiku=openai/gpt-4.1-mini",
    )
    .unwrap();

    assert_eq!(
        model_map.get("model-3-5-sonnet"),
        Some(&"openai/gpt-5.2-chat".to_string())
    );
    assert_eq!(
        model_map.get("model-haiku"),
        Some(&"openai/gpt-4.1-mini".to_string())
    );
}

#[test]
fn parse_model_map_rejects_invalid_entries() {
    let err = Config::parse_model_map("model-3-5-sonnet").unwrap_err();

    assert!(err.message().contains("Expected source=target"));
}

#[test]
fn parse_upstream_urls_splits_on_semicolons() {
    let urls = Config::parse_upstream_urls("https://openrouter.ai/api;https://api.openai.com")
        .unwrap();

    assert_eq!(urls.len(), 2);
    assert_eq!(urls[0], "https://openrouter.ai/api");
    assert_eq!(urls[1], "https://api.openai.com");
}

#[test]
fn parse_upstream_urls_single_url_still_works() {
    let urls = Config::parse_upstream_urls("https://api.openai.com").unwrap();
    assert_eq!(urls.len(), 1);
}

#[test]
fn parse_upstream_urls_rejects_empty() {
    let err = Config::parse_upstream_urls("").unwrap_err();
    assert!(err.message().contains("must not be empty"));
}

#[test]
fn parse_upstream_urls_validates_each_url() {
    let err = Config::parse_upstream_urls("https://api.openai.com;not-a-url").unwrap_err();
    assert!(err.message().contains("valid http"));
}

#[test]
fn chat_completions_urls_resolves_all() {
    let config = Config {
        upstream_urls: vec![
            "https://openrouter.ai/api".to_string(),
            "https://api.openai.com".to_string(),
        ],
        ..Default::default()
    };

    let urls = config.chat_completions_urls();
    assert_eq!(urls.len(), 2);
    assert_eq!(urls[0], "https://openrouter.ai/api/v1/chat/completions");
    assert_eq!(urls[1], "https://api.openai.com/v1/chat/completions");
}

#[test]
fn model_map_errors_name_the_entry() {
    let err = Config::parse_model_map("a=b; c ;d").unwrap_err();
    assert_eq!(
        err.message(),
        "Invalid ANTHROPIC_PROXY_MODEL_MAP entry 'c'. Expected source=target"
    );
    assert!(matches!(err, ModelMapError::NoTarget(_)));
    let err = Config::parse_model_map("a= ").unwrap_err();
    assert_eq!(
        err.message(),
        "Invalid ANTHROPIC_PROXY_MODEL_MAP entry 'a='. Source and target models must be non-empty"
    );
    assert!(matches!(err, ModelMapError::EmptySide(_)));
    assert!(matches!(Config::parse_model_map(" = b"), Err(ModelMapError::EmptySide(_))));
}

#[test]
fn the_last_entry_of_a_model_map_decides() {
    let map = Config::parse_model_map("a=b=c; z = y ;a=d\n").unwrap();
    assert_eq!(map.len(), 2);
    assert_eq!(map.get("a"), Some(&"d".to_string()));
    assert_eq!(map.get("z"), Some(&"y".to_string()));
    let map = Config::parse_model_map("a=b=c").unwrap();
    assert_eq!(map.get("a"), Some(&"b=c".to_string()));
    assert!(Config::parse_model_map(" ;\n").unwrap().is_empty());
}

#[test]
fn deduplicating_twice_changes_nothing_more() {
    let mut terms: Vec<String> =
        ["A b", "", "a  B", "c", " ", "C", "ä", "Ä"].iter().map(|t| t.to_string()).collect();
    Config::dedupe_ignore_terms(&mut terms);
    assert_eq!(terms, vec!["A b", "", "c", "ä", "Ä"]);
    let once = terms.clone();
    Config::dedupe_ignore_terms(&mut terms);
    assert_eq!(terms, once);
}

#[test]
fn the_first_refused_url_is_reported() {
    let err = Config::parse_upstream_urls("https://a.example;ftp://b.example;no url").unwrap_err();
    assert!(matches!(err, UrlError::Scheme));
    assert!(matches!(Config::parse_upstream_urls(" ; ;"), Err(UrlError::Empty)));
    assert_eq!(
        Config::parse_upstream_urls(" https://a.example/ ;; http://b.example").unwrap(),
        vec!["https://a.example/".to_string(), "http://b.example".to_string()]
    );
}

#[test]
fn endpoints_are_given_where_all_urls_are_accepted() {
    let mut config = Config::default();
    assert_eq!(
        config.checked_chat_completions_urls().unwrap(),
        vec!["http://localhost:11434/v1/chat/completions".to_string()]
    );
    assert_eq!(
        config.checked_models_urls().unwrap(),
        vec!["http://localhost:11434/v1/models".to_string()]
    );
    assert_eq!(config.models_urls(), vec!["http://localhost:11434/v1/models".to_string()]);
    config.upstream_urls.push("nowhere".to_string());
    assert!(!config.upstream_urls_resolve());
    assert!(config.checked_chat_completions_urls().is_none());
    assert!(config.checked_models_urls().is_none());
}
