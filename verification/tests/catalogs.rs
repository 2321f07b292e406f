use anthropic_proxy::catalog::{merge_models, models_page, ModelFetch, ModelsReply};
use anthropic_proxy::config::{Config, ModelConfig, ModelsListMode, UpstreamConfig};
use anthropic_proxy::endpoint::UrlError;
use anthropic_proxy::listing::sort_by_id;
use anthropic_proxy::metrics::{
    counted_status, request_finished, request_started, tokens, upstream_error, upstream_latency,
    Update,
};
use anthropic_proxy::name_map::NameMap;
use anthropic_proxy::status::Status;

fn pairs(list: &[(&str, &str)]) -> Vec<(String, String)> {
    list.iter().map(|(a, b)| (a.to_string(), b.to_string())).collect()
}

fn config(mode: ModelsListMode) -> Config {
    let upstream = |url: &str, key: Option<&str>| UpstreamConfig {
        base_url: url.to_string(),
        api_key: key.map(|k| k.to_string()),
        models: NameMap::from_pairs(vec![(
            "m".to_string(),
            ModelConfig { target: Some("vendor/m".to_string()), ..Default::default() },
        )]),
    };
    Config {
        api_key: Some("global".to_string()),
        models_list_mode: mode,
        upstreams: NameMap::from_pairs(vec![
            ("b".to_string(), upstream("https://b.example/v2", None)),
            ("a".to_string(), upstream("https://a.example", Some("own"))),
        ]),
        ..Default::default()
    }
}

#[test]
fn sorting_is_stable() {
    let sorted = sort_by_id(pairs(&[("b", "1"), ("a", "2"), ("b", "0"), ("a", "1")]));
    assert_eq!(sorted, pairs(&[("a", "2"), ("a", "1"), ("b", "1"), ("b", "0")]));
}

#[test]
fn a_page_lists_all_models() {
    let page = models_page(pairs(&[("a/x", "x"), ("b/y", "z")]));
    assert_eq!(page.data.len(), 2);
    assert_eq!(page.data[1].id, "b/y");
    assert_eq!(page.data[1].display_name, "z");
    assert_eq!(page.data[1].created_at, "1970-01-01T00:00:00Z");
    assert_eq!(page.data[1].model_type, "model");
    assert_eq!(page.first_id.as_deref(), Some("a/x"));
    assert_eq!(page.last_id.as_deref(), Some("b/y"));
    assert!(!page.has_more);
    let page = models_page(vec![]);
    assert!(page.data.is_empty() && page.first_id.is_none() && page.last_id.is_none());
}

#[test]
fn upstreams_are_asked_in_order() {
    let config = config(ModelsListMode::Upstream);
    let mut fetch = ModelFetch::new();

    let request = fetch.next_request(&config).unwrap().unwrap();
    assert_eq!(request.upstream_name, "a");
    assert_eq!(request.url, "https://a.example/v1/models");
    assert_eq!(request.api_key.as_deref(), Some("own"));
    fetch.record(&config, ModelsReply::Refused(Status::new(502).unwrap()));

    let request = fetch.next_request(&config).unwrap().unwrap();
    assert_eq!(request.upstream_name, "b");
    assert_eq!(request.url, "https://b.example/v2/models");
    assert_eq!(request.api_key.as_deref(), Some("global"));
    fetch.record(
        &config,
        ModelsReply::Listed(vec!["z".to_string(), "m".to_string(), "z".to_string()]),
    );

    assert!(fetch.next_request(&config).unwrap().is_none());
    fetch.record(&config, ModelsReply::Unreachable("late".to_string()));
    assert_eq!(fetch.finish().unwrap(), pairs(&[("m", "m"), ("z", "z")]));
}

#[test]
fn the_first_list_ends_the_fetch() {
    let config = config(ModelsListMode::Upstream);
    let mut fetch = ModelFetch::new();
    fetch.record(&config, ModelsReply::Listed(vec!["gpt-4.1".to_string()]));
    assert!(fetch.next_request(&config).unwrap().is_none());
    fetch.record(&config, ModelsReply::Listed(vec!["other".to_string()]));
    let page = config.models_answer(fetch.finish().unwrap());
    assert_eq!(page.data.len(), 1);
    assert_eq!(page.data[0].id, "gpt-4.1");
    assert_eq!(page.data[0].display_name, "gpt-4.1");
    assert_eq!(page.first_id.as_deref(), Some("gpt-4.1"));
    assert_eq!(page.last_id.as_deref(), Some("gpt-4.1"));
    assert!(!page.has_more);
}

#[test]
fn plain_urls_are_asked_where_no_upstream_has_a_name() {
    let config = Config {
        api_key: Some("global".to_string()),
        models_list_mode: ModelsListMode::Upstream,
        upstream_urls: vec![
            "https://b.example".to_string(),
            "https://a.example/v2/chat/completions".to_string(),
        ],
        ..Default::default()
    };
    let mut fetch = ModelFetch::new();
    let request = fetch.next_request(&config).unwrap().unwrap();
    assert_eq!(request.url, "https://b.example/v1/models");
    assert_eq!(request.api_key.as_deref(), Some("global"));
    fetch.record(&config, ModelsReply::Unreachable("no route".to_string()));
    assert_eq!(fetch.clone().finish().unwrap_err(), "https://b.example: no route");
    let request = fetch.next_request(&config).unwrap().unwrap();
    assert_eq!(request.url, "https://a.example/v2/models");
    fetch.record(&config, ModelsReply::Listed(vec![]));
    assert!(fetch.finish().unwrap().is_empty());
}

#[test]
fn a_fetch_without_any_list_fails_with_the_last_error() {
    let config = config(ModelsListMode::Upstream);
    let mut fetch = ModelFetch::new();
    fetch.record(&config, ModelsReply::Unreachable("no route".to_string()));
    assert_eq!(fetch.clone().finish().unwrap_err(), "a: no route");
    fetch.record(&config, ModelsReply::Refused(Status::new(502).unwrap()));
    assert_eq!(fetch.finish().unwrap_err(), "b returned 502 Bad Gateway");
    assert!(ModelFetch::new().finish().unwrap().is_empty());
}

#[test]
fn a_refused_url_stops_the_fetch() {
    let mut config = config(ModelsListMode::Upstream);
    config.upstreams.insert(
        "0".to_string(),
        UpstreamConfig {
            base_url: "ftp://x.example".to_string(),
            api_key: None,
            models: NameMap::new(),
        },
    );
    assert!(matches!(ModelFetch::new().next_request(&config), Err(UrlError::Scheme)));
}

#[test]
fn merged_lists_name_no_model_twice() {
    let own = pairs(&[("a/m", "vendor/m"), ("b/m", "m")]);
    let fetched =
        pairs(&[("a/m", "a/m"), ("n", "n"), ("vendor/m", "vendor/m"), ("m", "m")]);
    assert_eq!(
        merge_models(own, fetched),
        pairs(&[("a/m", "vendor/m"), ("b/m", "m"), ("n", "n")])
    );
}

#[test]
fn the_mode_decides_what_is_listed() {
    let fetched = pairs(&[("n", "n"), ("vendor/m", "vendor/m")]);
    let ids = |mode: ModelsListMode| -> Vec<String> {
        let config = config(mode);
        assert_eq!(config.fetches_models(), mode != ModelsListMode::Static);
        config.models_answer(fetched.clone()).data.into_iter().map(|m| m.id).collect()
    };
    assert_eq!(ids(ModelsListMode::Static), vec!["a/m", "b/m"]);
    assert_eq!(ids(ModelsListMode::Upstream), vec!["n", "vendor/m"]);
    assert_eq!(ids(ModelsListMode::Merge), vec!["a/m", "b/m", "n"]);
}

fn shown(updates: Vec<Update>) -> Vec<String> {
    let labels = |labels: Vec<(String, String)>| {
        labels.into_iter().map(|(a, b)| format!("{}={}", a, b)).collect::<Vec<_>>().join(",")
    };
    updates
        .into_iter()
        .map(|update| match update {
            Update::Count { name, labels: l, by } => format!("{}[{}]+{}", name, labels(l), by),
            Update::Raise { name } => format!("{} up", name),
            Update::Lower { name } => format!("{} down", name),
            Update::Time { name, labels: l } => format!("{}[{}] timed", name, labels(l)),
        })
        .collect()
}

#[test]
fn requests_are_counted() {
    assert_eq!(
        shown(request_started(true)),
        vec!["proxy_requests_total[mode=streaming]+1", "proxy_requests_in_flight up"]
    );
    assert_eq!(
        shown(request_finished(200, false)),
        vec![
            "proxy_request_duration_seconds[mode=batch,status=200] timed",
            "proxy_responses_total[mode=batch,status=200]+1",
            "proxy_requests_in_flight down",
        ]
    );
    assert_eq!(
        shown(tokens(7, u32::MAX, "m")),
        vec![
            "proxy_tokens_total[type=input,model=m]+7",
            "proxy_tokens_total[type=output,model=m]+4294967295",
        ]
    );
    assert_eq!(
        shown(upstream_error("chat_completions")),
        vec!["proxy_upstream_errors_total[endpoint=chat_completions]+1"]
    );
    assert_eq!(
        shown(upstream_latency("models")),
        vec!["proxy_upstream_latency_seconds[endpoint=models] timed"]
    );
    assert_eq!(counted_status(Some(404)), 404);
    assert_eq!(counted_status(None), 500);
}
