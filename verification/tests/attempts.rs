use anthropic_proxy::attempts::{
    after_reply, first_attempt, reply_metrics, Reply, RequestError, Step,
};
use anthropic_proxy::config::{Config, ModelConfig, UpstreamConfig};
use anthropic_proxy::metrics::Update;
use anthropic_proxy::name_map::NameMap;
use anthropic_proxy::status::{is_retriable_status, Status};

fn answered(code: u16, body: Option<&str>) -> Reply {
    Reply::Answered {
        status: Status::new(code).unwrap(),
        body: body.map(|b| b.to_string()),
    }
}

fn run(replies: Vec<Reply>) -> (Vec<usize>, Step) {
    let count = replies.len();
    let mut asked = Vec::new();
    let mut step = first_attempt(count);
    while let Step::Try(index) = step {
        asked.push(index);
        step = after_reply(count, index, replies[index].clone());
    }
    (asked, step)
}

#[test]
fn an_upstream_that_fails_is_followed_by_the_next() {
    let (asked, step) = run(vec![
        answered(503, Some("busy")),
        Reply::Unreachable("refused".to_string()),
        answered(429, None),
        answered(200, None),
        answered(200, None),
    ]);
    assert_eq!(asked, vec![0, 1, 2, 3]);
    assert!(matches!(step, Step::Deliver));
}

#[test]
fn a_refusal_is_final() {
    let (asked, step) = run(vec![answered(404, Some("no such model")), answered(200, None)]);
    assert_eq!(asked, vec![0]);
    match step {
        Step::Fail(RequestError::Upstream(message)) => {
            assert_eq!(message, "Upstream returned 404 Not Found: no such model")
        }
        _ => panic!("went on"),
    }
}

#[test]
fn the_last_error_is_reported() {
    let (asked, step) =
        run(vec![Reply::Unreachable("refused".to_string()), answered(500, None)]);
    assert_eq!(asked, vec![0, 1]);
    match step {
        Step::Fail(RequestError::Upstream(message)) => {
            assert_eq!(message, "Upstream returned 500 Internal Server Error: Unknown error")
        }
        _ => panic!("went on"),
    }
    let (_, step) = run(vec![answered(500, None), Reply::Unreachable("refused".to_string())]);
    assert!(matches!(step, Step::Fail(RequestError::Http(message)) if message == "refused"));
}

#[test]
fn without_upstreams_a_request_fails() {
    let (asked, step) = run(vec![]);
    assert!(asked.is_empty());
    assert!(
        matches!(step, Step::Fail(RequestError::Upstream(m)) if m == "All upstreams failed")
    );
}

#[test]
fn statuses_that_let_another_upstream_be_tried() {
    for code in 0..=1000u16 {
        assert_eq!(is_retriable_status(code), matches!(code, 429 | 500..=599));
        match Status::new(code) {
            Some(status) => {
                assert!((100..=999).contains(&code));
                assert_eq!(status.code(), code);
                assert_eq!(status.is_success(), (200..300).contains(&code));
                assert!(status.line().starts_with(&format!("{} ", code)));
            }
            None => assert!(!(100..=999).contains(&code)),
        }
    }
    assert_eq!(Status::new(200).unwrap().line(), "200 OK");
    assert_eq!(Status::new(599).unwrap().line(), "599 <unknown status code>");
}

fn two_upstreams(allow_failover: bool) -> Config {
    let upstream = |url: &str, target: &str| UpstreamConfig {
        base_url: url.to_string(),
        api_key: None,
        models: NameMap::from_pairs(vec![(
            "m".to_string(),
            ModelConfig {
                target: Some(target.to_string()),
                allow_failover,
                reasoning_model: Some(format!("{}-thinking", target)),
                completion_model: None,
            },
        )]),
    };
    Config {
        api_key: Some("key".to_string()),
        reasoning_model: Some("r".to_string()),
        completion_model: Some("c".to_string()),
        system_prompt_ignore_terms: vec!["term".to_string()],
        merge_user_messages: true,
        model_map: NameMap::from_pairs(vec![("a".to_string(), "b".to_string())]),
        upstreams: NameMap::from_pairs(vec![
            ("one".to_string(), upstream("https://one.example", "m1")),
            ("two".to_string(), upstream("https://two.example", "m2")),
        ]),
        ..Default::default()
    }
}

#[test]
fn plans_follow_the_route() {
    let plan = two_upstreams(false).plan_request("m").unwrap().unwrap();
    assert_eq!(plan.len(), 1);
    assert_eq!(plan[0].upstream_name, "one");

    let config = two_upstreams(true);
    let plan = config.plan_request("two/m").unwrap().unwrap();
    let found: Vec<(&str, &str)> =
        plan.iter().map(|r| (r.upstream_name.as_str(), r.target.as_str())).collect();
    assert_eq!(found, vec![("two", "m2"), ("one", "m1")]);

    let policy = config.translation_policy(&plan[1]);
    assert_eq!(policy.reasoning_model.as_deref(), Some("m1-thinking"));
    assert_eq!(policy.completion_model.as_deref(), Some("c"));
    assert_eq!(policy.model_map.get("a"), Some(&"b".to_string()));
    assert_eq!(policy.ignore_terms, vec!["term".to_string()]);
    assert!(policy.merge_user_messages && !policy.merge_system_messages);
}

#[test]
fn the_model_is_chosen_as_documented() {
    let mut config = two_upstreams(false);
    config.model_map = NameMap::from_pairs(vec![
        ("c".to_string(), "mapped-c".to_string()),
        ("plain".to_string(), "mapped-plain".to_string()),
    ]);
    let route = config.resolve_model("one/m").unwrap();
    let policy = config.translation_policy(&route);
    assert_eq!(policy.model_for(true, "m1"), "m1-thinking");
    assert_eq!(policy.model_for(false, "m1"), "mapped-c");

    config.reasoning_model = None;
    config.completion_model = None;
    let route = config.resolve_model("plain").unwrap();
    let policy = config.translation_policy(&route);
    for thinking in [true, false] {
        assert_eq!(policy.model_for(thinking, "plain"), "mapped-plain");
        assert_eq!(policy.model_for(thinking, "other"), "other");
    }
}

#[test]
fn unserved_models_go_to_the_plain_urls() {
    let mut config = two_upstreams(true);
    config.upstream_urls =
        vec!["https://a.example".to_string(), "https://b.example/v2".to_string()];
    let plan = config.plan_request("other").unwrap().unwrap();
    assert_eq!(plan.len(), 2);
    assert_eq!(plan[0].base_url, "https://a.example/v1/chat/completions");
    assert_eq!(plan[1].base_url, "https://b.example/v2/chat/completions");
    for attempt in &plan {
        assert_eq!(attempt.target, "other");
        assert_eq!(attempt.api_key.as_deref(), Some("key"));
        assert!(attempt.is_legacy);
    }
    let policy = config.translation_policy(&plan[0]);
    assert_eq!(policy.reasoning_model.as_deref(), Some("r"));

    config.upstream_urls.push("nowhere".to_string());
    assert!(config.plan_request("other").unwrap().is_none());
    assert!(config.plan_request("m").unwrap().is_some());
}

fn names(updates: Vec<Update>) -> Vec<String> {
    updates
        .into_iter()
        .map(|update| match update {
            Update::Count { name, .. } => name,
            Update::Raise { name } => name,
            Update::Lower { name } => name,
            Update::Time { name, .. } => name,
        })
        .collect()
}

#[test]
fn replies_are_measured() {
    let latency = "proxy_upstream_latency_seconds".to_string();
    let errors = "proxy_upstream_errors_total".to_string();
    assert_eq!(names(reply_metrics(&answered(200, None))), vec![latency.clone()]);
    assert_eq!(names(reply_metrics(&answered(404, None))), vec![latency, errors.clone()]);
    assert_eq!(names(reply_metrics(&Reply::Unreachable(String::new()))), vec![errors]);
}
