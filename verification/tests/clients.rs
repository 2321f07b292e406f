use anthropic_proxy::headers::{push_authorization, text_of_value, ClientHeaders};
use anthropic_proxy::identity::{
    client_name, extract_billing_value, extract_client_identity, SystemMessage, SystemPrompt,
};
use axum::http::{HeaderMap, HeaderValue};

#[test]
fn extract_client_identity_from_single_system() {
    let system = Some(SystemPrompt::Single(
        "x-anthropic-billing-header: cc_version=2.1; cc_entrypoint=code".into(),
    ));

    let identity = extract_client_identity(&system);
    assert_eq!(identity, Some("cc_version=2.1; cc_entrypoint=code".into()));
}

#[test]
fn extract_client_identity_from_multiple_system() {
    let system = Some(SystemPrompt::Multiple(vec![
        SystemMessage { message_type: "text".into(), text: "Be helpful.".into() },
        SystemMessage {
            message_type: "text".into(),
            text: "x-anthropic-billing-header: cc_version=2.1".into(),
        },
    ]));

    let identity = extract_client_identity(&system);
    assert_eq!(identity, Some("cc_version=2.1".into()));
}

#[test]
fn extract_client_identity_returns_none_without_billing() {
    let system = Some(SystemPrompt::Single("Be helpful.".into()));

    let identity = extract_client_identity(&system);
    assert!(identity.is_none());
    assert!(extract_client_identity(&None).is_none());
}

#[test]
fn the_first_message_with_the_mark_counts() {
    assert_eq!(
        extract_billing_value("\n x-anthropic-billing-header:\tone two \n"),
        Some("one two".to_string())
    );
    assert_eq!(extract_billing_value("x-anthropic-billing-header:"), Some(String::new()));
    assert_eq!(extract_billing_value("X-Anthropic-Billing-Header: a"), None);
    assert_eq!(extract_billing_value("say x-anthropic-billing-header: a"), None);
    let message = |text: &str| SystemMessage { message_type: "text".into(), text: text.into() };
    let system = Some(SystemPrompt::Multiple(vec![
        message("x-anthropic-billing-header: first"),
        message("x-anthropic-billing-header: second"),
    ]));
    assert_eq!(extract_client_identity(&system), Some("first".to_string()));
    assert_eq!(client_name(&system, Some("agent")), Some("first".to_string()));
    assert_eq!(client_name(&None, Some("agent")), Some("agent".to_string()));
    assert_eq!(client_name(&None, None), None);
}

#[test]
fn client_headers_extract_title() {
    let mut headers = HeaderMap::new();
    headers.insert("x-title", HeaderValue::from_static("Cherry Studio"));

    let client_headers = ClientHeaders::from_map(&headers);
    assert_eq!(client_headers.title.as_deref(), Some("Cherry Studio"));
    assert_eq!(client_headers.log_prefix(), Some("Cherry Studio"));
}

#[test]
fn client_headers_extract_user_agent() {
    let mut headers = HeaderMap::new();
    headers.insert(reqwest::header::USER_AGENT, HeaderValue::from_static("my-app/1.0"));

    let client_headers = ClientHeaders::from_map(&headers);
    assert_eq!(client_headers.user_agent.as_deref(), Some("my-app/1.0"));
    assert_eq!(client_headers.log_prefix(), Some("my-app/1.0"));
}

#[test]
fn client_headers_title_takes_precedence_over_ua() {
    let mut headers = HeaderMap::new();
    headers.insert("x-title", HeaderValue::from_static("Cherry Studio"));
    headers.insert(reqwest::header::USER_AGENT, HeaderValue::from_static("my-app/1.0"));

    let client_headers = ClientHeaders::from_map(&headers);
    assert_eq!(client_headers.log_prefix(), Some("Cherry Studio"));
}

#[test]
fn client_headers_empty_when_nothing_set() {
    let headers = HeaderMap::new();
    let client_headers = ClientHeaders::from_map(&headers);
    assert!(client_headers.log_prefix().is_none());
}

#[test]
fn the_referer_has_two_names() {
    let mut headers = HeaderMap::new();
    headers.insert("HTTP-Referer", HeaderValue::from_static("https://second.example"));
    let client = ClientHeaders::from_map(&headers);
    assert_eq!(client.http_referer.as_deref(), Some("https://second.example"));

    headers.insert("Referer", HeaderValue::from_static("https://first.example"));
    headers.append("Referer", HeaderValue::from_static("https://third.example"));
    let client = ClientHeaders::from_map(&headers);
    assert_eq!(client.http_referer.as_deref(), Some("https://first.example"));

    headers.insert("Referer", HeaderValue::from_bytes(b"\xff").unwrap());
    let client = ClientHeaders::from_map(&headers);
    assert!(client.http_referer.is_none());
}

#[test]
fn header_values_are_visible_ascii() {
    for byte in 0..=255u8 {
        let own = text_of_value(&vec![b'a', byte]);
        match HeaderValue::from_bytes(&[b'a', byte]) {
            Ok(value) => assert_eq!(own, value.to_str().ok().map(|s| s.to_string())),
            Err(_) => assert!(own.is_none()),
        }
    }
}

#[test]
fn requests_carry_the_headers_of_the_client() {
    let pair = |name: &str, value: &str| (name.to_string(), value.to_string());
    let mut client = ClientHeaders {
        title: Some("T".to_string()),
        user_agent: Some("U".to_string()),
        http_referer: Some("R".to_string()),
    };
    assert_eq!(
        client.request_headers(&Some("sk-1".to_string())),
        vec![
            pair("X-Title", "T"),
            pair("user-agent", "U"),
            pair("HTTP-Referer", "R"),
            pair("Authorization", "Bearer sk-1"),
        ]
    );
    client.user_agent = None;
    assert_eq!(
        client.request_headers(&None),
        vec![pair("X-Title", "T"), pair("HTTP-Referer", "R")]
    );
    let mut headers = Vec::new();
    push_authorization(&mut headers, &None);
    assert!(headers.is_empty());
    push_authorization(&mut headers, &Some("k".to_string()));
    assert_eq!(headers, vec![pair("Authorization", "Bearer k")]);
}
