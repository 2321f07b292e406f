use anthropic_proxy::boundary::ParsedUrl;
use anthropic_proxy::config::Config;
use anthropic_proxy::endpoint::UrlError;

#[test]
fn base_url_without_version_defaults_to_v1_endpoint() {
    let url = Config::resolve_chat_completions_url("https://api.openai.com").unwrap();
    assert_eq!(url, "https://api.openai.com/v1/chat/completions");
}

#[test]
fn versioned_base_url_preserves_existing_version() {
    let url = Config::resolve_chat_completions_url("https://gateway.example.com/v2").unwrap();
    assert_eq!(url, "https://gateway.example.com/v2/chat/completions");
}

#[test]
fn full_chat_completions_endpoint_is_used_as_is() {
    let url = Config::resolve_chat_completions_url(
        "https://gateway.example.com/v2/chat/completions/",
    )
    .unwrap();
    assert_eq!(url, "https://gateway.example.com/v2/chat/completions");
}

#[test]
fn models_url_without_version_defaults_to_v1_endpoint() {
    let url = Config::resolve_models_url("https://api.openai.com").unwrap();
    assert_eq!(url, "https://api.openai.com/v1/models");
}

#[test]
fn versioned_models_url_preserves_existing_version() {
    let url = Config::resolve_models_url("https://gateway.example.com/v2").unwrap();
    assert_eq!(url, "https://gateway.example.com/v2/models");
}

#[test]
fn full_chat_completions_endpoint_resolves_models_url() {
    let url =
        Config::resolve_models_url("https://gateway.example.com/v2/chat/completions").unwrap();
    assert_eq!(url, "https://gateway.example.com/v2/models");
}

#[test]
fn partial_chat_path_is_rejected() {
    let err = Config::resolve_chat_completions_url("https://gateway.example.com/v2/chat")
        .unwrap_err();
    assert!(err
        .message()
        .contains("service base URL, a versioned base URL"));
}

#[test]
fn query_strings_are_rejected() {
    let err = Config::resolve_chat_completions_url("https://gateway.example.com/v2?foo=bar")
        .unwrap_err();
    assert!(err
        .message()
        .contains("must not include query parameters or fragments"));
}

#[test]
fn fragments_are_rejected() {
    let err = Config::resolve_chat_completions_url("https://gateway.example.com/v2#section")
        .unwrap_err();
    assert!(err
        .message()
        .contains("must not include query parameters or fragments"));
}

#[test]
fn empty_url_is_rejected() {
    let err = Config::resolve_chat_completions_url("").unwrap_err();
    assert!(err.message().contains("must not be empty"));
}

#[test]
fn non_http_scheme_is_rejected() {
    let err = Config::resolve_chat_completions_url("ftp://gateway.example.com").unwrap_err();
    assert!(err.message().contains("must use http or https"));
}

#[test]
fn explicit_v1_is_preserved_not_doubled() {
    let url = Config::resolve_chat_completions_url("https://openrouter.ai/api/v1").unwrap();
    assert_eq!(url, "https://openrouter.ai/api/v1/chat/completions");
}

#[test]
fn trailing_slash_on_base_url_is_normalized() {
    let url = Config::resolve_chat_completions_url("https://api.openai.com/").unwrap();
    assert_eq!(url, "https://api.openai.com/v1/chat/completions");
}

#[test]
fn models_url_from_explicit_v1() {
    let url = Config::resolve_models_url("https://openrouter.ai/api/v1").unwrap();
    assert_eq!(url, "https://openrouter.ai/api/v1/models");
}

#[test]
fn models_url_with_trailing_slash() {
    let url = Config::resolve_models_url("https://api.openai.com/").unwrap();
    assert_eq!(url, "https://api.openai.com/v1/models");
}

#[test]
fn url_with_subpath_and_no_version_defaults_to_v1() {
    let url = Config::resolve_chat_completions_url("https://openrouter.ai/api").unwrap();
    assert_eq!(url, "https://openrouter.ai/api/v1/chat/completions");
}

#[test]
fn only_completions_path_is_rejected() {
    let err =
        Config::resolve_chat_completions_url("https://gateway.example.com/v2/completions")
            .unwrap_err();
    assert!(err
        .message()
        .contains("service base URL, a versioned base URL"));
}

#[test]
fn uppercase_version_prefix_is_accepted() {
    let url = Config::resolve_chat_completions_url("https://gateway.example.com/V2").unwrap();
    assert_eq!(url, "https://gateway.example.com/V2/chat/completions");
}

#[test]
fn urls_resolve_as_documented() {
    let table = [
        (
            "https://api.openai.com",
            "https://api.openai.com/v1/chat/completions",
            "https://api.openai.com/v1/models",
        ),
        (
            "https://openrouter.ai/api",
            "https://openrouter.ai/api/v1/chat/completions",
            "https://openrouter.ai/api/v1/models",
        ),
        (
            "https://openrouter.ai/api/v1",
            "https://openrouter.ai/api/v1/chat/completions",
            "https://openrouter.ai/api/v1/models",
        ),
        (
            "https://gateway.example.com/v2",
            "https://gateway.example.com/v2/chat/completions",
            "https://gateway.example.com/v2/models",
        ),
        (
            "https://gateway.example.com/v2/chat/completions",
            "https://gateway.example.com/v2/chat/completions",
            "https://gateway.example.com/v2/models",
        ),
        (
            "http://localhost:11434",
            "http://localhost:11434/v1/chat/completions",
            "http://localhost:11434/v1/models",
        ),
    ];
    for (base, chat, models) in table {
        assert_eq!(Config::resolve_chat_completions_url(base).unwrap(), chat);
        assert_eq!(Config::resolve_models_url(base).unwrap(), models);
        assert_eq!(Config::resolve_chat_completions_url(chat).unwrap(), chat);
        assert_eq!(Config::resolve_models_url(chat).unwrap(), models);
        let padded = format!(" \t{}/\n", base);
        assert_eq!(Config::resolve_chat_completions_url(&padded).unwrap(), chat);
    }
}

#[test]
fn refused_urls_say_why() {
    assert!(matches!(Config::resolve_models_url("  "), Err(UrlError::Empty)));
    assert!(matches!(Config::resolve_models_url("mailto:a@b.c"), Err(UrlError::Scheme)));
    assert!(matches!(
        Config::resolve_models_url("https://a.example/?q"),
        Err(UrlError::QueryOrFragment)
    ));
    assert!(matches!(
        Config::resolve_models_url("https://a.example/#"),
        Err(UrlError::QueryOrFragment)
    ));
    assert!(matches!(
        Config::resolve_models_url("https://a.example/chat/"),
        Err(UrlError::PartialPath)
    ));
    let err = Config::resolve_models_url("no url").unwrap_err();
    assert!(matches!(err, UrlError::Invalid(_)));
    assert_eq!(
        err.message(),
        "UPSTREAM_BASE_URL must be a valid http(s) URL: relative URL without a base"
    );
}

#[test]
fn parsed_urls_are_checked() {
    let parsed = ParsedUrl {
        scheme: "https".to_string(),
        query: None,
        fragment: None,
        path_segments: Some(vec!["".to_string(), "api".to_string(), "".to_string()]),
    };
    let base = Config::accept_url("https://a.example//api//", Ok(parsed.clone())).unwrap();
    assert_eq!(base.text, "https://a.example//api");
    assert_eq!(base.segments, vec!["api".to_string()]);
    let cut = ParsedUrl { path_segments: None, ..parsed.clone() };
    assert!(Config::accept_url("https:", Ok(cut)).unwrap().segments.is_empty());
    let ftp = ParsedUrl { scheme: "ftp".to_string(), ..parsed.clone() };
    assert!(matches!(Config::accept_url("x", Ok(ftp)), Err(UrlError::Scheme)));
    let query = ParsedUrl { query: Some(String::new()), ..parsed };
    assert!(matches!(Config::accept_url("x", Ok(query)), Err(UrlError::QueryOrFragment)));
    match Config::accept_url("x", Err("why".to_string())) {
        Err(UrlError::Invalid(reason)) => assert_eq!(reason, "why"),
        _ => panic!("accepted"),
    }
}

#[test]
fn version_segments_are_a_v_and_digits() {
    for segment in ["v1", "V2", "v10", "v007"] {
        assert!(Config::is_version_segment(segment));
    }
    for segment in ["", "v", "1", "v1a", "vv1", "va1", "v1.0", "w1"] {
        assert!(!Config::is_version_segment(segment));
    }
}
