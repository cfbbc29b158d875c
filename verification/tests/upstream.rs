use llm_gateway::codec::parse_json;
use llm_gateway::proxy::{
    error_context, header_timeout_ms, is_rate_limit_header, rate_limit_headers, resolve_candidates,
    upstream_headers, upstream_url, Provider,
};
use llm_gateway::state::non_empty;

fn provider(id: i64, api_type: &str, auth: &str, extra_headers: &str) -> Provider {
    Provider {
        id,
        name: format!("p{id}"),
        api_type: api_type.into(),
        base_url: "http://x/v1".into(),
        api_key_encrypted: "enc".into(),
        timeout_ms: 500,
        extra_body: parse_json(b"{}").unwrap(),
        auth_scheme: auth.into(),
        extra_headers: parse_json(extra_headers.as_bytes()).unwrap(),
        supports_images: true,
    }
}

fn h(name: &str, value: &str) -> (String, Vec<u8>) {
    (name.to_string(), value.as_bytes().to_vec())
}

fn text(pairs: &[(String, Vec<u8>)]) -> Vec<(String, String)> {
    pairs.iter().map(|(n, v)| (n.clone(), String::from_utf8(v.clone()).unwrap())).collect()
}

fn t(n: &str, v: &str) -> (String, String) {
    (n.to_string(), v.to_string())
}

fn passthrough() -> Vec<String> {
    [
        "anthropic-version",
        "anthropic-beta",
        "user-agent",
        "x-app",
        "http-referer",
        "x-title",
        "openai-organization",
        "openai-project",
        "originator",
        "session_id",
        "idempotency-key",
        "anthropic-dangerous-direct-browser-access",
    ]
    .iter()
    .map(|s| s.to_string())
    .collect()
}

#[test]
fn url_joins_without_doubling() {
    assert_eq!(upstream_url(" https://api.x.com/v1/ ", "/v1/chat/completions"), "https://api.x.com/v1/chat/completions");
    assert_eq!(upstream_url("https://api.x.com", "/v1/chat/completions"), "https://api.x.com/v1/chat/completions");
    assert_eq!(upstream_url("https://gw/v1/Chat/Completions", "/v1/chat/completions"), "https://gw/v1/Chat/Completions");
    assert_eq!(upstream_url("https://gw/api?key=1#frag", "/v1/messages"), "https://gw/api/v1/messages");
    assert_eq!(upstream_url("https://gw/V1//", "/v1/responses"), "https://gw/V1/responses");
}

#[test]
fn bearer_headers_for_openai_upstream() {
    let p = provider(1, "openai", "bearer", r#"{"x-extra":"e","x-num":1}"#);
    let client = vec![
        h("user-agent", "codex/1"),
        h("x-stainless-os", "linux"),
        h("anthropic-beta", "b1"),
        h("accept", "text/plain"),
        h("x-other", "no"),
    ];
    let out = upstream_headers(&p, "sk-1", "rid-1", &client, &passthrough(), Some("marker-1"), true, &[t("x-custom", "c")], false);
    assert_eq!(
        text(&out),
        vec![
            t("authorization", "Bearer sk-1"),
            t("content-type", "application/json"),
            t("x-request-id", "rid-1"),
            t("anthropic-beta", "b1"),
            t("user-agent", "codex/1"),
            t("x-stainless-os", "linux"),
            t("x-custom", "c"),
            t("x-extra", "e"),
            t("accept", "text/plain"),
        ]
    );
}

#[test]
fn anthropic_native_headers_rebuild_beta_and_default_version() {
    let p = provider(1, "Anthropic", " X-API-KEY ", "{}");
    let client = vec![h("anthropic-beta", "a, b,,"), h("anthropic-beta", "marker-1"), h("anthropic-version", "  ")];
    let out = upstream_headers(&p, "k", "r", &client, &passthrough(), Some("marker-1"), true, &[], true);
    assert_eq!(
        text(&out),
        vec![
            t("x-api-key", "k"),
            t("content-type", "application/json"),
            t("x-request-id", "r"),
            t("anthropic-version", "2023-06-01"),
            t("anthropic-version", "  "),
            t("anthropic-beta", "a,b,marker-1,context-1m-2025-08-07"),
            t("accept", "text/event-stream"),
        ]
    );
    let client = vec![h("anthropic-version", "2024-01-01")];
    let out = upstream_headers(&p, "k", "r", &client, &passthrough(), None, false, &[], false);
    assert_eq!(text(&out)[3], t("anthropic-version", "2024-01-01"));
    assert!(!text(&out).iter().any(|(n, _)| n == "anthropic-beta"));
    assert_eq!(text(&out).last().unwrap(), &t("accept", "application/json"));
}

#[test]
fn only_rate_limit_headers_are_relayed() {
    assert!(is_rate_limit_header("retry-after"));
    assert!(is_rate_limit_header("x-ratelimit-remaining-requests"));
    assert!(is_rate_limit_header("anthropic-ratelimit-tokens-reset"));
    assert!(!is_rate_limit_header("content-type"));
    let out = rate_limit_headers(&[h("content-type", "x"), h("retry-after", "3"), h("openai-processing-ms", "12")]);
    assert_eq!(text(&out), vec![t("retry-after", "3"), t("openai-processing-ms", "12")]);
}

#[test]
fn candidates_primary_then_fallbacks_deduplicated() {
    let ps = vec![provider(1, "openai", "", "{}"), provider(2, "openai", "", "{}"), provider(3, "openai", "", "{}")];
    let ids: Vec<i64> = resolve_candidates(&ps, 2, &[3, 2, 9, 1, 3]).iter().map(|p| p.id).collect();
    assert_eq!(ids, vec![2, 3, 1]);
    assert!(resolve_candidates(&ps, 7, &[]).is_empty());
    assert_eq!(resolve_candidates(&ps, 1, &[])[0].name, "p1");
}

#[test]
fn small_helpers() {
    assert_eq!(header_timeout_ms(500), 1000);
    assert_eq!(header_timeout_ms(30_000), 30_000);
    let ctx = error_context(&provider(4, "openai", "", "{}"), "m", 0);
    assert_eq!(ctx.provider, "p4");
    assert_eq!(ctx.model, "m");
    assert_eq!(non_empty("  x ".to_string()).as_deref(), Some("x"));
    assert_eq!(non_empty("   ".to_string()), None);
}
