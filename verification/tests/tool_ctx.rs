use llm_gateway::codec::parse_json;
use llm_gateway::tool_ctx::{flatten_namespace_tool_name, short_sha256_hex, ToolContext, ToolKind, CHAT_TOOL_NAME_MAX_LEN};

fn ctx(text: &str) -> ToolContext {
    ToolContext::from_request(&parse_json(text.as_bytes()).expect("valid JSON"))
}

#[test]
fn flattens_namespace_tools() {
    let c = ctx(
        r#"{"tools": [{"type": "namespace", "name": "mcp__server", "tools": [{"type": "function", "name": "query", "parameters": {"type": "object"}}]}, {"type": "function", "name": "plain"}, {"type": "custom", "name": "apply_patch"}, {"type": "tool_search"}]}"#,
    );
    let spec = c.lookup("mcp__server__query").expect("flattened name registered");
    assert!(spec.kind == ToolKind::Namespace);
    assert_eq!(spec.name, "query");
    assert_eq!(spec.namespace.as_deref(), Some("mcp__server"));
    assert!(c.lookup("plain").is_some_and(|s| s.kind == ToolKind::Function));
    assert!(c.is_custom("apply_patch"));
    assert!(c.lookup("tool_search").is_some_and(|s| s.kind == ToolKind::ToolSearch));
    assert_eq!(c.chat_name_for("query", Some("mcp__server")), "mcp__server__query");
}

#[test]
fn long_names_get_hash_suffix_deterministically() {
    let ns = "n".repeat(40);
    let name = "t".repeat(40);
    let flat = flatten_namespace_tool_name(&ns, &name);
    assert!(flat.len() <= CHAT_TOOL_NAME_MAX_LEN);
    assert_eq!(flat, flatten_namespace_tool_name(&ns, &name));
    let c = ToolContext::new();
    assert_eq!(c.chat_name_for(&name, Some(&ns)), flat);
}

#[test]
fn collects_dynamic_tools_from_tool_search_output() {
    let c = ctx(
        r#"{"tools": [{"type": "tool_search"}], "input": [{"type": "tool_search_output", "call_id": "c1", "tools": [{"type": "namespace", "name": "gmail", "tools": [{"type": "function", "name": "search"}]}]}]}"#,
    );
    assert!(c.lookup("gmail__search").is_some());
}

#[test]
fn long_name_shape() {
    let ns = "n".repeat(40);
    let name = "t".repeat(40);
    let flat = flatten_namespace_tool_name(&ns, &name);
    assert_eq!(flat.len(), 64);
    let (prefix, hash) = flat.split_at(46);
    assert_eq!(prefix, &format!("{}__{}", "n".repeat(40), "tttt"));
    assert!(hash.starts_with("__"));
    assert!(hash[2..].chars().all(|c| c.is_ascii_hexdigit() && !c.is_ascii_uppercase()));
    assert_eq!(flatten_namespace_tool_name("a", "b"), "a__b");
}

#[test]
fn web_search_bridge_and_blank_names() {
    let c = ctx(r#"{"tools": [{"type": "web_search"}, "  ", " free ", {"type": "function", "name": "  "}]}"#);
    assert!(c.bridges_web_search);
    assert!(c.is_custom("free"));
    assert!(c.lookup("  ").is_none());
    assert!(!c.is_custom("missing"));
    assert_eq!(c.chat_name_for("x", Some("")), "x");
    assert_eq!(c.chat_name_for("x", None), "x");
}

#[test]
fn first_registration_wins() {
    let c = ctx(r#"{"tools": [{"type": "custom", "name": "dup"}, {"type": "function", "name": "dup"}]}"#);
    assert!(c.is_custom("dup"));
}

#[test]
fn short_hash_is_first_eight_digest_bytes_in_hex() {
    let d = <sha2::Sha256 as sha2::Digest>::digest(b"ns__tool");
    assert_eq!(short_sha256_hex(b"ns__tool"), hex::encode(&d[..8]));
    assert_eq!(short_sha256_hex(b"").len(), 16);
}

#[test]
fn namespaced_tool_found_by_name_and_namespace() {
    let req = llm_gateway::codec::parse_json(
        br#"{"tools": [{"type": "namespace", "name": "mcp__server", "tools": [{"type": "function", "name": "query"}]}]}"#,
    )
    .unwrap();
    let ctx = llm_gateway::tool_ctx::ToolContext::from_request(&req);
    let chat = ctx.chat_name_for("query", Some("mcp__server"));
    assert_eq!(chat, "mcp__server__query");
    let spec = ctx.lookup(&chat).unwrap();
    assert!(matches!(spec.kind, llm_gateway::tool_ctx::ToolKind::Namespace));
    assert_eq!(spec.name, "query");
    assert_eq!(spec.namespace.as_deref(), Some("mcp__server"));
    assert_eq!(ctx.chat_name_for("query", None), "query");
    assert_eq!(ctx.chat_name_for("query", Some("")), "query");
}

#[test]
fn long_flattened_name_shape() {
    let ns = "n".repeat(40);
    let name = "m".repeat(40);
    let r = llm_gateway::tool_ctx::flatten_namespace_tool_name(&ns, &name);
    assert!(r.len() <= 64);
    let full = format!("{ns}__{name}");
    let (head, tail) = r.split_at(r.len() - 18);
    assert!(full.starts_with(head));
    assert!(tail.starts_with("__"));
    assert!(tail[2..].chars().all(|c| c.is_ascii_digit() || ('a'..='f').contains(&c)));
    assert_eq!(r, llm_gateway::tool_ctx::flatten_namespace_tool_name(&ns, &name));
}
