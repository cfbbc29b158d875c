use llm_gateway::codec::{parse_json, to_json_bytes};
use llm_gateway::convert_req::{custom_tool_to_chat, request_tools_to_chat};
use llm_gateway::json::Json;
use llm_gateway::tool_ctx::ToolContext;
use serde_json::Value;

fn j(text: &str) -> Json {
    parse_json(text.as_bytes()).expect("valid JSON")
}

fn val(x: &Json) -> Value {
    serde_json::from_slice(&to_json_bytes(x)).unwrap()
}

fn names(req: &str) -> Vec<String> {
    let r = j(req);
    let ctx = ToolContext::from_request(&r);
    let tools = request_tools_to_chat(r.get("tools"), &ctx).unwrap();
    tools.iter().map(|t| t.function.as_ref().unwrap().name.clone()).collect()
}

#[test]
fn absent_or_null_tools_give_none() {
    let ctx = ToolContext::new();
    assert!(request_tools_to_chat(None, &ctx).unwrap().is_empty());
    assert!(request_tools_to_chat(Some(&j("null")), &ctx).unwrap().is_empty());
    assert_eq!(request_tools_to_chat(Some(&j("{}")), &ctx).err().unwrap(), "invalid tools");
    assert_eq!(request_tools_to_chat(Some(&j(r#"["a", 3]"#)), &ctx).err().unwrap(), "invalid tools");
}

#[test]
fn each_tool_kind_maps_to_a_function() {
    let got = names(r#"{"tools": [
        " apply_patch ",
        "  ",
        {"type": "web_search"},
        {"type": "tool_search"},
        {"type": "namespace", "name": " mcp__s ", "tools": [{"type": "function", "name": "q"}, 5, {"name": ""}]},
        {"type": "function", "name": "get_weather", "parameters": {"type": "object"}},
        {"name": "bare"},
        {"type": "custom", "name": "shell"},
        {"type": "file_search"}
    ]}"#);
    assert_eq!(got, vec!["apply_patch", "web_search", "tool_search", "mcp__s__q", "get_weather", "bare", "shell"]);
}

#[test]
fn web_search_bridge_has_query_schema() {
    let ctx = ToolContext::new();
    let tools = request_tools_to_chat(Some(&j(r#"[{"type": "web_search"}]"#)), &ctx).unwrap();
    let f = tools[0].function.as_ref().unwrap();
    assert_eq!(tools[0].call_type, "function");
    assert_eq!(f.description, "Web search tool");
    let p = val(f.parameters.as_ref().unwrap());
    assert_eq!(p["required"][0], "query");
    assert_eq!(p["properties"]["query"]["type"], "string");
}

#[test]
fn custom_tool_keeps_its_definition() {
    let t = custom_tool_to_chat("shell", "", &j(r#"{"type":"custom","name":"shell"}"#));
    let f = t.function.unwrap();
    assert_eq!(f.description, "Original tool definition:\n```json\n{\"name\":\"shell\",\"type\":\"custom\"}```");
    assert_eq!(val(f.parameters.as_ref().unwrap())["required"][0], "input");
    let t = custom_tool_to_chat("shell", "Runs it", &j(r#""shell""#));
    assert_eq!(t.function.unwrap().description, "Runs it\n\nOriginal tool definition:\n```json\n\"shell\"```");
}
