use sf_compact::json_value::JsonValue;
use sf_compact::mcp_config::{add_mcp_server, McpConfigError};

fn obj(es: Vec<(&str, JsonValue)>) -> JsonValue {
    JsonValue::Object(es.into_iter().map(|(k, v)| (k.to_string(), v)).collect(), String::new())
}

fn get<'a>(v: &'a JsonValue, k: &str) -> Option<&'a JsonValue> {
    match v {
        JsonValue::Object(es, _) => es.iter().find(|(key, _)| key == k).map(|(_, x)| x),
        _ => None,
    }
}

fn keys(v: &JsonValue) -> Vec<String> {
    match v {
        JsonValue::Object(es, _) => es.iter().map(|(k, _)| k.clone()).collect(),
        _ => vec![],
    }
}

fn s(x: &str) -> JsonValue {
    JsonValue::Str(x.to_string())
}

#[test]
fn server_entry_in_a_new_configuration() {
    let out = add_mcp_server(obj(vec![])).unwrap();
    assert_eq!(keys(&out), vec!["mcpServers"]);
    let entry = get(get(&out, "mcpServers").unwrap(), "sf-compact").unwrap();
    assert_eq!(keys(entry), vec!["type", "command", "args"]);
    assert!(matches!(get(entry, "type"), Some(JsonValue::Str(t)) if t == "stdio"));
    assert!(matches!(get(entry, "command"), Some(JsonValue::Str(t)) if t == "sf-compact"));
    match get(entry, "args") {
        Some(JsonValue::Array(items, _)) => {
            assert_eq!(items.len(), 1);
            assert!(matches!(&items[0], JsonValue::Str(t) if t == "mcp-serve"));
        }
        _ => panic!("args should be an array"),
    }
}

#[test]
fn server_entry_replaces_and_keeps_others() {
    let cfg = obj(vec![
        ("mcpServers", obj(vec![("other", obj(vec![("command", s("x"))])), ("sf-compact", s("old"))])),
        ("extra", JsonValue::Bool(true)),
    ]);
    let once = add_mcp_server(cfg).unwrap();
    assert_eq!(keys(&once), vec!["mcpServers", "extra"]);
    let servers = get(&once, "mcpServers").unwrap();
    assert_eq!(keys(servers), vec!["other", "sf-compact"]);
    let twice = add_mcp_server(once).unwrap();
    assert_eq!(keys(get(&twice, "mcpServers").unwrap()), vec!["other", "sf-compact"]);
}

#[test]
fn malformed_configurations_are_refused() {
    assert_eq!(add_mcp_server(JsonValue::Array(vec![], String::new())).err(), Some(McpConfigError::NotObject));
    assert_eq!(add_mcp_server(obj(vec![("mcpServers", s("x"))])).err(), Some(McpConfigError::ServersNotObject));
    assert_eq!(McpConfigError::NotObject.message(), "Expected .mcp.json to be a JSON object");
    assert_eq!(McpConfigError::ServersNotObject.message(), "Expected mcpServers to be a JSON object");
}
