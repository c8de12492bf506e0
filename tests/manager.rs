use mcp_client_manager::manager::{MCPClientManager, ManagerError, ProviderSession};
use serde_json::Value;

fn parse(text: &str) -> Value {
    serde_json::from_str(text).unwrap()
}

fn catalog(names: &[&str]) -> Value {
    let entries: Vec<String> = names
        .iter()
        .map(|n| format!(r#"{{"name":"{}","description":"{} tool","inputSchema":{{"type":"object"}}}}"#, n, n))
        .collect();
    parse(&format!(r#"{{"tools":[{}]}}"#, entries.join(",")))
}

fn session(name: &str, connection: u32, tools: &[&str]) -> Result<ProviderSession<u32>, ManagerError> {
    Ok(ProviderSession { name: name.to_string(), connection, tools_response: catalog(tools) })
}

fn pair(p: &str, t: &str) -> Option<(String, String)> {
    Some((p.to_string(), t.to_string()))
}

#[test]
fn scenario_fs_and_web() {
    let m = MCPClientManager::new(vec![
        session("fs", 1, &["read_file"]),
        session("web", 2, &["fetch_url"]),
    ])
    .unwrap();
    assert_eq!(m.resolve("read_file"), pair("fs", "read_file"));
    assert_eq!(m.resolve("fetch_url"), pair("web", "fetch_url"));
    assert_eq!(m.resolve("unknown"), None);
}

#[test]
fn distinct_names_resolve_to_their_provider() {
    let m = MCPClientManager::new(vec![
        session("a", 10, &["one", "two"]),
        session("b", 20, &["three"]),
        session("c", 30, &["four", "five", "six"]),
    ])
    .unwrap();
    for (key, provider) in [("one", "a"), ("two", "a"), ("three", "b"), ("four", "c"), ("five", "c"), ("six", "c")] {
        assert_eq!(m.resolve(key), pair(provider, key));
    }
    assert_eq!(m.resolve("seven"), None);
}

#[test]
fn colliding_name_goes_to_last_provider() {
    let m = MCPClientManager::new(vec![
        session("first", 1, &["search", "only_first"]),
        session("second", 2, &["search"]),
    ])
    .unwrap();
    assert_eq!(m.resolve("search"), pair("second", "search"));
    assert_eq!(m.resolve("only_first"), pair("first", "only_first"));
    let call = m.call_tool("search", Value::Null).unwrap();
    assert_eq!(*call.connection, 2);

    let swapped = MCPClientManager::new(vec![
        session("second", 2, &["search"]),
        session("first", 1, &["search", "only_first"]),
    ])
    .unwrap();
    assert_eq!(swapped.resolve("search"), pair("first", "search"));
}

#[test]
fn collision_within_one_catalog() {
    let m = MCPClientManager::new(vec![session("p", 1, &["dup", "dup"])]).unwrap();
    assert_eq!(m.resolve("dup"), pair("p", "dup"));
}

#[test]
fn unregistered_tool_is_not_found() {
    let m = MCPClientManager::new(vec![session("fs", 1, &["read_file"])]).unwrap();
    match m.call_tool("write_file", parse(r#"{"path":"x"}"#)) {
        Err(ManagerError::ToolNotFound { tool }) => assert_eq!(tool, "write_file"),
        _ => panic!("expected ToolNotFound"),
    }
    let empty = MCPClientManager::<u32>::empty();
    assert!(matches!(empty.call_tool("read_file", Value::Null), Err(ManagerError::ToolNotFound { .. })));
}

#[test]
fn registered_tool_dispatches_to_its_provider() {
    let m = MCPClientManager::new(vec![
        session("fs", 11, &["read_file"]),
        session("web", 22, &["fetch_url"]),
    ])
    .unwrap();
    let arguments = parse(r#"{"url":"http://example.org","depth":2}"#);
    let call = m.call_tool("fetch_url", arguments.clone()).unwrap();
    assert_eq!(call.provider, "web");
    assert_eq!(*call.connection, 22);
    assert_eq!(call.tool_id, "fetch_url");
    assert_eq!(call.arguments, arguments);
    let call = m.call_tool("read_file", Value::Null).unwrap();
    assert_eq!(*call.connection, 11);
    assert_eq!(call.tool_id, "read_file");
    assert_eq!(call.arguments, Value::Null);
}

#[test]
fn one_failed_startup_fails_all() {
    let r = MCPClientManager::new(vec![
        session("fs", 1, &["read_file"]),
        Err(ManagerError::ProviderStartup { provider: "web".to_string(), message: "no such file".to_string() }),
        session("db", 3, &["query"]),
    ]);
    match r {
        Err(ManagerError::ProviderStartup { provider, message }) => {
            assert_eq!(provider, "web");
            assert_eq!(message, "no such file");
        }
        _ => panic!("expected the startup error"),
    }
}

#[test]
fn first_failure_is_reported() {
    let r = MCPClientManager::<u32>::new(vec![
        Err(ManagerError::Transport { provider: "a".to_string(), message: "closed".to_string() }),
        Err(ManagerError::ProviderStartup { provider: "b".to_string(), message: "bad".to_string() }),
    ]);
    assert!(matches!(r, Err(ManagerError::Transport { .. })));
}

#[test]
fn no_providers_gives_empty_manager() {
    let m = MCPClientManager::<u32>::new(Vec::new()).unwrap();
    assert!(m.catalog_provider().is_none());
    assert_eq!(m.resolve("anything"), None);
}

#[test]
fn catalog_provider_is_first_added() {
    let mut m = MCPClientManager::empty();
    m.add_provider(ProviderSession { name: "x".to_string(), connection: 5u32, tools_response: catalog(&["t"]) });
    m.add_provider(ProviderSession { name: "y".to_string(), connection: 6u32, tools_response: catalog(&["u"]) });
    assert_eq!(m.catalog_provider(), Some(&5));
    assert_eq!(m.resolve("u"), pair("y", "u"));
}

#[test]
fn provider_without_tools_array_registers_nothing() {
    let m = MCPClientManager::new(vec![Ok(ProviderSession {
        name: "odd".to_string(),
        connection: 1u32,
        tools_response: parse(r#"{"result":"nothing"}"#),
    })])
    .unwrap();
    assert_eq!(m.resolve("result"), None);
    assert_eq!(m.catalog_provider(), Some(&1));
}
