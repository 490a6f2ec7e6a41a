use openworkbench::mcp::{answer_line, dispatch, mcp_tools, port_list_text, server_status, tool_names, McpBody, McpReply, McpRequest};

fn req(method: &str, token: Option<&str>, tool: Option<&str>, text: Option<&str>) -> Option<McpRequest> {
    Some(McpRequest {
        id: Some("7".to_string()),
        method: Some(method.to_string()),
        token: token.map(|t| t.to_string()),
        tool: tool.map(|t| t.to_string()),
        text: text.map(|t| t.to_string()),
    })
}

fn failure(r: McpReply) -> (Option<String>, i64, String) {
    match r {
        McpReply::Failure { id, code, message } => (id, code, message),
        other => panic!("expected a failure, got {other:?}"),
    }
}

fn success(r: McpReply) -> (Option<String>, McpBody) {
    match r {
        McpReply::Success { id, body } => (id, body),
        other => panic!("expected a success, got {other:?}"),
    }
}

#[test]
fn invalid_json_is_answered() {
    assert_eq!(failure(dispatch(&None, "")), (None, -32700, "Invalid JSON".to_string()));
}

#[test]
fn token_is_required_when_set() {
    let (id, code, msg) = failure(dispatch(&req("ping", None, None, None), "s3cret"));
    assert_eq!((id.as_deref(), code, msg.as_str()), (Some("7"), -32000, "无效的访问令牌"));
    assert_eq!(failure(dispatch(&req("initialize", Some("bad"), None, None), "s3cret")).1, -32000);
    assert!(matches!(success(dispatch(&req("ping", Some("s3cret"), None, None), "s3cret")).1, McpBody::Empty));
}

#[test]
fn methods_and_tools() {
    assert!(matches!(success(dispatch(&req("initialize", None, None, None), "")).1, McpBody::Initialize));
    assert!(matches!(success(dispatch(&req("tools/list", None, None, None), "")).1, McpBody::ToolsList));
    match success(dispatch(&req("tools/call", None, Some("echo"), Some("hi")), "")).1 {
        McpBody::Text(t) => assert_eq!(t, "hi"),
        other => panic!("{other:?}"),
    }
    match success(dispatch(&req("tools/call", None, Some("echo"), None), "")).1 {
        McpBody::Text(t) => assert_eq!(t, ""),
        other => panic!("{other:?}"),
    }
    assert!(matches!(success(dispatch(&req("tools/call", None, Some("now"), None), "")).1, McpBody::Now));
    assert!(matches!(success(dispatch(&req("tools/call", None, Some("list_serial_ports"), None), "")).1, McpBody::PortList));
    let (_, code, msg) = failure(dispatch(&req("tools/call", None, Some("rm"), None), ""));
    assert_eq!((code, msg.as_str()), (-32602, "未知工具：rm"));
    let (_, code, msg) = failure(dispatch(&req("shutdown", None, None, None), ""));
    assert_eq!((code, msg.as_str()), (-32601, "未知方法：shutdown"));
    let r = Some(McpRequest { id: None, method: None, token: None, tool: None, text: None });
    let (id, code, msg) = failure(dispatch(&r, ""));
    assert_eq!((id, code, msg.as_str()), (None, -32601, "未知方法："));
}

#[test]
fn tools_and_status() {
    assert_eq!(tool_names(), vec!["echo", "now", "list_serial_ports"]);
    let t = mcp_tools();
    assert_eq!(t[0], ("echo".to_string(), "原样返回输入文本".to_string()));
    assert_eq!(t.len(), 3);
    let s = server_status(true, 9847, "tok");
    assert!(s.running && s.token_required && s.error.is_none());
    assert_eq!((s.port, s.tools.len()), (9847, 3));
    assert!(!server_status(false, 1, "").token_required);
    assert_eq!(port_list_text(&vec!["COM1".into(), "COM3".into()]), "COM1, COM3");
}

fn answer(line: &str, token: &str) -> McpReply {
    answer_line(line, token).expect("a reply")
}

#[test]
fn blank_lines_get_no_reply() {
    assert!(answer_line("", "").is_none());
    assert!(answer_line("   \t", "tok").is_none());
}

#[test]
fn lines_that_are_not_json() {
    assert_eq!(failure(answer("{not json", "")), (None, -32700, "Invalid JSON".to_string()));
    assert_eq!(failure(answer("hello", "tok")).1, -32700);
}

#[test]
fn lines_are_read_as_json_requests() {
    let (id, body) = success(answer(r#"  {"jsonrpc":"2.0","id":5,"method":"ping"}  "#, ""));
    assert_eq!(id.as_deref(), Some("5"));
    assert!(matches!(body, McpBody::Empty));
    let (id, body) = success(answer(
        r#"{"id":"a","method":"tools/call","params":{"name":"echo","arguments":{"text":"hi"},"token":"t"}}"#,
        "t",
    ));
    assert_eq!(id.as_deref(), Some("\"a\""));
    match body {
        McpBody::Text(t) => assert_eq!(t, "hi"),
        other => panic!("expected text, got {other:?}"),
    }
    let (id, code, msg) = failure(answer(r#"{"id":1,"method":"tools/call","params":{"name":"x"}}"#, ""));
    assert_eq!((id.as_deref(), code, msg.as_str()), (Some("1"), -32602, "未知工具：x"));
    let (id, code, msg) = failure(answer(r#"{"method":"nope"}"#, ""));
    assert_eq!((id, code, msg.as_str()), (None, -32601, "未知方法：nope"));
    assert_eq!(failure(answer(r#"{"id":2,"method":"ping","params":{"token":"bad"}}"#, "t")).1, -32000);
    assert_eq!(failure(answer("[1,2]", "")).1, -32601);
}
