use mefrpd::json::JsonValue;
use mefrpd::message::RpcResponse;
use mefrpd::terminal::{call_params, classify_response, parse_command, ws_url, Command, PendingRequests, Report};

#[test]
fn url_from_host_and_port() {
    assert_eq!(ws_url("127.0.0.1", 9000, None), "ws://127.0.0.1:9000");
    assert_eq!(ws_url("example.org", 0, None), "ws://example.org:0");
    assert_eq!(ws_url("h", 65535, None), "ws://h:65535");
    assert_eq!(ws_url("h", 7, None), "ws://h:7");
}

#[test]
fn url_given_directly() {
    assert_eq!(ws_url("127.0.0.1", 9000, Some("ws://10.0.0.2:1234/rpc".to_string())), "ws://10.0.0.2:1234/rpc");
}

#[test]
fn blank_lines_are_empty() {
    assert!(matches!(parse_command(""), Command::Empty));
    assert!(matches!(parse_command("   \t  "), Command::Empty));
    assert!(matches!(parse_command("\u{3000}\n"), Command::Empty));
}

#[test]
fn exit_quit_help() {
    assert!(matches!(parse_command(".exit"), Command::Exit));
    assert!(matches!(parse_command("  .quit \n"), Command::Exit));
    assert!(matches!(parse_command(".help"), Command::Help));
    assert!(matches!(parse_command(".helpme"), Command::Call { .. }));
}

#[test]
fn call_without_params() {
    match parse_command("  hello  ") {
        Command::Call { method, params } => {
            assert_eq!(method, "hello");
            assert!(params.is_none());
        }
        other => panic!("unexpected {:?}", other),
    }
}

#[test]
fn call_split_at_first_space() {
    match parse_command("add {\"a\": 1, \"b\": 2}") {
        Command::Call { method, params } => {
            assert_eq!(method, "add");
            assert_eq!(params.as_deref(), Some("{\"a\": 1, \"b\": 2}"));
        }
        other => panic!("unexpected {:?}", other),
    }
    match parse_command("greet  Bob ") {
        Command::Call { method, params } => {
            assert_eq!(method, "greet");
            assert_eq!(params.as_deref(), Some(" Bob"));
        }
        other => panic!("unexpected {:?}", other),
    }
}

#[test]
fn call_with_unicode_text() {
    match parse_command("écho ünïcode") {
        Command::Call { method, params } => {
            assert_eq!(method, "écho");
            assert_eq!(params.as_deref(), Some("ünïcode"));
        }
        other => panic!("unexpected {:?}", other),
    }
}

#[test]
fn params_fall_back_to_text() {
    assert!(matches!(call_params("Bob".to_string()), JsonValue::String(ref s) if s == "Bob"));
    assert!(matches!(call_params(" Bob".to_string()), JsonValue::String(ref s) if s == " Bob"));
    assert!(matches!(call_params("{\"a\": ".to_string()), JsonValue::String(ref s) if s == "{\"a\": "));
}

#[test]
fn params_parsed_as_json() {
    assert!(matches!(call_params("1".to_string()), JsonValue::Number(ref n) if n == "1"));
    assert!(matches!(call_params("\"Bob\"".to_string()), JsonValue::String(ref s) if s == "Bob"));
    assert!(matches!(call_params(" null ".to_string()), JsonValue::Null));
    match call_params("{\"a\": [1, true], \"b\": -2.5}".to_string()) {
        JsonValue::Object(members) => {
            assert_eq!(members.len(), 2);
            assert_eq!(members[0].0, "a");
            assert!(matches!(&members[0].1, JsonValue::Array(items)
                if items.len() == 2 && matches!(&items[0], JsonValue::Number(n) if n == "1")
                && matches!(items[1], JsonValue::Bool(true))));
            assert_eq!(members[1].0, "b");
            assert!(matches!(&members[1].1, JsonValue::Number(n) if n == "-2.5"));
        }
        other => panic!("unexpected {:?}", other),
    }
}

#[test]
fn reports() {
    let r = RpcResponse { id: Some("a".to_string()), result: Some(JsonValue::Bool(true)), error: Some("bad".to_string()) };
    assert!(matches!(classify_response(r), Report::Failed { ref id, ref error } if id == "a" && error == "bad"));
    let r = RpcResponse { id: Some("b".to_string()), result: Some(JsonValue::Null), error: None };
    assert!(matches!(classify_response(r), Report::Returned { ref id, result: JsonValue::Null } if id == "b"));
    let r = RpcResponse { id: Some("c".to_string()), result: None, error: None };
    assert!(matches!(classify_response(r), Report::Empty { ref id } if id == "c"));
    let r = RpcResponse { id: None, result: None, error: Some("invalid json received".to_string()) };
    assert!(matches!(classify_response(r), Report::NoticeError { ref error } if error == "invalid json received"));
    let r = RpcResponse { id: None, result: Some(JsonValue::Null), error: None };
    assert!(matches!(classify_response(r), Report::Nothing));
}

#[test]
fn pending_requests_settle_once() {
    let mut p: PendingRequests<u8> = PendingRequests::new();
    p.expect("abc".to_string(), 1);
    p.expect("def".to_string(), 2);
    assert_eq!(p.len(), 2);
    assert_eq!(p.settle(&"abc".to_string()), Some(1));
    assert_eq!(p.settle(&"abc".to_string()), None);
    p.clear();
    assert_eq!(p.settle(&"def".to_string()), None);
}
