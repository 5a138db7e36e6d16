use mefrpd::error::RpcError;
use mefrpd::exchange::{dispatch, process_frame, Dispatch, Frame, FrameAction};
use mefrpd::json::JsonValue;
use mefrpd::message::{RpcMessage, RpcResponse};
use mefrpd::registry::RpcMethodRegistry;

fn request(id: &str, method: &str, params: Option<JsonValue>) -> RpcMessage {
    RpcMessage { id: id.to_string(), method: method.to_string(), params }
}

#[test]
fn error_texts() {
    assert_eq!(RpcError::AlreadyExists("hello".to_string()).message(), "Method hello already exists");
    assert_eq!(RpcError::NotFound("add".to_string()).message(), "Method add not found");
    assert_eq!(RpcError::InvalidJson.message(), "invalid json received");
    assert_eq!(RpcError::Handler("boom".to_string()).message(), "boom");
}

#[test]
fn response_constructors() {
    let r = RpcResponse::new("1".to_string(), Some(JsonValue::Bool(true)), Some("e".to_string()));
    assert_eq!(r.id.as_deref(), Some("1"));
    assert!(matches!(r.result, Some(JsonValue::Bool(true))));
    assert_eq!(r.error.as_deref(), Some("e"));

    let r = RpcResponse::from_error("2".to_string(), RpcError::NotFound("x".to_string()));
    assert_eq!(r.id.as_deref(), Some("2"));
    assert!(r.result.is_none());
    assert_eq!(r.error.as_deref(), Some("Method x not found"));

    let r = RpcResponse::from_value("3".to_string(), Some(JsonValue::Number("42".to_string())));
    assert_eq!(r.id.as_deref(), Some("3"));
    assert!(matches!(r.result, Some(JsonValue::Number(ref n)) if n == "42"));
    assert!(r.error.is_none());

    let r = RpcResponse::notification_error(RpcError::InvalidJson);
    assert!(r.id.is_none());
    assert!(r.result.is_none());
    assert_eq!(r.error.as_deref(), Some("invalid json received"));
}

#[test]
fn from_result_drops_null() {
    let r = RpcResponse::from_result("7".to_string(), Ok(JsonValue::Null));
    assert_eq!(r.id.as_deref(), Some("7"));
    assert!(r.result.is_none());
    assert!(r.error.is_none());
}

#[test]
fn from_result_keeps_value() {
    let r = RpcResponse::from_result("8".to_string(), Ok(JsonValue::String("Hello, world!".to_string())));
    assert_eq!(r.id.as_deref(), Some("8"));
    assert!(matches!(r.result, Some(JsonValue::String(ref s)) if s == "Hello, world!"));
    assert!(r.error.is_none());
}

#[test]
fn from_result_reports_error() {
    let r = RpcResponse::from_result("9".to_string(), Err(RpcError::Handler("denied".to_string())));
    assert_eq!(r.id.as_deref(), Some("9"));
    assert!(r.result.is_none());
    assert_eq!(r.error.as_deref(), Some("denied"));
}

#[test]
fn is_null_only_for_null() {
    assert!(JsonValue::Null.is_null());
    assert!(!JsonValue::Bool(false).is_null());
    assert!(!JsonValue::String("null".to_string()).is_null());
    assert!(!JsonValue::Array(vec![]).is_null());
}

#[test]
fn registry_registers_and_resolves() {
    let mut reg: RpcMethodRegistry<u32> = RpcMethodRegistry::new();
    assert!(reg.handle("hello", 1).is_ok());
    assert!(reg.handle("add", 2).is_ok());
    assert_eq!(reg.len(), 2);
    assert_eq!(*reg.resolve(&request("a", "hello", None)).unwrap(), 1);
    assert_eq!(*reg.resolve(&request("b", "add", None)).unwrap(), 2);
}

#[test]
fn registry_refuses_second_handler() {
    let mut reg: RpcMethodRegistry<u32> = RpcMethodRegistry::new();
    assert!(reg.handle("hello", 1).is_ok());
    match reg.handle("hello", 5) {
        Err(RpcError::AlreadyExists(m)) => assert_eq!(m, "hello"),
        other => panic!("unexpected {:?}", other),
    }
    assert_eq!(reg.len(), 1);
    assert_eq!(*reg.resolve(&request("a", "hello", None)).unwrap(), 1);
}

#[test]
fn registry_reports_unknown_method() {
    let reg: RpcMethodRegistry<u32> = RpcMethodRegistry::new();
    match reg.resolve(&request("a", "missing", None)) {
        Err(e) => assert_eq!(e.message(), "Method missing not found"),
        Ok(_) => panic!("resolved an unknown method"),
    }
}

#[test]
fn ping_gets_pong_with_same_payload() {
    match process_frame(Frame::Ping(vec![1, 2, 3])) {
        FrameAction::Reply(Frame::Pong(d)) => assert_eq!(d, vec![1, 2, 3]),
        other => panic!("unexpected {:?}", other),
    }
}

#[test]
fn text_frame_is_a_request() {
    match process_frame(Frame::Text("{\"id\":\"1\"}".to_string())) {
        FrameAction::Request(t) => assert_eq!(t, "{\"id\":\"1\"}"),
        other => panic!("unexpected {:?}", other),
    }
}

#[test]
fn other_frames_are_ignored() {
    assert!(matches!(process_frame(Frame::Binary(vec![9])), FrameAction::Ignore));
    assert!(matches!(process_frame(Frame::Pong(vec![])), FrameAction::Ignore));
    assert!(matches!(process_frame(Frame::Close), FrameAction::Ignore));
    assert!(matches!(process_frame(Frame::Raw), FrameAction::Ignore));
}

#[test]
fn dispatch_unparsed_text() {
    let reg: RpcMethodRegistry<u32> = RpcMethodRegistry::new();
    match dispatch(&reg, None) {
        Dispatch::Answer(r) => {
            assert!(r.id.is_none());
            assert!(r.result.is_none());
            assert_eq!(r.error.as_deref(), Some("invalid json received"));
        }
        Dispatch::Invoke { .. } => panic!("invoked a handler"),
    }
}

#[test]
fn dispatch_unknown_method() {
    let reg: RpcMethodRegistry<u32> = RpcMethodRegistry::new();
    match dispatch(&reg, Some(request("q1", "nope", None))) {
        Dispatch::Answer(r) => {
            assert_eq!(r.id.as_deref(), Some("q1"));
            assert!(r.result.is_none());
            assert_eq!(r.error.as_deref(), Some("Method nope not found"));
        }
        Dispatch::Invoke { .. } => panic!("invoked a handler"),
    }
}

#[test]
fn dispatch_known_method() {
    let mut reg: RpcMethodRegistry<u32> = RpcMethodRegistry::new();
    reg.handle("hello", 11).unwrap();
    match dispatch(&reg, Some(request("q2", "hello", Some(JsonValue::Bool(true))))) {
        Dispatch::Invoke { id, handler, params } => {
            assert_eq!(id, "q2");
            assert_eq!(*handler, 11);
            assert!(matches!(params, Some(JsonValue::Bool(true))));
        }
        Dispatch::Answer(_) => panic!("answered without the handler"),
    }
}
