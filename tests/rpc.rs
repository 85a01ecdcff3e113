use gxi::json::JsonValue;
use gxi::rpc::{encode_notification, parse_frame, Delivery, Inbound, RpcEngine, RpcError};

fn obj(members: Vec<(&str, JsonValue)>) -> JsonValue {
    JsonValue::Object(members.into_iter().map(|(k, v)| (k.to_string(), v)).collect())
}

fn key_names(v: &JsonValue) -> Vec<String> {
    match v {
        JsonValue::Object(m) => m.iter().map(|(k, _)| k.clone()).collect(),
        _ => vec![],
    }
}

#[test]
fn request_round_trip_returns_result() {
    let mut e = RpcEngine::new();
    let (id, frame) = e.begin_request("new_view".to_string(), JsonValue::Int(5)).unwrap();
    assert_eq!(id, 0);
    assert_eq!(key_names(&frame), vec!["id", "method", "params"]);
    let mut members = match frame {
        JsonValue::Object(m) => m,
        _ => panic!("a request is an object"),
    };
    members.push(("result".to_string(), JsonValue::Str("view-id-1".to_string())));
    assert!(matches!(e.receive(JsonValue::Object(members)), Delivery::Resolved(0)));
    match e.take_outcome(0) {
        Some(Ok(JsonValue::Str(s))) => assert_eq!(s, "view-id-1"),
        other => panic!("unexpected outcome {:?}", other),
    }
    assert!(e.take_outcome(0).is_none());
}

#[test]
fn ids_increase() {
    let mut e = RpcEngine::new();
    let (a, _) = e.begin_request("a".to_string(), JsonValue::Null).unwrap();
    let (b, _) = e.begin_request("b".to_string(), JsonValue::Null).unwrap();
    assert_eq!((a, b), (0, 1));
}

#[test]
fn second_response_is_unmatched() {
    let mut e = RpcEngine::new();
    let (id, _) = e.begin_request("m".to_string(), JsonValue::Null).unwrap();
    let resp = || obj(vec![("id", JsonValue::Int(id as i64)), ("result", JsonValue::Bool(true))]);
    assert!(matches!(e.receive(resp()), Delivery::Resolved(0)));
    assert!(matches!(e.receive(resp()), Delivery::Unmatched(0)));
    assert!(matches!(e.take_outcome(id), Some(Ok(JsonValue::Bool(true)))));
}

#[test]
fn unknown_id_is_unmatched() {
    let mut e = RpcEngine::new();
    let resp = obj(vec![("id", JsonValue::Int(42)), ("result", JsonValue::Null)]);
    assert!(matches!(e.receive(resp), Delivery::Unmatched(42)));
}

#[test]
fn error_response_resolves_with_remote_error() {
    let mut e = RpcEngine::new();
    let (id, _) = e.begin_request("m".to_string(), JsonValue::Null).unwrap();
    let resp = obj(vec![("id", JsonValue::Int(0)), ("error", JsonValue::Str("bad".to_string()))]);
    assert!(matches!(e.receive(resp), Delivery::Resolved(0)));
    assert!(matches!(e.take_outcome(id), Some(Err(RpcError::Remote(JsonValue::Str(_))))));
}

#[test]
fn response_without_result_is_malformed() {
    let mut e = RpcEngine::new();
    let (id, _) = e.begin_request("m".to_string(), JsonValue::Null).unwrap();
    assert!(matches!(e.receive(obj(vec![("id", JsonValue::Int(0))])), Delivery::Resolved(0)));
    assert!(matches!(e.take_outcome(id), Some(Err(RpcError::MalformedResponse))));
}

#[test]
fn disconnect_fails_pending_calls() {
    let mut e = RpcEngine::new();
    let (id, _) = e.begin_request("m".to_string(), JsonValue::Null).unwrap();
    assert!(e.take_outcome(id).is_none());
    e.disconnect();
    assert!(e.is_closed());
    assert!(matches!(e.take_outcome(id), Some(Err(RpcError::PeerClosed))));
    assert!(matches!(e.begin_request("m".to_string(), JsonValue::Null), Err(RpcError::PeerClosed)));
    let late = obj(vec![("method", JsonValue::Str("update".to_string()))]);
    assert!(matches!(e.receive(late), Delivery::Dropped));
}

#[test]
fn disconnect_keeps_resolved_outcome() {
    let mut e = RpcEngine::new();
    let (id, _) = e.begin_request("m".to_string(), JsonValue::Null).unwrap();
    e.receive(obj(vec![("id", JsonValue::Int(0)), ("result", JsonValue::Int(3))]));
    e.disconnect();
    assert!(matches!(e.take_outcome(id), Some(Ok(JsonValue::Int(3)))));
}

#[test]
fn notification_is_delivered() {
    let mut e = RpcEngine::new();
    let frame = obj(vec![("method", JsonValue::Str("scroll_to".to_string())), ("params", JsonValue::Int(9))]);
    match e.receive(frame) {
        Delivery::Notify { method, params } => {
            assert_eq!(method, "scroll_to");
            assert!(matches!(params, JsonValue::Int(9)));
        }
        other => panic!("unexpected delivery {:?}", other),
    }
}

#[test]
fn frames_that_are_neither_are_malformed() {
    assert!(matches!(parse_frame(JsonValue::Int(1)), Inbound::Malformed));
    assert!(matches!(parse_frame(obj(vec![("id", JsonValue::Int(-1))])), Inbound::Malformed));
    assert!(matches!(parse_frame(obj(vec![("id", JsonValue::Str("x".to_string()))])), Inbound::Malformed));
    assert!(matches!(parse_frame(obj(vec![("params", JsonValue::Null)])), Inbound::Malformed));
}

#[test]
fn first_member_of_a_name_counts() {
    let frame = obj(vec![("id", JsonValue::Int(3)), ("id", JsonValue::Int(4)), ("result", JsonValue::Null)]);
    assert!(matches!(parse_frame(frame), Inbound::Response { id: 3, outcome: Ok(JsonValue::Null) }));
}

#[test]
fn notification_frame_has_no_id() {
    let f = encode_notification("edit".to_string(), JsonValue::Null);
    assert_eq!(key_names(&f), vec!["method", "params"]);
}
