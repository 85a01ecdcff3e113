use gxi::channel::CoreMsg;
use gxi::controller::{edit_params, new_view_params, Action, Controller};
use gxi::decode::{decode_batch, decode_line, decode_op};
use gxi::json::JsonValue;
use gxi::linecache::{Line, UpdateOp};

fn obj(members: Vec<(&str, JsonValue)>) -> JsonValue {
    JsonValue::Object(members.into_iter().map(|(k, v)| (k.to_string(), v)).collect())
}

fn s(t: &str) -> JsonValue {
    JsonValue::Str(t.to_string())
}

fn ints(v: &[i64]) -> JsonValue {
    JsonValue::Array(v.iter().map(|i| JsonValue::Int(*i)).collect())
}

fn line(text: &str) -> JsonValue {
    obj(vec![("text", s(text)), ("cursor", ints(&[0])), ("styles", ints(&[0, 2, 1]))])
}

fn op(name: &str, n: i64) -> JsonValue {
    obj(vec![("op", s(name)), ("n", JsonValue::Int(n))])
}

fn ins(lines: Vec<JsonValue>) -> JsonValue {
    let n = lines.len() as i64;
    obj(vec![("op", s("ins")), ("n", JsonValue::Int(n)), ("lines", JsonValue::Array(lines))])
}

fn update_params(view: &str, ops: Vec<JsonValue>) -> JsonValue {
    obj(vec![("view_id", s(view)), ("update", obj(vec![("ops", JsonValue::Array(ops))]))])
}

fn update_msg(view: &str, ops: Vec<JsonValue>) -> CoreMsg {
    CoreMsg::Notification { method: "update".to_string(), params: update_params(view, ops) }
}

#[test]
fn decodes_each_verb() {
    assert!(matches!(decode_op(&op("copy", 2)), Some(UpdateOp::Copy(2))));
    assert!(matches!(decode_op(&op("skip", 1)), Some(UpdateOp::Skip(1))));
    assert!(matches!(decode_op(&op("invalidate", 3)), Some(UpdateOp::Invalidate(3))));
    match decode_op(&ins(vec![line("ab")])) {
        Some(UpdateOp::Insert(lines)) => {
            assert_eq!(lines.len(), 1);
            assert_eq!(lines[0].text, "ab");
            assert_eq!(lines[0].cursors, vec![0]);
            assert_eq!(lines[0].styles.len(), 1);
            assert_eq!(lines[0].styles[0].len, 2);
            assert_eq!(lines[0].styles[0].style_id, 1);
        }
        other => panic!("unexpected {:?}", other),
    }
    let upd = obj(vec![("op", s("update")), ("n", JsonValue::Int(1)), ("lines", JsonValue::Array(vec![obj(vec![("cursor", ints(&[4]))])]))]);
    match decode_op(&upd) {
        Some(UpdateOp::Update(metas)) => {
            assert_eq!(metas.len(), 1);
            assert_eq!(metas[0].cursors, vec![4]);
            assert!(metas[0].styles.is_empty());
        }
        other => panic!("unexpected {:?}", other),
    }
}

#[test]
fn rejects_bad_ops() {
    assert!(decode_op(&op("paste", 1)).is_none());
    assert!(decode_op(&op("copy", -1)).is_none());
    let wrong_count = obj(vec![("op", s("ins")), ("n", JsonValue::Int(2)), ("lines", JsonValue::Array(vec![line("a")]))]);
    assert!(decode_op(&wrong_count).is_none());
    let bad_styles = obj(vec![("text", s("a")), ("styles", ints(&[0, 1]))]);
    assert!(decode_line(&bad_styles).is_none());
    assert!(decode_batch(&obj(vec![("view_id", s("v"))])).is_none());
}

#[test]
fn update_notification_repaints_view() {
    let mut c = Controller::new();
    c.open_view("view-id-1".to_string());
    let a = c.handle_msg(update_msg("view-id-1", vec![ins(vec![line("x"), line("y")]), op("invalidate", 1)]));
    assert!(matches!(a, Action::Repaint(ref v) if v == "view-id-1"));
    let lines = c.get_lines(&"view-id-1".to_string(), 0, 10).unwrap();
    assert_eq!(lines.len(), 3);
    assert!(matches!(&lines[0], Line::Valid(d) if d.text == "x"));
    assert!(matches!(&lines[2], Line::Invalid));
}

#[test]
fn out_of_range_batch_resyncs_view() {
    let mut c = Controller::new();
    c.open_view("v".to_string());
    c.handle_msg(update_msg("v", vec![ins(vec![line("x")])]));
    let a = c.handle_msg(update_msg("v", vec![op("copy", 5)]));
    assert!(matches!(a, Action::Resync(ref v) if v == "v"));
    assert_eq!(c.get_lines(&"v".to_string(), 0, 10).unwrap().len(), 0);
}

#[test]
fn unknown_view_is_dropped() {
    let mut c = Controller::new();
    let a = c.handle_msg(update_msg("gone", vec![op("copy", 0)]));
    assert!(matches!(a, Action::UnknownView(ref v) if v == "gone"));
    assert!(!c.contains(&"gone".to_string()));
}

#[test]
fn unreadable_update_is_malformed() {
    let mut c = Controller::new();
    c.open_view("v".to_string());
    let a = c.handle_msg(CoreMsg::Notification { method: "update".to_string(), params: JsonValue::Null });
    assert!(matches!(a, Action::Malformed));
}

#[test]
fn other_methods_are_forwarded_and_idle_runs() {
    let mut c = Controller::new();
    let a = c.handle_msg(CoreMsg::Notification { method: "theme_changed".to_string(), params: JsonValue::Null });
    assert!(matches!(a, Action::Forward(ref m) if m == "theme_changed"));
    assert!(matches!(c.handle_msg(CoreMsg::Idle(7)), Action::RunIdle(7)));
}

#[test]
fn close_view_removes_it() {
    let mut c = Controller::new();
    c.open_view("v".to_string());
    c.open_view("v".to_string());
    assert!(c.close_view(&"v".to_string()));
    assert!(!c.close_view(&"v".to_string()));
    assert!(c.get_lines(&"v".to_string(), 0, 1).is_none());
}

fn member_names(v: &JsonValue) -> Vec<String> {
    match v {
        JsonValue::Object(m) => m.iter().map(|(k, _)| k.clone()).collect(),
        _ => vec![],
    }
}

#[test]
fn outbound_params_have_expected_members() {
    assert_eq!(member_names(&new_view_params(None)), Vec::<String>::new());
    assert_eq!(member_names(&new_view_params(Some("/tmp/a.txt".to_string()))), vec!["file_path"]);
    let e = edit_params("v".to_string(), "insert".to_string(), JsonValue::Null);
    assert_eq!(member_names(&e), vec!["view_id", "method", "params"]);
}
