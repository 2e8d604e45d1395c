use bettercpt::ipc::IpcRequest;
use bettercpt::json::JsonValue;
use bettercpt::state_tree::StateTree;
use bettercpt::widget_qt::{
    classify_message, crash_detected, is_ready_line, read_message, trim_line, ChildWait, QtError, QtMessage, WidgetQtRuntime,
    PAGE_LIMIT,
};

fn read(raw: &str) -> QtMessage {
    read_message(raw)
}

#[test]
fn lines_are_told_apart() {
    assert!(matches!(read("  \n"), QtMessage::Unknown(l) if l.is_empty()));
    assert!(matches!(read("not json\r\n"), QtMessage::Unknown(l) if l == "not json"));
    assert!(matches!(read("{\"id\":7,\"result\":\"ok\"}\n"), QtMessage::Response { id: 7, json } if json == "{\"id\":7,\"result\":\"ok\"}"));
    assert!(matches!(
        read("{\"method\":\"onHover\",\"params\":{\"widgetId\":\"widget_3\"}}"),
        QtMessage::Event { method, widget_id } if method == "onHover" && widget_id == "widget_3"
    ));
    assert!(matches!(read("{\"method\":\"onClick\"}"), QtMessage::Event { method, widget_id } if method == "onClick" && widget_id.is_empty()));
    assert!(matches!(
        read("{\"method\":\"onDrop\",\"params\":{\"widgetId\":\"w\",\"paths\":[\"a\"]}}"),
        QtMessage::EventJson { method, json } if method == "onDrop" && json.starts_with("{\"method\":\"onDrop\"")
    ));
    assert!(matches!(read("{\"id\":-1,\"method\":\"x\"}"), QtMessage::Event { .. }));
    assert!(matches!(read("[1,2]"), QtMessage::Unknown(_)));
    assert!(matches!(read("  { \"id\" : 12 }  "), QtMessage::Response { id: 12, json } if json == "{ \"id\" : 12 }"));
    assert!(matches!(read("{\"id\":\"7\"}"), QtMessage::Unknown(_)));
}

#[test]
fn a_line_is_trimmed_before_it_is_classified() {
    assert_eq!(trim_line("\t {\"id\":1} \r\n"), "{\"id\":1}");
    assert!(matches!(classify_message("x".to_string(), None), QtMessage::Unknown(l) if l == "x"));
}

#[test]
fn ready_notice_is_recognised() {
    assert!(is_ready_line("{\"jsonrpc\":\"2.0\",\"method\":\"ready\"}\n"));
    assert!(!is_ready_line("ready"));
    assert!(!is_ready_line(""));
}

#[test]
fn requests_are_numbered_from_one() {
    let mut qt = WidgetQtRuntime::new();
    let a = qt.send_request("createRect", "{\"id\":\"w\"}").unwrap();
    assert_eq!(a, "{\"jsonrpc\":\"2.0\",\"id\":1,\"method\":\"createRect\",\"params\":{\"id\":\"w\"}}");
    let b = qt.send_request("ping", "{}").unwrap();
    assert_eq!(b, "{\"jsonrpc\":\"2.0\",\"id\":2,\"method\":\"ping\",\"params\":{}}");
}

#[test]
fn frozen_link_drops_requests_without_using_ids() {
    let mut qt = WidgetQtRuntime::new();
    qt.freeze_ipc();
    assert!(qt.is_frozen());
    assert_eq!(qt.send_request("ping", "{}"), None);
    qt.unfreeze_ipc();
    assert!(qt.send_request("ping", "{}").unwrap().contains("\"id\":1,"));
}

#[test]
fn at_most_five_restarts() {
    let mut qt = WidgetQtRuntime::new();
    for _ in 0..5 {
        assert!(qt.restart_qt().is_ok());
    }
    assert_eq!(qt.restart_qt(), Err(QtError::TooManyRestarts { count: 6, max: 5 }));
    assert_eq!(qt.crash_count(), 6);
}

#[test]
fn crash_detection() {
    assert!(crash_detected(true, ChildWait::Exited));
    assert!(crash_detected(true, ChildWait::Failed));
    assert!(!crash_detected(true, ChildWait::Running));
    assert!(!crash_detected(false, ChildWait::Exited));
}

fn obj(entries: Vec<(&str, JsonValue)>) -> JsonValue {
    JsonValue::Object(entries.into_iter().map(|(k, v)| (k.to_string(), v)).collect())
}

fn req(method: &str, params: JsonValue) -> IpcRequest {
    IpcRequest { jsonrpc: "2.0".into(), method: method.into(), params, id: 0 }
}

fn sample_tree() -> StateTree {
    let mut tree = StateTree::new();
    tree.apply_ipc(&req("createRect", obj(vec![("id", JsonValue::String("bg".into()))]))).unwrap();
    tree.apply_ipc(&req("createIcon", obj(vec![("id", JsonValue::String("ic".into()))]))).unwrap();
    tree.apply_ipc(&req("createText", obj(vec![("id", JsonValue::String("tx".into()))]))).unwrap();
    tree.apply_ipc(&req(
        "addChild",
        obj(vec![("parentId", JsonValue::String("bg".into())), ("childId", JsonValue::String("ic".into()))]),
    ))
    .unwrap();
    tree
}

fn key_names(v: &JsonValue) -> Vec<String> {
    match v {
        JsonValue::Object(es) => es.iter().map(|(k, _)| k.clone()).collect(),
        _ => vec![],
    }
}

#[test]
fn full_replay_creates_then_attaches() {
    let tree = sample_tree();
    let r = WidgetQtRuntime::replay_state_tree(&tree);
    let methods: Vec<&str> = r.iter().map(|c| c.method.as_str()).collect();
    assert_eq!(methods, vec!["createRect", "createIcon", "createText", "addChild"]);
    assert_eq!(key_names(&r[0].params), vec!["id", "x", "y", "w", "h", "radius", "blur", "scale", "opacity"]);
    assert_eq!(r[3].params.get("childId").and_then(|c| c.as_str()), Some("ic"));
}

#[test]
fn replay_pages_split_at_the_limit() {
    let tree = sample_tree();
    let sizes = vec![PAGE_LIMIT - 10, 20, PAGE_LIMIT + 5];
    let r = WidgetQtRuntime::replay_pages(&tree, &sizes);
    let pages: Vec<u64> = r.iter().map(|c| c.params.get("page").and_then(|p| p.as_u64()).unwrap()).collect();
    assert_eq!(pages, vec![1, 2, 3]);
    for c in &r {
        assert_eq!(c.params.get("total_pages").and_then(|p| p.as_u64()), Some(3));
    }
    assert_eq!(r[2].params.get("is_last").and_then(|b| b.as_bool()), Some(true));
    assert_eq!(r[0].params.get("is_last").and_then(|b| b.as_bool()), Some(false));
    let one_page = WidgetQtRuntime::replay_pages(&tree, &vec![10, 10, 10]);
    assert!(one_page.iter().all(|c| c.params.get("page").and_then(|p| p.as_u64()) == Some(1)));
    assert!(WidgetQtRuntime::replay_pages(&StateTree::new(), &vec![]).is_empty());
}
