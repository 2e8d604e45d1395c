use bettercpt::ipc::{IpcRequest, METHOD_ADD_CHILD, METHOD_SET_SCALE};
use bettercpt::json::{JsonNumber, JsonValue};
use bettercpt::state_tree::{StateError, StateTree, WidgetType};

fn obj(entries: Vec<(&str, JsonValue)>) -> JsonValue {
    JsonValue::Object(entries.into_iter().map(|(k, v)| (k.to_string(), v)).collect())
}

fn num_i(n: i64) -> JsonValue {
    JsonValue::Number(JsonNumber::from_i64(n))
}

fn float(x: f64) -> JsonValue {
    JsonValue::Number(JsonNumber::Float { bits: x.to_bits(), text: format!("{:?}", x) })
}

fn text(s: &str) -> JsonValue {
    JsonValue::String(s.to_string())
}

fn req(method: &str, params: JsonValue, id: u64) -> IpcRequest {
    IpcRequest { jsonrpc: "2.0".into(), method: method.into(), params, id }
}

fn as_f64(n: &JsonNumber) -> f64 {
    match n {
        JsonNumber::PosInt(u) => *u as f64,
        JsonNumber::NegInt(i) => *i as f64,
        JsonNumber::Float { bits, .. } => f64::from_bits(*bits),
    }
}

#[test]
fn create_rect_applies_to_state() {
    let mut tree = StateTree::new();
    let cmd = req(
        "createRect",
        obj(vec![
            ("id", text("widget_1")),
            ("x", num_i(100)),
            ("y", num_i(200)),
            ("w", num_i(400)),
            ("h", num_i(80)),
            ("blur", JsonValue::Bool(true)),
            ("radius", num_i(16)),
        ]),
        1,
    );
    tree.apply_ipc(&cmd).unwrap();
    assert_eq!(tree.node_count(), 1);
    let node = tree.get("widget_1").unwrap();
    assert_eq!(node.bounds.x, 100);
    assert_eq!(node.bounds.w, 400);
    assert!(node.blur);
}

#[test]
fn set_scale_updates_state() {
    let mut tree = StateTree::new();
    let create = req(
        "createIcon",
        obj(vec![("id", text("w1")), ("x", num_i(0)), ("y", num_i(0)), ("size", num_i(48)), ("src", text("test.png"))]),
        1,
    );
    tree.apply_ipc(&create).unwrap();
    let scale = req(METHOD_SET_SCALE, obj(vec![("id", text("w1")), ("scale", float(1.2))]), 2);
    tree.apply_ipc(&scale).unwrap();
    assert!((as_f64(&tree.get("w1").unwrap().scale) - 1.2).abs() < 0.001);
}

#[test]
fn add_child_updates_parent() {
    let mut tree = StateTree::new();
    tree.apply_ipc(&req(
        "createRect",
        obj(vec![("id", text("dock")), ("x", num_i(0)), ("y", num_i(0)), ("w", num_i(400)), ("h", num_i(80))]),
        1,
    ))
    .unwrap();
    tree.apply_ipc(&req(
        "createIcon",
        obj(vec![("id", text("icon_1")), ("x", num_i(16)), ("y", num_i(16)), ("size", num_i(48)), ("src", text("c.png"))]),
        2,
    ))
    .unwrap();
    tree.apply_ipc(&req(METHOD_ADD_CHILD, obj(vec![("parentId", text("dock")), ("childId", text("icon_1"))]), 3))
        .unwrap();
    assert_eq!(tree.get("dock").unwrap().children, vec!["icon_1"]);
}

#[test]
fn replay_generates_create_then_children() {
    let mut tree = StateTree::new();
    tree.apply_ipc(&req(
        "createRect",
        obj(vec![
            ("id", text("bg")),
            ("x", num_i(0)),
            ("y", num_i(0)),
            ("w", num_i(200)),
            ("h", num_i(100)),
            ("blur", JsonValue::Bool(true)),
            ("radius", num_i(8)),
        ]),
        1,
    ))
    .unwrap();
    tree.apply_ipc(&req(
        "createIcon",
        obj(vec![("id", text("icon")), ("x", num_i(10)), ("y", num_i(10)), ("size", num_i(32)), ("src", text("a.png"))]),
        2,
    ))
    .unwrap();
    tree.apply_ipc(&req(METHOD_ADD_CHILD, obj(vec![("parentId", text("bg")), ("childId", text("icon"))]), 3))
        .unwrap();
    let replay = tree.generate_replay_commands();
    assert_eq!(replay[0].method, "createRect");
    assert_eq!(replay[1].method, "createIcon");
    let add_child = replay.last().unwrap();
    assert_eq!(add_child.method, METHOD_ADD_CHILD);
}

#[test]
fn each_change_raises_the_version() {
    let mut tree = StateTree::new();
    assert_eq!(tree.version(), 0);
    let create = req("createText", obj(vec![("id", text("t")), ("text", text("hi"))]), 1);
    tree.apply_ipc(&create).unwrap();
    assert_eq!(tree.version(), 1);
    tree.apply_ipc(&create).unwrap();
    assert_eq!(tree.version(), 1);
    tree.apply_ipc(&req("setBlur", obj(vec![("id", text("t")), ("enabled", JsonValue::Bool(true))]), 2)).unwrap();
    assert_eq!(tree.version(), 2);
    assert!(tree.get("t").unwrap().blur);
    tree.apply_ipc(&req("setBlur", obj(vec![("id", text("missing"))]), 3)).unwrap();
    assert_eq!(tree.version(), 2);
    assert_eq!(tree.get("t").unwrap().widget_type, WidgetType::Text);
    assert_eq!(tree.get("t").unwrap().text.as_deref(), Some("hi"));
}

#[test]
fn remove_child_and_duplicates() {
    let mut tree = StateTree::new();
    tree.apply_ipc(&req("createRect", obj(vec![("id", text("p"))]), 1)).unwrap();
    let add = req(METHOD_ADD_CHILD, obj(vec![("parentId", text("p")), ("childId", text("c"))]), 2);
    tree.apply_ipc(&add).unwrap();
    tree.apply_ipc(&add).unwrap();
    assert_eq!(tree.get("p").unwrap().children, vec!["c"]);
    tree.apply_ipc(&req("removeChild", obj(vec![("parentId", text("p")), ("childId", text("c"))]), 3)).unwrap();
    assert!(tree.get("p").unwrap().children.is_empty());
}

#[test]
fn replay_restores_scale_that_is_not_one() {
    let mut tree = StateTree::new();
    tree.apply_ipc(&req("createIcon", obj(vec![("id", text("i")), ("size", num_i(32))]), 1)).unwrap();
    tree.apply_ipc(&req(METHOD_SET_SCALE, obj(vec![("id", text("i")), ("scale", float(1.5))]), 2)).unwrap();
    tree.apply_ipc(&req("setOpacity", obj(vec![("id", text("i")), ("opacity", float(1.0))]), 3)).unwrap();
    let replay = tree.generate_replay_commands();
    let methods: Vec<&str> = replay.iter().map(|r| r.method.as_str()).collect();
    assert_eq!(methods, vec!["createIcon", "setScale"]);
}

#[test]
fn direct_edits_of_the_tree() {
    let mut tree = StateTree::new();
    tree.apply_ipc(&req("createRect", obj(vec![("id", text("a"))]), 1)).unwrap();
    let copy = tree.get("a").unwrap().duplicate();
    assert_eq!(tree.insert(copy), Err(StateError::DuplicateId));
    let mut changed = tree.get("a").unwrap().duplicate();
    changed.radius = 4;
    assert_eq!(tree.update("missing", changed.duplicate()), Err(StateError::NotFound));
    tree.update("a", changed).unwrap();
    assert_eq!(tree.get("a").unwrap().radius, 4);
    assert_eq!(tree.version(), 2);
    tree.remove("a").unwrap();
    assert_eq!(tree.remove("a"), Err(StateError::NotFound));
    assert_eq!(tree.node_count(), 0);
    assert_eq!(tree.version(), 3);
}

#[test]
fn an_integer_scale_is_kept_as_a_float() {
    let mut tree = StateTree::new();
    tree.apply_ipc(&req("createIcon", obj(vec![("id", text("i"))]), 1)).unwrap();
    tree.apply_ipc(&req(METHOD_SET_SCALE, obj(vec![("id", text("i")), ("scale", JsonValue::Number(JsonNumber::PosInt(2)))]), 2))
        .unwrap();
    let s = &tree.get("i").unwrap().scale;
    assert!(matches!(s, JsonNumber::Float { bits, text } if *bits == 2.0f64.to_bits() && text == "2.0"));
    let replay = tree.generate_replay_commands();
    let set = replay.iter().find(|c| c.method == "setScale").unwrap();
    assert!(matches!(set.params.get("scale"), Some(JsonValue::Number(JsonNumber::Float { text, .. })) if text == "2.0"));
}
