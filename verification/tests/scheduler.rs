use bettercpt::ipc::IpcRequest;
use bettercpt::json::{JsonNumber, JsonValue};
use bettercpt::scheduler::{dedup_frame, RenderScheduler};

fn obj(entries: Vec<(&str, JsonValue)>) -> JsonValue {
    JsonValue::Object(entries.into_iter().map(|(k, v)| (k.to_string(), v)).collect())
}

fn num(n: u64) -> JsonValue {
    JsonValue::Number(JsonNumber::PosInt(n))
}

fn cmd(method: &str, id: &str, duration: u64) -> IpcRequest {
    IpcRequest {
        jsonrpc: "2.0".into(),
        method: method.into(),
        params: obj(vec![("id", JsonValue::String(id.into())), ("duration", num(duration))]),
        id: 1,
    }
}

fn cmd_create(method: &str, id: &str) -> IpcRequest {
    IpcRequest {
        jsonrpc: "2.0".into(),
        method: method.into(),
        params: obj(vec![
            ("id", JsonValue::String(id.into())),
            ("x", num(0)),
            ("y", num(0)),
            ("w", num(100)),
            ("h", num(100)),
        ]),
        id: 1,
    }
}

#[test]
fn empty_flush_returns_empty() {
    let (_, mut scheduler) = RenderScheduler::new();
    let batch = scheduler.flush().unwrap();
    assert!(batch.is_empty());
}

#[test]
fn preserves_animation_commands() {
    let (tx, mut scheduler) = RenderScheduler::new();
    tx.send(cmd("setScale", "w1", 200)).unwrap();
    tx.send(cmd("setScale", "w1", 150)).unwrap();
    tx.send(cmd("setOpacity", "w1", 100)).unwrap();
    let batch = scheduler.flush().unwrap();
    assert_eq!(batch.len(), 3);
}

#[test]
fn dedups_instant_same_method_same_widget() {
    let (tx, mut scheduler) = RenderScheduler::new();
    tx.send(cmd("setOpacity", "w1", 0)).unwrap();
    tx.send(cmd("setOpacity", "w1", 0)).unwrap();
    tx.send(cmd("setOpacity", "w1", 0)).unwrap();
    let batch = scheduler.flush().unwrap();
    assert_eq!(batch.len(), 1);
    assert_eq!(batch[0].method, "setOpacity");
}

#[test]
fn no_dedup_across_widgets() {
    let (tx, mut scheduler) = RenderScheduler::new();
    tx.send(cmd("setOpacity", "w1", 0)).unwrap();
    tx.send(cmd("setOpacity", "w2", 0)).unwrap();
    tx.send(cmd("setOpacity", "w3", 0)).unwrap();
    let batch = scheduler.flush().unwrap();
    assert_eq!(batch.len(), 3);
}

#[test]
fn no_dedup_across_methods() {
    let (tx, mut scheduler) = RenderScheduler::new();
    tx.send(cmd("setScale", "w1", 0)).unwrap();
    tx.send(cmd("setOpacity", "w1", 0)).unwrap();
    let batch = scheduler.flush().unwrap();
    assert_eq!(batch.len(), 2);
}

#[test]
fn never_dedups_create_commands() {
    let (tx, mut scheduler) = RenderScheduler::new();
    tx.send(cmd_create("createRect", "w1")).unwrap();
    tx.send(cmd_create("createRect", "w1")).unwrap();
    tx.send(cmd_create("createIcon", "w1")).unwrap();
    let batch = scheduler.flush().unwrap();
    assert_eq!(batch.len(), 3);
}

#[test]
fn mixed_animation_and_instant() {
    let (tx, mut scheduler) = RenderScheduler::new();
    tx.send(cmd("setScale", "w1", 200)).unwrap();
    tx.send(cmd("setScale", "w1", 0)).unwrap();
    tx.send(cmd("setOpacity", "w1", 0)).unwrap();
    tx.send(cmd("setOpacity", "w1", 0)).unwrap();
    let batch = scheduler.flush().unwrap();
    assert_eq!(batch.len(), 3);
    assert_eq!(batch[0].method, "setScale");
    assert_eq!(batch[1].method, "setScale");
    assert_eq!(batch[2].method, "setOpacity");
}

fn duration_of(c: &IpcRequest) -> u64 {
    c.params.get("duration").and_then(|d| d.as_u64()).unwrap_or(0)
}

#[test]
fn last_instant_command_is_kept_in_its_own_place() {
    let mut a = cmd("setOpacity", "w1", 0);
    a.id = 1;
    let b = cmd("setScale", "w1", 0);
    let mut c = cmd("setOpacity", "w1", 0);
    c.id = 3;
    let out = dedup_frame(vec![a, b, c]);
    assert_eq!(out.len(), 2);
    assert_eq!(out[0].method, "setScale");
    assert_eq!(out[1].method, "setOpacity");
    assert_eq!(out[1].id, 3);
}

fn scale_cmd(scale: u64, duration: u64, id: u64) -> IpcRequest {
    IpcRequest {
        jsonrpc: "2.0".into(),
        method: "setScale".into(),
        params: obj(vec![("id", JsonValue::String("w1".into())), ("scale", num(scale)), ("duration", num(duration))]),
        id,
    }
}

#[test]
fn animation_between_instant_commands_runs_before_the_last_one() {
    let (tx, mut scheduler) = RenderScheduler::new();
    tx.send(scale_cmd(12, 0, 1)).unwrap();
    tx.send(scale_cmd(10, 200, 2)).unwrap();
    tx.send(scale_cmd(15, 0, 3)).unwrap();
    let batch = scheduler.flush().unwrap();
    let ids: Vec<u64> = batch.iter().map(|c| c.id).collect();
    assert_eq!(ids, vec![2, 3]);
}

#[test]
fn numeric_widget_ids_are_keys_too() {
    let mk = |id: u64| IpcRequest {
        jsonrpc: "2.0".into(),
        method: "raise".into(),
        params: obj(vec![("id", num(id))]),
        id,
    };
    let out = dedup_frame(vec![mk(7), mk(8), mk(7)]);
    assert_eq!(out.len(), 2);
    assert_eq!(out[0].id, 8);
    assert_eq!(out[1].id, 7);
}

#[test]
fn commands_without_widget_pass_through() {
    let ping = || IpcRequest { jsonrpc: "2.0".into(), method: "ping".into(), params: obj(vec![]), id: 9 };
    let out = dedup_frame(vec![ping(), ping()]);
    assert_eq!(out.len(), 2);
    assert_eq!(duration_of(&out[0]), 0);
}

#[test]
fn dedup_is_idempotent_on_an_example() {
    let frame = vec![
        cmd("setScale", "w1", 200),
        cmd("setScale", "w1", 0),
        cmd("setOpacity", "w2", 0),
        cmd("setScale", "w1", 0),
        cmd_create("createRect", "w3"),
        cmd("setOpacity", "w2", 0),
    ];
    let once = dedup_frame(frame);
    let methods: Vec<String> = once.iter().map(|c| c.method.clone()).collect();
    let twice = dedup_frame(once);
    let methods2: Vec<String> = twice.iter().map(|c| c.method.clone()).collect();
    assert_eq!(methods, vec!["setScale", "setScale", "createRect", "setOpacity"]);
    assert_eq!(methods, methods2);
}
