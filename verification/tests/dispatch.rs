use bettercpt::dispatch::{
    drop_event_from_line, drop_widget_id, launch_path, logs_response, ping_request, plugin_log_entry, removal_commands, route_command,
    CommandRoute,
};
use bettercpt::ipc::IpcRequest;
use bettercpt::json::JsonValue;
use bettercpt::state_tree::StateTree;

fn obj(entries: Vec<(&str, JsonValue)>) -> JsonValue {
    JsonValue::Object(entries.into_iter().map(|(k, v)| (k.to_string(), v)).collect())
}

fn s(t: &str) -> JsonValue {
    JsonValue::String(t.into())
}

fn req(method: &str, params: JsonValue) -> IpcRequest {
    IpcRequest { jsonrpc: "2.0".into(), method: method.into(), params, id: 0 }
}

#[test]
fn commands_are_routed() {
    assert_eq!(route_command("system.launch"), CommandRoute::Launch);
    assert_eq!(route_command("plugin.log"), CommandRoute::PluginLog);
    assert_eq!(route_command("storage.set"), CommandRoute::Skip);
    assert_eq!(route_command("dialog.alert"), CommandRoute::Skip);
    assert_eq!(route_command("notification.show"), CommandRoute::Skip);
    assert_eq!(route_command("createRect"), CommandRoute::Renderer);
    assert_eq!(route_command("system.memory"), CommandRoute::Renderer);
}

#[test]
fn quiet_methods_are_not_logged() {
    for m in ["ping", "setScale", "setOpacity", "addChild", "raise", "lower"] {
        assert!(!logs_response(m));
    }
    assert!(logs_response("createRect"));
}

#[test]
fn host_command_parameters() {
    assert_eq!(launch_path(&req("system.launch", obj(vec![("path", s("C:/x.exe"))]))), "C:/x.exe");
    assert_eq!(launch_path(&req("system.launch", obj(vec![]))), "");
    let (pid, msg) = plugin_log_entry(&req("plugin.log", obj(vec![("pluginId", s("@a/b")), ("message", s("hi"))])));
    assert_eq!((pid.as_str(), msg.as_str()), ("@a/b", "hi"));
    let event = obj(vec![("method", s("onDrop")), ("params", obj(vec![("widgetId", s("w9"))]))]);
    assert_eq!(drop_widget_id(&event), "w9");
    assert_eq!(drop_widget_id(&obj(vec![])), "");
    let ping = ping_request();
    assert_eq!(ping.method, "ping");
    assert_eq!(ping.id, 99999);
}

#[test]
fn stopping_removes_every_widget() {
    let mut tree = StateTree::new();
    tree.apply_ipc(&req("createRect", obj(vec![("id", s("a"))]))).unwrap();
    tree.apply_ipc(&req("createIcon", obj(vec![("id", s("b"))]))).unwrap();
    let cmds = removal_commands(&tree);
    assert_eq!(cmds.len(), 2);
    assert_eq!(cmds[0].method, "removeWidget");
    assert_eq!(cmds[1].params.get("id").and_then(|v| v.as_str()), Some("b"));
}

#[test]
fn drop_event_line_builds_the_handler_script() {
    let line = "{ \"method\": \"onDrop\", \"params\": { \"widgetId\": \"w1\", \"paths\": [ \"a.txt\", \"b.txt\" ] } }";
    let script = drop_event_from_line(line).unwrap();
    assert_eq!(
        script,
        "(function(){ var w=globalThis.__widgets['w1']; if(w&&typeof w._onDrop==='function') w._onDrop([\"a.txt\",\"b.txt\"]); })()"
    );
    let no_paths = drop_event_from_line("{\"method\":\"onDrop\",\"params\":{\"widgetId\":\"w2\"}}").unwrap();
    assert!(no_paths.contains("w._onDrop(null)"));
    assert!(drop_event_from_line("not json").is_none());
}
