use bettercpt::dispatch::PluginAction;
use bettercpt::host_loop::{apply_action, is_hot_reload_tick, sync_state_tree, tick_step, FlushOutcome, TickAction};
use bettercpt::ipc::IpcRequest;
use bettercpt::json::{JsonNumber, JsonValue};
use bettercpt::registry::{RuntimeEntry, RuntimeRegistry};
use bettercpt::state_tree::StateTree;

#[test]
fn hot_reload_every_sixty_ticks() {
    assert!(is_hot_reload_tick(0));
    assert!(!is_hot_reload_tick(59));
    assert!(is_hot_reload_tick(60));
    assert!(is_hot_reload_tick(120));
}

#[test]
fn actions_update_the_registry() {
    let mut reg = RuntimeRegistry::new();
    reg.register(RuntimeEntry { id: "p".into(), runtime_type: "widget".into(), status: "starting".into() }).unwrap();
    let e = apply_action(&PluginAction::Stop { plugin_id: "p".into() }, &mut reg).unwrap();
    assert_eq!(e.event, "plugin_stopped");
    assert_eq!(reg.get("p").unwrap().status, "stopped");
    let e = apply_action(&PluginAction::Start { plugin_id: "p".into() }, &mut reg).unwrap();
    assert_eq!(e.event, "plugin_started");
    assert_eq!(reg.get("p").unwrap().status, "running");
    assert!(apply_action(&PluginAction::ConfigUpdate { plugin_id: "p".into(), config_json: "{}".into() }, &mut reg).is_none());
    let e = apply_action(&PluginAction::Uninstall { plugin_id: "p".into() }, &mut reg).unwrap();
    assert_eq!(e.event, "plugin_uninstalled");
    assert_eq!(e.plugin_id, "p");
    assert!(reg.get("p").is_none());
    let e = apply_action(&PluginAction::Start { plugin_id: "q".into() }, &mut reg).unwrap();
    assert_eq!(e.event, "plugin_started");
    assert!(reg.get("q").is_none());
}

#[test]
fn tree_follows_the_batch() {
    let mut tree = StateTree::new();
    let mk = |m: &str, id: &str| IpcRequest {
        jsonrpc: "2.0".into(),
        method: m.into(),
        params: JsonValue::Object(vec![("id".to_string(), JsonValue::String(id.into()))]),
        id: 0,
    };
    sync_state_tree(&mut tree, &vec![mk("createRect", "a"), mk("createRect", "a"), mk("createText", "b")]);
    assert_eq!(tree.node_count(), 2);
    assert_eq!(tree.version(), 2);
}

#[test]
fn replay_into_a_fresh_tree_recreates_the_widgets() {
    let mk = |m: &str, entries: Vec<(&str, &str)>| IpcRequest {
        jsonrpc: "2.0".into(),
        method: m.into(),
        params: JsonValue::Object(
            entries.into_iter().map(|(k, v)| (k.to_string(), JsonValue::String(v.into()))).collect(),
        ),
        id: 0,
    };
    let mut tree = StateTree::new();
    sync_state_tree(
        &mut tree,
        &vec![
            mk("createRect", vec![("id", "dock")]),
            mk("createIcon", vec![("id", "i1")]),
            mk("createText", vec![("id", "t1")]),
            mk("addChild", vec![("parentId", "dock"), ("childId", "i1")]),
        ],
    );
    let replay = tree.generate_replay_commands();
    let mut fresh = StateTree::new();
    sync_state_tree(&mut fresh, &replay);
    let ids = |t: &StateTree| t.all_nodes().iter().map(|n| (n.id.clone(), n.widget_type)).collect::<Vec<_>>();
    assert_eq!(ids(&fresh), ids(&tree));
    assert_eq!(fresh.get("dock").unwrap().children, vec!["i1"]);
}

#[test]
fn replay_recreates_the_attributes() {
    let num = |n: u64| JsonValue::Number(JsonNumber::PosInt(n));
    let req = |m: &str, entries: Vec<(&str, JsonValue)>| IpcRequest {
        jsonrpc: "2.0".into(),
        method: m.into(),
        params: JsonValue::Object(entries.into_iter().map(|(k, v)| (k.to_string(), v)).collect()),
        id: 0,
    };
    let mut tree = StateTree::new();
    sync_state_tree(
        &mut tree,
        &vec![
            req(
                "createRect",
                vec![
                    ("id", JsonValue::String("r".into())),
                    ("x", num(10)),
                    ("y", JsonValue::Number(JsonNumber::NegInt(-4))),
                    ("w", num(200)),
                    ("h", num(80)),
                    ("blur", JsonValue::Bool(true)),
                    ("radius", num(12)),
                    ("color", JsonValue::String("#112233".into())),
                ],
            ),
            req(
                "createText",
                vec![
                    ("id", JsonValue::String("t".into())),
                    ("x", num(1)),
                    ("y", num(2)),
                    ("text", JsonValue::String("hi".into())),
                    ("size", num(14)),
                    ("weight", JsonValue::String("bold".into())),
                ],
            ),
            req("setScale", vec![("id", JsonValue::String("r".into())), ("scale", num(2))]),
            req("addChild", vec![("parentId", JsonValue::String("r".into())), ("childId", JsonValue::String("t".into()))]),
        ],
    );
    let replay = tree.generate_replay_commands();
    let mut fresh = StateTree::new();
    sync_state_tree(&mut fresh, &replay);
    let r = fresh.get("r").unwrap();
    assert_eq!((r.bounds.x, r.bounds.y, r.bounds.w, r.bounds.h), (10, -4, 200, 80));
    assert!(r.blur);
    assert_eq!(r.radius, 12);
    assert_eq!(r.color.as_deref(), Some("#112233"));
    assert!(matches!(&r.scale, JsonNumber::Float { text, .. } if text == "2.0"));
    assert_eq!(r.children, vec!["t".to_string()]);
    let t = fresh.get("t").unwrap();
    assert_eq!(t.text.as_deref(), Some("hi"));
    assert_eq!(t.size, 14);
    assert_eq!(t.weight.as_deref(), Some("bold"));
}

#[test]
fn a_tick_records_pings_or_replays() {
    let create = |id: &str| IpcRequest {
        jsonrpc: "2.0".into(),
        method: "createRect".into(),
        params: JsonValue::Object(vec![("id".to_string(), JsonValue::String(id.into()))]),
        id: 0,
    };
    let mut tree = StateTree::new();
    assert!(matches!(tick_step(&mut tree, &vec![], FlushOutcome::Nothing), TickAction::Ping));
    assert!(matches!(
        tick_step(&mut tree, &vec![create("a")], FlushOutcome::Failed { crashed: true, restarted: true }),
        TickAction::Idle
    ));
    assert_eq!(tree.node_count(), 0);
    assert!(matches!(tick_step(&mut tree, &vec![create("a")], FlushOutcome::Sent), TickAction::Idle));
    assert_eq!(tree.node_count(), 1);
    assert_eq!(tree.version(), 1);
    assert!(matches!(
        tick_step(&mut tree, &vec![create("b")], FlushOutcome::Failed { crashed: true, restarted: false }),
        TickAction::Idle
    ));
    assert!(matches!(
        tick_step(&mut tree, &vec![create("b")], FlushOutcome::Failed { crashed: false, restarted: false }),
        TickAction::Idle
    ));
    match tick_step(&mut tree, &vec![create("b")], FlushOutcome::Failed { crashed: true, restarted: true }) {
        TickAction::Replay(rs) => {
            assert_eq!(rs.len(), 1);
            assert_eq!(rs[0].method, "createRect");
        }
        _ => panic!("expected a replay"),
    }
    assert_eq!(tree.node_count(), 1);
}
