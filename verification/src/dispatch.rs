//! Decisions of the host's main loop: the actions the dashboard requests, the events
//! it is told about, and where each flushed command goes.
use vstd::prelude::*;
use crate::ipc::{IpcRequest, METHOD_REMOVE_WIDGET};
use crate::json::{get_str, json_as_str, json_get, push_entry, object_shallow_is, JsonShallow, JsonValue};
use crate::state_tree::{param_str, str_or_empty, StateTree};
use crate::text::{chars_of, str_eq};
use crate::json_text::{json_text_value, json_value_text, parse_json, to_json_text};
use crate::scripts::{drop_event_script, drop_event_text};

verus! {

/// A plugin operation requested from the dashboard.
pub enum PluginAction {
    Start { plugin_id: String },
    Stop { plugin_id: String },
    Uninstall { plugin_id: String },
    ConfigUpdate { plugin_id: String, config_json: String },
}

/// An event pushed to the dashboard.
pub struct RuntimeEvent {
    pub event: String,
    pub plugin_id: String,
    pub crash_count: Option<u32>,
    pub memory_bytes: Option<u64>,
}

/// Where a flushed command goes.
#[derive(Debug, Clone, Copy, PartialEq, Eq, Structural)]
pub enum CommandRoute {
    /// `system.launch`: the host opens the given path.
    Launch,
    /// `plugin.log`: the host appends the message to the plugin's log.
    PluginLog,
    /// `storage.*`, `dialog.*`, `notification.*`: host commands not handled in v1; dropped.
    Skip,
    /// Anything else is a rendering command for the renderer process.
    Renderer,
}

/// `s` begins with `p`.
pub open spec fn has_prefix(s: Seq<char>, p: Seq<char>) -> bool {
    s.len() >= p.len() && s.take(p.len() as int) == p
}

/// Where a command with this method goes.
pub open spec fn route_spec(method: Seq<char>) -> CommandRoute {
    if method == "system.launch"@ {
        CommandRoute::Launch
    } else if method == "plugin.log"@ {
        CommandRoute::PluginLog
    } else if has_prefix(method, "storage."@) || has_prefix(method, "dialog."@) || has_prefix(
        method,
        "notification."@,
    ) {
        CommandRoute::Skip
    } else {
        CommandRoute::Renderer
    }
}

fn starts_with(s: &str, p: &str) -> (r: bool)
    ensures
        r == has_prefix(s@, p@),
{
    let cs = chars_of(s);
    let ps = chars_of(p);
    if cs.len() < ps.len() {
        return false;
    }
    let n = ps.len();
    for i in 0..n
        invariant
            n == ps@.len(),
            n <= cs@.len(),
            cs@ == s@,
            ps@ == p@,
            forall|j: int| 0 <= j < i ==> cs@[j] == ps@[j],
    {
        if cs[i] != ps[i] {
            proof {
                assert(s@.take(n as int)[i as int] != p@[i as int]);
            }
            return false;
        }
    }
    proof {
        assert(s@.take(n as int) =~= p@);
    }
    true
}

/// Where a flushed command goes: host commands are handled (or dropped) by the host,
/// everything else is sent to the renderer.
pub fn route_command(method: &str) -> (r: CommandRoute)
    ensures
        r == route_spec(method@),
{
    if str_eq(method, "system.launch") {
        CommandRoute::Launch
    } else if str_eq(method, "plugin.log") {
        CommandRoute::PluginLog
    } else if starts_with(method, "storage.") || starts_with(method, "dialog.") || starts_with(
        method,
        "notification.",
    ) {
        CommandRoute::Skip
    } else {
        CommandRoute::Renderer
    }
}

/// Frequent commands whose answers are not worth an info-level log line.
pub open spec fn is_quiet(method: Seq<char>) -> bool {
    method == "ping"@ || method == "setScale"@ || method == "setOpacity"@ || method == "addChild"@
        || method == "raise"@ || method == "lower"@
}

/// Whether the renderer's answer to this command is logged at info level.
pub fn logs_response(method: &str) -> (b: bool)
    ensures
        b == !is_quiet(method@),
{
    !(str_eq(method, "ping") || str_eq(method, "setScale") || str_eq(method, "setOpacity") || str_eq(
        method,
        "addChild",
    ) || str_eq(method, "raise") || str_eq(method, "lower"))
}

/// The commands that take every widget of the tree off the screen when a plugin stops:
/// one `removeWidget` per widget, in creation order.
pub fn removal_commands(tree: &StateTree) -> (r: Vec<IpcRequest>)
    requires
        tree.wf(),
    ensures
        r@.len() == tree@.order.len(),
        forall|i: int|
            0 <= i < r@.len() ==> (#[trigger] r@[i]).method@ == "removeWidget"@ && r@[i].jsonrpc@
                == "2.0"@ && r@[i].id == 0 && object_shallow_is(
                r@[i].params,
                seq![("id"@, JsonShallow::Str(tree@.nodes[tree@.order[i]].id))],
            ),
{
    let nodes = tree.all_nodes();
    let n = nodes.len();
    let mut out: Vec<IpcRequest> = Vec::new();
    for i in 0..n
        invariant
            n == nodes@.len(),
            nodes@.len() == tree@.order.len(),
            forall|j: int| 0 <= j < nodes@.len() ==> (#[trigger] nodes@[j])@ == tree@.nodes[tree@.order[j]],
            out@.len() == i,
            forall|j: int|
                0 <= j < i ==> (#[trigger] out@[j]).method@ == "removeWidget"@ && out@[j].jsonrpc@
                    == "2.0"@ && out@[j].id == 0 && object_shallow_is(
                    out@[j].params,
                    seq![("id"@, JsonShallow::Str(tree@.nodes[tree@.order[j]].id))],
                ),
    {
        let mut es: Vec<(String, JsonValue)> = Vec::new();
        push_entry(&mut es, "id", JsonValue::from_str(&nodes[i].id));
        let req = IpcRequest::command(METHOD_REMOVE_WIDGET, JsonValue::Object(es));
        proof {
            let ps = seq![("id"@, JsonShallow::Str(tree@.nodes[tree@.order[i as int]].id))];
            assert(nodes@[i as int]@ == tree@.nodes[tree@.order[i as int]]);
            assert forall|k: int| 0 <= k < ps.len() implies (#[trigger] es@[k]).0@ == ps[k].0
                && crate::json::shallow(es@[k].1) == ps[k].1 by {}
        }
        let ghost before = out@;
        out.push(req);
        proof {
            assert forall|j: int| 0 <= j < i + 1 implies (#[trigger] out@[j]).method@ == "removeWidget"@
                && out@[j].jsonrpc@ == "2.0"@ && out@[j].id == 0 && object_shallow_is(
                out@[j].params,
                seq![("id"@, JsonShallow::Str(tree@.nodes[tree@.order[j]].id))],
            ) by {
                if j < i {
                    assert(out@[j] == before[j]);
                }
            }
        }
    }
    out
}


fn str_param(params: &JsonValue, key: &str) -> (r: String)
    ensures
        r@ == str_or_empty(json_as_str(json_get(*params, key@))),
{
    match get_str(params, key) {
        Some(s) => s.to_owned(),
        None => String::new(),
    }
}

/// The path a `system.launch` command opens: its string `path` parameter, or empty.
pub fn launch_path(cmd: &IpcRequest) -> (r: String)
    ensures
        r@ == str_or_empty(param_str(*cmd, "path"@)),
{
    str_param(&cmd.params, "path")
}

/// The plugin and the message of a `plugin.log` command: its string `pluginId` and
/// `message` parameters, each empty when missing.
pub fn plugin_log_entry(cmd: &IpcRequest) -> (r: (String, String))
    ensures
        r.0@ == str_or_empty(param_str(*cmd, "pluginId"@)),
        r.1@ == str_or_empty(param_str(*cmd, "message"@)),
{
    (str_param(&cmd.params, "pluginId"), str_param(&cmd.params, "message"))
}

/// The widget a drop event is for: the string `params.widgetId` of the event, or empty.
pub fn drop_widget_id(event: &JsonValue) -> (r: String)
    ensures
        r@ == str_or_empty(
            match json_get(*event, "params"@) {
                Some(p) => json_as_str(json_get(p, "widgetId"@)),
                None => None,
            },
        ),
{
    match event.get("params") {
        Some(p) => str_param(p, "widgetId"),
        None => String::new(),
    }
}

/// The widget a drop event is for: the string `params.widgetId`, or empty.
pub open spec fn drop_widget_key(v: JsonValue) -> Seq<char> {
    str_or_empty(
        match json_get(v, "params"@) {
            Some(p) => json_as_str(json_get(p, "widgetId"@)),
            None => None,
        },
    )
}

/// The dropped paths of a drop event: `params.paths`, or `null` when it is missing.
pub open spec fn drop_paths(v: JsonValue) -> JsonValue {
    match json_get(v, "params"@) {
        Some(p) => match json_get(p, "paths"@) {
            Some(x) => x,
            None => JsonValue::Null,
        },
        None => JsonValue::Null,
    }
}

/// The script that an `onDrop` line of the renderer fires: the line is read as JSON, and
/// the widget's drop handler gets the printed JSON of `params.paths`. `None` when the
/// line is not JSON.
pub fn drop_event_from_line(json: &str) -> (r: Option<String>)
    ensures
        match json_text_value(json@) {
            Some(v) => r matches Some(s) && s@ == drop_event_text(drop_widget_key(v), json_value_text(drop_paths(v))),
            None => r is None,
        },
{
    match parse_json(json) {
        None => None,
        Some(v) => {
            let wid = drop_widget_id(&v);
            let null = JsonValue::Null;
            let paths: &JsonValue = match v.get("params") {
                Some(p) => match p.get("paths") {
                    Some(x) => x,
                    None => &null,
                },
                None => &null,
            };
            let paths_text = to_json_text(paths);
            Some(drop_event_script(wid.as_str(), paths_text.as_str()))
        },
    }
}

/// The request sent when nothing is pending, to make the renderer answer and so empty
/// its queue of events: `ping` with empty parameters and id 99999.
pub fn ping_request() -> (r: IpcRequest)
    ensures
        r.jsonrpc@ == "2.0"@,
        r.method@ == "ping"@,
        object_shallow_is(r.params, Seq::empty()),
        r.id == 99999,
{
    let r = IpcRequest { jsonrpc: "2.0".to_owned(), method: "ping".to_owned(), params: JsonValue::Object(Vec::new()), id: 99999 };
    proof {
        assert(r.params matches JsonValue::Object(es) && es@.len() == 0);
    }
    r
}

} // verus!
