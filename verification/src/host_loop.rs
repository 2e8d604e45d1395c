//! The decisions of the host's main loop that do not need the isolates or the renderer:
//! what an action from the dashboard does to the runtime registry and which event the
//! dashboard is then told, how the state tree follows the commands the renderer took
//! (and that replaying it to a fresh renderer recreates its widgets), and when the
//! plugin files are checked for changes.
use vstd::prelude::*;
use crate::dispatch::{PluginAction, RuntimeEvent};
use crate::ipc::IpcRequest;
use crate::registry::{RegistryView, RuntimeRegistry};
use crate::json::{object_shallow_is, shallow_opt_str, json_as_bool, json_as_i64, json_as_number, json_as_str, json_as_u64, json_get, lookup_entry, shallow, JsonShallow, JsonValue, NumberView};
use crate::state_tree::{
    all_child_commands, all_create_commands, all_match, all_property_commands, apply_spec, child_commands,
    command_matches, create_command, create_method, created_node, differs_from_one, float_of, lemma_apply_version, one,
    num_i32, num_u32, param_str, without, property_commands, replay_plan, add_child_command, PlannedCommand, type_of_method, Bounds, StateTree, StateTreeView, WidgetNodeView,
    WidgetType,
};

verus! {

/// Every how many ticks of the loop (16 ms each) the plugin files are checked.
pub const HOT_RELOAD_EVERY: u64 = 60;

/// Whether this tick of the loop checks the plugin files for changes.
pub fn is_hot_reload_tick(tick: u64) -> (b: bool)
    ensures
        b == (tick % HOT_RELOAD_EVERY == 0),
{
    tick % HOT_RELOAD_EVERY == 0
}

/// The plugin an action is about.
pub open spec fn action_plugin(a: PluginAction) -> Seq<char> {
    match a {
        PluginAction::Start { plugin_id } => plugin_id@,
        PluginAction::Stop { plugin_id } => plugin_id@,
        PluginAction::Uninstall { plugin_id } => plugin_id@,
        PluginAction::ConfigUpdate { plugin_id, .. } => plugin_id@,
    }
}

/// The dashboard event an action leads to: `plugin_started`, `plugin_stopped` or
/// `plugin_uninstalled` (without counts); a configuration update leads to none.
pub open spec fn action_event(a: PluginAction) -> Option<Seq<char>> {
    match a {
        PluginAction::Start { .. } => Some("plugin_started"@),
        PluginAction::Stop { .. } => Some("plugin_stopped"@),
        PluginAction::Uninstall { .. } => Some("plugin_uninstalled"@),
        PluginAction::ConfigUpdate { .. } => None,
    }
}

/// An event for the dashboard about a plugin, without counts.
pub fn runtime_event(event: &str, plugin_id: &str) -> (r: RuntimeEvent)
    ensures
        r.event@ == event@,
        r.plugin_id@ == plugin_id@,
        r.crash_count is None,
        r.memory_bytes is None,
{
    RuntimeEvent { event: event.to_owned(), plugin_id: plugin_id.to_owned(), crash_count: None, memory_bytes: None }
}

/// What an action does to the runtime registry (after the isolate work): a started
/// plugin is marked `running` and a stopped one `stopped` (when registered; otherwise
/// nothing changes), an uninstalled one is unregistered with its monitoring data, a
/// configuration update changes nothing. Returns the event for the dashboard.
pub fn apply_action(action: &PluginAction, registry: &mut RuntimeRegistry) -> (r: Option<RuntimeEvent>)
    requires
        old(registry).wf(),
    ensures
        final(registry).wf(),
        match r {
            Some(e) => action_event(*action) == Some(e.event@) && e.plugin_id@ == action_plugin(*action)
                && e.crash_count is None && e.memory_bytes is None,
            None => action_event(*action) is None,
        },
        ({
            let id = action_plugin(*action);
            let reg = old(registry)@;
            let after = final(registry)@;
            match *action {
                PluginAction::Start { .. } | PluginAction::Stop { .. } => {
                    let status = if action is Start {
                        "running"@
                    } else {
                        "stopped"@
                    };
                    &&& after.crashes == reg.crashes
                    &&& after.memory == reg.memory
                    &&& after.heartbeats == reg.heartbeats
                    &&& after.entries.dom() == reg.entries.dom()
                    &&& forall|k: Seq<char>| #[trigger]
                        reg.entries.dom().contains(k) && k != id ==> after.entries[k] == reg.entries[k]
                    &&& reg.entries.dom().contains(id) ==> after.entries[id].id == reg.entries[id].id
                        && after.entries[id].runtime_type == reg.entries[id].runtime_type
                        && after.entries[id].status@ == status
                },
                PluginAction::Uninstall { .. } => if reg.entries.dom().contains(id) {
                    after == (RegistryView {
                        entries: reg.entries.remove(id),
                        crashes: reg.crashes.remove(id),
                        memory: reg.memory.remove(id),
                        heartbeats: reg.heartbeats.remove(id),
                    })
                } else {
                    after == reg
                },
                PluginAction::ConfigUpdate { .. } => after == reg,
            }
        }),
{
    match action {
        PluginAction::Start { plugin_id } => {
            let _ = registry.update_status(plugin_id.as_str(), "running");
            Some(runtime_event("plugin_started", plugin_id.as_str()))
        },
        PluginAction::Stop { plugin_id } => {
            let _ = registry.update_status(plugin_id.as_str(), "stopped");
            Some(runtime_event("plugin_stopped", plugin_id.as_str()))
        },
        PluginAction::Uninstall { plugin_id } => {
            let _ = registry.unregister(plugin_id.as_str());
            Some(runtime_event("plugin_uninstalled", plugin_id.as_str()))
        },
        PluginAction::ConfigUpdate { .. } => None,
    }
}

/// The state after applying the commands one after the other.
pub open spec fn apply_all(t: StateTreeView, reqs: Seq<IpcRequest>) -> StateTreeView
    decreases reqs.len(),
{
    if reqs.len() == 0 {
        t
    } else {
        apply_spec(apply_all(t, reqs.drop_last()), reqs.last())
    }
}

/// Applying commands raises the version by at most one per command.
pub proof fn lemma_apply_all_version(t: StateTreeView, reqs: Seq<IpcRequest>)
    requires
        t.version + reqs.len() < u64::MAX,
    ensures
        t.version <= apply_all(t, reqs).version <= t.version + reqs.len(),
    decreases reqs.len(),
{
    if reqs.len() > 0 {
        lemma_apply_all_version(t, reqs.drop_last());
        lemma_apply_version(apply_all(t, reqs.drop_last()), reqs.last());
    }
}

/// Brings the state tree up to date with a batch the renderer took: each command is
/// applied in order (see `apply_spec`).
pub fn sync_state_tree(tree: &mut StateTree, batch: &Vec<IpcRequest>)
    requires
        old(tree).wf(),
        old(tree)@.version + batch@.len() < u64::MAX,
    ensures
        final(tree).wf(),
        final(tree)@ == apply_all(old(tree)@, batch@),
{
    let n = batch.len();
    proof {
        assert(batch@.take(0) =~= Seq::<IpcRequest>::empty());
    }
    for i in 0..n
        invariant
            n == batch@.len(),
            tree.wf(),
            old(tree)@.version + n < u64::MAX,
            tree@ == apply_all(old(tree)@, batch@.take(i as int)),
    {
        proof {
            assert(batch@.take(i + 1).drop_last() =~= batch@.take(i as int));
            lemma_apply_all_version(old(tree)@, batch@.take(i as int));
        }
        let _ = tree.apply_ipc(&batch[i]);
    }
    proof {
        assert(batch@.take(n as int) =~= batch@);
    }
}


/// What became of a frame's batch of widget commands.
pub enum FlushOutcome {
    /// The batch was empty.
    Nothing,
    /// The renderer took the batch.
    Sent,
    /// Sending failed; whether the renderer was found to have crashed, and whether it was
    /// then restarted.
    Failed { crashed: bool, restarted: bool },
}

/// What the loop does next in a tick.
pub enum TickAction {
    /// Send a `ping` so that the renderer answers and its queued events are read.
    Ping,
    /// Send these commands to the restarted renderer to rebuild its widgets.
    Replay(Vec<IpcRequest>),
    /// Nothing more this tick.
    Idle,
}

/// One tick of the host loop after the frame's batch was handed to the renderer. The
/// state tree advances only by a batch the renderer took: it then becomes the tree with
/// each command of the batch applied in order, and otherwise it stays as it was. An empty
/// batch is followed by a ping; after a failed batch, when the renderer had crashed and
/// was restarted, the replay of the (unchanged) tree is sent to it, unless it is empty.
pub fn tick_step(tree: &mut StateTree, batch: &Vec<IpcRequest>, outcome: FlushOutcome) -> (a: TickAction)
    requires
        old(tree).wf(),
        outcome is Sent ==> old(tree)@.version + batch@.len() < u64::MAX,
    ensures
        final(tree).wf(),
        outcome is Sent ==> final(tree)@ == apply_all(old(tree)@, batch@),
        !(outcome is Sent) ==> final(tree)@ == old(tree)@,
        match outcome {
            FlushOutcome::Nothing => a is Ping,
            FlushOutcome::Sent => a is Idle,
            FlushOutcome::Failed { crashed, restarted } => if crashed && restarted && replay_plan(old(tree)@).len() > 0 {
                a matches TickAction::Replay(rs) && all_match(rs@, replay_plan(old(tree)@))
            } else {
                a is Idle
            },
        },
{
    match outcome {
        FlushOutcome::Nothing => TickAction::Ping,
        FlushOutcome::Sent => {
            sync_state_tree(tree, batch);
            TickAction::Idle
        },
        FlushOutcome::Failed { crashed, restarted } => {
            if crashed && restarted {
                let replay = tree.generate_replay_commands();
                if replay.len() > 0 {
                    TickAction::Replay(replay)
                } else {
                    TickAction::Idle
                }
            } else {
                TickAction::Idle
            }
        },
    }
}

/// The shape of a tree that renderer commands build: the creation order lists each
/// widget once, each widget is stored under its own, non-empty id, and no widget lists
/// a child twice.
pub open spec fn built_by_commands(t: StateTreeView) -> bool {
    &&& t.order.no_duplicates()
    &&& t.nodes.dom() == t.order.to_set()
    &&& forall|k: Seq<char>|
        #[trigger] t.nodes.dom().contains(k) ==> t.nodes[k].id == k && k.len() > 0 && t.nodes[k].children.no_duplicates()
}

/// Removing every occurrence of `x` keeps the others, so no element comes twice.
proof fn lemma_without_distinct(s: Seq<Seq<char>>, x: Seq<char>)
    requires
        s.no_duplicates(),
    ensures
        without(s, x).no_duplicates(),
        forall|y: Seq<char>| #[trigger] without(s, x).contains(y) ==> s.contains(y),
    decreases s.len(),
{
    if s.len() > 0 {
        let init = s.drop_last();
        assert forall|i: int, j: int| 0 <= i < j < init.len() implies init[i] != init[j] by {
            assert(init[i] == s[i] && init[j] == s[j]);
        }
        lemma_without_distinct(init, x);
        let r = without(init, x);
        assert forall|y: Seq<char>| #[trigger] without(s, x).contains(y) implies s.contains(y) by {
            if r.contains(y) {
                let i = choose|i: int| 0 <= i < init.len() && init[i] == y;
                assert(s[i] == y);
            } else {
                assert(s[s.len() - 1] == y);
            }
        }
        if s.last() != x {
            assert forall|i: int, j: int| 0 <= i < j < r.push(s.last()).len() implies r.push(s.last())[i]
                != r.push(s.last())[j] by {
                if j == r.len() {
                    assert(r.push(s.last())[i] == r[i]);
                    assert(r.contains(r[i]));
                    if r[i] == s.last() {
                        let k = choose|k: int| 0 <= k < init.len() && init[k] == s.last();
                        assert(s[k] == s[s.len() - 1]);
                    }
                }
            }
        }
    }
}

/// A command that creates nothing keeps every widget's children distinct.
proof fn lemma_apply_keeps_children_distinct(t: StateTreeView, req: IpcRequest)
    requires
        built_by_commands(t),
        type_of_method(req.method@) is None,
    ensures
        forall|k: Seq<char>|
            #[trigger] apply_spec(t, req).nodes.dom().contains(k) ==> apply_spec(t, req).nodes[k].children.no_duplicates(),
{
    let u = apply_spec(t, req);
    lemma_apply_keeps_shape(t, req);
    let parent = crate::state_tree::str_or_empty(param_str(req, "parentId"@));
    let child = crate::state_tree::str_or_empty(param_str(req, "childId"@));
    assert forall|k: Seq<char>| #[trigger] u.nodes.dom().contains(k) implies u.nodes[k].children.no_duplicates() by {
        assert(t.nodes.dom().contains(k));
        let cs = t.nodes[k].children;
        if u.nodes[k].children != cs {
            if req.method@ == "addChild"@ {
                assert(k == parent);
                assert(u.nodes[k].children == cs.push(child));
                assert forall|i: int, j: int| 0 <= i < j < cs.push(child).len() implies cs.push(child)[i]
                    != cs.push(child)[j] by {
                    if j == cs.len() {
                        assert(cs.push(child)[i] == cs[i]);
                        assert(cs.contains(cs[i]));
                    }
                }
            } else {
                lemma_without_distinct(cs, child);
            }
        }
    }
}

/// The empty tree a fresh host starts from.
pub open spec fn empty_tree() -> StateTreeView {
    StateTreeView { version: 0, nodes: Map::empty(), order: Seq::empty() }
}

/// A fresh host's tree has that shape.
pub proof fn lemma_empty_built()
    ensures
        built_by_commands(empty_tree()),
{
    assert(empty_tree().nodes.dom() =~= empty_tree().order.to_set());
}

/// A command that creates nothing keeps the tree's widgets, their order, ids and kinds.
proof fn lemma_apply_keeps_shape(t: StateTreeView, req: IpcRequest)
    requires
        type_of_method(req.method@) is None,
    ensures
        apply_spec(t, req).order == t.order,
        apply_spec(t, req).nodes.dom() == t.nodes.dom(),
        forall|k: Seq<char>|
            #[trigger] t.nodes.dom().contains(k) ==> apply_spec(t, req).nodes[k].id == t.nodes[k].id
                && apply_spec(t, req).nodes[k].widget_type == t.nodes[k].widget_type,
{
    let u = apply_spec(t, req);
    if u != t {
        let m = req.method@;
        let id = crate::state_tree::str_or_empty(param_str(req, "id"@));
        let parent = crate::state_tree::str_or_empty(param_str(req, "parentId"@));
        if m == "setScale"@ || m == "setOpacity"@ || m == "setBlur"@ {
            assert(u.nodes.dom() =~= t.nodes.dom());
        } else {
            assert(u.nodes.dom() =~= t.nodes.dom());
        }
    }
}


/// The creation methods are told apart from each other and from the other commands of a
/// replay.
proof fn lemma_method_names()
    ensures
        forall|t: WidgetType| #[trigger] type_of_method(create_method(t)) == Some(t),
        type_of_method("setScale"@) is None,
        type_of_method("setOpacity"@) is None,
        type_of_method("addChild"@) is None,
{
    reveal_strlit("createRect");
    reveal_strlit("createIcon");
    reveal_strlit("createText");
    reveal_strlit("setScale");
    reveal_strlit("setOpacity");
    reveal_strlit("addChild");
    assert("createRect"@[6] == 'R' && "createIcon"@[6] == 'I' && "createText"@[6] == 'T');
    assert("setScale"@[0] == 's' && "setOpacity"@[0] == 's' && "addChild"@[0] == 'a');
    assert("createRect"@[0] == 'c' && "createIcon"@[0] == 'c' && "createText"@[0] == 'c');
    assert forall|t: WidgetType| #[trigger] type_of_method(create_method(t)) == Some(t) by {
        match t {
            WidgetType::Rect => {},
            WidgetType::Icon => {
                assert(create_method(t)[6] != "createRect"@[6]);
            },
            WidgetType::Text => {
                assert(create_method(t)[6] != "createRect"@[6]);
                assert(create_method(t)[6] != "createIcon"@[6]);
            },
        }
    }
    assert("setOpacity"@ != "createRect"@) by {
        assert("setOpacity"@[0] != "createRect"@[0]);
    }
    assert("setOpacity"@ != "createIcon"@) by {
        assert("setOpacity"@[0] != "createIcon"@[0]);
    }
    assert("setOpacity"@ != "createText"@) by {
        assert("setOpacity"@[0] != "createText"@[0]);
    }
}

/// A sequence with one more element holds exactly the old elements and the new one.
proof fn lemma_push_to_set(s: Seq<Seq<char>>, x: Seq<char>)
    ensures
        s.push(x).to_set() == s.to_set().insert(x),
{
    assert forall|k: Seq<char>| s.push(x).to_set().contains(k) <==> s.to_set().insert(x).contains(k) by {
        if s.contains(k) {
            let i = choose|i: int| 0 <= i < s.len() && s[i] == k;
            assert(s.push(x)[i] == k);
        }
        if s.push(x).contains(k) && k != x {
            let i = choose|i: int| 0 <= i < s.push(x).len() && s.push(x)[i] == k;
            assert(s[i] == k);
        }
        if k == x {
            assert(s.push(x)[s.len() as int] == x);
        }
    }
    assert(s.push(x).to_set() =~= s.to_set().insert(x));
}

/// Every tree built from the empty tree by renderer commands has the shape of
/// `built_by_commands`: applying a command keeps that shape.
pub proof fn lemma_apply_keeps_built(t: StateTreeView, req: IpcRequest)
    requires
        built_by_commands(t),
    ensures
        built_by_commands(apply_spec(t, req)),
{
    let u = apply_spec(t, req);
    match type_of_method(req.method@) {
        Some(ty) => {
            let id = crate::state_tree::str_or_empty(param_str(req, "id"@));
            if u != t {
                assert(!t.order.contains(id)) by {
                    if t.order.contains(id) {
                        assert(t.order.to_set().contains(id));
                    }
                }
                assert(u.order == t.order.push(id));
                assert(u.nodes.dom() == t.nodes.dom().insert(id));
                lemma_push_to_set(t.order, id);
                assert forall|i: int, j: int| 0 <= i < j < u.order.len() implies u.order[i] != u.order[j] by {
                    if j == u.order.len() - 1 {
                        assert(t.order.contains(t.order[i]));
                    }
                }
            }
        },
        None => {
            lemma_apply_keeps_shape(t, req);
            lemma_apply_keeps_children_distinct(t, req);
        },
    }
}

proof fn lemma_plan_tail_creates_nothing(t: StateTreeView, order: Seq<Seq<char>>)
    ensures
        forall|i: int|
            0 <= i < all_property_commands(order, t.nodes).len() ==> type_of_method(
                #[trigger] all_property_commands(order, t.nodes)[i].method,
            ) is None,
        forall|i: int|
            0 <= i < all_child_commands(order, t.nodes).len() ==> type_of_method(
                #[trigger] all_child_commands(order, t.nodes)[i].method,
            ) is None,
    decreases order.len(),
{
    if order.len() > 0 {
        lemma_plan_tail_creates_nothing(t, order.drop_last());
        let a = all_property_commands(order.drop_last(), t.nodes);
        let pc = property_commands(t.nodes[order.last()]);
        lemma_method_names();
        assert forall|i: int| 0 <= i < (a + pc).len() implies type_of_method(#[trigger] (a + pc)[i].method) is None by {
            if i >= a.len() {
                let x = pc[i - a.len()];
                assert(x.method == "setScale"@ || x.method == "setOpacity"@);
            }
        }
        let b = all_child_commands(order.drop_last(), t.nodes);
        let cc = child_commands(t.nodes[order.last()]);
        assert forall|i: int| 0 <= i < (b + cc).len() implies type_of_method(#[trigger] (b + cc)[i].method) is None by {
            if i >= b.len() {
                assert(cc[i - b.len()].method == "addChild"@);
            }
        }
    }
}

/// The text of a request's `id` parameter, when the request carries the planned
/// creation command of a widget: the widget's id.
proof fn lemma_create_request_id(r: IpcRequest, n: WidgetNodeView)
    requires
        command_matches(r, create_command(n)),
    ensures
        param_str(r, "id"@) == Some(n.id),
        type_of_method(r.method@) == Some(n.widget_type),
{
    reveal_strlit("createRect");
    reveal_strlit("createIcon");
    reveal_strlit("createText");
    lemma_method_names();
    assert(create_command(n).method == create_method(n.widget_type));
    let es = r.params->Object_0;
    assert(es@.len() > 0);
    assert(es@[0].0@ == "id"@);
    assert(shallow(es@[0].1) == JsonShallow::Str(n.id));
    assert(crate::json::lookup_entry(es@, "id"@) == Some(es@[0].1));
}

proof fn lemma_create_phase(t: StateTreeView, rs: Seq<IpcRequest>, i: int)
    requires
        built_by_commands(t),
        all_match(rs, replay_plan(t)),
        0 <= i <= t.order.len(),
    ensures
        apply_all(empty_tree(), rs.take(i)).order == t.order.take(i),
        apply_all(empty_tree(), rs.take(i)).nodes.dom() == t.order.take(i).to_set(),
        forall|k: Seq<char>|
            #[trigger] apply_all(empty_tree(), rs.take(i)).nodes.dom().contains(k)
                ==> apply_all(empty_tree(), rs.take(i)).nodes[k].widget_type == t.nodes[k].widget_type,
        forall|k: Seq<char>|
            #[trigger] apply_all(empty_tree(), rs.take(i)).nodes.dom().contains(k)
                ==> apply_all(empty_tree(), rs.take(i)).nodes[k] == created_form(t.nodes[k]),
    decreases i,
{
    if i == 0 {
        assert(rs.take(0).len() == 0);
        assert(empty_tree().nodes.dom() =~= t.order.take(0).to_set());
        assert(t.order.take(0) =~= Seq::<Seq<char>>::empty());
    } else {
        let i0 = i - 1;
        lemma_create_phase(t, rs, i0);
        let plan = replay_plan(t);
        let creates = all_create_commands(t.order, t.nodes);
        let a = apply_all(empty_tree(), rs.take(i0));
        assert(rs.take(i).drop_last() =~= rs.take(i0));
        assert(plan[i0] == creates[i0]);
        let key = t.order[i0];
        assert(t.order.to_set().contains(key));
        let nv = t.nodes[key];
        assert(command_matches(rs[i0], create_command(nv)));
        lemma_create_request_id(rs[i0], nv);
        lemma_created_form(rs[i0], nv);
        assert(!a.nodes.dom().contains(key)) by {
            if a.nodes.dom().contains(key) {
                let j = choose|j: int| 0 <= j < i0 && t.order.take(i0)[j] == key;
                assert(t.order[j] == t.order[i0]);
            }
        }
        let b = apply_all(empty_tree(), rs.take(i));
        assert(b == apply_spec(a, rs[i0]));
        assert(b.order == a.order.push(key));
        assert(t.order.take(i) =~= t.order.take(i0).push(key));
        assert(b.nodes.dom() == a.nodes.dom().insert(key));
        lemma_push_to_set(t.order.take(i0), key);
    }
}

proof fn lemma_tail_phase(t: StateTreeView, rs: Seq<IpcRequest>, j: int)
    requires
        built_by_commands(t),
        all_match(rs, replay_plan(t)),
        t.order.len() <= j <= rs.len(),
    ensures
        apply_all(empty_tree(), rs.take(j)).order == t.order,
        apply_all(empty_tree(), rs.take(j)).nodes.dom() == t.nodes.dom(),
        forall|k: Seq<char>|
            #[trigger] t.nodes.dom().contains(k) ==> apply_all(empty_tree(), rs.take(j)).nodes[k].widget_type
                == t.nodes[k].widget_type,
    decreases j,
{
    let n = t.order.len() as int;
    if j == n {
        lemma_create_phase(t, rs, n);
        assert(t.order.take(n) =~= t.order);
    } else {
        let j0 = j - 1;
        lemma_tail_phase(t, rs, j0);
        lemma_plan_tail_creates_nothing(t, t.order);
        let plan = replay_plan(t);
        let creates = all_create_commands(t.order, t.nodes);
        let p = all_property_commands(t.order, t.nodes);
        let c = all_child_commands(t.order, t.nodes);
        let a = apply_all(empty_tree(), rs.take(j0));
        assert(rs.take(j).drop_last() =~= rs.take(j0));
        assert(plan == creates + p + c);
        if j0 < n + p.len() {
            assert(plan[j0] == p[j0 - n]);
            assert(type_of_method(p[j0 - n].method) is None);
        } else {
            assert(plan[j0] == c[j0 - n - p.len()]);
            assert(type_of_method(c[j0 - n - p.len()].method) is None);
        }
        assert(command_matches(rs[j0], plan[j0]));
        lemma_apply_keeps_shape(a, rs[j0]);
    }
}

/// A full replay into an empty tree recreates the replayed tree, when that tree has the
/// shape that renderer commands build (see `lemma_apply_keeps_built`): the same widgets
/// in the same creation order, and each widget as `replayed_node` describes it — the
/// same kind, position and children, the same scale and opacity where they differ from
/// 1.0 (1.0 otherwise), and the same attributes its kind's creation command carries.
pub proof fn lemma_replay_recreates_widgets(t: StateTreeView, rs: Seq<IpcRequest>)
    requires
        built_by_commands(t),
        all_match(rs, replay_plan(t)),
    ensures
        apply_all(empty_tree(), rs).order == t.order,
        apply_all(empty_tree(), rs).nodes.dom() == t.nodes.dom(),
        forall|k: Seq<char>|
            #[trigger] t.nodes.dom().contains(k) ==> apply_all(empty_tree(), rs).nodes[k].widget_type
                == t.nodes[k].widget_type,
        forall|k: Seq<char>|
            #![trigger t.nodes.dom().contains(k)]
            t.nodes.dom().contains(k) ==> apply_all(empty_tree(), rs).nodes[k] == replayed_node(t.nodes[k]),
{
    assert(replay_plan(t).len() == rs.len());
    let n = t.order.len() as int;
    let cr = all_create_commands(t.order, t.nodes);
    let p = all_property_commands(t.order, t.nodes);
    let c = all_child_commands(t.order, t.nodes);
    assert(cr.len() == n);
    lemma_tail_phase(t, rs, rs.len() as int);
    assert(rs.take(rs.len() as int) =~= rs);
    assert(replay_plan(t) == (cr + p) + c);
    lemma_all_match_split(rs, cr + p, c);
    let r12 = rs.take((cr + p).len() as int);
    let r3 = rs.skip((cr + p).len() as int);
    lemma_all_match_split(r12, cr, p);
    let r1 = r12.take(n);
    let r2 = r12.skip(n);
    assert(r1 =~= rs.take(n));
    lemma_create_phase(t, rs, n);
    assert(t.order.take(n) =~= t.order);
    let e = empty_tree();
    let s1 = apply_all(e, r1);
    assert(s1.nodes.dom() == t.nodes.dom());
    assert forall|j: int| 0 <= j < t.order.len() implies s1.nodes.dom().contains(#[trigger] t.order[j])
        && t.nodes[t.order[j]].id == t.order[j] by {
        assert(t.order.to_set().contains(t.order[j]));
    }
    lemma_props_phase(s1, r2, t.order, t.nodes);
    lemma_apply_all_concat(e, r1, r2);
    let s2 = apply_all(s1, r2);
    lemma_per_node_dom(s1.nodes, t.order, t.nodes, true);
    assert forall|j: int| 0 <= j < t.order.len() implies s2.nodes.dom().contains(#[trigger] t.order[j])
        && t.nodes[t.order[j]].id == t.order[j] by {
        assert(t.order.to_set().contains(t.order[j]));
    }
    lemma_children_phase(s2, r3, t.order, t.nodes);
    lemma_apply_all_concat(e, r12, r3);
    let s3 = apply_all(s2, r3);
    assert(apply_all(e, rs) == s3);
    assert forall|k: Seq<char>| #![trigger t.nodes.dom().contains(k)] t.nodes.dom().contains(k) implies s3.nodes[k]
        == replayed_node(t.nodes[k]) by {
        let nk = t.nodes[k];
        assert(t.order.to_set().contains(k));
        assert forall|j: int| 0 <= j < t.order.len() implies s1.nodes.dom().contains(#[trigger] t.order[j]) by {
            assert(t.order.to_set().contains(t.order[j]));
        }
        lemma_per_node_at(s1.nodes, t.order, t.nodes, true, k);
        lemma_per_node_at(s2.nodes, t.order, t.nodes, false, k);
        lemma_add_each_distinct(nk.children);
        assert(s1.nodes[k] == created_form(nk));
        assert(s3.nodes[k] == replayed_node(nk));
    }
}

/// A widget as a full replay recreates it from `n`: its id, kind, position and children;
/// its scale and opacity as floats (`float_of`) where they differ from 1.0 (1.0
/// otherwise); and the attributes its creation command carries — for a rectangle its
/// size, blur, radius and colour, for an icon its size and image, for a text its text,
/// size, colour and weight. The attributes its kind's creation command does not carry
/// are zero or absent.
pub open spec fn replayed_node(n: WidgetNodeView) -> WidgetNodeView {
    let rect = n.widget_type == WidgetType::Rect;
    let icon = n.widget_type == WidgetType::Icon;
    let text = n.widget_type == WidgetType::Text;
    WidgetNodeView {
        id: n.id,
        widget_type: n.widget_type,
        bounds: Bounds {
            x: n.bounds.x,
            y: n.bounds.y,
            w: if rect { n.bounds.w } else { 0 },
            h: if rect { n.bounds.h } else { 0 },
        },
        scale: if differs_from_one(n.scale) { float_of(n.scale) } else { one() },
        opacity: if differs_from_one(n.opacity) { float_of(n.opacity) } else { one() },
        blur: if rect { n.blur } else { false },
        children: n.children,
        color: if rect || text { n.color } else { None },
        text: if text { n.text } else { None },
        src: if icon { n.src } else { None },
        radius: if rect { n.radius } else { 0 },
        size: if icon || text { n.size } else { 0 },
        weight: if text { n.weight } else { None },
    }
}

/// A widget right after its creation command in a replay.
spec fn created_form(n: WidgetNodeView) -> WidgetNodeView {
    WidgetNodeView { scale: one(), opacity: one(), children: Seq::empty(), ..replayed_node(n) }
}

/// Entries whose keys and top-level values are those of `sh`.
spec fn entries_shallow(es: Seq<(String, JsonValue)>, sh: Seq<(Seq<char>, JsonShallow)>) -> bool {
    &&& es.len() == sh.len()
    &&& forall|j: int| 0 <= j < sh.len() ==> (#[trigger] es[j]).0@ == sh[j].0 && shallow(es[j].1) == sh[j].1
}

/// The first entry with key `key` is at position `i`.
proof fn lemma_lookup_at(es: Seq<(String, JsonValue)>, sh: Seq<(Seq<char>, JsonShallow)>, key: Seq<char>, i: int)
    requires
        entries_shallow(es, sh),
        0 <= i < sh.len(),
        sh[i].0 == key,
        forall|j: int| 0 <= j < i ==> (#[trigger] sh[j]).0 != key,
    ensures
        lookup_entry(es, key) == Some(es[i].1),
        shallow(es[i].1) == sh[i].1,
    decreases i,
{
    assert(es[0].0@ == sh[0].0);
    if i > 0 {
        assert(sh[0].0 != key);
        assert forall|j: int| 0 <= j < sh.drop_first().len() implies (#[trigger] es.drop_first()[j]).0@
            == sh.drop_first()[j].0 && shallow(es.drop_first()[j].1) == sh.drop_first()[j].1 by {
            assert(es.drop_first()[j] == es[j + 1]);
            assert(sh.drop_first()[j] == sh[j + 1]);
        }
        assert forall|j: int| 0 <= j < i - 1 implies (#[trigger] sh.drop_first()[j]).0 != key by {
            assert(sh.drop_first()[j] == sh[j + 1]);
        }
        lemma_lookup_at(es.drop_first(), sh.drop_first(), key, i - 1);
        assert(es.drop_first()[i - 1] == es[i]);
    }
}

/// No entry has key `key`.
proof fn lemma_lookup_missing(es: Seq<(String, JsonValue)>, sh: Seq<(Seq<char>, JsonShallow)>, key: Seq<char>)
    requires
        entries_shallow(es, sh),
        forall|j: int| 0 <= j < sh.len() ==> (#[trigger] sh[j]).0 != key,
    ensures
        lookup_entry(es, key) is None,
    decreases es.len(),
{
    if es.len() > 0 {
        assert(es[0].0@ == sh[0].0);
        assert forall|j: int| 0 <= j < sh.drop_first().len() implies (#[trigger] es.drop_first()[j]).0@
            == sh.drop_first()[j].0 && shallow(es.drop_first()[j].1) == sh.drop_first()[j].1 by {
            assert(es.drop_first()[j] == es[j + 1]);
            assert(sh.drop_first()[j] == sh[j + 1]);
        }
        assert forall|j: int| 0 <= j < sh.drop_first().len() implies (#[trigger] sh.drop_first()[j]).0 != key by {
            assert(sh.drop_first()[j] == sh[j + 1]);
        }
        lemma_lookup_missing(es.drop_first(), sh.drop_first(), key);
    }
}

/// The parameter names of the replay's commands are told apart.
proof fn lemma_key_names()
    ensures
        "id"@.len() == 2 && "id"@[0] == 'i',
        "x"@.len() == 1 && "x"@[0] == 'x',
        "y"@.len() == 1 && "y"@[0] == 'y',
        "w"@.len() == 1 && "w"@[0] == 'w',
        "h"@.len() == 1 && "h"@[0] == 'h',
        "blur"@.len() == 4 && "blur"@[0] == 'b',
        "radius"@.len() == 6 && "radius"@[0] == 'r',
        "color"@.len() == 5 && "color"@[0] == 'c',
        "size"@.len() == 4 && "size"@[0] == 's',
        "src"@.len() == 3 && "src"@[0] == 's',
        "text"@.len() == 4 && "text"@[0] == 't',
        "weight"@.len() == 6 && "weight"@[0] == 'w',
        "scale"@.len() == 5 && "scale"@[0] == 's',
        "opacity"@.len() == 7 && "opacity"@[0] == 'o',
        "parentId"@.len() == 8 && "parentId"@[0] == 'p',
        "childId"@.len() == 7 && "childId"@[0] == 'c',
        "enabled"@.len() == 7 && "enabled"@[0] == 'e',
{
    reveal_strlit("id");
    reveal_strlit("x");
    reveal_strlit("y");
    reveal_strlit("w");
    reveal_strlit("h");
    reveal_strlit("blur");
    reveal_strlit("radius");
    reveal_strlit("color");
    reveal_strlit("size");
    reveal_strlit("src");
    reveal_strlit("text");
    reveal_strlit("weight");
    reveal_strlit("scale");
    reveal_strlit("opacity");
    reveal_strlit("parentId");
    reveal_strlit("childId");
    reveal_strlit("enabled");
}

proof fn lemma_i32_field(v: JsonValue, x: i32)
    requires
        shallow(v) == num_i32(x),
    ensures
        json_as_i64(Some(v)).unwrap_or(0) as i32 == x,
{
    let num = v->Number_0;
    if x < 0 {
        assert(num == crate::json::JsonNumber::NegInt(x as i64));
    } else {
        assert(num == crate::json::JsonNumber::PosInt(x as u64));
    }
}

proof fn lemma_u32_field(v: JsonValue, x: u32)
    requires
        shallow(v) == num_u32(x),
    ensures
        json_as_u64(Some(v)).unwrap_or(0) as u32 == x,
{
    assert(v->Number_0 == crate::json::JsonNumber::PosInt(x as u64));
}

proof fn lemma_str_field(v: JsonValue, o: Option<Seq<char>>)
    requires
        shallow(v) == shallow_opt_str(o),
    ensures
        json_as_str(Some(v)) == o,
{
}

/// The widget that a request carrying the planned creation command of `n` creates.
proof fn lemma_created_form(r: IpcRequest, n: WidgetNodeView)
    requires
        command_matches(r, create_command(n)),
    ensures
        created_node(r, n.id, n.widget_type) == created_form(n),
{
    lemma_key_names();
    let sh = create_command(n).params;
    let es = r.params->Object_0@;
    assert(object_shallow_is(r.params, sh));
    assert(entries_shallow(es, sh));
    let c = created_node(r, n.id, n.widget_type);
    let f = created_form(n);
    match n.widget_type {
        WidgetType::Rect => {
            lemma_lookup_at(es, sh, "x"@, 1);
            lemma_lookup_at(es, sh, "y"@, 2);
            lemma_lookup_at(es, sh, "w"@, 3);
            lemma_lookup_at(es, sh, "h"@, 4);
            lemma_lookup_at(es, sh, "blur"@, 5);
            lemma_lookup_at(es, sh, "radius"@, 6);
            lemma_lookup_at(es, sh, "color"@, 7);
            lemma_lookup_missing(es, sh, "text"@);
            lemma_lookup_missing(es, sh, "src"@);
            lemma_lookup_missing(es, sh, "size"@);
            lemma_lookup_missing(es, sh, "weight"@);
            lemma_i32_field(es[1].1, n.bounds.x);
            lemma_i32_field(es[2].1, n.bounds.y);
            lemma_i32_field(es[3].1, n.bounds.w);
            lemma_i32_field(es[4].1, n.bounds.h);
            lemma_u32_field(es[6].1, n.radius);
            lemma_str_field(es[7].1, n.color);
            assert(c.bounds == f.bounds);
        },
        WidgetType::Icon => {
            lemma_lookup_at(es, sh, "x"@, 1);
            lemma_lookup_at(es, sh, "y"@, 2);
            lemma_lookup_at(es, sh, "size"@, 3);
            lemma_lookup_at(es, sh, "src"@, 4);
            lemma_lookup_missing(es, sh, "w"@);
            lemma_lookup_missing(es, sh, "h"@);
            lemma_lookup_missing(es, sh, "blur"@);
            lemma_lookup_missing(es, sh, "radius"@);
            lemma_lookup_missing(es, sh, "color"@);
            lemma_lookup_missing(es, sh, "text"@);
            lemma_lookup_missing(es, sh, "weight"@);
            lemma_i32_field(es[1].1, n.bounds.x);
            lemma_i32_field(es[2].1, n.bounds.y);
            lemma_u32_field(es[3].1, n.size);
            lemma_str_field(es[4].1, n.src);
            assert(c.bounds == f.bounds);
        },
        WidgetType::Text => {
            lemma_lookup_at(es, sh, "x"@, 1);
            lemma_lookup_at(es, sh, "y"@, 2);
            lemma_lookup_at(es, sh, "text"@, 3);
            lemma_lookup_at(es, sh, "size"@, 4);
            lemma_lookup_at(es, sh, "color"@, 5);
            lemma_lookup_at(es, sh, "weight"@, 6);
            lemma_lookup_missing(es, sh, "w"@);
            lemma_lookup_missing(es, sh, "h"@);
            lemma_lookup_missing(es, sh, "blur"@);
            lemma_lookup_missing(es, sh, "radius"@);
            lemma_lookup_missing(es, sh, "src"@);
            lemma_i32_field(es[1].1, n.bounds.x);
            lemma_i32_field(es[2].1, n.bounds.y);
            lemma_str_field(es[3].1, n.text);
            lemma_u32_field(es[4].1, n.size);
            lemma_str_field(es[5].1, n.color);
            lemma_str_field(es[6].1, n.weight);
            assert(c.bounds == f.bounds);
        },
    }
}

/// `apply_all` over one or two commands.
proof fn lemma_apply_all_short(s: StateTreeView, qs: Seq<IpcRequest>)
    requires
        1 <= qs.len() <= 2,
    ensures
        qs.len() == 1 ==> apply_all(s, qs) == apply_spec(s, qs[0]),
        qs.len() == 2 ==> apply_all(s, qs) == apply_spec(apply_spec(s, qs[0]), qs[1]),
{
    let e = qs.take(1).drop_last();
    assert(e =~= Seq::<IpcRequest>::empty());
    assert(apply_all(s, e) == s);
    assert(qs.take(1).last() == qs[0]);
    assert(apply_all(s, qs.take(1)) == apply_spec(s, qs[0]));
    if qs.len() == 1 {
        assert(qs.take(1) =~= qs);
    } else {
        assert(qs.drop_last() =~= qs.take(1));
    }
}

/// The method names of the replay's later commands are told apart.
proof fn lemma_setter_names()
    ensures
        "setScale"@.len() == 8 && "setOpacity"@.len() == 10 && "setBlur"@.len() == 7,
        "addChild"@.len() == 8 && "addChild"@[0] == 'a' && "setScale"@[0] == 's',
{
    reveal_strlit("setScale");
    reveal_strlit("setOpacity");
    reveal_strlit("setBlur");
    reveal_strlit("addChild");
}

/// A request carrying the planned `setScale` (or `setOpacity`) command of an existing
/// widget sets that property to the planned number.
proof fn lemma_set_property(s: StateTreeView, q: IpcRequest, n: WidgetNodeView, scale: bool)
    requires
        s.nodes.dom().contains(n.id),
        scale ==> command_matches(
            q,
            PlannedCommand {
                method: "setScale"@,
                params: seq![("id"@, JsonShallow::Str(n.id)), ("scale"@, JsonShallow::Number(n.scale))],
            },
        ),
        !scale ==> command_matches(
            q,
            PlannedCommand {
                method: "setOpacity"@,
                params: seq![("id"@, JsonShallow::Str(n.id)), ("opacity"@, JsonShallow::Number(n.opacity))],
            },
        ),
    ensures
        apply_spec(s, q).order == s.order,
        scale ==> apply_spec(s, q).nodes == s.nodes.insert(
            n.id,
            WidgetNodeView { scale: float_of(n.scale), ..s.nodes[n.id] },
        ),
        !scale ==> apply_spec(s, q).nodes == s.nodes.insert(
            n.id,
            WidgetNodeView { opacity: float_of(n.opacity), ..s.nodes[n.id] },
        ),
{
    lemma_key_names();
    lemma_method_names();
    lemma_setter_names();
    let es = q.params->Object_0@;
    if scale {
        let sh = seq![("id"@, JsonShallow::Str(n.id)), ("scale"@, JsonShallow::Number(n.scale))];
        assert(entries_shallow(es, sh));
        lemma_lookup_at(es, sh, "id"@, 0);
        lemma_lookup_at(es, sh, "scale"@, 1);
    } else {
        let sh = seq![("id"@, JsonShallow::Str(n.id)), ("opacity"@, JsonShallow::Number(n.opacity))];
        assert(entries_shallow(es, sh));
        lemma_lookup_at(es, sh, "id"@, 0);
        lemma_lookup_at(es, sh, "opacity"@, 1);
    }
}

/// A widget after its replayed scale and opacity commands.
spec fn props_applied(x: WidgetNodeView, n: WidgetNodeView) -> WidgetNodeView {
    WidgetNodeView {
        scale: if differs_from_one(n.scale) { float_of(n.scale) } else { x.scale },
        opacity: if differs_from_one(n.opacity) { float_of(n.opacity) } else { x.opacity },
        ..x
    }
}

/// The property commands of one widget set its scale and opacity as planned.
proof fn lemma_node_props(s: StateTreeView, qs: Seq<IpcRequest>, n: WidgetNodeView)
    requires
        s.nodes.dom().contains(n.id),
        all_match(qs, property_commands(n)),
    ensures
        apply_all(s, qs).order == s.order,
        apply_all(s, qs).nodes == s.nodes.insert(n.id, props_applied(s.nodes[n.id], n)),
{
    let pc = property_commands(n);
    let x = s.nodes[n.id];
    if qs.len() == 0 {
        assert(s.nodes.insert(n.id, props_applied(x, n)) =~= s.nodes);
    } else {
        lemma_apply_all_short(s, qs);
        if differs_from_one(n.scale) {
            assert(command_matches(qs[0], pc[0]));
            lemma_set_property(s, qs[0], n, true);
            let s1 = apply_spec(s, qs[0]);
            if differs_from_one(n.opacity) {
                assert(command_matches(qs[1], pc[1]));
                lemma_set_property(s1, qs[1], n, false);
                assert(apply_all(s, qs).nodes =~= s.nodes.insert(n.id, props_applied(x, n)));
            } else {
                assert(apply_all(s, qs).nodes =~= s.nodes.insert(n.id, props_applied(x, n)));
            }
        } else {
            assert(command_matches(qs[0], pc[0]));
            lemma_set_property(s, qs[0], n, false);
            assert(apply_all(s, qs).nodes =~= s.nodes.insert(n.id, props_applied(x, n)));
        }
    }
}

/// `cs` with each of `new` appended in order, unless it is already there.
spec fn add_each(cs: Seq<Seq<char>>, new: Seq<Seq<char>>) -> Seq<Seq<char>>
    decreases new.len(),
{
    if new.len() == 0 {
        cs
    } else {
        let r = add_each(cs, new.drop_last());
        if r.contains(new.last()) {
            r
        } else {
            r.push(new.last())
        }
    }
}

/// Adding distinct children one by one to none gives them in order.
proof fn lemma_add_each_distinct(new: Seq<Seq<char>>)
    requires
        new.no_duplicates(),
    ensures
        add_each(Seq::empty(), new) == new,
    decreases new.len(),
{
    if new.len() > 0 {
        let init = new.drop_last();
        assert forall|i: int, j: int| 0 <= i < j < init.len() implies init[i] != init[j] by {
            assert(init[i] == new[i] && init[j] == new[j]);
        }
        lemma_add_each_distinct(init);
        if init.contains(new.last()) {
            let i = choose|i: int| 0 <= i < init.len() && init[i] == new.last();
            assert(new[i] == new[new.len() - 1]);
        }
        assert(init.push(new.last()) =~= new);
    }
}

/// A request carrying the planned `addChild` command of an existing parent attaches the
/// child unless it is attached already.
proof fn lemma_add_child(s: StateTreeView, q: IpcRequest, parent: Seq<char>, child: Seq<char>)
    requires
        s.nodes.dom().contains(parent),
        command_matches(q, add_child_command(parent, child)),
    ensures
        apply_spec(s, q).order == s.order,
        apply_spec(s, q).nodes == s.nodes.insert(
            parent,
            WidgetNodeView {
                children: if s.nodes[parent].children.contains(child) {
                    s.nodes[parent].children
                } else {
                    s.nodes[parent].children.push(child)
                },
                ..s.nodes[parent]
            },
        ),
{
    lemma_key_names();
    lemma_method_names();
    lemma_setter_names();
    reveal_strlit("setBlur");
    assert("setBlur"@[0] == 's');
    let es = q.params->Object_0@;
    let sh = add_child_command(parent, child).params;
    assert(entries_shallow(es, sh));
    lemma_lookup_at(es, sh, "parentId"@, 0);
    lemma_lookup_at(es, sh, "childId"@, 1);
    if s.nodes[parent].children.contains(child) {
        assert(apply_spec(s, q).nodes =~= s.nodes.insert(parent, s.nodes[parent]));
    }
}

/// The child commands of `cs` under `id`.
spec fn child_cmds(id: Seq<char>, cs: Seq<Seq<char>>) -> Seq<PlannedCommand> {
    cs.map_values(|c: Seq<char>| add_child_command(id, c))
}

/// The child commands of one widget attach its children in order.
proof fn lemma_node_children(s: StateTreeView, qs: Seq<IpcRequest>, id: Seq<char>, cs: Seq<Seq<char>>)
    requires
        s.nodes.dom().contains(id),
        all_match(qs, child_cmds(id, cs)),
    ensures
        apply_all(s, qs).order == s.order,
        apply_all(s, qs).nodes == s.nodes.insert(
            id,
            WidgetNodeView { children: add_each(s.nodes[id].children, cs), ..s.nodes[id] },
        ),
    decreases cs.len(),
{
    if cs.len() == 0 {
        assert(s.nodes.insert(id, WidgetNodeView { children: add_each(s.nodes[id].children, cs), ..s.nodes[id] })
            =~= s.nodes);
    } else {
        let q0 = qs.drop_last();
        let c0 = cs.drop_last();
        assert(child_cmds(id, c0) =~= child_cmds(id, cs).drop_last());
        assert forall|i: int| 0 <= i < q0.len() implies command_matches(#[trigger] q0[i], child_cmds(id, c0)[i]) by {
            assert(command_matches(qs[i], child_cmds(id, cs)[i]));
        }
        lemma_node_children(s, q0, id, c0);
        let s1 = apply_all(s, q0);
        assert(command_matches(qs[qs.len() - 1], child_cmds(id, cs)[cs.len() - 1]));
        lemma_add_child(s1, qs.last(), id, cs.last());
        assert(apply_all(s, qs).nodes =~= s.nodes.insert(
            id,
            WidgetNodeView { children: add_each(s.nodes[id].children, cs), ..s.nodes[id] },
        ));
    }
}

/// Applying two batches one after the other is applying them joined.
proof fn lemma_apply_all_concat(t: StateTreeView, a: Seq<IpcRequest>, b: Seq<IpcRequest>)
    ensures
        apply_all(t, a + b) == apply_all(apply_all(t, a), b),
    decreases b.len(),
{
    if b.len() == 0 {
        assert(a + b =~= a);
    } else {
        lemma_apply_all_concat(t, a, b.drop_last());
        assert((a + b).drop_last() =~= a + b.drop_last());
        assert((a + b).last() == b.last());
    }
}

/// Requests that carry two joined plans split into the requests of each.
proof fn lemma_all_match_split(qs: Seq<IpcRequest>, p1: Seq<PlannedCommand>, p2: Seq<PlannedCommand>)
    requires
        all_match(qs, p1 + p2),
    ensures
        all_match(qs.take(p1.len() as int), p1),
        all_match(qs.skip(p1.len() as int), p2),
        qs.take(p1.len() as int) + qs.skip(p1.len() as int) == qs,
{
    let n = p1.len() as int;
    assert forall|i: int| 0 <= i < n implies command_matches(#[trigger] qs.take(n)[i], p1[i]) by {
        assert(command_matches(qs[i], (p1 + p2)[i]));
    }
    assert forall|i: int| 0 <= i < p2.len() implies command_matches(#[trigger] qs.skip(n)[i], p2[i]) by {
        assert(command_matches(qs[n + i], (p1 + p2)[n + i]));
    }
    assert(qs.take(n) + qs.skip(n) =~= qs);
}

/// A widget after its replayed child commands.
spec fn children_applied(x: WidgetNodeView, n: WidgetNodeView) -> WidgetNodeView {
    WidgetNodeView { children: add_each(x.children, n.children), ..x }
}

/// The widgets `m` after each widget of `ord`, in turn, has had `f` applied with its
/// planned widget from `nodes`.
spec fn per_node(
    m: Map<Seq<char>, WidgetNodeView>,
    ord: Seq<Seq<char>>,
    nodes: Map<Seq<char>, WidgetNodeView>,
    props: bool,
) -> Map<Seq<char>, WidgetNodeView>
    decreases ord.len(),
{
    if ord.len() == 0 {
        m
    } else {
        let r = per_node(m, ord.drop_last(), nodes, props);
        let k = ord.last();
        r.insert(k, if props { props_applied(r[k], nodes[k]) } else { children_applied(r[k], nodes[k]) })
    }
}

/// What `per_node` gives a widget: `f` applied once when the widget is in `ord`.
proof fn lemma_per_node_at(
    m: Map<Seq<char>, WidgetNodeView>,
    ord: Seq<Seq<char>>,
    nodes: Map<Seq<char>, WidgetNodeView>,
    props: bool,
    k: Seq<char>,
)
    requires
        ord.no_duplicates(),
        m.dom().contains(k),
        forall|j: int| 0 <= j < ord.len() ==> m.dom().contains(#[trigger] ord[j]),
    ensures
        per_node(m, ord, nodes, props).dom() == m.dom(),
        per_node(m, ord, nodes, props)[k] == (if !ord.contains(k) {
            m[k]
        } else if props {
            props_applied(m[k], nodes[k])
        } else {
            children_applied(m[k], nodes[k])
        }),
    decreases ord.len(),
{
    if ord.len() > 0 {
        let init = ord.drop_last();
        assert forall|i: int, j: int| 0 <= i < j < init.len() implies init[i] != init[j] by {
            assert(init[i] == ord[i] && init[j] == ord[j]);
        }
        assert forall|j: int| 0 <= j < init.len() implies m.dom().contains(#[trigger] init[j]) by {
            assert(init[j] == ord[j]);
        }
        lemma_per_node_at(m, init, nodes, props, k);
        let last = ord.last();
        assert(m.dom().contains(ord[ord.len() - 1]));
        lemma_per_node_at(m, init, nodes, props, last);
        if init.contains(last) {
            let i = choose|i: int| 0 <= i < init.len() && init[i] == last;
            assert(ord[i] == ord[ord.len() - 1]);
        }
        if k != last {
            if ord.contains(k) {
                let i = choose|i: int| 0 <= i < ord.len() && ord[i] == k;
                assert(init[i] == k);
            }
            if init.contains(k) {
                let i = choose|i: int| 0 <= i < init.len() && init[i] == k;
                assert(ord[i] == k);
            }
        } else {
            assert(ord[ord.len() - 1] == k);
        }
    }
}

/// The scale and opacity commands of the widgets in `ord`, applied to a tree holding them.
proof fn lemma_props_phase(
    s: StateTreeView,
    qs: Seq<IpcRequest>,
    ord: Seq<Seq<char>>,
    nodes: Map<Seq<char>, WidgetNodeView>,
)
    requires
        forall|j: int| 0 <= j < ord.len() ==> s.nodes.dom().contains(#[trigger] ord[j]) && nodes[ord[j]].id == ord[j],
        all_match(qs, all_property_commands(ord, nodes)),
    ensures
        apply_all(s, qs).order == s.order,
        apply_all(s, qs).nodes == per_node(s.nodes, ord, nodes, true),
    decreases ord.len(),
{
    if ord.len() > 0 {
        let init = ord.drop_last();
        let k = ord.last();
        let a = all_property_commands(init, nodes);
        let b = property_commands(nodes[k]);
        assert(all_property_commands(ord, nodes) == a + b);
        lemma_all_match_split(qs, a, b);
        let q1 = qs.take(a.len() as int);
        let q2 = qs.skip(a.len() as int);
        assert forall|j: int| 0 <= j < init.len() implies s.nodes.dom().contains(#[trigger] init[j])
            && nodes[init[j]].id == init[j] by {
            assert(init[j] == ord[j]);
        }
        lemma_props_phase(s, q1, init, nodes);
        lemma_apply_all_concat(s, q1, q2);
        let s1 = apply_all(s, q1);
        assert(s.nodes.dom().contains(ord[ord.len() - 1]));
        lemma_per_node_dom(s.nodes, init, nodes, true);
        lemma_node_props(s1, q2, nodes[k]);
    } else {
        assert(qs.len() == 0);
    }
}

/// The child commands of the widgets in `ord`, applied to a tree holding them.
proof fn lemma_children_phase(
    s: StateTreeView,
    qs: Seq<IpcRequest>,
    ord: Seq<Seq<char>>,
    nodes: Map<Seq<char>, WidgetNodeView>,
)
    requires
        forall|j: int| 0 <= j < ord.len() ==> s.nodes.dom().contains(#[trigger] ord[j]) && nodes[ord[j]].id == ord[j],
        all_match(qs, all_child_commands(ord, nodes)),
    ensures
        apply_all(s, qs).order == s.order,
        apply_all(s, qs).nodes == per_node(s.nodes, ord, nodes, false),
    decreases ord.len(),
{
    if ord.len() > 0 {
        let init = ord.drop_last();
        let k = ord.last();
        let a = all_child_commands(init, nodes);
        let b = child_commands(nodes[k]);
        assert(all_child_commands(ord, nodes) == a + b);
        lemma_all_match_split(qs, a, b);
        let q1 = qs.take(a.len() as int);
        let q2 = qs.skip(a.len() as int);
        assert forall|j: int| 0 <= j < init.len() implies s.nodes.dom().contains(#[trigger] init[j])
            && nodes[init[j]].id == init[j] by {
            assert(init[j] == ord[j]);
        }
        lemma_children_phase(s, q1, init, nodes);
        lemma_apply_all_concat(s, q1, q2);
        let s1 = apply_all(s, q1);
        assert(s.nodes.dom().contains(ord[ord.len() - 1]));
        lemma_per_node_dom(s.nodes, init, nodes, false);
        assert(b == child_cmds(k, nodes[k].children));
        lemma_node_children(s1, q2, k, nodes[k].children);
        assert(apply_all(s, qs).nodes =~= per_node(s.nodes, ord, nodes, false));
    } else {
        assert(qs.len() == 0);
    }
}

/// `per_node` keeps the widgets' ids.
proof fn lemma_per_node_dom(
    m: Map<Seq<char>, WidgetNodeView>,
    ord: Seq<Seq<char>>,
    nodes: Map<Seq<char>, WidgetNodeView>,
    props: bool,
)
    requires
        forall|j: int| 0 <= j < ord.len() ==> m.dom().contains(#[trigger] ord[j]),
    ensures
        per_node(m, ord, nodes, props).dom() == m.dom(),
    decreases ord.len(),
{
    if ord.len() > 0 {
        let init = ord.drop_last();
        assert forall|j: int| 0 <= j < init.len() implies m.dom().contains(#[trigger] init[j]) by {
            assert(init[j] == ord[j]);
        }
        lemma_per_node_dom(m, init, nodes, props);
        assert(m.dom().contains(ord[ord.len() - 1]));
        assert(per_node(m, ord, nodes, props).dom() =~= m.dom());
    }
}

} // verus!
