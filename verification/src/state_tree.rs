//! The state tree: the host's single source of truth for the widgets on screen. Every
//! change raises its version, nodes are kept in creation order, and the renderer can be
//! rebuilt from it after a crash by replaying the commands it generates.
use vstd::prelude::*;
use crate::ipc::{
    IpcRequest, METHOD_ADD_CHILD, METHOD_CREATE_ICON, METHOD_CREATE_RECT, METHOD_CREATE_TEXT,
    METHOD_REMOVE_CHILD, METHOD_SET_BLUR, METHOD_SET_OPACITY, METHOD_SET_SCALE,
};
use crate::json::{
    object_shallow_is, push_entry, shallow_opt_str, i64_number, JsonShallow, get_bool, get_i64, get_number, get_str, get_u64, json_as_bool, json_as_i64, json_as_number,
    json_as_str, json_as_u64, json_get, JsonNumber, JsonValue, NumberView,
};
use crate::keyed_vec::KeyedVec;
use crate::text::{decimal, push_decimal, push_signed_decimal, push_str, signed_decimal, str_eq};
use crate::json_text::{json_text_value, parse_json};

verus! {

/// The kind of a widget.
#[derive(Debug, Clone, Copy, PartialEq, Eq, Structural)]
pub enum WidgetType {
    Rect,
    Icon,
    Text,
}

/// The widget kind a creation method makes, if it is one.
pub open spec fn type_of_method(method: Seq<char>) -> Option<WidgetType> {
    if method == "createRect"@ {
        Some(WidgetType::Rect)
    } else if method == "createIcon"@ {
        Some(WidgetType::Icon)
    } else if method == "createText"@ {
        Some(WidgetType::Text)
    } else {
        None
    }
}

/// The creation method for a widget kind.
pub open spec fn create_method(t: WidgetType) -> Seq<char> {
    match t {
        WidgetType::Rect => "createRect"@,
        WidgetType::Icon => "createIcon"@,
        WidgetType::Text => "createText"@,
    }
}

impl WidgetType {
    /// The widget kind that a creation method makes.
    pub fn from_method(method: &str) -> (r: Option<WidgetType>)
        ensures
            r == type_of_method(method@),
    {
        if str_eq(method, METHOD_CREATE_RECT) {
            Some(WidgetType::Rect)
        } else if str_eq(method, METHOD_CREATE_ICON) {
            Some(WidgetType::Icon)
        } else if str_eq(method, METHOD_CREATE_TEXT) {
            Some(WidgetType::Text)
        } else {
            None
        }
    }
}

/// Position and size of a widget.
#[derive(Debug, Clone, Copy)]
pub struct Bounds {
    pub x: i32,
    pub y: i32,
    pub w: i32,
    pub h: i32,
}

impl Default for Bounds {
    fn default() -> (r: Self)
        ensures
            r == (Bounds { x: 0, y: 0, w: 0, h: 0 }),
    {
        Bounds { x: 0, y: 0, w: 0, h: 0 }
    }
}

/// One widget as the host knows it. `scale` and `opacity` are the numbers last set
/// (1.0 until then).
pub struct WidgetNode {
    pub id: String,
    pub widget_type: WidgetType,
    pub bounds: Bounds,
    pub scale: JsonNumber,
    pub opacity: JsonNumber,
    pub blur: bool,
    pub children: Vec<String>,
    pub color: Option<String>,
    pub text: Option<String>,
    pub src: Option<String>,
    pub radius: u32,
    pub size: u32,
    pub weight: Option<String>,
}

/// A widget as a mathematical value.
pub ghost struct WidgetNodeView {
    pub id: Seq<char>,
    pub widget_type: WidgetType,
    pub bounds: Bounds,
    pub scale: NumberView,
    pub opacity: NumberView,
    pub blur: bool,
    pub children: Seq<Seq<char>>,
    pub color: Option<Seq<char>>,
    pub text: Option<Seq<char>>,
    pub src: Option<Seq<char>>,
    pub radius: u32,
    pub size: u32,
    pub weight: Option<Seq<char>>,
}

/// The text of an optional string.
pub open spec fn opt_view(s: Option<String>) -> Option<Seq<char>> {
    match s {
        Some(t) => Some(t@),
        None => None,
    }
}

impl View for WidgetNode {
    type V = WidgetNodeView;

    open spec fn view(&self) -> WidgetNodeView {
        WidgetNodeView {
            id: self.id@,
            widget_type: self.widget_type,
            bounds: self.bounds,
            scale: self.scale@,
            opacity: self.opacity@,
            blur: self.blur,
            children: self.children@.map_values(|c: String| c@),
            color: opt_view(self.color),
            text: opt_view(self.text),
            src: opt_view(self.src),
            radius: self.radius,
            size: self.size,
            weight: opt_view(self.weight),
        }
    }
}

fn clone_opt(s: &Option<String>) -> (r: Option<String>)
    ensures
        r == *s,
{
    match s {
        Some(t) => Some(t.clone()),
        None => None,
    }
}

fn clone_strings(v: &Vec<String>) -> (r: Vec<String>)
    ensures
        r@ == v@,
{
    let mut r: Vec<String> = Vec::new();
    let n = v.len();
    for i in 0..n
        invariant
            n == v@.len(),
            r@ == v@.take(i as int),
    {
        r.push(v[i].clone());
        proof {
            assert(r@ =~= v@.take(i + 1));
        }
    }
    proof {
        assert(v@.take(n as int) =~= v@);
    }
    r
}

impl WidgetNode {
    /// A copy of this widget.
    pub fn duplicate(&self) -> (r: WidgetNode)
        ensures
            r@ == self@,
    {
        let children = clone_strings(&self.children);
        let r = WidgetNode {
            id: self.id.clone(),
            widget_type: self.widget_type,
            bounds: self.bounds,
            scale: self.scale.duplicate(),
            opacity: self.opacity.duplicate(),
            blur: self.blur,
            children,
            color: clone_opt(&self.color),
            text: clone_opt(&self.text),
            src: clone_opt(&self.src),
            radius: self.radius,
            size: self.size,
            weight: clone_opt(&self.weight),
        };
        proof {
            assert(r@.children =~= self@.children);
        }
        r
    }
}

/// Why the state tree refused a change.
#[derive(Debug, Clone, Copy, PartialEq, Eq)]
pub enum StateError {
    /// A widget with this id already exists.
    DuplicateId,
    /// No widget has this id.
    NotFound,
}

/// The state tree as a mathematical value: its version, its widgets by id, and the
/// ids in creation order.
pub ghost struct StateTreeView {
    pub version: u64,
    pub nodes: Map<Seq<char>, WidgetNodeView>,
    pub order: Seq<Seq<char>>,
}

/// The host's widget state; every change raises the version.
pub struct StateTree {
    version: u64,
    nodes: KeyedVec<WidgetNode>,
}

impl View for StateTree {
    type V = StateTreeView;

    closed spec fn view(&self) -> StateTreeView {
        StateTreeView {
            version: self.version,
            nodes: self.nodes.as_map().map_values(|n: WidgetNode| n@),
            order: self.nodes.keys(),
        }
    }
}

/// The number 1.0, the scale and opacity of a new widget.
pub open spec fn one() -> NumberView {
    NumberView::Float(0x3ff0000000000000, "1.0"@)
}

fn one_number() -> (r: JsonNumber)
    ensures
        r@ == one(),
{
    JsonNumber::Float { bits: 0x3ff0000000000000u64, text: "1.0".to_owned() }
}

/// The float a JSON number stands for, as `serde_json`'s `as_f64` gives it: a float as
/// it is; an integer as the float that `serde_json` reads from its decimal text followed
/// by `.0` (1.0 should that text not read as a number).
pub open spec fn float_of(n: NumberView) -> NumberView {
    let text = match n {
        NumberView::PosInt(u) => decimal(u as nat) + ".0"@,
        NumberView::NegInt(i) => signed_decimal(i as int) + ".0"@,
        NumberView::Float(_, _) => Seq::empty(),
    };
    match n {
        NumberView::Float(_, _) => n,
        _ => match json_text_value(text) {
            Some(JsonValue::Number(f)) => f@,
            _ => one(),
        },
    }
}

/// Computes `float_of`.
fn float_number(n: &JsonNumber) -> (r: JsonNumber)
    ensures
        r@ == float_of(n@),
{
    let mut text = String::new();
    match n {
        JsonNumber::Float { .. } => {
            return n.duplicate();
        },
        JsonNumber::PosInt(u) => push_decimal(&mut text, *u),
        JsonNumber::NegInt(i) => push_signed_decimal(&mut text, *i),
    }
    push_str(&mut text, ".0");
    match parse_json(text.as_str()) {
        Some(JsonValue::Number(f)) => f,
        _ => one_number(),
    }
}

impl StateTree {
    /// The nodes are well formed (keys distinct).
    pub closed spec fn wf(&self) -> bool {
        self.nodes.wf()
    }

    /// In a well-formed tree, the creation order lists every widget exactly once.
    pub proof fn lemma_order_matches_nodes(&self)
        requires
            self.wf(),
        ensures
            self@.order.no_duplicates(),
            self@.nodes.dom() == self@.order.to_set(),
            self@.nodes.dom().finite(),
    {
        self.nodes.lemma_wf();
        self.nodes.lemma_as_map();
        assert(self@.nodes.dom() =~= self@.order.to_set());
    }

    proof fn lemma_node_at(&self, i: int)
        requires
            self.wf(),
            0 <= i < self@.order.len(),
        ensures
            self@.nodes.dom().contains(self@.order[i]),
            self@.nodes[self@.order[i]] == self.nodes.values()[i]@,
    {
        self.nodes.lemma_wf();
        self.nodes.lemma_as_map();
    }

    /// An empty tree at version 0.
    pub fn new() -> (r: Self)
        ensures
            r.wf(),
            r@.version == 0,
            r@.nodes == Map::<Seq<char>, WidgetNodeView>::empty(),
            r@.order == Seq::<Seq<char>>::empty(),
    {
        let r = StateTree { version: 0, nodes: KeyedVec::new() };
        proof {
            assert(r@.nodes =~= Map::<Seq<char>, WidgetNodeView>::empty());
        }
        r
    }

    /// The current version.
    pub fn version(&self) -> (v: u64)
        ensures
            v == self@.version,
    {
        self.version
    }

    /// The number of widgets.
    pub fn node_count(&self) -> (n: usize)
        requires
            self.wf(),
        ensures
            n == self@.nodes.dom().len(),
    {
        proof {
            self.lemma_order_matches_nodes();
            self@.order.unique_seq_to_set();
        }
        self.nodes.len()
    }

    /// Adds a widget after all others; refused when its id is taken.
    pub fn insert(&mut self, node: WidgetNode) -> (r: Result<(), StateError>)
        requires
            old(self).wf(),
            old(self)@.version < u64::MAX,
        ensures
            final(self).wf(),
            r is Ok <==> !old(self)@.nodes.dom().contains(node.id@),
            r is Ok ==> final(self)@ == (StateTreeView {
                version: (old(self)@.version + 1) as u64,
                nodes: old(self)@.nodes.insert(node.id@, node@),
                order: old(self)@.order.push(node.id@),
            }),
            r is Err ==> r == Err::<(), StateError>(StateError::DuplicateId) && final(self)@ == old(self)@,
    {
        proof {
            self.nodes.lemma_as_map();
        }
        if self.nodes.contains(node.id.as_str()) {
            return Err(StateError::DuplicateId);
        }
        let ghost nv = node@;
        let key = node.id.clone();
        self.nodes.insert(key, node);
        self.version = self.version + 1;
        proof {
            assert(self@.nodes =~= old(self)@.nodes.insert(nv.id, nv));
        }
        Ok(())
    }

    /// Replaces the widget stored under `id`; refused when there is none.
    pub fn update(&mut self, id: &str, node: WidgetNode) -> (r: Result<(), StateError>)
        requires
            old(self).wf(),
            old(self)@.version < u64::MAX,
        ensures
            final(self).wf(),
            r is Ok <==> old(self)@.nodes.dom().contains(id@),
            r is Ok ==> final(self)@ == (StateTreeView {
                version: (old(self)@.version + 1) as u64,
                nodes: old(self)@.nodes.insert(id@, node@),
                order: old(self)@.order,
            }),
            r is Err ==> r == Err::<(), StateError>(StateError::NotFound) && final(self)@ == old(self)@,
    {
        proof {
            self.nodes.lemma_as_map();
        }
        if !self.nodes.contains(id) {
            return Err(StateError::NotFound);
        }
        let ghost nv = node@;
        self.nodes.insert(id.to_owned(), node);
        self.version = self.version + 1;
        proof {
            assert(self@.nodes =~= old(self)@.nodes.insert(id@, nv));
        }
        Ok(())
    }

    /// Removes the widget stored under `id` (and its place in the creation order);
    /// refused when there is none.
    pub fn remove(&mut self, id: &str) -> (r: Result<(), StateError>)
        requires
            old(self).wf(),
            old(self)@.version < u64::MAX,
        ensures
            final(self).wf(),
            r is Ok <==> old(self)@.nodes.dom().contains(id@),
            r is Ok ==> final(self)@ == (StateTreeView {
                version: (old(self)@.version + 1) as u64,
                nodes: old(self)@.nodes.remove(id@),
                order: old(self)@.order.remove(old(self)@.order.index_of(id@)),
            }),
            r is Err ==> r == Err::<(), StateError>(StateError::NotFound) && final(self)@ == old(self)@,
    {
        proof {
            self.nodes.lemma_as_map();
        }
        let removed = self.nodes.remove(id);
        if removed.is_none() {
            return Err(StateError::NotFound);
        }
        self.version = self.version + 1;
        proof {
            assert(self@.nodes =~= old(self)@.nodes.remove(id@));
        }
        Ok(())
    }

    /// The widget stored under `id`.
    pub fn get(&self, id: &str) -> (r: Option<&WidgetNode>)
        requires
            self.wf(),
        ensures
            match r {
                Some(n) => self@.nodes.dom().contains(id@) && n@ == self@.nodes[id@],
                None => !self@.nodes.dom().contains(id@),
            },
    {
        proof {
            self.nodes.lemma_as_map();
        }
        self.nodes.get(id)
    }

    /// All widgets, in creation order.
    pub fn all_nodes(&self) -> (r: Vec<&WidgetNode>)
        requires
            self.wf(),
        ensures
            r@.len() == self@.order.len(),
            forall|i: int| 0 <= i < r@.len() ==> (#[trigger] r@[i])@ == self@.nodes[self@.order[i]],
    {
        proof {
            self.nodes.lemma_wf();
        }
        let n = self.nodes.len();
        let mut out: Vec<&WidgetNode> = Vec::new();
        for i in 0..n
            invariant
                n == self@.order.len(),
                self.wf(),
                out@.len() == i,
                forall|j: int| 0 <= j < i ==> (#[trigger] out@[j])@ == self@.nodes[self@.order[j]],
        {
            proof {
                self.lemma_node_at(i as int);
            }
            out.push(self.nodes.value_at(i));
        }
        out
    }
}


/// The text of parameter `key` of a request, if it is a string.
pub open spec fn param_str(req: IpcRequest, key: Seq<char>) -> Option<Seq<char>> {
    json_as_str(json_get(req.params, key))
}

/// A text, or the empty text for `None`.
pub open spec fn str_or_empty(o: Option<Seq<char>>) -> Seq<char> {
    match o {
        Some(s) => s,
        None => Seq::empty(),
    }
}

/// A number, or 1.0 when there is none.
pub open spec fn number_or_one(o: Option<JsonNumber>) -> NumberView {
    match o {
        Some(n) => n@,
        None => one(),
    }
}

/// The widget a creation request makes: position, size, blur, colours, text, image,
/// radius, size and weight from its parameters (zero, false or absent when missing or
/// of another type), scale and opacity 1.0, no children.
pub open spec fn created_node(req: IpcRequest, id: Seq<char>, t: WidgetType) -> WidgetNodeView {
    WidgetNodeView {
        id: id,
        widget_type: t,
        bounds: Bounds {
            x: json_as_i64(json_get(req.params, "x"@)).unwrap_or(0) as i32,
            y: json_as_i64(json_get(req.params, "y"@)).unwrap_or(0) as i32,
            w: json_as_i64(json_get(req.params, "w"@)).unwrap_or(0) as i32,
            h: json_as_i64(json_get(req.params, "h"@)).unwrap_or(0) as i32,
        },
        scale: one(),
        opacity: one(),
        blur: json_as_bool(json_get(req.params, "blur"@)).unwrap_or(false),
        children: Seq::empty(),
        color: param_str(req, "color"@),
        text: param_str(req, "text"@),
        src: param_str(req, "src"@),
        radius: json_as_u64(json_get(req.params, "radius"@)).unwrap_or(0) as u32,
        size: json_as_u64(json_get(req.params, "size"@)).unwrap_or(0) as u32,
        weight: param_str(req, "weight"@),
    }
}

/// `s` without any occurrence of `x`, the rest in order.
pub open spec fn without(s: Seq<Seq<char>>, x: Seq<char>) -> Seq<Seq<char>>
    decreases s.len(),
{
    if s.len() == 0 {
        s
    } else {
        let r = without(s.drop_last(), x);
        if s.last() == x {
            r
        } else {
            r.push(s.last())
        }
    }
}

/// The state after applying a renderer command: creations add a widget (unless its id
/// is empty or taken), `setScale`, `setOpacity`, `setBlur` change a property, `addChild`
/// adds a child once, `removeChild` removes it; commands for unknown widgets and all other
/// methods leave the state as it was. Each change raises the version by one.
pub open spec fn apply_spec(t: StateTreeView, req: IpcRequest) -> StateTreeView {
    let m = req.method@;
    let bump = (t.version + 1) as u64;
    let id = str_or_empty(param_str(req, "id"@));
    let parent = str_or_empty(param_str(req, "parentId"@));
    let child = str_or_empty(param_str(req, "childId"@));
    if type_of_method(m) is Some {
        if id.len() == 0 || t.nodes.dom().contains(id) {
            t
        } else {
            StateTreeView {
                version: bump,
                nodes: t.nodes.insert(id, created_node(req, id, type_of_method(m)->0)),
                order: t.order.push(id),
            }
        }
    } else if m == "setScale"@ {
        if t.nodes.dom().contains(id) {
            StateTreeView {
                version: bump,
                nodes: t.nodes.insert(
                    id,
                    WidgetNodeView {
                        scale: float_of(number_or_one(json_as_number(json_get(req.params, "scale"@)))),
                        ..t.nodes[id]
                    },
                ),
                order: t.order,
            }
        } else {
            t
        }
    } else if m == "setOpacity"@ {
        if t.nodes.dom().contains(id) {
            StateTreeView {
                version: bump,
                nodes: t.nodes.insert(
                    id,
                    WidgetNodeView {
                        opacity: float_of(number_or_one(json_as_number(json_get(req.params, "opacity"@)))),
                        ..t.nodes[id]
                    },
                ),
                order: t.order,
            }
        } else {
            t
        }
    } else if m == "setBlur"@ {
        if t.nodes.dom().contains(id) {
            StateTreeView {
                version: bump,
                nodes: t.nodes.insert(
                    id,
                    WidgetNodeView {
                        blur: json_as_bool(json_get(req.params, "enabled"@)).unwrap_or(false),
                        ..t.nodes[id]
                    },
                ),
                order: t.order,
            }
        } else {
            t
        }
    } else if m == "addChild"@ {
        if t.nodes.dom().contains(parent) && !t.nodes[parent].children.contains(child) {
            StateTreeView {
                version: bump,
                nodes: t.nodes.insert(
                    parent,
                    WidgetNodeView { children: t.nodes[parent].children.push(child), ..t.nodes[parent] },
                ),
                order: t.order,
            }
        } else {
            t
        }
    } else if m == "removeChild"@ {
        if t.nodes.dom().contains(parent) {
            StateTreeView {
                version: bump,
                nodes: t.nodes.insert(
                    parent,
                    WidgetNodeView { children: without(t.nodes[parent].children, child), ..t.nodes[parent] },
                ),
                order: t.order,
            }
        } else {
            t
        }
    } else {
        t
    }
}

/// `setBlur` switches a widget's blur on exactly when its `enabled` parameter is the
/// boolean `true`, whatever the blur was before (off when `enabled` is missing or not a
/// boolean); it changes nothing else of the widget and no other widget, and it leaves the
/// tree as it was when the widget does not exist. Two trees that differ only in that
/// widget's blur give the same widget after it.
pub proof fn lemma_set_blur(t: StateTreeView, req: IpcRequest, other_blur: bool)
    requires
        req.method@ == "setBlur"@,
    ensures
        ({
            let id = str_or_empty(param_str(req, "id"@));
            let u = apply_spec(t, req);
            &&& t.nodes.dom().contains(id) ==> {
                &&& u.nodes.dom() == t.nodes.dom()
                &&& u.order == t.order
                &&& (u.nodes[id].blur <==> json_get(req.params, "enabled"@) == Some(JsonValue::Bool(true)))
                &&& u.nodes[id] == WidgetNodeView { blur: u.nodes[id].blur, ..t.nodes[id] }
                &&& forall|k: Seq<char>| #[trigger] t.nodes.dom().contains(k) && k != id ==> u.nodes[k] == t.nodes[k]
                &&& apply_spec(
                    StateTreeView {
                        nodes: t.nodes.insert(id, WidgetNodeView { blur: other_blur, ..t.nodes[id] }),
                        ..t
                    },
                    req,
                ).nodes[id] == u.nodes[id]
            }
            &&& !t.nodes.dom().contains(id) ==> u == t
        }),
{
    reveal_strlit("setBlur");
    reveal_strlit("createRect");
    reveal_strlit("createIcon");
    reveal_strlit("createText");
    reveal_strlit("setScale");
    reveal_strlit("setOpacity");
    assert(req.method@[3] == 'B');
    assert("createRect"@[0] == 'c' && "createIcon"@[0] == 'c' && "createText"@[0] == 'c');
    assert("setScale"@[3] == 'S' && "setOpacity"@[3] == 'O');
    let id = str_or_empty(param_str(req, "id"@));
    if t.nodes.dom().contains(id) {
        let u = apply_spec(t, req);
        assert(u.nodes.dom() =~= t.nodes.dom());
    }
}

/// Attaching a child is idempotent: applying the same `addChild` request a second time
/// changes nothing (so `apply_ipc` accepts it at any version), and afterwards the parent
/// (when it exists) lists the child, once when its children were distinct before.
pub proof fn lemma_add_child_idempotent(t: StateTreeView, req: IpcRequest)
    requires
        req.method@ == "addChild"@,
    ensures
        apply_spec(apply_spec(t, req), req) == apply_spec(t, req),
        ({
            let parent = str_or_empty(param_str(req, "parentId"@));
            let child = str_or_empty(param_str(req, "childId"@));
            t.nodes.dom().contains(parent) ==> apply_spec(t, req).nodes[parent].children.contains(child)
        }),
        ({
            let parent = str_or_empty(param_str(req, "parentId"@));
            let child = str_or_empty(param_str(req, "childId"@));
            t.nodes.dom().contains(parent) && !t.nodes[parent].children.contains(child) ==> apply_spec(
                t,
                req,
            ).nodes[parent].children == t.nodes[parent].children.push(child)
        }),
        ({
            let parent = str_or_empty(param_str(req, "parentId"@));
            t.nodes.dom().contains(parent) && t.nodes[parent].children.no_duplicates() ==> apply_spec(
                t,
                req,
            ).nodes[parent].children.no_duplicates()
        }),
{
    reveal_strlit("addChild");
    reveal_strlit("createRect");
    reveal_strlit("createIcon");
    reveal_strlit("createText");
    reveal_strlit("setScale");
    reveal_strlit("setOpacity");
    reveal_strlit("setBlur");
    let parent = str_or_empty(param_str(req, "parentId"@));
    let child = str_or_empty(param_str(req, "childId"@));
    assert(req.method@[0] == 'a');
    assert("createRect"@[0] == 'c' && "createIcon"@[0] == 'c' && "createText"@[0] == 'c');
    assert("setScale"@[0] == 's' && "setOpacity"@[0] == 's' && "setBlur"@[0] == 's');
    if t.nodes.dom().contains(parent) && !t.nodes[parent].children.contains(child) {
        let t1 = apply_spec(t, req);
        assert(t1.nodes[parent].children[t.nodes[parent].children.len() as int] == child);
        assert(t1.nodes[parent].children.contains(child));
        let cs = t.nodes[parent].children;
        if cs.no_duplicates() {
            assert forall|i: int, j: int| 0 <= i < j < cs.push(child).len() implies cs.push(child)[i]
                != cs.push(child)[j] by {
                if j == cs.len() {
                    assert(cs.push(child)[i] == cs[i]);
                    assert(cs.contains(cs[i]));
                }
            }
        }
    }
}

fn to_owned_opt(s: Option<&str>) -> (r: Option<String>)
    ensures
        opt_view(r) == (match s {
            Some(t) => Some(t@),
            None => None::<Seq<char>>,
        }),
{
    match s {
        Some(t) => Some(t.to_owned()),
        None => None,
    }
}

fn contains_string(v: &Vec<String>, x: &str) -> (r: bool)
    ensures
        r == v@.map_values(|c: String| c@).contains(x@),
{
    let n = v.len();
    for i in 0..n
        invariant
            n == v@.len(),
            forall|j: int| 0 <= j < i ==> v@[j]@ != x@,
    {
        if str_eq(v[i].as_str(), x) {
            proof {
                assert(v@.map_values(|c: String| c@)[i as int] == x@);
            }
            return true;
        }
    }
    false
}

fn remove_all(v: &Vec<String>, x: &str) -> (r: Vec<String>)
    ensures
        r@.map_values(|c: String| c@) == without(v@.map_values(|c: String| c@), x@),
{
    let n = v.len();
    let mut r: Vec<String> = Vec::new();
    for i in 0..n
        invariant
            n == v@.len(),
            r@.map_values(|c: String| c@) == without(v@.map_values(|c: String| c@).take(i as int), x@),
    {
        let ghost before = r@;
        proof {
            assert(v@.map_values(|c: String| c@).take(i + 1).drop_last() =~= v@.map_values(
                |c: String| c@,
            ).take(i as int));
        }
        if !str_eq(v[i].as_str(), x) {
            r.push(v[i].clone());
            proof {
                assert(r@.map_values(|c: String| c@) =~= before.map_values(|c: String| c@).push(v@[i as int]@));
            }
        }
    }
    proof {
        assert(v@.map_values(|c: String| c@).take(n as int) =~= v@.map_values(|c: String| c@));
    }
    r
}

impl StateTree {
    fn created_widget(req: &IpcRequest, id: &str, widget_type: WidgetType) -> (n: WidgetNode)
        ensures
            n@ == created_node(*req, id@, widget_type),
    {
        let p = &req.params;
        let x = match get_i64(p, "x") {
            Some(v) => v,
            None => 0,
        };
        let y = match get_i64(p, "y") {
            Some(v) => v,
            None => 0,
        };
        let w = match get_i64(p, "w") {
            Some(v) => v,
            None => 0,
        };
        let h = match get_i64(p, "h") {
            Some(v) => v,
            None => 0,
        };
        let radius = match get_u64(p, "radius") {
            Some(v) => v,
            None => 0,
        };
        let size = match get_u64(p, "size") {
            Some(v) => v,
            None => 0,
        };
        let blur = match get_bool(p, "blur") {
            Some(b) => b,
            None => false,
        };
        let n = WidgetNode {
            id: id.to_owned(),
            widget_type,
            bounds: Bounds {
                x: #[verifier::truncate] (x as i32),
                y: #[verifier::truncate] (y as i32),
                w: #[verifier::truncate] (w as i32),
                h: #[verifier::truncate] (h as i32),
            },
            scale: one_number(),
            opacity: one_number(),
            blur,
            children: Vec::new(),
            color: to_owned_opt(get_str(p, "color")),
            text: to_owned_opt(get_str(p, "text")),
            src: to_owned_opt(get_str(p, "src")),
            radius: #[verifier::truncate] (radius as u32),
            size: #[verifier::truncate] (size as u32),
            weight: to_owned_opt(get_str(p, "weight")),
        };
        proof {
            assert(n@.children =~= Seq::<Seq<char>>::empty());
        }
        n
    }

    /// Applies a renderer command to the state, so that the tree follows what the
    /// renderer shows (see `apply_spec`). It never fails.
    pub fn apply_ipc(&mut self, req: &IpcRequest) -> (r: Result<(), StateError>)
        requires
            old(self).wf(),
            old(self)@.version < u64::MAX || apply_spec(old(self)@, *req) == old(self)@,
        ensures
            final(self).wf(),
            r is Ok,
            final(self)@ == apply_spec(old(self)@, *req),
    {
        let m = req.method.as_str();
        let id: &str = match get_str(&req.params, "id") {
            Some(s) => s,
            None => "",
        };
        let parent: &str = match get_str(&req.params, "parentId") {
            Some(s) => s,
            None => "",
        };
        let child: &str = match get_str(&req.params, "childId") {
            Some(s) => s,
            None => "",
        };
        proof {
            reveal_strlit("");
            assert(id@ == str_or_empty(param_str(*req, "id"@)));
            assert(parent@ == str_or_empty(param_str(*req, "parentId"@)));
            assert(child@ == str_or_empty(param_str(*req, "childId"@)));
        }
        proof {
            let v = old(self)@.version;
            assert(((v + 1) as u64) != v) by (bit_vector);
        }
        match WidgetType::from_method(m) {
            Some(t) => {
                if id.is_empty() || self.get(id).is_some() {
                    return Ok(());
                }
                let node = Self::created_widget(req, id, t);
                let _ = self.insert(node);
                return Ok(());
            },
            None => {},
        }
        if str_eq(m, METHOD_SET_SCALE) {
            let updated = match self.get(id) {
                None => {
                    return Ok(());
                },
                Some(n) => {
                    let mut n2 = n.duplicate();
                    n2.scale = match get_number(&req.params, "scale") {
                        Some(num) => float_number(num),
                        None => one_number(),
                    };
                    n2
                },
            };
            let _ = self.update(id, updated);
            proof {
                assert(final(self)@ == apply_spec(old(self)@, *req));
            }
        } else if str_eq(m, METHOD_SET_OPACITY) {
            let updated = match self.get(id) {
                None => {
                    return Ok(());
                },
                Some(n) => {
                    let mut n2 = n.duplicate();
                    n2.opacity = match get_number(&req.params, "opacity") {
                        Some(num) => float_number(num),
                        None => one_number(),
                    };
                    n2
                },
            };
            let _ = self.update(id, updated);
        } else if str_eq(m, METHOD_SET_BLUR) {
            let updated = match self.get(id) {
                None => {
                    return Ok(());
                },
                Some(n) => {
                    let mut n2 = n.duplicate();
                    n2.blur = match get_bool(&req.params, "enabled") {
                        Some(b) => b,
                        None => false,
                    };
                    n2
                },
            };
            let _ = self.update(id, updated);
        } else if str_eq(m, METHOD_ADD_CHILD) {
            let updated = match self.get(parent) {
                None => {
                    return Ok(());
                },
                Some(n) => {
                    if contains_string(&n.children, child) {
                        return Ok(());
                    }
                    let mut n2 = n.duplicate();
                    let ghost before = n2.children@;
                    n2.children.push(child.to_owned());
                    proof {
                        assert(n2@.children =~= n@.children.push(child@));
                    }
                    n2
                },
            };
            let _ = self.update(parent, updated);
        } else if str_eq(m, METHOD_REMOVE_CHILD) {
            let updated = match self.get(parent) {
                None => {
                    return Ok(());
                },
                Some(n) => {
                    let mut n2 = n.duplicate();
                    n2.children = remove_all(&n.children, child);
                    n2
                },
            };
            let _ = self.update(parent, updated);
        }
        Ok(())
    }
}

/// A command the replay will issue: its method and its parameters at top level.
pub ghost struct PlannedCommand {
    pub method: Seq<char>,
    pub params: Seq<(Seq<char>, JsonShallow)>,
}

/// `r` is a JSON-RPC 2.0 request with id 0 carrying exactly the planned method and
/// parameters.
pub open spec fn command_matches(r: IpcRequest, p: PlannedCommand) -> bool {
    &&& r.jsonrpc@ == "2.0"@
    &&& r.id == 0
    &&& r.method@ == p.method
    &&& object_shallow_is(r.params, p.params)
}

/// The requests carry the planned commands, one for one and in order.
pub open spec fn all_match(rs: Seq<IpcRequest>, ps: Seq<PlannedCommand>) -> bool {
    &&& rs.len() == ps.len()
    &&& forall|i: int| 0 <= i < rs.len() ==> command_matches(#[trigger] rs[i], ps[i])
}

/// A JSON number holding a 32-bit signed integer.
pub open spec fn num_i32(v: i32) -> JsonShallow {
    JsonShallow::Number(i64_number(v as i64)@)
}

/// A JSON number holding a 32-bit unsigned integer.
pub open spec fn num_u32(v: u32) -> JsonShallow {
    JsonShallow::Number(NumberView::PosInt(v as u64))
}

/// Whether the bits are those of a NaN.
pub open spec fn is_nan_bits(b: u64) -> bool {
    (b / 0x10000000000000) % 0x800 == 0x7ff && b % 0x10000000000000 != 0
}

/// Whether a number is farther than `f64::EPSILON` from 1.0, as `(x - 1.0).abs() > f64::EPSILON`
/// decides it. An integer is so unless it is 1. For a float, the only values within
/// `f64::EPSILON` of 1.0 are 1.0 itself, its neighbour above (1 + 2^-52) and its two
/// neighbours below (1 - 2^-53 and 1 - 2^-52); a NaN compares false.
pub open spec fn differs_from_one(n: NumberView) -> bool {
    match n {
        NumberView::PosInt(u) => u != 1,
        NumberView::NegInt(_) => true,
        NumberView::Float(b, _) => !is_nan_bits(b) && b != 0x3ff0000000000000 && b != 0x3ff0000000000001
            && b != 0x3fefffffffffffff && b != 0x3feffffffffffffe,
    }
}

fn number_differs_from_one(n: &JsonNumber) -> (r: bool)
    ensures
        r == differs_from_one(n@),
{
    match n {
        JsonNumber::PosInt(u) => *u != 1,
        JsonNumber::NegInt(_) => true,
        JsonNumber::Float { bits, text: _ } => {
            let b = *bits;
            let nan = (b / 0x10000000000000u64) % 0x800u64 == 0x7ffu64 && b % 0x10000000000000u64 != 0;
            !nan && b != 0x3ff0000000000000u64 && b != 0x3ff0000000000001u64 && b
                != 0x3fefffffffffffffu64 && b != 0x3feffffffffffffeu64
        },
    }
}

/// The command that recreates a widget: a rectangle with its bounds, blur, radius and
/// colour; an icon with its position, size and image; a text with its position, text,
/// size, colour and weight.
pub open spec fn create_command(n: WidgetNodeView) -> PlannedCommand {
    match n.widget_type {
        WidgetType::Rect => PlannedCommand {
            method: "createRect"@,
            params: seq![
                ("id"@, JsonShallow::Str(n.id)),
                ("x"@, num_i32(n.bounds.x)),
                ("y"@, num_i32(n.bounds.y)),
                ("w"@, num_i32(n.bounds.w)),
                ("h"@, num_i32(n.bounds.h)),
                ("blur"@, JsonShallow::Bool(n.blur)),
                ("radius"@, num_u32(n.radius)),
                ("color"@, shallow_opt_str(n.color)),
            ],
        },
        WidgetType::Icon => PlannedCommand {
            method: "createIcon"@,
            params: seq![
                ("id"@, JsonShallow::Str(n.id)),
                ("x"@, num_i32(n.bounds.x)),
                ("y"@, num_i32(n.bounds.y)),
                ("size"@, num_u32(n.size)),
                ("src"@, shallow_opt_str(n.src)),
            ],
        },
        WidgetType::Text => PlannedCommand {
            method: "createText"@,
            params: seq![
                ("id"@, JsonShallow::Str(n.id)),
                ("x"@, num_i32(n.bounds.x)),
                ("y"@, num_i32(n.bounds.y)),
                ("text"@, shallow_opt_str(n.text)),
                ("size"@, num_u32(n.size)),
                ("color"@, shallow_opt_str(n.color)),
                ("weight"@, shallow_opt_str(n.weight)),
            ],
        },
    }
}

/// The commands that restore a widget's scale and opacity, for those that differ from 1.0.
pub open spec fn property_commands(n: WidgetNodeView) -> Seq<PlannedCommand> {
    (if differs_from_one(n.scale) {
        seq![
            PlannedCommand {
                method: "setScale"@,
                params: seq![("id"@, JsonShallow::Str(n.id)), ("scale"@, JsonShallow::Number(n.scale))],
            },
        ]
    } else {
        Seq::empty()
    }) + (if differs_from_one(n.opacity) {
        seq![
            PlannedCommand {
                method: "setOpacity"@,
                params: seq![("id"@, JsonShallow::Str(n.id)), ("opacity"@, JsonShallow::Number(n.opacity))],
            },
        ]
    } else {
        Seq::empty()
    })
}

/// The command that attaches one child to a widget.
pub open spec fn add_child_command(parent: Seq<char>, child: Seq<char>) -> PlannedCommand {
    PlannedCommand {
        method: "addChild"@,
        params: seq![("parentId"@, JsonShallow::Str(parent)), ("childId"@, JsonShallow::Str(child))],
    }
}

/// The commands that attach a widget's children, in order.
pub open spec fn child_commands(n: WidgetNodeView) -> Seq<PlannedCommand> {
    n.children.map_values(|c: Seq<char>| add_child_command(n.id, c))
}

/// The scale and opacity commands of each widget in `order`, one widget after the other.
pub open spec fn all_property_commands(order: Seq<Seq<char>>, nodes: Map<Seq<char>, WidgetNodeView>) -> Seq<
    PlannedCommand,
>
    decreases order.len(),
{
    if order.len() == 0 {
        Seq::empty()
    } else {
        all_property_commands(order.drop_last(), nodes) + property_commands(nodes[order.last()])
    }
}

/// The child commands of each widget in `order`, one widget after the other.
pub open spec fn all_child_commands(order: Seq<Seq<char>>, nodes: Map<Seq<char>, WidgetNodeView>) -> Seq<
    PlannedCommand,
>
    decreases order.len(),
{
    if order.len() == 0 {
        Seq::empty()
    } else {
        all_child_commands(order.drop_last(), nodes) + child_commands(nodes[order.last()])
    }
}

/// The creation command of each widget in `order`.
pub open spec fn all_create_commands(order: Seq<Seq<char>>, nodes: Map<Seq<char>, WidgetNodeView>) -> Seq<
    PlannedCommand,
> {
    order.map_values(|k: Seq<char>| create_command(nodes[k]))
}

/// The replay of a tree: first every widget is created, in creation order; then the
/// scales and opacities that are not 1.0 are restored; then the children are attached.
pub open spec fn replay_plan(t: StateTreeView) -> Seq<PlannedCommand> {
    all_create_commands(t.order, t.nodes) + all_property_commands(t.order, t.nodes) + all_child_commands(
        t.order,
        t.nodes,
    )
}

pub(crate) fn i32_value(v: i32) -> (r: JsonValue)
    ensures
        crate::json::shallow(r) == num_i32(v),
{
    JsonValue::Number(JsonNumber::from_i64(v as i64))
}

pub(crate) fn u32_value(v: u32) -> (r: JsonValue)
    ensures
        crate::json::shallow(r) == num_u32(v),
{
    JsonValue::Number(JsonNumber::PosInt(v as u64))
}

fn create_request(node: &WidgetNode) -> (r: IpcRequest)
    ensures
        command_matches(r, create_command(node@)),
{
    let mut es: Vec<(String, JsonValue)> = Vec::new();
    push_entry(&mut es, "id", JsonValue::from_str(&node.id));
    push_entry(&mut es, "x", i32_value(node.bounds.x));
    push_entry(&mut es, "y", i32_value(node.bounds.y));
    let method = match node.widget_type {
        WidgetType::Rect => {
            push_entry(&mut es, "w", i32_value(node.bounds.w));
            push_entry(&mut es, "h", i32_value(node.bounds.h));
            push_entry(&mut es, "blur", JsonValue::Bool(node.blur));
            push_entry(&mut es, "radius", u32_value(node.radius));
            push_entry(&mut es, "color", JsonValue::from_opt_str(&node.color));
            METHOD_CREATE_RECT
        },
        WidgetType::Icon => {
            push_entry(&mut es, "size", u32_value(node.size));
            push_entry(&mut es, "src", JsonValue::from_opt_str(&node.src));
            METHOD_CREATE_ICON
        },
        WidgetType::Text => {
            push_entry(&mut es, "text", JsonValue::from_opt_str(&node.text));
            push_entry(&mut es, "size", u32_value(node.size));
            push_entry(&mut es, "color", JsonValue::from_opt_str(&node.color));
            push_entry(&mut es, "weight", JsonValue::from_opt_str(&node.weight));
            METHOD_CREATE_TEXT
        },
    };
    let r = IpcRequest::command(method, JsonValue::Object(es));
    proof {
        reveal_strlit("2.0");
        let p = create_command(node@);
        assert(r.params == JsonValue::Object(es));
        assert forall|i: int| 0 <= i < p.params.len() implies (#[trigger] es@[i]).0@ == p.params[i].0
            && crate::json::shallow(es@[i].1) == p.params[i].1 by {}
    }
    r
}

fn property_request(method: &str, key: &str, id: &String, value: &JsonNumber) -> (r: IpcRequest)
    ensures
        r.jsonrpc@ == "2.0"@,
        r.id == 0,
        r.method@ == method@,
        object_shallow_is(r.params, seq![("id"@, JsonShallow::Str(id@)), (key@, JsonShallow::Number(value@))]),
{
    let mut es: Vec<(String, JsonValue)> = Vec::new();
    push_entry(&mut es, "id", JsonValue::from_str(id));
    push_entry(&mut es, key, JsonValue::Number(value.duplicate()));
    let r = IpcRequest::command(method, JsonValue::Object(es));
    proof {
        let ps = seq![("id"@, JsonShallow::Str(id@)), (key@, JsonShallow::Number(value@))];
        assert forall|i: int| 0 <= i < ps.len() implies (#[trigger] es@[i]).0@ == ps[i].0
            && crate::json::shallow(es@[i].1) == ps[i].1 by {}
    }
    r
}

pub(crate) fn add_child_request(parent: &String, child: &String) -> (r: IpcRequest)
    ensures
        command_matches(r, add_child_command(parent@, child@)),
{
    let mut es: Vec<(String, JsonValue)> = Vec::new();
    push_entry(&mut es, "parentId", JsonValue::from_str(parent));
    push_entry(&mut es, "childId", JsonValue::from_str(child));
    let r = IpcRequest::command(METHOD_ADD_CHILD, JsonValue::Object(es));
    proof {
        let ps = add_child_command(parent@, child@).params;
        assert forall|i: int| 0 <= i < ps.len() implies (#[trigger] es@[i]).0@ == ps[i].0
            && crate::json::shallow(es@[i].1) == ps[i].1 by {}
    }
    r
}

/// Every command either leaves the state as it was or changes it and raises the
/// version by exactly one.
pub proof fn lemma_apply_version(t: StateTreeView, req: IpcRequest)
    requires
        t.version < u64::MAX,
    ensures
        apply_spec(t, req) == t || apply_spec(t, req).version == t.version + 1,
{
}

impl StateTree {
    /// The commands that rebuild the renderer's widgets from this tree after a crash
    /// (see `replay_plan`). Parents are assumed created before their children are
    /// attached, which holds when plugins create a parent before calling `addChild`.
    pub fn generate_replay_commands(&self) -> (r: Vec<IpcRequest>)
        requires
            self.wf(),
        ensures
            all_match(r@, replay_plan(self@)),
    {
        let ghost t = self@;
        let ghost creates = all_create_commands(t.order, t.nodes);
        proof {
            self.nodes.lemma_wf();
        }
        let n = self.nodes.len();
        let mut out: Vec<IpcRequest> = Vec::new();
        for i in 0..n
            invariant
                n == t.order.len(),
                t == self@,
                creates == all_create_commands(t.order, t.nodes),
                self.wf(),
                all_match(out@, creates.take(i as int)),
        {
            proof {
                self.lemma_node_at(i as int);
            }
            let req = create_request(self.nodes.value_at(i));
            let ghost before = out@;
            out.push(req);
            proof {
                assert(creates.take(i + 1) =~= creates.take(i as int).push(creates[i as int]));
                assert forall|j: int| 0 <= j < out@.len() implies command_matches(
                    #[trigger] out@[j],
                    creates.take(i + 1)[j],
                ) by {
                    if j < i {
                        assert(out@[j] == before[j]);
                    }
                }
            }
        }
        proof {
            assert(creates.take(n as int) =~= creates);
            assert(t.order.take(0) =~= Seq::<Seq<char>>::empty());
            assert(creates + all_property_commands(t.order.take(0), t.nodes) =~= creates);
        }
        for i in 0..n
            invariant
                n == t.order.len(),
                t == self@,
                self.wf(),
                all_match(out@, creates + all_property_commands(t.order.take(i as int), t.nodes)),
        {
            proof {
                self.lemma_node_at(i as int);
                assert(t.order.take(i + 1).drop_last() =~= t.order.take(i as int));
            }
            let node = self.nodes.value_at(i);
            let ghost base = creates + all_property_commands(t.order.take(i as int), t.nodes);
            let ghost before = out@;
            let ghost nv = t.nodes[t.order[i as int]];
            if number_differs_from_one(&node.scale) {
                out.push(property_request(METHOD_SET_SCALE, "scale", &node.id, &node.scale));
            }
            let ghost mid = out@;
            if number_differs_from_one(&node.opacity) {
                out.push(property_request(METHOD_SET_OPACITY, "opacity", &node.id, &node.opacity));
            }
            proof {
                reveal_strlit("2.0");
                let pc = property_commands(nv);
                assert(base + pc =~= creates + all_property_commands(t.order.take(i + 1), t.nodes));
                assert(out@.len() == (base + pc).len());
                assert forall|j: int| 0 <= j < out@.len() implies command_matches(
                    #[trigger] out@[j],
                    (base + pc)[j],
                ) by {
                    if j < before.len() {
                        assert(out@[j] == before[j]);
                    } else if j < mid.len() {
                        assert(out@[j] == mid[j]);
                    }
                }
            }
        }
        proof {
            assert(t.order.take(n as int) =~= t.order);
            let a = creates + all_property_commands(t.order, t.nodes);
            assert(a + all_child_commands(t.order.take(0), t.nodes) =~= a);
        }
        let ghost head = creates + all_property_commands(t.order, t.nodes);
        for i in 0..n
            invariant
                n == t.order.len(),
                t == self@,
                self.wf(),
                all_match(out@, head + all_child_commands(t.order.take(i as int), t.nodes)),
        {
            proof {
                self.lemma_node_at(i as int);
                assert(t.order.take(i + 1).drop_last() =~= t.order.take(i as int));
            }
            let node = self.nodes.value_at(i);
            let ghost nv = t.nodes[t.order[i as int]];
            let ghost base = head + all_child_commands(t.order.take(i as int), t.nodes);
            let nc = node.children.len();
            proof {
                assert(base + child_commands(nv).take(0) =~= base);
            }
            for k in 0..nc
                invariant
                    nc == nv.children.len(),
                    node@ == nv,
                    all_match(out@, base + child_commands(nv).take(k as int)),
            {
                let ghost before = out@;
                out.push(add_child_request(&node.id, &node.children[k]));
                proof {
                    let cc = child_commands(nv);
                    assert(cc[k as int] == add_child_command(nv.id, nv.children[k as int]));
                    assert(base + cc.take(k + 1) =~= (base + cc.take(k as int)).push(cc[k as int]));
                    assert forall|j: int| 0 <= j < out@.len() implies command_matches(
                        #[trigger] out@[j],
                        (base + cc.take(k + 1))[j],
                    ) by {
                        if j < before.len() {
                            assert(out@[j] == before[j]);
                        }
                    }
                }
            }
            proof {
                assert(child_commands(nv).take(nc as int) =~= child_commands(nv));
                assert(base + child_commands(nv) =~= head + all_child_commands(t.order.take(i + 1), t.nodes));
            }
        }
        proof {
            assert(t.order.take(n as int) =~= t.order);
        }
        out
    }
}

} // verus!
