//! The host's side of the protocol with the widget renderer process: how the lines it
//! prints are told apart, how requests to it are framed and numbered, when the link is
//! frozen, how often the process may be restarted, and what is sent to rebuild a fresh
//! renderer from the state tree. Starting the process and moving the bytes through its
//! pipes is left to the application.
use vstd::prelude::*;
use crate::json_text::{json_text_value, parse_json};
use crate::ipc::{IpcRequest, METHOD_CREATE_ICON, METHOD_CREATE_RECT, METHOD_CREATE_TEXT};
use crate::json::{get_str, get_u64, json_as_str, json_as_u64, json_get, push_entry, JsonNumber, JsonShallow, JsonValue, NumberView};
use crate::state_tree::{
    add_child_command, all_child_commands, all_match, command_matches, create_method, i32_value, num_i32,
    num_u32, u32_value, PlannedCommand, StateTree, StateTreeView, WidgetNode, WidgetNodeView, WidgetType,
};
use crate::text::{chars_of, decimal, push_decimal, push_str, str_eq, string_from_chars, trim, trim_chars};

verus! {

/// How many times the renderer process is restarted after crashes.
pub const QT_MAX_RESTARTS: u32 = 5;

/// The largest serialized size of the widgets sent in one replay page (1 MB); a single
/// larger widget gets a page of its own.
pub const PAGE_LIMIT: usize = 1048576;

/// A line printed by the renderer.
pub enum QtMessage {
    /// The answer to a request: it carries the request's numeric `id`.
    Response { id: u64, json: String },
    /// An event without an `id`, with the widget it concerns (`params.widgetId`, or empty).
    Event { method: String, widget_id: String },
    /// An event whose whole text is kept because its handler needs its parameters (`onDrop`).
    EventJson { method: String, json: String },
    /// Anything else: an empty line, text that is not JSON, or JSON that is neither.
    Unknown(String),
}

/// A renderer message as a mathematical value.
pub enum QtMessageView {
    Response(u64, Seq<char>),
    Event(Seq<char>, Seq<char>),
    EventJson(Seq<char>, Seq<char>),
    Unknown(Seq<char>),
}

impl View for QtMessage {
    type V = QtMessageView;

    open spec fn view(&self) -> QtMessageView {
        match *self {
            QtMessage::Response { id, json } => QtMessageView::Response(id, json@),
            QtMessage::Event { method, widget_id } => QtMessageView::Event(method@, widget_id@),
            QtMessage::EventJson { method, json } => QtMessageView::EventJson(method@, json@),
            QtMessage::Unknown(line) => QtMessageView::Unknown(line@),
        }
    }
}

/// The widget an event concerns: the string `params.widgetId`, or empty.
pub open spec fn event_widget_id(v: JsonValue) -> Seq<char> {
    let w = match json_get(v, "params"@) {
        Some(p) => json_as_str(json_get(p, "widgetId"@)),
        None => None,
    };
    match w {
        Some(s) => s,
        None => Seq::empty(),
    }
}

/// How a trimmed line of the renderer, and the JSON it parses to (if it does), is read:
/// an empty or unparsable line is unknown; a numeric `id` makes a response; otherwise a
/// string `method` makes an event (`onDrop` keeps the whole text); otherwise unknown.
pub open spec fn classify_spec(line: Seq<char>, parsed: Option<JsonValue>) -> QtMessageView {
    if line.len() == 0 {
        QtMessageView::Unknown(line)
    } else {
        match parsed {
            None => QtMessageView::Unknown(line),
            Some(v) => match json_as_u64(json_get(v, "id"@)) {
                Some(id) => QtMessageView::Response(id, line),
                None => match json_as_str(json_get(v, "method"@)) {
                    Some(m) => if m == "onDrop"@ {
                        QtMessageView::EventJson(m, line)
                    } else {
                        QtMessageView::Event(m, event_widget_id(v))
                    },
                    None => QtMessageView::Unknown(line),
                },
            },
        }
    }
}

/// A line read from the renderer without its surrounding whitespace.
pub fn trim_line(raw: &str) -> (r: String)
    ensures
        r@ == trim(raw@),
{
    let cs = chars_of(raw);
    let t = trim_chars(cs.as_slice());
    string_from_chars(t.as_slice())
}

/// Tells the kinds of renderer output apart. `line` is a trimmed line and `parsed` the
/// JSON value it parses to, `None` when it is not JSON.
pub fn classify_message(line: String, parsed: Option<JsonValue>) -> (m: QtMessage)
    ensures
        m@ == classify_spec(line@, parsed),
{
    if line.as_str().is_empty() {
        return QtMessage::Unknown(line);
    }
    match parsed {
        None => QtMessage::Unknown(line),
        Some(v) => {
            if let Some(id) = get_u64(&v, "id") {
                return QtMessage::Response { id, json: line };
            }
            match get_str(&v, "method") {
                Some(method) => {
                    if str_eq(method, "onDrop") {
                        proof {
                            reveal_strlit("onDrop");
                        }
                        QtMessage::EventJson { method: method.to_owned(), json: line }
                    } else {
                        let widget_id = match v.get("params") {
                            Some(p) => match get_str(p, "widgetId") {
                                Some(w) => w.to_owned(),
                                None => String::new(),
                            },
                            None => String::new(),
                        };
                        QtMessage::Event { method: method.to_owned(), widget_id }
                    }
                },
                None => QtMessage::Unknown(line),
            }
        },
    }
}

/// Reads one line printed by the renderer: trims it, reads it as JSON with `serde_json`
/// and tells what it is.
pub fn read_message(raw: &str) -> (m: QtMessage)
    ensures
        m@ == classify_spec(trim(raw@), json_text_value(trim(raw@))),
{
    let line = trim_line(raw);
    let parsed = parse_json(line.as_str());
    classify_message(line, parsed)
}

/// `p` occurs in `s`.
pub open spec fn contains_text(s: Seq<char>, p: Seq<char>) -> bool {
    exists|i: int| 0 <= i && i + p.len() <= s.len() && #[trigger] s.subrange(i, i + p.len()) == p
}

fn contains_chars(s: &Vec<char>, p: &Vec<char>) -> (r: bool)
    ensures
        r == contains_text(s@, p@),
{
    let n = s.len();
    let m = p.len();
    if m > n {
        return false;
    }
    if m == 0 {
        proof {
            assert(s@.subrange(0, 0) =~= p@);
            assert(s@.subrange(0int, 0int + p@.len()) == p@);
        }
        return true;
    }
    let last = n - m;
    let mut i: usize = 0;
    while i < last + 1
        invariant
            0 < m <= n,
            last == n - m,
            i <= last + 1,
            n == s@.len(),
            m == p@.len(),
            forall|k: int| 0 <= k < i ==> #[trigger] s@.subrange(k, k + m) != p@,
        decreases last + 1 - i,
    {
        let mut j: usize = 0;
        let mut same = true;
        while j < m
            invariant
                j <= m,
                i < last + 1,
                last == n - m,
                m <= n,
                n == s@.len(),
                m == p@.len(),
                same == (forall|t: int| 0 <= t < j ==> s@[i + t] == p@[t]),
            decreases m - j,
        {
            if s[i + j] != p[j] {
                same = false;
            }
            j = j + 1;
        }
        if same {
            proof {
                assert(s@.subrange(i as int, i + m) =~= p@);
            }
            return true;
        }
        proof {
            let t = choose|t: int| 0 <= t < m && s@[i + t] != p@[t];
            assert(s@.subrange(i as int, i + m)[t] != p@[t]);
        }
        i = i + 1;
    }
    false
}

/// Whether a line of the renderer is its ready notice: the trimmed line contains `"ready"`
/// (with the quotes).
pub fn is_ready_line(raw: &str) -> (b: bool)
    ensures
        b == contains_text(trim(raw@), "\"ready\""@),
{
    let cs = chars_of(raw);
    let t = trim_chars(cs.as_slice());
    let p = chars_of("\"ready\"");
    contains_chars(&t, &p)
}

/// The text of a JSON-RPC 2.0 request as written to the renderer, one per line:
/// `{"jsonrpc":"2.0","id":ID,"method":"METHOD","params":PARAMS}` with the method and the
/// parameters' JSON text inserted as they are.
pub open spec fn request_text(id: u64, method: Seq<char>, params: Seq<char>) -> Seq<char> {
    "{\"jsonrpc\":\"2.0\",\"id\":"@ + decimal(id as nat) + ",\"method\":\""@ + method + "\",\"params\":"@
        + params + "}"@
}

/// Why the renderer process is not restarted.
#[derive(Debug, Clone, Copy, PartialEq, Eq)]
pub enum QtError {
    /// It has crashed `count` times, more than `max` allows.
    TooManyRestarts { count: u32, max: u32 },
}

/// What the child process reported when asked whether it has exited.
#[derive(Debug, Clone, Copy, PartialEq, Eq, Structural)]
pub enum ChildWait {
    /// It has exited.
    Exited,
    /// It is still running.
    Running,
    /// The status could not be read.
    Failed,
}

/// Whether the renderer is taken to have crashed: there is a process and it has exited
/// or its status could not be read.
pub fn crash_detected(has_child: bool, wait: ChildWait) -> (b: bool)
    ensures
        b == (has_child && wait != ChildWait::Running),
{
    has_child && !matches!(wait, ChildWait::Running)
}

/// The state of the link to the renderer as a mathematical value.
pub ghost struct QtLinkView {
    pub frozen: bool,
    pub crash_count: u32,
    pub next_id: u64,
}

/// The protocol state of the link to the renderer: whether requests are held back, how
/// often it has been restarted, and the id the next request gets. The process and its
/// pipes are held next to it by the application.
pub struct WidgetQtRuntime {
    frozen: bool,
    crash_count: u32,
    max_restarts: u32,
    next_id: u64,
}

impl WidgetQtRuntime {
    /// The restart limit is `QT_MAX_RESTARTS`.
    pub closed spec fn wf(&self) -> bool {
        self.max_restarts == QT_MAX_RESTARTS
    }

    pub closed spec fn view(&self) -> QtLinkView {
        QtLinkView { frozen: self.frozen, crash_count: self.crash_count, next_id: self.next_id }
    }

    /// A link that is not frozen, has not been restarted, and numbers requests from 1.
    pub fn new() -> (r: Self)
        ensures
            r.wf(),
            r@ == (QtLinkView { frozen: false, crash_count: 0, next_id: 1 }),
    {
        WidgetQtRuntime { frozen: false, crash_count: 0, max_restarts: QT_MAX_RESTARTS, next_id: 1 }
    }

    /// The line for a request to the renderer, which must answer it: `None` while the link
    /// is frozen (the request is dropped); otherwise the request numbered with the next
    /// id, which is then used up.
    pub fn send_request(&mut self, method: &str, params: &str) -> (r: Option<String>)
        requires
            old(self)@.next_id < u64::MAX,
        ensures
            final(self).wf() == old(self).wf(),
            old(self)@.frozen ==> r is None && final(self)@ == old(self)@,
            !old(self)@.frozen ==> r is Some && r->0@ == request_text(old(self)@.next_id, method@, params@)
                && final(self)@ == (QtLinkView { next_id: (old(self)@.next_id + 1) as u64, ..old(self)@ }),
    {
        if self.frozen {
            return None;
        }
        let id = self.next_id;
        self.next_id = self.next_id + 1;
        let mut s = String::new();
        push_str(&mut s, "{\"jsonrpc\":\"2.0\",\"id\":");
        push_decimal(&mut s, id);
        push_str(&mut s, ",\"method\":\"");
        push_str(&mut s, method);
        push_str(&mut s, "\",\"params\":");
        push_str(&mut s, params);
        push_str(&mut s, "}");
        proof {
            assert(s@ =~= request_text(id, method@, params@));
        }
        Some(s)
    }

    /// Counts a crash of the renderer and decides whether it is restarted: `Ok` while it
    /// has crashed at most `QT_MAX_RESTARTS` times.
    pub fn restart_qt(&mut self) -> (r: Result<(), QtError>)
        requires
            old(self).wf(),
            old(self)@.crash_count < u32::MAX,
        ensures
            final(self).wf(),
            final(self)@ == (QtLinkView { crash_count: (old(self)@.crash_count + 1) as u32, ..old(self)@ }),
            r == (if old(self)@.crash_count + 1 > QT_MAX_RESTARTS {
                Err(QtError::TooManyRestarts { count: (old(self)@.crash_count + 1) as u32, max: QT_MAX_RESTARTS })
            } else {
                Ok(())
            }),
    {
        self.crash_count = self.crash_count + 1;
        if self.crash_count > self.max_restarts {
            return Err(QtError::TooManyRestarts { count: self.crash_count, max: self.max_restarts });
        }
        Ok(())
    }

    /// Holds back all requests until `unfreeze_ipc`.
    pub fn freeze_ipc(&mut self)
        ensures
            final(self).wf() == old(self).wf(),
            final(self)@ == (QtLinkView { frozen: true, ..old(self)@ }),
    {
        self.frozen = true;
    }

    /// Lets requests through again.
    pub fn unfreeze_ipc(&mut self)
        ensures
            final(self).wf() == old(self).wf(),
            final(self)@ == (QtLinkView { frozen: false, ..old(self)@ }),
    {
        self.frozen = false;
    }

    /// Whether requests are held back.
    pub fn is_frozen(&self) -> (b: bool)
        ensures
            b == self@.frozen,
    {
        self.frozen
    }

    /// The id the next request gets.
    pub fn next_request_id(&self) -> (n: u64)
        ensures
            n == self@.next_id,
    {
        self.next_id
    }

    /// How many crashes of the renderer have been counted.
    pub fn crash_count(&self) -> (n: u32)
        ensures
            n == self@.crash_count,
    {
        self.crash_count
    }
}


/// The command that recreates a widget in a fresh renderer during a full replay: its
/// creation method with the id, bounds, radius, blur, scale and opacity.
pub open spec fn qt_create_command(n: WidgetNodeView) -> PlannedCommand {
    PlannedCommand {
        method: create_method(n.widget_type),
        params: seq![
            ("id"@, JsonShallow::Str(n.id)),
            ("x"@, num_i32(n.bounds.x)),
            ("y"@, num_i32(n.bounds.y)),
            ("w"@, num_i32(n.bounds.w)),
            ("h"@, num_i32(n.bounds.h)),
            ("radius"@, num_u32(n.radius)),
            ("blur"@, JsonShallow::Bool(n.blur)),
            ("scale"@, JsonShallow::Number(n.scale)),
            ("opacity"@, JsonShallow::Number(n.opacity)),
        ],
    }
}

/// A full replay of the tree: every widget created in creation order, then every
/// parent's children attached in order.
pub open spec fn qt_replay_plan(t: StateTreeView) -> Seq<PlannedCommand> {
    t.order.map_values(|k: Seq<char>| qt_create_command(t.nodes[k])) + all_child_commands(t.order, t.nodes)
}

fn create_method_name(t: WidgetType) -> (m: &'static str)
    ensures
        m@ == create_method(t),
{
    match t {
        WidgetType::Rect => METHOD_CREATE_RECT,
        WidgetType::Icon => METHOD_CREATE_ICON,
        WidgetType::Text => METHOD_CREATE_TEXT,
    }
}

fn full_create_request(node: &WidgetNode) -> (r: IpcRequest)
    ensures
        command_matches(r, qt_create_command(node@)),
{
    let mut es: Vec<(String, JsonValue)> = Vec::new();
    push_entry(&mut es, "id", JsonValue::from_str(&node.id));
    push_entry(&mut es, "x", i32_value(node.bounds.x));
    push_entry(&mut es, "y", i32_value(node.bounds.y));
    push_entry(&mut es, "w", i32_value(node.bounds.w));
    push_entry(&mut es, "h", i32_value(node.bounds.h));
    push_entry(&mut es, "radius", u32_value(node.radius));
    push_entry(&mut es, "blur", JsonValue::Bool(node.blur));
    push_entry(&mut es, "scale", JsonValue::Number(node.scale.duplicate()));
    push_entry(&mut es, "opacity", JsonValue::Number(node.opacity.duplicate()));
    let r = IpcRequest::command(create_method_name(node.widget_type), JsonValue::Object(es));
    proof {
        reveal_strlit("2.0");
        let p = qt_create_command(node@);
        assert forall|i: int| 0 <= i < p.params.len() implies (#[trigger] es@[i]).0@ == p.params[i].0
            && crate::json::shallow(es@[i].1) == p.params[i].1 by {}
    }
    r
}

/// Greedy packing of the widgets' serialized sizes into replay pages: the page (from 0)
/// of each widget, and the size of the last page. A widget goes on the current page
/// unless the page already holds a widget and would then exceed `PAGE_LIMIT`.
pub open spec fn pack(sizes: Seq<usize>) -> (Seq<nat>, nat)
    decreases sizes.len(),
{
    if sizes.len() == 0 {
        (Seq::empty(), 0)
    } else {
        let (pages, cur) = pack(sizes.drop_last());
        let x = sizes.last() as nat;
        if pages.len() > 0 && cur + x > PAGE_LIMIT {
            (pages.push(pages.last() + 1), x)
        } else if pages.len() > 0 {
            (pages.push(pages.last()), cur + x)
        } else {
            (pages.push(0), x)
        }
    }
}

/// The number of replay pages.
pub open spec fn page_count(sizes: Seq<usize>) -> nat {
    let pages = pack(sizes).0;
    if pages.len() == 0 {
        0
    } else {
        pages.last() + 1
    }
}

/// The command that recreates a widget during a paged replay: its creation method with
/// the id and bounds, its page (from 1), the number of pages and whether its page is
/// the last.
pub open spec fn paged_command(n: WidgetNodeView, page: nat, total: nat) -> PlannedCommand {
    PlannedCommand {
        method: create_method(n.widget_type),
        params: seq![
            ("id"@, JsonShallow::Str(n.id)),
            ("x"@, num_i32(n.bounds.x)),
            ("y"@, num_i32(n.bounds.y)),
            ("w"@, num_i32(n.bounds.w)),
            ("h"@, num_i32(n.bounds.h)),
            ("page"@, JsonShallow::Number(NumberView::PosInt(page as u64))),
            ("total_pages"@, JsonShallow::Number(NumberView::PosInt(total as u64))),
            ("is_last"@, JsonShallow::Bool(page == total)),
        ],
    }
}

/// A paged replay of the tree whose widgets, in creation order, serialize to `sizes`.
pub open spec fn paged_plan(t: StateTreeView, sizes: Seq<usize>) -> Seq<PlannedCommand> {
    Seq::new(
        t.order.len(),
        |i: int| paged_command(t.nodes[t.order[i]], pack(sizes).0[i] + 1, page_count(sizes)),
    )
}

/// Each widget's page is at most its position, and every widget has one.
pub proof fn lemma_pack_bounds(sizes: Seq<usize>)
    ensures
        pack(sizes).0.len() == sizes.len(),
        forall|j: int| 0 <= j < sizes.len() ==> #[trigger] pack(sizes).0[j] <= j,
        sizes.len() > 0 ==> pack(sizes).0.last() <= pack(sizes).0[0] + sizes.len() - 1,
    decreases sizes.len(),
{
    if sizes.len() > 0 {
        lemma_pack_bounds(sizes.drop_last());
    }
}


/// The summed size of the first `n` widgets that are on page `p`.
pub open spec fn page_bytes(sizes: Seq<usize>, pages: Seq<nat>, p: nat, n: nat) -> nat
    decreases n,
{
    if n == 0 {
        0
    } else {
        page_bytes(sizes, pages, p, (n - 1) as nat) + (if pages[n - 1] == p {
            sizes[n - 1] as nat
        } else {
            0
        })
    }
}

/// How many of the first `n` widgets are on page `p`.
pub open spec fn page_len(pages: Seq<nat>, p: nat, n: nat) -> nat
    decreases n,
{
    if n == 0 {
        0
    } else {
        page_len(pages, p, (n - 1) as nat) + (if pages[n - 1] == p {
            1nat
        } else {
            0
        })
    }
}

proof fn lemma_page_sums_prefix(s1: Seq<usize>, p1: Seq<nat>, s2: Seq<usize>, p2: Seq<nat>, p: nat, n: nat)
    requires
        forall|j: int| 0 <= j < n ==> s1[j] == s2[j] && p1[j] == p2[j],
    ensures
        page_bytes(s1, p1, p, n) == page_bytes(s2, p2, p, n),
        page_len(p1, p, n) == page_len(p2, p, n),
    decreases n,
{
    if n > 0 {
        lemma_page_sums_prefix(s1, p1, s2, p2, p, (n - 1) as nat);
    }
}

proof fn lemma_page_sums_above(sizes: Seq<usize>, pages: Seq<nat>, p: nat, n: nat)
    requires
        forall|j: int| 0 <= j < n ==> pages[j] < p,
    ensures
        page_bytes(sizes, pages, p, n) == 0,
        page_len(pages, p, n) == 0,
    decreases n,
{
    if n > 0 {
        lemma_page_sums_above(sizes, pages, p, (n - 1) as nat);
    }
}

/// Replay pages come in order and without gaps: the first widget is on the first page,
/// and each next widget is on the same page as the one before or on the page after it.
/// A page that holds more than one widget holds at most `PAGE_LIMIT` bytes; only a
/// widget larger than that by itself makes a larger page.
pub proof fn lemma_pages_within_limit(sizes: Seq<usize>)
    ensures
        sizes.len() > 0 ==> pack(sizes).0[0] == 0,
        forall|j: int|
            0 < j < sizes.len() ==> #[trigger] pack(sizes).0[j] == pack(sizes).0[j - 1] || pack(sizes).0[j]
                == pack(sizes).0[j - 1] + 1,
        forall|p: nat|
            #[trigger] page_len(pack(sizes).0, p, sizes.len()) >= 2 ==> page_bytes(
                sizes,
                pack(sizes).0,
                p,
                sizes.len(),
            ) <= PAGE_LIMIT,
        sizes.len() > 0 ==> pack(sizes).1 == page_bytes(sizes, pack(sizes).0, pack(sizes).0.last(), sizes.len()),
        sizes.len() > 0 ==> forall|j: int| 0 <= j < sizes.len() ==> #[trigger] pack(sizes).0[j] <= pack(sizes).0.last(),
    decreases sizes.len(),
{
    lemma_pack_bounds(sizes);
    if sizes.len() > 0 {
        let s0 = sizes.drop_last();
        let n0 = s0.len();
        let n = sizes.len();
        lemma_pages_within_limit(s0);
        lemma_pack_bounds(s0);
        let (pg0, cur) = pack(s0);
        let (pg, c2) = pack(sizes);
        let x = sizes.last();
        assert(pg.len() == n);
        assert forall|j: int| 0 <= j < n0 implies pg[j] == pg0[j] && sizes[j] == s0[j] by {}
        assert forall|p: nat| true implies page_bytes(sizes, pg, p, n0) == page_bytes(s0, pg0, p, n0)
            && page_len(pg, p, n0) == page_len(pg0, p, n0) by {
            lemma_page_sums_prefix(sizes, pg, s0, pg0, p, n0);
        }
        let q = pg.last();
        assert(page_bytes(sizes, pg, q, n) == page_bytes(sizes, pg, q, n0) + x);
        lemma_page_sums_prefix(sizes, pg, s0, pg0, q, n0);
        if n0 == 0 {
            assert(page_bytes(sizes, pg, q, n0) == 0);
            assert(c2 == x);
            assert forall|p: nat| #[trigger] page_len(pg, p, n) >= 2 implies page_bytes(sizes, pg, p, n) <= PAGE_LIMIT by {
                assert(page_len(pg, p, 0) == 0);
            }
        } else {
            let last = pg0.last();
            assert(q == last || q == last + 1);
            if q == last + 1 {
                lemma_page_sums_above(s0, pg0, q, n0);
                assert(c2 == x);
            } else {
                assert(cur + x <= PAGE_LIMIT);
                assert(c2 == cur + x);
                assert(page_bytes(s0, pg0, last, n0) == cur);
            }
            assert forall|p: nat| #[trigger] page_len(pg, p, n) >= 2 implies page_bytes(sizes, pg, p, n) <= PAGE_LIMIT by {
                assert(page_bytes(sizes, pg, p, n) == page_bytes(sizes, pg, p, n0) + (if p == q { x as nat } else { 0 }));
                assert(page_len(pg, p, n) == page_len(pg, p, n0) + (if p == q { 1nat } else { 0 }));
                if p == q && q == last + 1 {
                    lemma_page_sums_above(s0, pg0, p, n0);
                } else if p == q {
                } else {
                    assert(page_len(pg0, p, n0) >= 2);
                }
            }
        }
    }
}

fn page_request(node: &WidgetNode, page: usize, total: usize) -> (r: IpcRequest)
    ensures
        command_matches(r, paged_command(node@, page as nat, total as nat)),
{
    let mut es: Vec<(String, JsonValue)> = Vec::new();
    push_entry(&mut es, "id", JsonValue::from_str(&node.id));
    push_entry(&mut es, "x", i32_value(node.bounds.x));
    push_entry(&mut es, "y", i32_value(node.bounds.y));
    push_entry(&mut es, "w", i32_value(node.bounds.w));
    push_entry(&mut es, "h", i32_value(node.bounds.h));
    push_entry(&mut es, "page", JsonValue::Number(JsonNumber::PosInt(page as u64)));
    push_entry(&mut es, "total_pages", JsonValue::Number(JsonNumber::PosInt(total as u64)));
    push_entry(&mut es, "is_last", JsonValue::Bool(page == total));
    let r = IpcRequest::command(create_method_name(node.widget_type), JsonValue::Object(es));
    proof {
        reveal_strlit("2.0");
        let p = paged_command(node@, page as nat, total as nat);
        assert forall|i: int| 0 <= i < p.params.len() implies (#[trigger] es@[i]).0@ == p.params[i].0
            && crate::json::shallow(es@[i].1) == p.params[i].1 by {}
    }
    r
}

impl WidgetQtRuntime {
    /// The requests that rebuild a fresh renderer from the tree (see `qt_replay_plan`).
    pub fn replay_state_tree(tree: &StateTree) -> (r: Vec<IpcRequest>)
        requires
            tree.wf(),
        ensures
            all_match(r@, qt_replay_plan(tree@)),
    {
        let ghost t = tree@;
        let ghost creates = t.order.map_values(|k: Seq<char>| qt_create_command(t.nodes[k]));
        let nodes = tree.all_nodes();
        let n = nodes.len();
        let mut out: Vec<IpcRequest> = Vec::new();
        for i in 0..n
            invariant
                n == nodes@.len(),
                n == t.order.len(),
                forall|j: int| 0 <= j < n ==> (#[trigger] nodes@[j])@ == t.nodes[t.order[j]],
                creates == t.order.map_values(|k: Seq<char>| qt_create_command(t.nodes[k])),
                all_match(out@, creates.take(i as int)),
        {
            let ghost before = out@;
            out.push(full_create_request(nodes[i]));
            proof {
                assert(creates.take(i + 1) =~= creates.take(i as int).push(creates[i as int]));
                assert forall|j: int| 0 <= j < out@.len() implies command_matches(
                    #[trigger] out@[j],
                    creates.take(i + 1)[j],
                ) by {
                    if j < i {
                        assert(out@[j] == before[j]);
                    }
                }
            }
        }
        proof {
            assert(creates.take(n as int) =~= creates);
            assert(creates + all_child_commands(t.order.take(0), t.nodes) =~= creates);
        }
        for i in 0..n
            invariant
                n == nodes@.len(),
                n == t.order.len(),
                forall|j: int| 0 <= j < n ==> (#[trigger] nodes@[j])@ == t.nodes[t.order[j]],
                all_match(out@, creates + all_child_commands(t.order.take(i as int), t.nodes)),
        {
            proof {
                assert(t.order.take(i + 1).drop_last() =~= t.order.take(i as int));
            }
            let node = nodes[i];
            let ghost nv = t.nodes[t.order[i as int]];
            let ghost base = creates + all_child_commands(t.order.take(i as int), t.nodes);
            let nc = node.children.len();
            proof {
                assert(node@ == nv);
                assert(base + crate::state_tree::child_commands(nv).take(0) =~= base);
            }
            for k in 0..nc
                invariant
                    nc == nv.children.len(),
                    node@ == nv,
                    all_match(out@, base + crate::state_tree::child_commands(nv).take(k as int)),
            {
                let ghost before = out@;
                out.push(crate::state_tree::add_child_request(&node.id, &node.children[k]));
                proof {
                    let cc = crate::state_tree::child_commands(nv);
                    assert(cc[k as int] == add_child_command(nv.id, nv.children[k as int]));
                    assert(base + cc.take(k + 1) =~= (base + cc.take(k as int)).push(cc[k as int]));
                    assert forall|j: int| 0 <= j < out@.len() implies command_matches(
                        #[trigger] out@[j],
                        (base + cc.take(k + 1))[j],
                    ) by {
                        if j < before.len() {
                            assert(out@[j] == before[j]);
                        }
                    }
                }
            }
            proof {
                let cc = crate::state_tree::child_commands(nv);
                assert(cc.take(nc as int) =~= cc);
                assert(base + cc =~= creates + all_child_commands(t.order.take(i + 1), t.nodes));
            }
        }
        proof {
            assert(t.order.take(n as int) =~= t.order);
        }
        out
    }

    /// The requests of a paged replay (see `paged_plan`), for a tree whose widgets, in
    /// creation order, serialize to `sizes` bytes.
    pub fn replay_pages(tree: &StateTree, sizes: &Vec<usize>) -> (r: Vec<IpcRequest>)
        requires
            tree.wf(),
            sizes@.len() == tree@.order.len(),
        ensures
            all_match(r@, paged_plan(tree@, sizes@)),
    {
        let ghost t = tree@;
        let nodes = tree.all_nodes();
        let n = nodes.len();
        let mut pages: Vec<usize> = Vec::new();
        let mut cur: usize = 0;
        proof {
            assert(sizes@.take(0) =~= Seq::<usize>::empty());
        }
        for i in 0..n
            invariant
                n == sizes@.len(),
                pages@.len() == i,
                forall|j: int| 0 <= j < i ==> #[trigger] pages@[j] == pack(sizes@.take(i as int)).0[j],
                cur == pack(sizes@.take(i as int)).1,
        {
            proof {
                assert(sizes@.take(i + 1).drop_last() =~= sizes@.take(i as int));
                lemma_pack_bounds(sizes@.take(i as int));
            }
            let x = sizes[i];
            if i > 0 && (cur > PAGE_LIMIT || x > PAGE_LIMIT - cur) {
                let p = pages[i - 1] + 1;
                pages.push(p);
                cur = x;
            } else if i > 0 {
                let p = pages[i - 1];
                pages.push(p);
                cur = cur + x;
            } else {
                pages.push(0);
                cur = x;
            }
        }
        proof {
            assert(sizes@.take(n as int) =~= sizes@);
            lemma_pack_bounds(sizes@);
        }
        let total: usize = if n == 0 {
            0
        } else {
            pages[n - 1] + 1
        };
        let mut out: Vec<IpcRequest> = Vec::new();
        let ghost plan = paged_plan(t, sizes@);
        for i in 0..n
            invariant
                n == nodes@.len(),
                n == t.order.len(),
                n == pages@.len(),
                n == sizes@.len(),
                forall|j: int| 0 <= j < n ==> (#[trigger] nodes@[j])@ == t.nodes[t.order[j]],
                forall|j: int| 0 <= j < n ==> #[trigger] pages@[j] == pack(sizes@).0[j],
                forall|j: int| 0 <= j < n ==> #[trigger] pack(sizes@).0[j] <= j,
                total == page_count(sizes@),
                plan == paged_plan(t, sizes@),
                all_match(out@, plan.take(i as int)),
        {
            let ghost before = out@;
            out.push(page_request(nodes[i], pages[i] + 1, total));
            proof {
                assert(plan.take(i + 1) =~= plan.take(i as int).push(plan[i as int]));
                assert forall|j: int| 0 <= j < out@.len() implies command_matches(
                    #[trigger] out@[j],
                    plan.take(i + 1)[j],
                ) by {
                    if j < i {
                        assert(out@[j] == before[j]);
                    }
                }
            }
        }
        proof {
            assert(plan.take(n as int) =~= plan);
        }
        out
    }
}

} // verus!
