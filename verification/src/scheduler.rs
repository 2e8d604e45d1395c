//! The render scheduler: SDK commands queue up on a channel and are flushed once per
//! frame, after frame-level de-duplication.
use vstd::prelude::*;
use crate::ipc::IpcRequest;
use crate::json::{get_u64, json_as_u64, json_get, number_text, JsonValue};
use crate::text::{chars_of, str_eq};
use tokio::sync::mpsc::{UnboundedReceiver, UnboundedSender};

verus! {

#[verifier::external_type_specification]
#[verifier::external_body]
#[verifier::reject_recursive_types(T)]
pub struct ExUnboundedReceiver<T>(UnboundedReceiver<T>);

#[verifier::external_type_specification]
#[verifier::external_body]
#[verifier::reject_recursive_types(T)]
pub struct ExUnboundedSender<T>(UnboundedSender<T>);

/// `tokio::sync::mpsc::unbounded_channel`: a new, empty channel; commands sent on the
/// sender are received, in order, on the receiver. Nothing about the channel's
/// contents is stated here.
#[verifier::external_body]
fn command_channel() -> (UnboundedSender<IpcRequest>, UnboundedReceiver<IpcRequest>) {
    tokio::sync::mpsc::unbounded_channel()
}

/// `UnboundedReceiver::try_recv`: the next queued command, or `None` when none is
/// queued right now (or every sender is gone). Which command comes back depends on what
/// other tasks have sent, so nothing about it is stated.
#[verifier::external_body]
fn try_receive(rx: &mut UnboundedReceiver<IpcRequest>) -> Option<IpcRequest> {
    rx.try_recv().ok()
}

/// The widget a command is about: its `id` parameter as text (a number is printed
/// in decimal), or empty when there is none.
pub open spec fn widget_key(params: JsonValue) -> Seq<char> {
    match json_get(params, "id"@) {
        Some(JsonValue::String(s)) => s@,
        Some(JsonValue::Number(n)) => number_text(n),
        _ => Seq::empty(),
    }
}

/// The animation duration of a command (0 when absent or not a non-negative integer).
pub open spec fn duration_of(params: JsonValue) -> u64 {
    json_as_u64(json_get(params, "duration"@)).unwrap_or(0)
}

/// Whether a method name starts with `create`.
pub open spec fn is_create(method: Seq<char>) -> bool {
    method.len() >= 6 && method.take(6) == "create"@
}

/// The de-duplication key of a command: (method, widget) for an instant (duration 0),
/// non-creating command about a widget; `None` for every other command.
pub open spec fn dedup_key(c: IpcRequest) -> Option<(Seq<char>, Seq<char>)> {
    if duration_of(c.params) == 0 && !is_create(c.method@) && widget_key(c.params).len() > 0 {
        Some((c.method@, widget_key(c.params)))
    } else {
        None
    }
}

/// The last position in `d` of a command with key `k`, or -1.
pub open spec fn key_position(d: Seq<IpcRequest>, k: (Seq<char>, Seq<char>)) -> int
    decreases d.len(),
{
    if d.len() == 0 {
        -1
    } else if dedup_key(d.last()) == Some(k) {
        d.len() - 1
    } else {
        key_position(d.drop_last(), k)
    }
}

/// Whether the command at position `i` survives frame-level de-duplication: it has no
/// de-duplication key, or no later command has the same key.
pub open spec fn kept_at(p: Seq<IpcRequest>, i: int) -> bool {
    match dedup_key(p[i]) {
        Some(k) => key_position(p, k) == i,
        None => true,
    }
}

/// The surviving commands among the first `n` of `p`, in arrival order.
pub open spec fn kept_prefix(p: Seq<IpcRequest>, n: int) -> Seq<IpcRequest>
    decreases n,
{
    if n <= 0 {
        Seq::empty()
    } else {
        let r = kept_prefix(p, n - 1);
        if kept_at(p, n - 1) {
            r.push(p[n - 1])
        } else {
            r
        }
    }
}

/// Frame-level de-duplication of the pending commands, in arrival order: of the instant
/// commands with the same method and widget only the last one is kept, in its own place,
/// and the earlier ones are dropped; every other command is kept.
pub open spec fn dedup_spec(p: Seq<IpcRequest>) -> Seq<IpcRequest> {
    kept_prefix(p, p.len() as int)
}

proof fn lemma_key_position_bounds(d: Seq<IpcRequest>, k: (Seq<char>, Seq<char>))
    ensures
        -1 <= key_position(d, k) < d.len(),
        key_position(d, k) >= 0 ==> dedup_key(d[key_position(d, k)]) == Some(k),
        key_position(d, k) < 0 ==> forall|j: int| 0 <= j < d.len() ==> dedup_key(#[trigger] d[j]) != Some(k),
    decreases d.len(),
{
    if d.len() > 0 {
        lemma_key_position_bounds(d.drop_last(), k);
        if dedup_key(d.last()) != Some(k) {
            assert forall|j: int| 0 <= j < d.len() - 1 implies d.drop_last()[j] == d[j] by {}
        }
    }
}


/// The commands of `s` that de-duplication never merges (animations, creations, and
/// commands without a widget), in order.
pub open spec fn unkeyed(s: Seq<IpcRequest>) -> Seq<IpcRequest>
    decreases s.len(),
{
    if s.len() == 0 {
        Seq::empty()
    } else if dedup_key(s.last()) is None {
        unkeyed(s.drop_last()).push(s.last())
    } else {
        unkeyed(s.drop_last())
    }
}

/// No two commands of `s` share a de-duplication key.
pub open spec fn keys_unique(s: Seq<IpcRequest>) -> bool {
    forall|i: int, j: int|
        0 <= i < j < s.len() && (#[trigger] dedup_key(s[i])) is Some ==> dedup_key(s[i]) != #[trigger] dedup_key(
            s[j],
        )
}

proof fn lemma_key_position_push(d: Seq<IpcRequest>, c: IpcRequest, k: (Seq<char>, Seq<char>))
    ensures
        key_position(d.push(c), k) == (if dedup_key(c) == Some(k) {
            d.len() as int
        } else {
            key_position(d, k)
        }),
{
    assert(d.push(c).drop_last() =~= d);
}

/// The last position with a key is no earlier than any position with that key.
proof fn lemma_key_position_max(d: Seq<IpcRequest>, k: (Seq<char>, Seq<char>))
    ensures
        forall|j: int| 0 <= j < d.len() && dedup_key(#[trigger] d[j]) == Some(k) ==> j <= key_position(d, k),
    decreases d.len(),
{
    if d.len() > 0 {
        lemma_key_position_max(d.drop_last(), k);
        if dedup_key(d.last()) != Some(k) {
            assert forall|j: int| 0 <= j < d.len() && dedup_key(#[trigger] d[j]) == Some(k) implies j
                <= key_position(d, k) by {
                assert(j != d.len() - 1);
                assert(d.drop_last()[j] == d[j]);
            }
        }
    }
}

/// What the surviving commands among the first `n` pending ones satisfy.
proof fn lemma_kept_prefix(p: Seq<IpcRequest>, n: int)
    requires
        0 <= n <= p.len(),
    ensures
        kept_prefix(p, n).len() <= n,
        forall|q: int, k: (Seq<char>, Seq<char>)|
            0 <= q < kept_prefix(p, n).len() && dedup_key(#[trigger] kept_prefix(p, n)[q]) == Some(k) ==> {
                &&& 0 <= #[trigger] key_position(p, k) < n
                &&& kept_prefix(p, n)[q] == p[key_position(p, k)]
            },
        keys_unique(kept_prefix(p, n)),
        forall|k: (Seq<char>, Seq<char>)|
            (#[trigger] key_position(kept_prefix(p, n), k) >= 0) == (0 <= key_position(p, k) < n),
        forall|k: (Seq<char>, Seq<char>)|
            0 <= #[trigger] key_position(p, k) < n ==> kept_prefix(p, n)[key_position(kept_prefix(p, n), k)]
                == p[key_position(p, k)],
        unkeyed(kept_prefix(p, n)) == unkeyed(p.take(n)),
    decreases n,
{
    if n == 0 {
        assert(p.take(0) =~= Seq::<IpcRequest>::empty());
    } else {
        lemma_kept_prefix(p, n - 1);
        let r = kept_prefix(p, n - 1);
        let rn = kept_prefix(p, n);
        let x = p[n - 1];
        assert(p.take(n).drop_last() =~= p.take(n - 1));
        assert(p.take(n).last() == x);
        assert forall|k: (Seq<char>, Seq<char>)| #![trigger key_position(p, k)] key_position(p, k) == n - 1
            implies dedup_key(x) == Some(k) by {
            lemma_key_position_bounds(p, k);
        }
        assert forall|k: (Seq<char>, Seq<char>)| #[trigger] key_position(r, k) >= 0 implies key_position(r, k)
            < r.len() && dedup_key(r[key_position(r, k)]) == Some(k) by {
            lemma_key_position_bounds(r, k);
        }
        if kept_at(p, n - 1) {
            assert(rn == r.push(x));
            assert(rn.drop_last() =~= r);
            assert forall|q: int, k: (Seq<char>, Seq<char>)|
                0 <= q < rn.len() && dedup_key(#[trigger] rn[q]) == Some(k) implies {
                    &&& 0 <= #[trigger] key_position(p, k) < n
                    &&& rn[q] == p[key_position(p, k)]
                } by {
                if q < r.len() {
                    assert(rn[q] == r[q]);
                } else {
                    assert(rn[q] == x);
                }
            }
            assert forall|i: int, j: int|
                0 <= i < j < rn.len() && (#[trigger] dedup_key(rn[i])) is Some implies dedup_key(rn[i])
                != #[trigger] dedup_key(rn[j]) by {
                assert(rn[i] == r[i]);
                if j < r.len() {
                    assert(rn[j] == r[j]);
                } else {
                    let k = dedup_key(r[i])->0;
                    assert(key_position(p, k) < n - 1);
                    assert(rn[j] == x);
                }
            }
            assert forall|k: (Seq<char>, Seq<char>)|
                #![trigger key_position(rn, k)]
                #![trigger key_position(p, k)]
                (key_position(rn, k) >= 0) == (0 <= key_position(p, k) < n) && (0 <= key_position(p, k) < n
                    ==> rn[key_position(rn, k)] == p[key_position(p, k)]) by {
                lemma_key_position_push(r, x, k);
                lemma_key_position_bounds(p, k);
                if dedup_key(x) != Some(k) {
                    if key_position(r, k) >= 0 {
                        assert(rn[key_position(r, k)] == r[key_position(r, k)]);
                    }
                }
            }
        } else {
            assert(rn == r);
            let k0 = dedup_key(x)->0;
            lemma_key_position_max(p, k0);
            assert(key_position(p, k0) >= n);
            assert forall|k: (Seq<char>, Seq<char>)|
                #![trigger key_position(p, k)]
                0 <= key_position(p, k) < n implies key_position(p, k) < n - 1 by {
                lemma_key_position_bounds(p, k);
            }
        }
    }
}

/// What frame-level de-duplication keeps, for any pending commands `p`:
/// - no two kept commands share a (method, widget) key;
/// - a key is kept exactly when it occurs among the pending commands, and the command
///   kept for it is the last pending one with that key;
/// - a keyed command is kept exactly when no later pending command has its key;
/// - the commands it never merges (animations, creations, commands without a widget)
///   all pass through, in their order;
/// - nothing is added: the result is at most as long as the input.
pub proof fn lemma_dedup_laws(p: Seq<IpcRequest>)
    ensures
        keys_unique(dedup_spec(p)),
        forall|k: (Seq<char>, Seq<char>)|
            (#[trigger] key_position(dedup_spec(p), k) >= 0) == (key_position(p, k) >= 0),
        forall|k: (Seq<char>, Seq<char>)|
            #[trigger] key_position(p, k) >= 0 ==> dedup_spec(p)[key_position(dedup_spec(p), k)] == p[key_position(
                p,
                k,
            )],
        forall|i: int|
            0 <= i < p.len() && dedup_key(#[trigger] p[i]) is Some ==> (kept_at(p, i) <==> !exists|j: int|
                i < j < p.len() && dedup_key(#[trigger] p[j]) == dedup_key(p[i])),
        unkeyed(dedup_spec(p)) == unkeyed(p),
        dedup_spec(p).len() <= p.len(),
{
    lemma_kept_prefix(p, p.len() as int);
    assert(p.take(p.len() as int) =~= p);
    assert forall|k: (Seq<char>, Seq<char>)| #[trigger] key_position(p, k) < p.len() by {
        lemma_key_position_bounds(p, k);
    }
    assert forall|i: int|
        0 <= i < p.len() && dedup_key(#[trigger] p[i]) is Some implies (kept_at(p, i) <==> !exists|j: int|
            i < j < p.len() && dedup_key(#[trigger] p[j]) == dedup_key(p[i])) by {
        let k = dedup_key(p[i])->0;
        lemma_key_position_bounds(p, k);
        lemma_key_position_max(p, k);
        if key_position(p, k) != i {
            let j = key_position(p, k);
            assert(i < j < p.len() && dedup_key(p[j]) == dedup_key(p[i]));
        }
    }
}

/// In commands whose keys are all distinct, de-duplication changes nothing.
proof fn lemma_dedup_unique_identity(s: Seq<IpcRequest>, n: int)
    requires
        keys_unique(s),
        0 <= n <= s.len(),
    ensures
        kept_prefix(s, n) == s.take(n),
    decreases n,
{
    if n == 0 {
        assert(s.take(0) =~= Seq::<IpcRequest>::empty());
    } else {
        lemma_dedup_unique_identity(s, n - 1);
        match dedup_key(s[n - 1]) {
            Some(k) => {
                lemma_key_position_bounds(s, k);
                lemma_key_position_max(s, k);
                let q = key_position(s, k);
                if q != n - 1 {
                    assert(dedup_key(s[n - 1]) != dedup_key(s[q]));
                }
            },
            None => {},
        }
        assert(s.take(n - 1).push(s[n - 1]) =~= s.take(n));
    }
}

/// De-duplicating an already de-duplicated frame changes nothing.
pub proof fn lemma_dedup_idempotent(p: Seq<IpcRequest>)
    ensures
        dedup_spec(dedup_spec(p)) == dedup_spec(p),
{
    lemma_dedup_laws(p);
    let d = dedup_spec(p);
    lemma_dedup_unique_identity(d, d.len() as int);
    assert(d.take(d.len() as int) =~= d);
}

/// The text of the `id` parameter as the key of a command.
fn extract_widget_id(params: &JsonValue) -> (s: String)
    ensures
        s@ == widget_key(*params),
{
    let mut s = String::new();
    match params.get("id") {
        Some(JsonValue::String(t)) => {
            s = t.clone();
        },
        Some(JsonValue::Number(n)) => {
            n.push_text(&mut s);
        },
        _ => {},
    }
    s
}

/// The `duration` parameter, 0 when absent.
fn extract_duration(params: &JsonValue) -> (d: u64)
    ensures
        d == duration_of(*params),
{
    match get_u64(params, "duration") {
        Some(d) => d,
        None => 0,
    }
}

fn starts_with_create(method: &str) -> (r: bool)
    ensures
        r == is_create(method@),
{
    let cs = chars_of(method);
    proof {
        reveal_strlit("create");
    }
    if cs.len() < 6 {
        return false;
    }
    let r = cs[0] == 'c' && cs[1] == 'r' && cs[2] == 'e' && cs[3] == 'a' && cs[4] == 't' && cs[5] == 'e';
    proof {
        if r {
            assert(method@.take(6) =~= "create"@);
        } else {
            if method@.take(6) == "create"@ {
                assert(method@.take(6)[0] == 'c');
                assert(method@.take(6)[1] == 'r');
                assert(method@.take(6)[2] == 'e');
                assert(method@.take(6)[3] == 'a');
                assert(method@.take(6)[4] == 't');
                assert(method@.take(6)[5] == 'e');
            }
        }
    }
    r
}

/// The de-duplication key of a command, computed.
fn command_key(c: &IpcRequest) -> (r: Option<(String, String)>)
    ensures
        match r {
            Some((m, w)) => dedup_key(*c) == Some((m@, w@)),
            None => dedup_key(*c) is None,
        },
{
    let widget_id = extract_widget_id(&c.params);
    let duration = extract_duration(&c.params);
    let create = starts_with_create(c.method.as_str());
    if duration == 0 && !create && !widget_id.as_str().is_empty() {
        Some((c.method.clone(), widget_id))
    } else {
        None
    }
}

/// The computed key `k` is the de-duplication key of `c`.
spec fn key_matches(k: Option<(String, String)>, c: IpcRequest) -> bool {
    match k {
        Some((m, w)) => dedup_key(c) == Some((m@, w@)),
        None => dedup_key(c) is None,
    }
}

/// Whether a command after position `i` has the key `(m, w)`.
fn later_has_key(
    keys: &Vec<Option<(String, String)>>,
    i: usize,
    m: &String,
    w: &String,
    Ghost(p): Ghost<Seq<IpcRequest>>,
) -> (b: bool)
    requires
        keys@.len() == p.len(),
        i < keys@.len(),
        forall|q: int| 0 <= q < p.len() ==> key_matches(#[trigger] keys@[q], p[q]),
    ensures
        b == exists|j: int| i < j < p.len() && dedup_key(#[trigger] p[j]) == Some((m@, w@)),
{
    let n = keys.len();
    let mut j = i + 1;
    while j < n
        invariant
            i < j <= n,
            n == p.len(),
            keys@.len() == n,
            forall|q: int| 0 <= q < p.len() ==> key_matches(#[trigger] keys@[q], p[q]),
            forall|q: int| i < q < j ==> dedup_key(#[trigger] p[q]) != Some((m@, w@)),
        decreases n - j,
    {
        let hit = match &keys[j] {
            Some((m2, w2)) => str_eq(m2.as_str(), m.as_str()) && str_eq(w2.as_str(), w.as_str()),
            None => false,
        };
        proof {
            assert(key_matches(keys@[j as int], p[j as int]));
        }
        if hit {
            proof {
                assert(dedup_key(p[j as int]) == Some((m@, w@)));
            }
            return true;
        }
        j = j + 1;
    }
    false
}

/// Frame-level de-duplication: within one frame, of the instant commands (duration 0)
/// with the same method on the same widget only the last one is kept, in its own place,
/// and the earlier ones are dropped; animations (duration > 0), creations, and commands
/// without a widget are all kept; commands on different widgets or with different
/// methods never affect each other. The kept commands stay in arrival order.
pub fn dedup_frame(pending: Vec<IpcRequest>) -> (r: Vec<IpcRequest>)
    ensures
        r@ == dedup_spec(pending@),
{
    let ghost p = pending@;
    let n = pending.len();
    let mut keys: Vec<Option<(String, String)>> = Vec::new();
    for i in 0..n
        invariant
            n == p.len(),
            pending@ == p,
            keys@.len() == i,
            forall|q: int| 0 <= q < i ==> key_matches(#[trigger] keys@[q], p[q]),
    {
        let k = command_key(&pending[i]);
        keys.push(k);
    }
    let mut keep: Vec<bool> = Vec::new();
    for i in 0..n
        invariant
            n == p.len(),
            keys@.len() == n,
            forall|q: int| 0 <= q < p.len() ==> key_matches(#[trigger] keys@[q], p[q]),
            keep@.len() == i,
            forall|q: int| 0 <= q < i ==> #[trigger] keep@[q] == kept_at(p, q),
    {
        proof {
            assert(key_matches(keys@[i as int], p[i as int]));
        }
        let flag = match &keys[i] {
            Some((m, w)) => !later_has_key(&keys, i, m, w, Ghost(p)),
            None => true,
        };
        proof {
            if let Some(k) = dedup_key(p[i as int]) {
                lemma_key_position_bounds(p, k);
                lemma_key_position_max(p, k);
                let kp = key_position(p, k);
                if kp != i {
                    assert(i < kp < p.len() && dedup_key(p[kp]) == Some(k));
                }
            }
        }
        keep.push(flag);
    }
    let mut out: Vec<IpcRequest> = Vec::new();
    let mut rest = pending;
    proof {
        assert(rest@.subrange(0, n as int) =~= rest@);
    }
    let mut i: usize = 0;
    while i < n
        invariant
            i <= n,
            n == p.len(),
            keep@.len() == n,
            forall|q: int| 0 <= q < n ==> #[trigger] keep@[q] == kept_at(p, q),
            rest@ == p.subrange(i as int, n as int),
            out@ == kept_prefix(p, i as int),
        decreases n - i,
    {
        let c = rest.remove(0);
        proof {
            assert(c == p[i as int]);
            assert(rest@ =~= p.subrange(i + 1, n as int));
        }
        if keep[i] {
            out.push(c);
        }
        i = i + 1;
    }
    out
}

/// Receives SDK commands on a channel and flushes them frame by frame.
pub struct RenderScheduler {
    rx: UnboundedReceiver<IpcRequest>,
}

impl RenderScheduler {
    /// A scheduler and the sender on which commands are submitted to it. The two are
    /// the ends of one new tokio channel; what the channel holds is filled through the
    /// sender, outside this library, so no clause speaks of it.
    pub fn new() -> (UnboundedSender<IpcRequest>, Self) {
        let (tx, rx) = command_channel();
        (tx, RenderScheduler { rx })
    }

    /// Takes every command queued so far and returns them de-duplicated for this frame
    /// (see `dedup_frame`); empty when none is queued.
    pub fn flush(&mut self) -> (r: Result<Vec<IpcRequest>, ()>)
        ensures
            r matches Ok(v) && exists|p: Seq<IpcRequest>| v@ == dedup_spec(p),
    {
        let mut pending: Vec<IpcRequest> = Vec::new();
        loop
            decreases usize::MAX - pending@.len(),
        {
            if pending.len() == usize::MAX {
                break;
            }
            match try_receive(&mut self.rx) {
                Some(cmd) => pending.push(cmd),
                None => break,
            }
        }
        let ghost p = pending@;
        let out = dedup_frame(pending);
        Ok(out)
    }
}

} // verus!
