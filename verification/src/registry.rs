//! The runtime registry: which plugins are registered with the host, their status,
//! and the monitoring data (crash count, memory sample, last heartbeat) kept for them.
use vstd::prelude::*;
use crate::keyed_vec::KeyedVec;
use crate::json::{object_shallow_is, push_entry, JsonNumber, JsonShallow, JsonValue, NumberView};

verus! {

/// A registered plugin runtime.
pub struct RuntimeEntry {
    pub id: String,
    pub runtime_type: String,
    pub status: String,
}

impl RuntimeEntry {
    /// A copy of this entry.
    pub fn duplicate(&self) -> (r: RuntimeEntry)
        ensures
            r == *self,
    {
        RuntimeEntry {
            id: self.id.clone(),
            runtime_type: self.runtime_type.clone(),
            status: self.status.clone(),
        }
    }
}

/// One plugin in a runtime snapshot, with its monitoring data.
pub struct SnapshotEntry {
    pub id: String,
    pub runtime_type: String,
    pub status: String,
    pub memory_bytes: u64,
    pub crash_count: u32,
    pub last_heartbeat: Option<String>,
}

/// Why the registry refused a request.
#[derive(Debug, Clone, Copy, PartialEq, Eq)]
pub enum RegistryError {
    /// A runtime with this id is already registered.
    AlreadyRegistered,
    /// No runtime with this id is registered.
    NotFound,
}

/// The registry's contents: the entries by id, and the monitoring data by id.
pub ghost struct RegistryView {
    pub entries: Map<Seq<char>, RuntimeEntry>,
    pub crashes: Map<Seq<char>, u32>,
    pub memory: Map<Seq<char>, u64>,
    pub heartbeats: Map<Seq<char>, Seq<char>>,
}

/// Manages the registration, status and monitoring data of plugin runtimes.
pub struct RuntimeRegistry {
    entries: KeyedVec<RuntimeEntry>,
    crash_counters: KeyedVec<u32>,
    memory_samples: KeyedVec<u64>,
    last_heartbeats: KeyedVec<String>,
}

/// A `u32` counter that a missing key reads as zero.
pub open spec fn count_or_zero(m: Map<Seq<char>, u32>, k: Seq<char>) -> u32 {
    if m.dom().contains(k) {
        m[k]
    } else {
        0
    }
}

impl View for RuntimeRegistry {
    type V = RegistryView;

    closed spec fn view(&self) -> RegistryView {
        RegistryView {
            entries: self.entries.as_map(),
            crashes: self.crash_counters.as_map(),
            memory: self.memory_samples.as_map(),
            heartbeats: self.last_heartbeats.as_map().map_values(|s: String| s@),
        }
    }
}

impl RuntimeRegistry {
    /// The inner collections are well formed and every entry is stored under its own id.
    pub closed spec fn wf(&self) -> bool {
        &&& self.entries.wf()
        &&& self.crash_counters.wf()
        &&& self.memory_samples.wf()
        &&& self.last_heartbeats.wf()
        &&& forall|k: Seq<char>|
            #[trigger] self.entries.as_map().dom().contains(k) ==> self.entries.as_map()[k].id@ == k
    }

    /// Every entry is stored under its own id.
    pub proof fn lemma_ids(&self)
        requires
            self.wf(),
        ensures
            forall|k: Seq<char>| #[trigger] self@.entries.dom().contains(k) ==> self@.entries[k].id@ == k,
            self@.entries.dom().finite(),
    {
        self.entries.lemma_as_map();
    }

    /// An empty registry.
    pub fn new() -> (r: Self)
        ensures
            r.wf(),
            r@.entries == Map::<Seq<char>, RuntimeEntry>::empty(),
            r@.crashes == Map::<Seq<char>, u32>::empty(),
            r@.memory == Map::<Seq<char>, u64>::empty(),
            r@.heartbeats == Map::<Seq<char>, Seq<char>>::empty(),
            r.order() == Seq::<Seq<char>>::empty(),
    {
        let r = RuntimeRegistry {
            entries: KeyedVec::new(),
            crash_counters: KeyedVec::new(),
            memory_samples: KeyedVec::new(),
            last_heartbeats: KeyedVec::new(),
        };
        proof {
            assert(r@.entries =~= Map::<Seq<char>, RuntimeEntry>::empty());
            assert(r@.crashes =~= Map::<Seq<char>, u32>::empty());
            assert(r@.memory =~= Map::<Seq<char>, u64>::empty());
            assert(r@.heartbeats =~= Map::<Seq<char>, Seq<char>>::empty());
        }
        r
    }

    /// Registers a runtime under its id; refused when that id is already registered.
    pub fn register(&mut self, entry: RuntimeEntry) -> (r: Result<(), RegistryError>)
        requires
            old(self).wf(),
        ensures
            final(self).wf(),
            r is Ok <==> !old(self)@.entries.dom().contains(entry.id@),
            r is Ok ==> final(self)@ == (RegistryView {
                entries: old(self)@.entries.insert(entry.id@, entry),
                ..old(self)@
            }),
            r is Err ==> r == Err::<(), RegistryError>(RegistryError::AlreadyRegistered) && final(self)@
                == old(self)@,
    {
        if self.entries.contains(entry.id.as_str()) {
            return Err(RegistryError::AlreadyRegistered);
        }
        let key = entry.id.clone();
        self.entries.insert(key, entry);
        Ok(())
    }

    /// Unregisters a runtime and forgets its monitoring data; refused when it is not registered.
    pub fn unregister(&mut self, id: &str) -> (r: Result<(), RegistryError>)
        requires
            old(self).wf(),
        ensures
            final(self).wf(),
            r is Ok <==> old(self)@.entries.dom().contains(id@),
            r is Ok ==> final(self)@ == (RegistryView {
                entries: old(self)@.entries.remove(id@),
                crashes: old(self)@.crashes.remove(id@),
                memory: old(self)@.memory.remove(id@),
                heartbeats: old(self)@.heartbeats.remove(id@),
            }),
            r is Err ==> r == Err::<(), RegistryError>(RegistryError::NotFound) && final(self)@
                == old(self)@,
    {
        let removed = self.entries.remove(id);
        if removed.is_none() {
            return Err(RegistryError::NotFound);
        }
        self.crash_counters.remove(id);
        self.memory_samples.remove(id);
        self.last_heartbeats.remove(id);
        proof {
            assert(self@.heartbeats =~= old(self)@.heartbeats.remove(id@));
        }
        Ok(())
    }

    /// Copies of all registered entries, each once, in no particular order.
    pub fn list(&self) -> (r: Result<Vec<RuntimeEntry>, RegistryError>)
        requires
            self.wf(),
        ensures
            r matches Ok(v) && v@.len() == self@.entries.dom().len() && (forall|i: int|
                0 <= i < v@.len() ==> self@.entries.dom().contains((#[trigger] v@[i]).id@)
                    && self@.entries[v@[i].id@] == v@[i]) && (forall|i: int, j: int|
                0 <= i < v@.len() && 0 <= j < v@.len() && i != j ==> v@[i].id@ != v@[j].id@),
    {
        proof {
            self.entries.lemma_wf();
            self.entries.lemma_as_map();
        }
        let n = self.entries.len();
        let mut out: Vec<RuntimeEntry> = Vec::new();
        for i in 0..n
            invariant
                n == self.entries.keys().len(),
                self.wf(),
                self.entries.keys().len() == self.entries.values().len(),
                out@.len() == i,
                forall|j: int| 0 <= j < i ==> out@[j] == self.entries.values()[j],
        {
            out.push(self.entries.value_at(i).duplicate());
        }
        proof {
            assert forall|i: int|
                0 <= i < out@.len() implies self@.entries.dom().contains((#[trigger] out@[i]).id@)
                && self@.entries[out@[i].id@] == out@[i] by {
                assert(self.entries.as_map()[self.entries.keys()[i]] == self.entries.values()[i]);
                assert(self.entries.as_map().dom().contains(self.entries.keys()[i]));
            }
            assert forall|i: int, j: int|
                0 <= i < out@.len() && 0 <= j < out@.len() && i != j implies out@[i].id@ != out@[j].id@ by {
                assert(self.entries.as_map()[self.entries.keys()[i]] == self.entries.values()[i]);
                assert(self.entries.as_map()[self.entries.keys()[j]] == self.entries.values()[j]);
                assert(self.entries.as_map().dom().contains(self.entries.keys()[i]));
                assert(self.entries.as_map().dom().contains(self.entries.keys()[j]));
            }
            crate::capability::lemma_keys_card(self.entries.keys());
        }
        Ok(out)
    }

    /// The entry registered under `id`.
    pub fn get(&self, id: &str) -> (r: Option<&RuntimeEntry>)
        requires
            self.wf(),
        ensures
            match r {
                Some(e) => self@.entries.dom().contains(id@) && *e == self@.entries[id@],
                None => !self@.entries.dom().contains(id@),
            },
    {
        proof {
            self.entries.lemma_as_map();
        }
        self.entries.get(id)
    }

    /// Sets the status of a registered runtime; refused when it is not registered.
    pub fn update_status(&mut self, id: &str, status: &str) -> (r: Result<(), RegistryError>)
        requires
            old(self).wf(),
        ensures
            final(self).wf(),
            r is Ok <==> old(self)@.entries.dom().contains(id@),
            r is Ok ==> final(self)@.entries.dom() == old(self)@.entries.dom() && (forall|k: Seq<char>|
                #[trigger] final(self)@.entries.dom().contains(k) && k != id@ ==> final(self)@.entries[k]
                    == old(self)@.entries[k]) && final(self)@.entries[id@].id == old(self)@.entries[id@].id
                && final(self)@.entries[id@].runtime_type == old(self)@.entries[id@].runtime_type
                && final(self)@.entries[id@].status@ == status@,
            r is Ok ==> final(self)@.crashes == old(self)@.crashes && final(self)@.memory == old(
                self,
            )@.memory && final(self)@.heartbeats == old(self)@.heartbeats,
            r is Err ==> r == Err::<(), RegistryError>(RegistryError::NotFound) && final(self)@
                == old(self)@,
    {
        proof {
            self.entries.lemma_as_map();
        }
        let updated = match self.entries.get(id) {
            None => {
                return Err(RegistryError::NotFound);
            },
            Some(e) => RuntimeEntry {
                id: e.id.clone(),
                runtime_type: e.runtime_type.clone(),
                status: status.to_owned(),
            },
        };
        self.entries.insert(id.to_owned(), updated);
        Ok(())
    }

    /// The number of registered runtimes.
    pub fn count(&self) -> (n: usize)
        requires
            self.wf(),
        ensures
            n == self@.entries.dom().len(),
    {
        proof {
            self.entries.lemma_as_map();
            self.entries.lemma_wf();
            crate::capability::lemma_keys_card(self.entries.keys());
        }
        self.entries.len()
    }

    /// The crash count recorded for `id` (zero when none was recorded).
    pub fn crash_count(&self, id: &str) -> (n: u32)
        requires
            self.wf(),
        ensures
            n == count_or_zero(self@.crashes, id@),
    {
        proof {
            self.crash_counters.lemma_as_map();
        }
        match self.crash_counters.get(id) {
            Some(c) => *c,
            None => 0,
        }
    }

    /// Records one more crash of `id`, registered or not.
    pub fn record_crash(&mut self, id: &str)
        requires
            old(self).wf(),
            count_or_zero(old(self)@.crashes, id@) < u32::MAX,
        ensures
            final(self).wf(),
            final(self)@ == (RegistryView {
                crashes: old(self)@.crashes.insert(id@, (count_or_zero(old(self)@.crashes, id@) + 1) as u32),
                ..old(self)@
            }),
    {
        let c = self.crash_count(id);
        self.crash_counters.insert(id.to_owned(), c + 1);
    }

    /// Stores the latest memory sample of `id`.
    pub fn update_memory(&mut self, id: &str, bytes: u64)
        requires
            old(self).wf(),
        ensures
            final(self).wf(),
            final(self)@ == (RegistryView { memory: old(self)@.memory.insert(id@, bytes), ..old(self)@ }),
    {
        self.memory_samples.insert(id.to_owned(), bytes);
    }

    /// Stores the time of the latest heartbeat of `id`.
    pub fn update_heartbeat(&mut self, id: &str, timestamp: &str)
        requires
            old(self).wf(),
        ensures
            final(self).wf(),
            final(self)@ == (RegistryView {
                heartbeats: old(self)@.heartbeats.insert(id@, timestamp@),
                ..old(self)@
            }),
    {
        let ts = timestamp.to_owned();
        let ghost tv = ts;
        self.last_heartbeats.insert(id.to_owned(), ts);
        proof {
            assert(self@.heartbeats =~= old(self)@.heartbeats.insert(id@, timestamp@));
        }
    }
}


/// The memory sample of `id`, zero when none was taken.
pub open spec fn memory_or_zero(m: Map<Seq<char>, u64>, k: Seq<char>) -> u64 {
    if m.dom().contains(k) {
        m[k]
    } else {
        0
    }
}

/// The snapshot entry of a registered plugin, at top level: its id, runtime type and
/// status, its memory sample and crash count (zero when none), and the time of its last
/// heartbeat (`null` when none).
pub open spec fn snapshot_json(v: RegistryView, id: Seq<char>) -> Seq<(Seq<char>, JsonShallow)> {
    seq![
        ("id"@, JsonShallow::Str(id)),
        ("runtime_type"@, JsonShallow::Str(v.entries[id].runtime_type@)),
        ("status"@, JsonShallow::Str(v.entries[id].status@)),
        ("memory_bytes"@, JsonShallow::Number(NumberView::PosInt(memory_or_zero(v.memory, id)))),
        ("crash_count"@, JsonShallow::Number(NumberView::PosInt(count_or_zero(v.crashes, id) as u64))),
        ("last_heartbeat"@, if v.heartbeats.dom().contains(id) {
            JsonShallow::Str(v.heartbeats[id])
        } else {
            JsonShallow::Null
        }),
    ]
}

/// `e` is the snapshot entry of the registered plugin `id`.
pub open spec fn snapshot_entry_is(e: SnapshotEntry, v: RegistryView, id: Seq<char>) -> bool {
    &&& e.id@ == id
    &&& e.runtime_type@ == v.entries[id].runtime_type@
    &&& e.status@ == v.entries[id].status@
    &&& e.memory_bytes == memory_or_zero(v.memory, id)
    &&& e.crash_count == count_or_zero(v.crashes, id)
    &&& match e.last_heartbeat {
        Some(h) => v.heartbeats.dom().contains(id) && h@ == v.heartbeats[id],
        None => !v.heartbeats.dom().contains(id),
    }
}

/// `r` is `{"total": N, "plugins": [...]}` holding, in order, the snapshot entry of each
/// id of `ids`.
pub open spec fn snapshot_is(r: JsonValue, v: RegistryView, ids: Seq<Seq<char>>) -> bool {
    match r {
        JsonValue::Object(es) => {
            &&& es@.len() == 2
            &&& es@[0].0@ == "total"@
            &&& es@[0].1 == JsonValue::Number(JsonNumber::PosInt(ids.len() as u64))
            &&& es@[1].0@ == "plugins"@
            &&& match es@[1].1 {
                JsonValue::Array(items) => {
                    &&& items@.len() == ids.len()
                    &&& forall|i: int|
                        0 <= i < items@.len() ==> object_shallow_is(#[trigger] items@[i], snapshot_json(v, ids[i]))
                },
                _ => false,
            }
        },
        _ => false,
    }
}

impl RuntimeRegistry {
    /// The registered ids, in registration order.
    pub closed spec fn order(&self) -> Seq<Seq<char>> {
        self.entries.keys()
    }

    /// The registration order lists every registered id exactly once.
    pub proof fn lemma_order(&self)
        requires
            self.wf(),
        ensures
            self.order().no_duplicates(),
            self.order().to_set() == self@.entries.dom(),
            self.order().len() == self@.entries.dom().len(),
    {
        self.entries.lemma_wf();
        self.entries.lemma_as_map();
        crate::capability::lemma_keys_card(self.entries.keys());
    }

    /// The snapshot entry of every registered plugin, in registration order.
    pub fn snapshot(&self) -> (r: Vec<SnapshotEntry>)
        requires
            self.wf(),
        ensures
            r@.len() == self.order().len(),
            forall|i: int| 0 <= i < r@.len() ==> snapshot_entry_is(#[trigger] r@[i], self@, self.order()[i]),
    {
        proof {
            self.entries.lemma_wf();
            self.entries.lemma_as_map();
            self.memory_samples.lemma_as_map();
            self.last_heartbeats.lemma_as_map();
        }
        let n = self.entries.len();
        let mut out: Vec<SnapshotEntry> = Vec::new();
        for i in 0..n
            invariant
                n == self.entries.keys().len(),
                self.wf(),
                self.entries.keys().len() == self.entries.values().len(),
                out@.len() == i,
                forall|j: int| 0 <= j < i ==> snapshot_entry_is(#[trigger] out@[j], self@, self.order()[j]),
        {
            let e = self.entries.value_at(i);
            proof {
                self.entries.lemma_wf();
                self.entries.lemma_as_map();
                self.memory_samples.lemma_as_map();
                self.last_heartbeats.lemma_as_map();
                assert(self.entries.as_map()[self.entries.keys()[i as int]] == self.entries.values()[i as int]);
                assert(self.entries.as_map().dom().contains(self.entries.keys()[i as int]));
            }
            let memory_bytes = match self.memory_samples.get(e.id.as_str()) {
                Some(m) => *m,
                None => 0,
            };
            let crash_count = self.crash_count(e.id.as_str());
            let last_heartbeat = match self.last_heartbeats.get(e.id.as_str()) {
                Some(h) => Some(h.clone()),
                None => None,
            };
            let entry = SnapshotEntry {
                id: e.id.clone(),
                runtime_type: e.runtime_type.clone(),
                status: e.status.clone(),
                memory_bytes,
                crash_count,
                last_heartbeat,
            };
            out.push(entry);
        }
        out
    }

    /// The runtime snapshot for the dashboard: `{"total": N, "plugins": [...]}` with the
    /// snapshot entry of every registered plugin (see `snapshot_json`), in registration
    /// order.
    pub fn get_runtime_snapshot(&self) -> (r: JsonValue)
        requires
            self.wf(),
        ensures
            snapshot_is(r, self@, self.order()),
    {
        let entries = self.snapshot();
        let n = entries.len();
        let mut items: Vec<JsonValue> = Vec::new();
        for i in 0..n
            invariant
                n == entries@.len(),
                n == self.order().len(),
                forall|j: int| 0 <= j < n ==> snapshot_entry_is(#[trigger] entries@[j], self@, self.order()[j]),
                items@.len() == i,
                forall|j: int| 0 <= j < i ==> object_shallow_is(#[trigger] items@[j], snapshot_json(self@, self.order()[j])),
        {
            let e = &entries[i];
            let mut es: Vec<(String, JsonValue)> = Vec::new();
            push_entry(&mut es, "id", JsonValue::from_str(&e.id));
            push_entry(&mut es, "runtime_type", JsonValue::from_str(&e.runtime_type));
            push_entry(&mut es, "status", JsonValue::from_str(&e.status));
            push_entry(&mut es, "memory_bytes", JsonValue::Number(JsonNumber::PosInt(e.memory_bytes)));
            push_entry(&mut es, "crash_count", JsonValue::Number(JsonNumber::PosInt(e.crash_count as u64)));
            push_entry(&mut es, "last_heartbeat", JsonValue::from_opt_str(&e.last_heartbeat));
            proof {
                let ps = snapshot_json(self@, self.order()[i as int]);
                assert forall|k: int| 0 <= k < ps.len() implies (#[trigger] es@[k]).0@ == ps[k].0
                    && crate::json::shallow(es@[k].1) == ps[k].1 by {}
            }
            let ghost before = items@;
            items.push(JsonValue::Object(es));
            proof {
                assert forall|j: int| 0 <= j < i + 1 implies object_shallow_is(
                    #[trigger] items@[j],
                    snapshot_json(self@, self.order()[j]),
                ) by {
                    if j < i {
                        assert(items@[j] == before[j]);
                    }
                }
            }
        }
        let mut top: Vec<(String, JsonValue)> = Vec::new();
        push_entry(&mut top, "total", JsonValue::Number(JsonNumber::PosInt(n as u64)));
        push_entry(&mut top, "plugins", JsonValue::Array(items));
        JsonValue::Object(top)
    }
}

} // verus!
