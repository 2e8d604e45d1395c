//! Plugin key-value storage. Each value is kept as its JSON text; the stored size is the
//! sum, over the entries, of the key's bytes and the value text's bytes, and a write
//! that would take it past the 1 MB quota is refused. A value written with `set_value`
//! is printed as `serde_json` prints it; reading and writing the storage file is left to
//! the application.
use vstd::prelude::*;
use vstd::utf8::encode_utf8;
use crate::keyed_vec::KeyedVec;
use crate::json::JsonValue;
use crate::json_text::{json_value_text, to_json_text};

verus! {

/// The most bytes a plugin may keep in its storage (1 MB).
pub const STORAGE_QUOTA_BYTES: u64 = 1048576;

/// The length in bytes of a text, as `str::len` reports it.
pub open spec fn byte_len(s: Seq<char>) -> nat {
    (encode_utf8(s).len() as usize) as nat
}

/// What an entry counts toward the quota: its key's bytes plus its value text's bytes.
pub open spec fn entry_size(key: Seq<char>, value: Seq<char>) -> nat {
    byte_len(key) + byte_len(value)
}

/// The summed size of the first `n` entries.
pub open spec fn sum_sizes(keys: Seq<Seq<char>>, vals: Seq<String>, n: nat) -> nat
    decreases n,
{
    if n == 0 {
        0
    } else {
        sum_sizes(keys, vals, (n - 1) as nat) + entry_size(keys[n - 1], vals[n - 1]@)
    }
}

proof fn lemma_sum_prefix(k1: Seq<Seq<char>>, v1: Seq<String>, k2: Seq<Seq<char>>, v2: Seq<String>, n: nat)
    requires
        forall|i: int| 0 <= i < n ==> k1[i] == k2[i] && v1[i] == v2[i],
    ensures
        sum_sizes(k1, v1, n) == sum_sizes(k2, v2, n),
    decreases n,
{
    if n > 0 {
        lemma_sum_prefix(k1, v1, k2, v2, (n - 1) as nat);
    }
}

proof fn lemma_sum_update(keys: Seq<Seq<char>>, vals: Seq<String>, i: int, v: String, n: nat)
    requires
        0 <= i < n,
        n <= vals.len(),
    ensures
        sum_sizes(keys, vals.update(i, v), n) + entry_size(keys[i], vals[i]@) == sum_sizes(keys, vals, n)
            + entry_size(keys[i], v@),
    decreases n,
{
    if i < n - 1 {
        lemma_sum_update(keys, vals, i, v, (n - 1) as nat);
    } else {
        lemma_sum_prefix(keys, vals.update(i, v), keys, vals, (n - 1) as nat);
    }
}

proof fn lemma_sum_entry_le(keys: Seq<Seq<char>>, vals: Seq<String>, i: int, n: nat)
    requires
        0 <= i < n,
    ensures
        entry_size(keys[i], vals[i]@) <= sum_sizes(keys, vals, n),
    decreases n,
{
    if i < n - 1 {
        lemma_sum_entry_le(keys, vals, i, (n - 1) as nat);
    }
}

proof fn lemma_sum_remove(keys: Seq<Seq<char>>, vals: Seq<String>, i: int, n: nat)
    requires
        0 <= i < n,
        n == keys.len(),
        n == vals.len(),
    ensures
        sum_sizes(keys.remove(i), vals.remove(i), (n - 1) as nat) + entry_size(keys[i], vals[i]@)
            == sum_sizes(keys, vals, n),
    decreases n,
{
    if i == n - 1 {
        lemma_sum_prefix(keys.remove(i), vals.remove(i), keys, vals, (n - 1) as nat);
    } else {
        lemma_sum_remove(keys.drop_last(), vals.drop_last(), i, (n - 1) as nat);
        lemma_sum_prefix(keys.drop_last(), vals.drop_last(), keys, vals, (n - 1) as nat);
        lemma_sum_prefix(
            keys.drop_last().remove(i),
            vals.drop_last().remove(i),
            keys.remove(i),
            vals.remove(i),
            (n - 2) as nat,
        );
        assert(keys.remove(i)[n - 2] == keys[n - 1]);
        assert(vals.remove(i)[n - 2] == vals[n - 1]);
    }
}

/// Why a storage write was refused.
#[derive(Debug, Clone, Copy, PartialEq, Eq)]
pub enum StorageError {
    /// The write would take the stored size past `STORAGE_QUOTA_BYTES`.
    QuotaExceeded,
}

/// The key-value storage of one plugin.
pub struct PluginStorage {
    plugin_id: String,
    data: KeyedVec<String>,
    current_size: u64,
}

impl PluginStorage {
    /// The entries are well formed and the stored size is their summed size.
    pub closed spec fn wf(&self) -> bool {
        &&& self.data.wf()
        &&& self.current_size == sum_sizes(self.data.keys(), self.data.values(), self.data.keys().len())
    }

    /// The stored values' texts by key.
    pub closed spec fn view(&self) -> Map<Seq<char>, Seq<char>> {
        self.data.as_map().map_values(|s: String| s@)
    }

    /// The stored size in bytes.
    pub closed spec fn size(&self) -> nat {
        self.current_size as nat
    }

    /// The plugin the storage belongs to.
    pub closed spec fn owner(&self) -> Seq<char> {
        self.plugin_id@
    }

    /// An empty storage for `plugin_id`.
    pub fn new(plugin_id: &str) -> (r: Self)
        ensures
            r.wf(),
            r@ == Map::<Seq<char>, Seq<char>>::empty(),
            r.size() == 0,
            r.owner() == plugin_id@,
    {
        let r = PluginStorage { plugin_id: plugin_id.to_owned(), data: KeyedVec::new(), current_size: 0 };
        proof {
            assert(r@ =~= Map::<Seq<char>, Seq<char>>::empty());
        }
        r
    }

    /// The JSON text stored under `key`.
    pub fn get(&self, key: &str) -> (r: Option<&String>)
        requires
            self.wf(),
        ensures
            match r {
                Some(v) => self@.dom().contains(key@) && v@ == self@[key@],
                None => !self@.dom().contains(key@),
            },
    {
        proof {
            self.data.lemma_as_map();
        }
        self.data.get(key)
    }

    /// Refuses a stored size above the quota.
    pub fn check_quota(&self, projected_bytes: u64) -> (r: Result<(), StorageError>)
        ensures
            r is Ok <==> projected_bytes <= STORAGE_QUOTA_BYTES,
            r is Err ==> r == Err::<(), StorageError>(StorageError::QuotaExceeded),
    {
        if projected_bytes > STORAGE_QUOTA_BYTES {
            Err(StorageError::QuotaExceeded)
        } else {
            Ok(())
        }
    }

    /// The stored size in bytes.
    pub fn current_size(&self) -> (n: u64)
        ensures
            n == self.size(),
    {
        self.current_size
    }

    /// Stores the JSON value `value` under `key` as its compact text (`json_value_text`),
    /// replacing an earlier value; refused, with nothing changed, as `set` refuses.
    pub fn set_value(&mut self, key: &str, value: &JsonValue) -> (r: Result<(), StorageError>)
        requires
            old(self).wf(),
        ensures
            final(self).wf(),
            final(self).owner() == old(self).owner(),
            ({
                let text = json_value_text(*value);
                let old_entry: nat = if old(self)@.dom().contains(key@) {
                    entry_size(key@, old(self)@[key@])
                } else {
                    0
                };
                let projected = old(self).size() - old_entry + entry_size(key@, text);
                &&& r is Ok <==> projected <= STORAGE_QUOTA_BYTES
                &&& r is Ok ==> final(self)@ == old(self)@.insert(key@, text) && final(self).size() == projected
                &&& r is Err ==> r == Err::<(), StorageError>(StorageError::QuotaExceeded) && final(self)@ == old(
                    self,
                )@ && final(self).size() == old(self).size()
            }),
    {
        let text = to_json_text(value);
        self.set(key, text)
    }

    /// Stores the JSON text `value` under `key`, replacing an earlier value. Refused,
    /// with nothing changed, when the stored size would then exceed the quota.
    pub fn set(&mut self, key: &str, value: String) -> (r: Result<(), StorageError>)
        requires
            old(self).wf(),
        ensures
            final(self).wf(),
            final(self).owner() == old(self).owner(),
            ({
                let old_entry: nat = if old(self)@.dom().contains(key@) {
                    entry_size(key@, old(self)@[key@])
                } else {
                    0
                };
                let projected = old(self).size() - old_entry + entry_size(key@, value@);
                &&& r is Ok <==> projected <= STORAGE_QUOTA_BYTES
                &&& r is Ok ==> final(self)@ == old(self)@.insert(key@, value@) && final(self).size() == projected
                &&& r is Err ==> r == Err::<(), StorageError>(StorageError::QuotaExceeded) && final(self)@ == old(
                    self,
                )@ && final(self).size() == old(self).size()
            }),
    {
        proof {
            self.data.lemma_wf();
            self.data.lemma_as_map();
        }
        let ghost n = self.data.keys().len();
        let old_entry: u64 = match self.data.find(key) {
            Some(i) => {
                proof {
                    lemma_sum_entry_le(self.data.keys(), self.data.values(), i as int, n);
                }
                key.len() as u64 + self.data.value_at(i).as_str().len() as u64
            },
            None => 0,
        };
        let kl = key.len() as u64;
        let vl = value.as_str().len() as u64;
        if kl > STORAGE_QUOTA_BYTES || vl > STORAGE_QUOTA_BYTES - kl {
            return Err(StorageError::QuotaExceeded);
        }
        let new_entry = kl + vl;
        let base = self.current_size - old_entry;
        if base > STORAGE_QUOTA_BYTES - new_entry {
            return Err(StorageError::QuotaExceeded);
        }
        let projected = base + new_entry;
        let ghost ks = self.data.keys();
        let ghost vs = self.data.values();
        let ghost vv = value;
        self.data.insert(key.to_owned(), value);
        proof {
            if ks.contains(key@) {
                let i = ks.index_of(key@);
                lemma_sum_update(ks, vs, i, vv, n);
            } else {
                lemma_sum_prefix(ks.push(key@), vs.push(vv), ks, vs, n);
            }
            assert(self@ =~= old(self)@.insert(key@, value@));
        }
        self.current_size = projected;
        Ok(())
    }

    /// Removes `key` and its value, if present.
    pub fn delete(&mut self, key: &str)
        requires
            old(self).wf(),
        ensures
            final(self).wf(),
            final(self).owner() == old(self).owner(),
            final(self)@ == old(self)@.remove(key@),
            final(self).size() == old(self).size() - (if old(self)@.dom().contains(key@) {
                entry_size(key@, old(self)@[key@])
            } else {
                0
            }),
    {
        proof {
            self.data.lemma_wf();
            self.data.lemma_as_map();
        }
        let ghost ks = self.data.keys();
        let ghost vs = self.data.values();
        let ghost n = ks.len();
        match self.data.remove(key) {
            Some(old_value) => {
                proof {
                    let i = ks.index_of(key@);
                    lemma_sum_entry_le(ks, vs, i, n);
                    lemma_sum_remove(ks, vs, i, n);
                }
                let old_entry = key.len() as u64 + old_value.as_str().len() as u64;
                self.current_size = self.current_size - old_entry;
            },
            None => {},
        }
        proof {
            assert(self@ =~= old(self)@.remove(key@));
        }
    }

    /// Replaces the contents with `entries` (keys distinct, as a storage file holds
    /// them) and recomputes the stored size.
    pub fn load(&mut self, entries: Vec<(String, String)>)
        requires
            old(self).wf(),
            forall|i: int, j: int|
                0 <= i < j < entries@.len() ==> (#[trigger] entries@[i]).0@ != (#[trigger] entries@[j]).0@,
            sum_sizes(entries@.map_values(|e: (String, String)| e.0@), entries@.map_values(|e: (String, String)| e.1), entries@.len())
                <= u64::MAX,
        ensures
            final(self).wf(),
            final(self).owner() == old(self).owner(),
            final(self).size() == sum_sizes(
                entries@.map_values(|e: (String, String)| e.0@),
                entries@.map_values(|e: (String, String)| e.1),
                entries@.len(),
            ),
            forall|i: int|
                0 <= i < entries@.len() ==> #[trigger] final(self)@.dom().contains(entries@[i].0@) && final(self)@[entries@[i].0@]
                    == entries@[i].1@,
            forall|k: Seq<char>|
                #[trigger] final(self)@.dom().contains(k) ==> exists|i: int| 0 <= i < entries@.len() && entries@[i].0@ == k,
    {
        let ghost eks = entries@.map_values(|e: (String, String)| e.0@);
        let ghost evs = entries@.map_values(|e: (String, String)| e.1);
        let ghost total = sum_sizes(eks, evs, entries@.len());
        let n = entries.len();
        let mut data: KeyedVec<String> = KeyedVec::new();
        let mut size: u64 = 0;
        let mut i: usize = 0;
        let ghost all = entries@;
        proof {
            assert(data.keys() =~= eks.take(0));
            assert(data.values() =~= evs.take(0));
        }
        while i < n
            invariant
                all == entries@,
                n == all.len(),
                i <= n,
                data.wf(),
                data.keys() == eks.take(i as int),
                data.values() == evs.take(i as int),
                eks == all.map_values(|e: (String, String)| e.0@),
                evs == all.map_values(|e: (String, String)| e.1),
                total == sum_sizes(eks, evs, n as nat),
                total <= u64::MAX,
                forall|a: int, b: int| 0 <= a < b < all.len() ==> (#[trigger] all[a]).0@ != (#[trigger] all[b]).0@,
                size == sum_sizes(data.keys(), data.values(), i as nat),
            decreases n - i,
        {
            let e = &entries[i];
            proof {
                lemma_sum_prefix(eks, evs, eks.take(i as int), evs.take(i as int), i as nat);
                lemma_sum_prefix(eks, evs, eks.take(i + 1), evs.take(i + 1), (i + 1) as nat);
                lemma_sum_le(eks, evs, (i + 1) as nat, n as nat);
                assert(!data.keys().contains(e.0@)) by {
                    if data.keys().contains(e.0@) {
                        let j = data.keys().index_of(e.0@);
                        assert(all[j].0@ == e.0@);
                    }
                }
            }
            let add = e.0.as_str().len() as u64 + e.1.as_str().len() as u64;
            size = size + add;
            data.insert(e.0.clone(), e.1.clone());
            proof {
                assert(data.keys() =~= eks.take(i + 1));
                assert(data.values() =~= evs.take(i + 1));
                lemma_sum_prefix(data.keys(), data.values(), eks, evs, (i + 1) as nat);
            }
            i = i + 1;
        }
        proof {
            assert(eks.take(n as int) =~= eks);
            assert(evs.take(n as int) =~= evs);
            data.lemma_wf();
            data.lemma_as_map();
            assert forall|k: Seq<char>| #[trigger] data.as_map().dom().contains(k) implies exists|j: int|
                0 <= j < all.len() && all[j].0@ == k by {
                let j = data.keys().index_of(k);
                assert(all[j].0@ == k);
            }
        }
        self.data = data;
        self.current_size = size;
        proof {
            assert forall|j: int| 0 <= j < all.len() implies #[trigger] self@.dom().contains(all[j].0@)
                && self@[all[j].0@] == all[j].1@ by {
                assert(self.data.keys()[j] == all[j].0@);
                assert(self.data.as_map()[self.data.keys()[j]] == self.data.values()[j]);
            }
        }
    }

    /// The stored entries (key, JSON text), for writing the storage file.
    pub fn entries(&self) -> (r: Vec<(String, String)>)
        requires
            self.wf(),
        ensures
            r@.len() == self@.dom().len(),
            forall|i: int| 0 <= i < r@.len() ==> #[trigger] self@.dom().contains(r@[i].0@) && self@[r@[i].0@] == r@[i].1@,
            forall|i: int, j: int| 0 <= i < j < r@.len() ==> (#[trigger] r@[i]).0@ != (#[trigger] r@[j]).0@,
    {
        proof {
            self.data.lemma_wf();
            self.data.lemma_as_map();
            crate::capability::lemma_keys_card(self.data.keys());
            assert(self@.dom() =~= self.data.as_map().dom());
        }
        let n = self.data.len();
        let mut out: Vec<(String, String)> = Vec::new();
        for i in 0..n
            invariant
                n == self.data.keys().len(),
                self.wf(),
                self.data.keys().len() == self.data.values().len(),
                out@.len() == i,
                forall|j: int| 0 <= j < i ==> (#[trigger] out@[j]).0@ == self.data.keys()[j] && out@[j].1 == self.data.values()[j],
        {
            out.push((self.data.key_at(i).clone(), self.data.value_at(i).clone()));
        }
        proof {
            self.data.lemma_wf();
            self.data.lemma_as_map();
            assert forall|i: int| 0 <= i < out@.len() implies #[trigger] self@.dom().contains(out@[i].0@)
                && self@[out@[i].0@] == out@[i].1@ by {
                assert(self.data.as_map()[self.data.keys()[i]] == self.data.values()[i]);
            }
        }
        out
    }
}

proof fn lemma_sum_le(keys: Seq<Seq<char>>, vals: Seq<String>, m: nat, n: nat)
    requires
        m <= n,
    ensures
        sum_sizes(keys, vals, m) <= sum_sizes(keys, vals, n),
    decreases n,
{
    if m < n {
        lemma_sum_le(keys, vals, m, (n - 1) as nat);
    }
}


/// Reading back a write: after a value is stored under a key, that key reads the value
/// and every other key reads what it read before; after a key is deleted it reads
/// nothing and every other key is unchanged.
pub proof fn lemma_read_after_write(m: Map<Seq<char>, Seq<char>>, key: Seq<char>, value: Seq<char>, other: Seq<char>)
    requires
        other != key,
    ensures
        m.insert(key, value).dom().contains(key),
        m.insert(key, value)[key] == value,
        m.insert(key, value).dom().contains(other) == m.dom().contains(other),
        m.dom().contains(other) ==> m.insert(key, value)[other] == m[other],
        !m.remove(key).dom().contains(key),
        m.remove(key).dom().contains(other) == m.dom().contains(other),
        m.dom().contains(other) ==> m.remove(key)[other] == m[other],
{
}


/// Whether the summed size of `entries` fits in a `u64` (what `PluginStorage::load`
/// needs of them).
pub fn entries_fit(entries: &Vec<(String, String)>) -> (b: bool)
    ensures
        b == (sum_sizes(
            entries@.map_values(|e: (String, String)| e.0@),
            entries@.map_values(|e: (String, String)| e.1),
            entries@.len(),
        ) <= u64::MAX),
{
    let ghost eks = entries@.map_values(|e: (String, String)| e.0@);
    let ghost evs = entries@.map_values(|e: (String, String)| e.1);
    let n = entries.len();
    let mut total: u64 = 0;
    for i in 0..n
        invariant
            n == entries@.len(),
            eks == entries@.map_values(|e: (String, String)| e.0@),
            evs == entries@.map_values(|e: (String, String)| e.1),
            total == sum_sizes(eks, evs, i as nat),
    {
        let kl = entries[i].0.as_str().len() as u64;
        let vl = entries[i].1.as_str().len() as u64;
        proof {
            lemma_sum_le(eks, evs, (i + 1) as nat, n as nat);
        }
        if kl > u64::MAX - total || vl > u64::MAX - total - kl {
            proof {
                assert(sum_sizes(eks, evs, (i + 1) as nat) == total + kl + vl);
            }
            return false;
        }
        total = total + kl + vl;
    }
    true
}

} // verus!
