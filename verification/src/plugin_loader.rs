//! The plugin loader: whether a plugin may be loaded, how it enters the runtime
//! registry, where an installed plugin goes, and which watched plugins are reloaded
//! because their entry file changed. Scanning directories and reading and copying files
//! is left to the application.
use vstd::prelude::*;
use crate::capability::CapabilityRegistry;
use crate::crash_report::{plugin_dir_name, plugin_dir_name_spec};
use crate::keyed_vec::KeyedVec;
use crate::manifest::Manifest;
use crate::permissions::{check_ceilings, string_views, within_ceilings, CeilingError};
use crate::registry::{RegistryError, RegistryView, RuntimeEntry, RuntimeRegistry};

verus! {

/// Why a plugin was not loaded.
#[derive(Debug, PartialEq, Eq)]
pub enum LoadError {
    /// Its declarations exceed its runtime's ceilings.
    Ceiling(CeilingError),
    /// It declares a capability that the host has not registered.
    CapabilityNotRegistered(String),
    /// It is already registered.
    Registry(RegistryError),
}

/// Every declared capability is registered with the host.
pub open spec fn all_registered(caps: Seq<Seq<char>>, registered: Map<Seq<char>, Seq<char>>) -> bool {
    forall|i: int| 0 <= i < caps.len() ==> registered.dom().contains(#[trigger] caps[i])
}

/// Decides whether a plugin may be loaded: its declarations must be within its runtime's
/// ceilings (checked first, see `check_ceilings`), and every capability it declares must
/// be registered with the host; the first unregistered one is reported.
pub fn check_admission(manifest: &Manifest, caps: &CapabilityRegistry) -> (r: Result<(), LoadError>)
    requires
        caps.wf(),
    ensures
        r is Ok <==> within_ceilings(
            manifest.runtime@,
            string_views(manifest.capabilities@),
            string_views(manifest.permissions@),
        ) && all_registered(string_views(manifest.capabilities@), caps.view()),
        r matches Err(LoadError::Ceiling(_)) ==> !within_ceilings(
            manifest.runtime@,
            string_views(manifest.capabilities@),
            string_views(manifest.permissions@),
        ),
        r matches Err(LoadError::CapabilityNotRegistered(c)) ==> within_ceilings(
            manifest.runtime@,
            string_views(manifest.capabilities@),
            string_views(manifest.permissions@),
        ) && exists|i: int|
            0 <= i < manifest.capabilities@.len() && #[trigger] manifest.capabilities@[i]@ == c@
                && !caps.view().dom().contains(c@) && forall|j: int|
                0 <= j < i ==> caps.view().dom().contains(#[trigger] manifest.capabilities@[j]@),
        !(r matches Err(LoadError::Registry(_))),
{
    match check_ceilings(
        manifest.runtime.as_str(),
        manifest.capabilities.as_slice(),
        manifest.permissions.as_slice(),
    ) {
        Err(e) => {
            return Err(LoadError::Ceiling(e));
        },
        Ok(()) => {},
    }
    let n = manifest.capabilities.len();
    for i in 0..n
        invariant
            n == manifest.capabilities@.len(),
            caps.wf(),
            within_ceilings(
                manifest.runtime@,
                string_views(manifest.capabilities@),
                string_views(manifest.permissions@),
            ),
            forall|j: int| 0 <= j < i ==> caps.view().dom().contains(#[trigger] manifest.capabilities@[j]@),
    {
        if !caps.has(manifest.capabilities[i].as_str()) {
            proof {
                assert(string_views(manifest.capabilities@)[i as int] == manifest.capabilities@[i as int]@);
            }
            return Err(LoadError::CapabilityNotRegistered(manifest.capabilities[i].clone()));
        }
    }
    proof {
        assert forall|i: int| 0 <= i < string_views(manifest.capabilities@).len() implies caps.view().dom().contains(
            #[trigger] string_views(manifest.capabilities@)[i],
        ) by {
            assert(string_views(manifest.capabilities@)[i] == manifest.capabilities@[i]@);
        }
    }
    Ok(())
}

/// Enters an admitted plugin into the runtime registry with status `starting`, before
/// its isolate is created; refused when it is already registered.
pub fn register_starting(plugin_id: &str, manifest: &Manifest, registry: &mut RuntimeRegistry) -> (r: Result<
    (),
    LoadError,
>)
    requires
        old(registry).wf(),
    ensures
        final(registry).wf(),
        registered_as(old(registry)@, final(registry)@, plugin_id@, manifest.runtime@, "starting"@, r),
{
    register_as(plugin_id, manifest, "starting", registry)
}

/// Enters a freshly installed plugin into the runtime registry under its id with status
/// `installed`; refused when it is already registered.
pub fn register_installed(manifest: &Manifest, registry: &mut RuntimeRegistry) -> (r: Result<(), LoadError>)
    requires
        old(registry).wf(),
    ensures
        final(registry).wf(),
        registered_as(old(registry)@, final(registry)@, manifest.id@, manifest.runtime@, "installed"@, r),
{
    register_as(manifest.id.as_str(), manifest, "installed", registry)
}

/// The registry after entering `id` with a runtime type and status: refused (nothing
/// changed) when `id` is already registered; otherwise the entry is added and nothing
/// else changes.
pub open spec fn registered_as(
    reg: RegistryView,
    after: RegistryView,
    id: Seq<char>,
    runtime: Seq<char>,
    status: Seq<char>,
    r: Result<(), LoadError>,
) -> bool {
    &&& r is Ok <==> !reg.entries.dom().contains(id)
    &&& r is Ok ==> after.crashes == reg.crashes && after.memory == reg.memory && after.heartbeats
        == reg.heartbeats && after.entries.dom() == reg.entries.dom().insert(id) && (forall|k: Seq<char>|
        #[trigger] reg.entries.dom().contains(k) ==> after.entries[k] == reg.entries[k]) && after.entries[id].id@
        == id && after.entries[id].runtime_type@ == runtime && after.entries[id].status@ == status
    &&& r is Err ==> r == Err::<(), LoadError>(LoadError::Registry(RegistryError::AlreadyRegistered))
        && after == reg
}

fn register_as(plugin_id: &str, manifest: &Manifest, status: &str, registry: &mut RuntimeRegistry) -> (r: Result<
    (),
    LoadError,
>)
    requires
        old(registry).wf(),
    ensures
        final(registry).wf(),
        r is Ok <==> !old(registry)@.entries.dom().contains(plugin_id@),
        r is Ok ==> final(registry)@.crashes == old(registry)@.crashes && final(registry)@.memory == old(
            registry,
        )@.memory && final(registry)@.heartbeats == old(registry)@.heartbeats && final(registry)@.entries.dom()
            == old(registry)@.entries.dom().insert(plugin_id@) && (forall|k: Seq<char>|
            #[trigger] old(registry)@.entries.dom().contains(k) ==> final(registry)@.entries[k] == old(
                registry,
            )@.entries[k]) && final(registry)@.entries[plugin_id@].id@ == plugin_id@
            && final(registry)@.entries[plugin_id@].runtime_type@ == manifest.runtime@
            && final(registry)@.entries[plugin_id@].status@ == status@,
        r is Err ==> r == Err::<(), LoadError>(LoadError::Registry(RegistryError::AlreadyRegistered))
            && final(registry)@ == old(registry)@,
{
    let entry = RuntimeEntry {
        id: plugin_id.to_owned(),
        runtime_type: manifest.runtime.clone(),
        status: status.to_owned(),
    };
    match registry.register(entry) {
        Ok(()) => {
            proof {
                assert(final(registry)@.entries.dom() =~= old(registry)@.entries.dom().insert(plugin_id@));
            }
            Ok(())
        },
        Err(e) => Err(LoadError::Registry(e)),
    }
}

/// The directory an installed plugin gets under the user plugin directory: its id
/// without the leading `@`, with `/` turned into `-`.
pub fn install_dir_name(plugin_id: &str) -> (r: String)
    ensures
        r@ == plugin_dir_name_spec(plugin_id@),
{
    plugin_dir_name(plugin_id)
}

/// The plugin loader's state: the builtin and the user plugin directories, and the
/// plugins whose entry files are watched for hot reload, each with its entry file and
/// the modification time last seen (nanoseconds since the Unix epoch).
pub struct PluginLoader {
    builtin_dir: String,
    user_dir: String,
    entries: KeyedVec<(String, u128)>,
}

/// A file observation to compare with a watched plugin: the plugin, the file's current
/// modification time, and the entry code read from it.
pub struct Observation {
    pub plugin_id: String,
    pub mtime: u128,
    pub code: String,
}

/// Whether an observation shows a change: the plugin is watched and the file is newer
/// than last seen.
pub open spec fn is_change(watched: Map<Seq<char>, (Seq<char>, u128)>, o: Observation) -> bool {
    watched.dom().contains(o.plugin_id@) && o.mtime > watched[o.plugin_id@].1
}

/// The watched plugins after the observations: each changed plugin gets its newest time.
pub open spec fn after_observations(watched: Map<Seq<char>, (Seq<char>, u128)>, obs: Seq<Observation>) -> Map<
    Seq<char>,
    (Seq<char>, u128),
>
    decreases obs.len(),
{
    if obs.len() == 0 {
        watched
    } else {
        let w = after_observations(watched, obs.drop_last());
        let o = obs.last();
        if is_change(w, o) {
            w.insert(o.plugin_id@, (w[o.plugin_id@].0, o.mtime))
        } else {
            w
        }
    }
}

/// The (plugin, code) pairs to reload for the observations, in order.
pub open spec fn reloads(watched: Map<Seq<char>, (Seq<char>, u128)>, obs: Seq<Observation>) -> Seq<
    (Seq<char>, Seq<char>),
>
    decreases obs.len(),
{
    if obs.len() == 0 {
        Seq::empty()
    } else {
        let w = after_observations(watched, obs.drop_last());
        let o = obs.last();
        let rest = reloads(watched, obs.drop_last());
        if is_change(w, o) {
            rest.push((o.plugin_id@, o.code@))
        } else {
            rest
        }
    }
}


proof fn lemma_after_dom_and_bound(w: Map<Seq<char>, (Seq<char>, u128)>, obs: Seq<Observation>)
    ensures
        after_observations(w, obs).dom() == w.dom(),
        forall|k: Seq<char>|
            #[trigger] w.dom().contains(k) ==> after_observations(w, obs)[k].1 >= w[k].1
                && after_observations(w, obs)[k].0 == w[k].0,
        forall|i: int|
            0 <= i < obs.len() && w.dom().contains(#[trigger] obs[i].plugin_id@) ==> after_observations(
                w,
                obs,
            )[obs[i].plugin_id@].1 >= obs[i].mtime,
    decreases obs.len(),
{
    if obs.len() > 0 {
        let o0 = obs.drop_last();
        lemma_after_dom_and_bound(w, o0);
        let a = after_observations(w, o0);
        let o = obs.last();
        if is_change(a, o) {
            assert(after_observations(w, obs).dom() =~= a.dom().insert(o.plugin_id@));
        }
        assert forall|i: int|
            0 <= i < obs.len() && w.dom().contains(#[trigger] obs[i].plugin_id@) implies after_observations(
            w,
            obs,
        )[obs[i].plugin_id@].1 >= obs[i].mtime by {
            if i < obs.len() - 1 {
                assert(obs[i] == o0[i]);
            }
        }
    }
}

proof fn lemma_settled(a: Map<Seq<char>, (Seq<char>, u128)>, obs: Seq<Observation>)
    requires
        forall|i: int|
            0 <= i < obs.len() && a.dom().contains(#[trigger] obs[i].plugin_id@) ==> a[obs[i].plugin_id@].1
                >= obs[i].mtime,
    ensures
        after_observations(a, obs) == a,
        reloads(a, obs) == Seq::<(Seq<char>, Seq<char>)>::empty(),
    decreases obs.len(),
{
    if obs.len() > 0 {
        let o0 = obs.drop_last();
        assert forall|i: int|
            0 <= i < o0.len() && a.dom().contains(#[trigger] o0[i].plugin_id@) implies a[o0[i].plugin_id@].1
            >= o0[i].mtime by {
            assert(o0[i] == obs[i]);
        }
        lemma_settled(a, o0);
        assert(!is_change(a, obs[obs.len() - 1]));
    }
}

/// Checking the same observations again reloads nothing and changes nothing: once a
/// plugin is reloaded for a file time, that time is remembered.
pub proof fn lemma_hot_reload_settles(w: Map<Seq<char>, (Seq<char>, u128)>, obs: Seq<Observation>)
    ensures
        reloads(after_observations(w, obs), obs) == Seq::<(Seq<char>, Seq<char>)>::empty(),
        after_observations(after_observations(w, obs), obs) == after_observations(w, obs),
{
    lemma_after_dom_and_bound(w, obs);
    let a = after_observations(w, obs);
    assert forall|i: int|
        0 <= i < obs.len() && a.dom().contains(#[trigger] obs[i].plugin_id@) implies a[obs[i].plugin_id@].1
        >= obs[i].mtime by {}
    lemma_settled(a, obs);
}

impl PluginLoader {
    pub closed spec fn wf(&self) -> bool {
        self.entries.wf()
    }

    /// The watched plugins: entry file and last seen modification time.
    pub closed spec fn view(&self) -> Map<Seq<char>, (Seq<char>, u128)> {
        self.entries.as_map().map_values(|e: (String, u128)| (e.0@, e.1))
    }

    /// The builtin plugin directory.
    pub closed spec fn builtin_dir_spec(&self) -> Seq<char> {
        self.builtin_dir@
    }

    /// The user plugin directory.
    pub closed spec fn user_dir_spec(&self) -> Seq<char> {
        self.user_dir@
    }

    /// A loader for these directories that watches nothing yet.
    pub fn new(builtin_dir: String, user_dir: String) -> (r: Self)
        ensures
            r.wf(),
            r@ == Map::<Seq<char>, (Seq<char>, u128)>::empty(),
            r.builtin_dir_spec() == builtin_dir@,
            r.user_dir_spec() == user_dir@,
    {
        let r = PluginLoader { builtin_dir, user_dir, entries: KeyedVec::new() };
        proof {
            assert(r@ =~= Map::<Seq<char>, (Seq<char>, u128)>::empty());
        }
        r
    }

    /// The builtin plugin directory.
    pub fn builtin_dir(&self) -> (d: &str)
        ensures
            d@ == self.builtin_dir_spec(),
    {
        self.builtin_dir.as_str()
    }

    /// The user plugin directory.
    pub fn user_dir(&self) -> (d: &str)
        ensures
            d@ == self.user_dir_spec(),
    {
        self.user_dir.as_str()
    }

    /// Starts (or restarts) watching a loaded plugin's entry file.
    pub fn watch(&mut self, plugin_id: &str, path: String, mtime: u128)
        requires
            old(self).wf(),
        ensures
            final(self).wf(),
            final(self)@ == old(self)@.insert(plugin_id@, (path@, mtime)),
            final(self).builtin_dir_spec() == old(self).builtin_dir_spec(),
            final(self).user_dir_spec() == old(self).user_dir_spec(),
    {
        let ghost pv = path@;
        self.entries.insert(plugin_id.to_owned(), (path, mtime));
        proof {
            assert(self@ =~= old(self)@.insert(plugin_id@, (pv, mtime)));
        }
    }

    /// The watched plugins with their entry file and last seen time, each once.
    pub fn watched(&self) -> (r: Vec<(String, String, u128)>)
        requires
            self.wf(),
        ensures
            r@.len() == self@.dom().len(),
            forall|i: int|
                0 <= i < r@.len() ==> #[trigger] self@.dom().contains(r@[i].0@) && self@[r@[i].0@] == (
                    r@[i].1@,
                    r@[i].2,
                ),
            forall|i: int, j: int| 0 <= i < j < r@.len() ==> (#[trigger] r@[i]).0@ != (#[trigger] r@[j]).0@,
    {
        proof {
            self.entries.lemma_wf();
            self.entries.lemma_as_map();
            crate::capability::lemma_keys_card(self.entries.keys());
            assert(self@.dom() =~= self.entries.as_map().dom());
        }
        let n = self.entries.len();
        let mut out: Vec<(String, String, u128)> = Vec::new();
        for i in 0..n
            invariant
                n == self.entries.keys().len(),
                self.wf(),
                self.entries.keys().len() == self.entries.values().len(),
                out@.len() == i,
                forall|j: int|
                    0 <= j < i ==> (#[trigger] out@[j]).0@ == self.entries.keys()[j] && out@[j].1@
                        == self.entries.values()[j].0@ && out@[j].2 == self.entries.values()[j].1,
        {
            let v = self.entries.value_at(i);
            out.push((self.entries.key_at(i).clone(), v.0.clone(), v.1));
        }
        proof {
            self.entries.lemma_wf();
            self.entries.lemma_as_map();
            assert forall|i: int| 0 <= i < out@.len() implies #[trigger] self@.dom().contains(out@[i].0@)
                && self@[out@[i].0@] == (out@[i].1@, out@[i].2) by {
                assert(self.entries.as_map()[self.entries.keys()[i]] == self.entries.values()[i]);
            }
        }
        out
    }

    /// Compares the observed entry files with the last seen times: the plugins whose file
    /// is newer are returned with their new code, in the order observed, and their time
    /// is updated (see `reloads` and `after_observations`).
    pub fn check_hot_reload(&mut self, observed: &Vec<Observation>) -> (r: Vec<(String, String)>)
        requires
            old(self).wf(),
        ensures
            final(self).wf(),
            final(self)@ == after_observations(old(self)@, observed@),
            final(self).builtin_dir_spec() == old(self).builtin_dir_spec(),
            final(self).user_dir_spec() == old(self).user_dir_spec(),
            r@.map_values(|p: (String, String)| (p.0@, p.1@)) == reloads(old(self)@, observed@),
    {
        let n = observed.len();
        let mut out: Vec<(String, String)> = Vec::new();
        for i in 0..n
            invariant
                n == observed@.len(),
                self.wf(),
                self.builtin_dir_spec() == old(self).builtin_dir_spec(),
                self.user_dir_spec() == old(self).user_dir_spec(),
                self@ == after_observations(old(self)@, observed@.take(i as int)),
                out@.map_values(|p: (String, String)| (p.0@, p.1@)) == reloads(old(self)@, observed@.take(i as int)),
        {
            proof {
                assert(observed@.take(i + 1).drop_last() =~= observed@.take(i as int));
                self.entries.lemma_as_map();
            }
            let o = &observed[i];
            let found = match self.entries.get(o.plugin_id.as_str()) {
                Some(e) => Some((e.0.clone(), e.1)),
                None => None,
            };
            match found {
                Some((path, last)) => {
                    if o.mtime > last {
                        let ghost before = out@;
                        out.push((o.plugin_id.clone(), o.code.clone()));
                        proof {
                            assert(out@.map_values(|p: (String, String)| (p.0@, p.1@)) =~= before.map_values(
                                |p: (String, String)| (p.0@, p.1@),
                            ).push((o.plugin_id@, o.code@)));
                        }
                        let ghost pv = path@;
                        self.entries.insert(o.plugin_id.clone(), (path, o.mtime));
                        proof {
                            assert(self@ =~= after_observations(old(self)@, observed@.take(i as int)).insert(
                                o.plugin_id@,
                                (pv, o.mtime),
                            ));
                        }
                    }
                },
                None => {},
            }
        }
        proof {
            assert(observed@.take(n as int) =~= observed@);
        }
        out
    }
}

} // verus!
