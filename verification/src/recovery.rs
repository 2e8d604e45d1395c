//! Crash recovery of plugin isolates: each plugin is restarted automatically after a
//! crash, at most five times.
use vstd::prelude::*;
use crate::crash_report::CrashReport;
use crate::keyed_vec::KeyedVec;
use crate::registry::{count_or_zero, RegistryError, RegistryView, RuntimeRegistry};
use crate::logger::unix_seconds_now;
use crate::text::{decimal, push_decimal};

verus! {

/// How many automatic restarts a plugin gets.
pub const MAX_RESTARTS: u32 = 5;

/// Why a crashed plugin is not restarted.
#[derive(Debug, Clone, Copy, PartialEq, Eq)]
pub enum RecoveryError {
    /// The plugin has crashed more often than `MAX_RESTARTS` allows.
    MaxRestartsExceeded,
    /// The plugin is not in the runtime registry.
    Registry(RegistryError),
}

/// Counts the crashes of each plugin and decides whether it is restarted.
pub struct RecoveryManager {
    max_restarts: u32,
    crash_counts: KeyedVec<u32>,
}

impl RecoveryManager {
    /// The manager's collections are well formed and the restart limit is `MAX_RESTARTS`.
    pub closed spec fn wf(&self) -> bool {
        self.crash_counts.wf() && self.max_restarts == MAX_RESTARTS
    }

    /// The crash count of each plugin that has crashed.
    pub closed spec fn counts(&self) -> Map<Seq<char>, u32> {
        self.crash_counts.as_map()
    }

    /// A manager that has seen no crash.
    pub fn new() -> (r: Self)
        ensures
            r.wf(),
            r.counts() == Map::<Seq<char>, u32>::empty(),
    {
        let r = RecoveryManager { max_restarts: MAX_RESTARTS, crash_counts: KeyedVec::new() };
        proof {
            assert(r.counts() =~= Map::<Seq<char>, u32>::empty());
        }
        r
    }

    /// How often `plugin_id` has crashed.
    pub fn crash_count(&self, plugin_id: &str) -> (n: u32)
        requires
            self.wf(),
        ensures
            n == count_or_zero(self.counts(), plugin_id@),
    {
        proof {
            self.crash_counts.lemma_as_map();
        }
        match self.crash_counts.get(plugin_id) {
            Some(c) => *c,
            None => 0,
        }
    }

    /// Whether `plugin_id` has crashed more often than it may be restarted.
    pub fn exceeded(&self, plugin_id: &str) -> (b: bool)
        requires
            self.wf(),
        ensures
            b == (count_or_zero(self.counts(), plugin_id@) > MAX_RESTARTS),
    {
        self.crash_count(plugin_id) > self.max_restarts
    }

    /// Handles a crash of `plugin_id` at `timestamp`: counts it, builds the crash report
    /// (see `crash_handled`), records the crash in the registry and marks the plugin.
    /// `Ok` means that the plugin's isolate is to be restarted now.
    pub fn on_crash_at(
        &mut self,
        plugin_id: &str,
        reason: &str,
        stack_trace: &str,
        timestamp: String,
        runtime_registry: &mut RuntimeRegistry,
    ) -> (r: (CrashReport, Result<(), RecoveryError>))
        requires
            old(self).wf(),
            old(runtime_registry).wf(),
            count_or_zero(old(self).counts(), plugin_id@) < u32::MAX,
            count_or_zero(old(runtime_registry)@.crashes, plugin_id@) < u32::MAX,
        ensures
            final(self).wf(),
            final(runtime_registry).wf(),
            crash_handled(
                old(self).counts(),
                final(self).counts(),
                old(runtime_registry)@,
                final(runtime_registry)@,
                plugin_id@,
                reason@,
                stack_trace@,
                r,
            ),
            r.0.timestamp == timestamp,
    {
        let count = self.crash_count(plugin_id) + 1;
        self.crash_counts.insert(plugin_id.to_owned(), count);
        let (runtime, isolate_state) = match runtime_registry.get(plugin_id) {
            Some(e) => (e.runtime_type.clone(), e.status.clone()),
            None => ("unknown".to_owned(), "unknown".to_owned()),
        };
        let report = CrashReport {
            plugin_id: plugin_id.to_owned(),
            timestamp,
            runtime,
            reason: reason.to_owned(),
            stack_trace: stack_trace.to_owned(),
            isolate_state,
            crash_count: count,
        };
        runtime_registry.record_crash(plugin_id);
        let outcome = if count > self.max_restarts {
            match runtime_registry.update_status(plugin_id, "crashed (max restarts exceeded)") {
                Err(e) => Err(RecoveryError::Registry(e)),
                Ok(()) => Err(RecoveryError::MaxRestartsExceeded),
            }
        } else {
            match runtime_registry.update_status(plugin_id, "recovering") {
                Err(e) => Err(RecoveryError::Registry(e)),
                Ok(()) => Ok(()),
            }
        };
        (report, outcome)
    }
}


/// What handling a crash of `plugin_id` does, the time of the report aside: the
/// plugin's crash count goes up by one; the report carries the id, reason, stack trace
/// and new count, with the plugin's runtime type and status (`unknown` for an
/// unregistered plugin); the registry counts the crash, and a registered plugin is
/// marked `crashed (max restarts exceeded)` once the count passes `MAX_RESTARTS`,
/// `recovering` before that, nothing else changing; the outcome is `NotFound` for an
/// unregistered plugin, `MaxRestartsExceeded` past the limit, `Ok` otherwise.
pub open spec fn crash_handled(
    counts: Map<Seq<char>, u32>,
    counts_after: Map<Seq<char>, u32>,
    reg: RegistryView,
    reg_after: RegistryView,
    plugin_id: Seq<char>,
    reason: Seq<char>,
    stack_trace: Seq<char>,
    r: (CrashReport, Result<(), RecoveryError>),
) -> bool {
    let count = (count_or_zero(counts, plugin_id) + 1) as u32;
    let registered = reg.entries.dom().contains(plugin_id);
    let report = r.0;
    &&& counts_after == counts.insert(plugin_id, count)
    &&& report.plugin_id@ == plugin_id
    &&& report.reason@ == reason
    &&& report.stack_trace@ == stack_trace
    &&& report.crash_count == count
    &&& report.runtime@ == (if registered {
        reg.entries[plugin_id].runtime_type@
    } else {
        "unknown"@
    })
    &&& report.isolate_state@ == (if registered {
        reg.entries[plugin_id].status@
    } else {
        "unknown"@
    })
    &&& reg_after.crashes == reg.crashes.insert(plugin_id, (count_or_zero(reg.crashes, plugin_id) + 1) as u32)
    &&& reg_after.memory == reg.memory
    &&& reg_after.heartbeats == reg.heartbeats
    &&& reg_after.entries.dom() == reg.entries.dom()
    &&& forall|k: Seq<char>|
        #[trigger] reg.entries.dom().contains(k) && k != plugin_id ==> reg_after.entries[k] == reg.entries[k]
    &&& registered ==> reg_after.entries[plugin_id].id == reg.entries[plugin_id].id
        && reg_after.entries[plugin_id].runtime_type == reg.entries[plugin_id].runtime_type
        && reg_after.entries[plugin_id].status@ == (if count > MAX_RESTARTS {
        "crashed (max restarts exceeded)"@
    } else {
        "recovering"@
    })
    &&& r.1 == (if !registered {
        Err(RecoveryError::Registry(RegistryError::NotFound))
    } else if count > MAX_RESTARTS {
        Err(RecoveryError::MaxRestartsExceeded)
    } else {
        Ok(())
    })
}

/// A report time: whole seconds since the Unix epoch in decimal, or `unknown`.
pub open spec fn timestamp_text(s: Seq<char>) -> bool {
    s == "unknown"@ || exists|n: u64| s == decimal(n as nat)
}

/// The report time for a clock reading: its seconds in decimal, `unknown` when the
/// clock was set before the epoch.
pub fn timestamp_from(secs: Option<u64>) -> (r: String)
    ensures
        r@ == (match secs {
            Some(n) => decimal(n as nat),
            None => "unknown"@,
        }),
{
    match secs {
        Some(n) => {
            let mut s = String::new();
            push_decimal(&mut s, n);
            s
        },
        None => "unknown".to_owned(),
    }
}

/// The current time as a report time.
pub fn chrono_like_now() -> (r: String)
    ensures
        timestamp_text(r@),
{
    let secs = unix_seconds_now();
    let r = timestamp_from(secs);
    proof {
        if let Some(n) = secs {
            assert(r@ == decimal(n as nat));
        }
    }
    r
}

impl RecoveryManager {
    /// Handles a crash of `plugin_id` now (see `on_crash_at`); the report is dated with
    /// the current time.
    pub fn on_crash(
        &mut self,
        plugin_id: &str,
        reason: &str,
        stack_trace: &str,
        runtime_registry: &mut RuntimeRegistry,
    ) -> (r: (CrashReport, Result<(), RecoveryError>))
        requires
            old(self).wf(),
            old(runtime_registry).wf(),
            count_or_zero(old(self).counts(), plugin_id@) < u32::MAX,
            count_or_zero(old(runtime_registry)@.crashes, plugin_id@) < u32::MAX,
        ensures
            final(self).wf(),
            final(runtime_registry).wf(),
            crash_handled(
                old(self).counts(),
                final(self).counts(),
                old(runtime_registry)@,
                final(runtime_registry)@,
                plugin_id@,
                reason@,
                stack_trace@,
                r,
            ),
            timestamp_text(r.0.timestamp@),
    {
        let timestamp = chrono_like_now();
        self.on_crash_at(plugin_id, reason, stack_trace, timestamp, runtime_registry)
    }
}

} // verus!
