//! The isolate watchdog: each monitored plugin must send a heartbeat at least every
//! five seconds; `check` reports the plugins whose heartbeat is overdue.
use vstd::prelude::*;
use std::time::Instant;
use crate::keyed_vec::KeyedVec;
use crate::permissions::string_views;

verus! {

/// How long the first run of a plugin may take, in nanoseconds (500 ms).
pub const EXECUTION_TIMEOUT_NANOS: u64 = 500_000_000;

/// How long a plugin may go without a heartbeat, in nanoseconds (5 s).
pub const HEARTBEAT_TIMEOUT_NANOS: u64 = 5_000_000_000;

#[verifier::external_type_specification]
#[verifier::external_body]
pub struct ExInstant(Instant);

/// `Instant::now()`: the current reading of the monotonic clock.
#[verifier::external_body]
fn clock_now() -> Instant {
    Instant::now()
}

/// `Instant::elapsed` in nanoseconds: the time since `epoch`, which depends on the clock,
/// so nothing about it is stated.
#[verifier::external_body]
fn nanos_since(epoch: &Instant) -> u64 {
    epoch.elapsed().as_nanos() as u64
}

/// What is monitored for one plugin; times are nanoseconds since the watchdog was made.
pub struct WatchEntry {
    pub plugin_id: String,
    pub started_at: u64,
    pub last_heartbeat: u64,
    pub execution_timeout: u64,
    pub heartbeat_timeout: u64,
}

/// Why the watchdog refused a request.
#[derive(Debug, Clone, Copy, PartialEq, Eq)]
pub enum WatchdogError {
    /// The plugin is not monitored.
    NotFound,
}

/// The time from `from` to `to`, zero when `to` is earlier (as `Instant::duration_since`).
pub open spec fn elapsed(from: u64, to: u64) -> u64 {
    if to >= from {
        (to - from) as u64
    } else {
        0
    }
}

/// The entry's heartbeat is overdue at time `now`.
pub open spec fn overdue(e: WatchEntry, now: u64) -> bool {
    elapsed(e.last_heartbeat, now) > e.heartbeat_timeout
}

/// The ids of the overdue entries, in order.
pub open spec fn overdue_ids(es: Seq<WatchEntry>, now: u64) -> Seq<Seq<char>>
    decreases es.len(),
{
    if es.len() == 0 {
        Seq::empty()
    } else {
        let r = overdue_ids(es.drop_last(), now);
        if overdue(es.last(), now) {
            r.push(es.last().plugin_id@)
        } else {
            r
        }
    }
}

/// The plugin ids of a sequence of entries, in order.
pub open spec fn entry_ids(es: Seq<WatchEntry>) -> Seq<Seq<char>> {
    es.map_values(|e: WatchEntry| e.plugin_id@)
}

/// An id is among the overdue ids exactly when some entry with that id is overdue; and
/// when no id occurs twice among the entries, none occurs twice among the overdue ids.
pub proof fn lemma_overdue_ids_members(es: Seq<WatchEntry>, now: u64)
    ensures
        forall|id: Seq<char>|
            #[trigger] overdue_ids(es, now).contains(id) <==> exists|i: int|
                0 <= i < es.len() && es[i].plugin_id@ == id && overdue(es[i], now),
        entry_ids(es).no_duplicates() ==> overdue_ids(es, now).no_duplicates(),
    decreases es.len(),
{
    if es.len() > 0 {
        let init = es.drop_last();
        lemma_overdue_ids_members(init, now);
        let r = overdue_ids(init, now);
        assert forall|id: Seq<char>|
            #[trigger] overdue_ids(es, now).contains(id) <==> exists|i: int|
                0 <= i < es.len() && es[i].plugin_id@ == id && overdue(es[i], now) by {
            if overdue_ids(es, now).contains(id) {
                if r.contains(id) {
                    let i = choose|i: int| 0 <= i < init.len() && init[i].plugin_id@ == id && overdue(init[i], now);
                    assert(es[i] == init[i]);
                } else {
                    assert(overdue(es.last(), now));
                    let k = overdue_ids(es, now).index_of(id);
                    assert(overdue_ids(es, now) == r.push(es.last().plugin_id@));
                    assert(id == es.last().plugin_id@);
                    assert(es[es.len() - 1] == es.last());
                }
            }
            if exists|i: int| 0 <= i < es.len() && es[i].plugin_id@ == id && overdue(es[i], now) {
                let i = choose|i: int| 0 <= i < es.len() && es[i].plugin_id@ == id && overdue(es[i], now);
                if i < es.len() - 1 {
                    assert(init[i] == es[i]);
                    assert(r.contains(id));
                    if overdue(es.last(), now) {
                        let k = r.index_of(id);
                        assert(r.push(es.last().plugin_id@)[k] == id);
                    }
                } else {
                    assert(es[i] == es.last());
                    assert(r.push(es.last().plugin_id@)[r.len() as int] == id);
                }
            }
        }
        if entry_ids(es).no_duplicates() {
            assert forall|a: int, b: int| 0 <= a < b < entry_ids(init).len() implies entry_ids(init)[a]
                != entry_ids(init)[b] by {
                assert(entry_ids(init)[a] == entry_ids(es)[a]);
                assert(entry_ids(init)[b] == entry_ids(es)[b]);
            }
            if overdue(es.last(), now) {
                let last_id = es.last().plugin_id@;
                if r.contains(last_id) {
                    let i = choose|i: int| 0 <= i < init.len() && init[i].plugin_id@ == last_id && overdue(init[i], now);
                    assert(entry_ids(es)[i] == last_id);
                    assert(entry_ids(es)[es.len() - 1] == last_id);
                }
                assert forall|a: int, b: int| 0 <= a < b < r.push(last_id).len() implies r.push(last_id)[a]
                    != r.push(last_id)[b] by {
                    if b == r.len() {
                        assert(r.push(last_id)[a] == r[a]);
                        assert(r.contains(r[a]));
                    }
                }
            }
        }
    }
}

/// A heartbeat keeps a plugin from being reported: at the moment of its last heartbeat
/// it is not overdue, and it becomes overdue exactly when more than its timeout has
/// passed since.
pub proof fn lemma_heartbeat_timeout(e: WatchEntry, now: u64)
    ensures
        !overdue(e, e.last_heartbeat),
        overdue(e, now) <==> now > e.last_heartbeat + e.heartbeat_timeout,
{
}

/// The latest last heartbeat among the entries (zero when there are none).
pub open spec fn latest_of(es: Seq<WatchEntry>) -> u64
    decreases es.len(),
{
    if es.len() == 0 {
        0
    } else {
        let r = latest_of(es.drop_last());
        if es.last().last_heartbeat > r {
            es.last().last_heartbeat
        } else {
            r
        }
    }
}

/// The latest heartbeat is the largest: no entry's last heartbeat is later, and (when
/// there is an entry) some entry's last heartbeat is that one.
pub proof fn lemma_latest_heartbeat(es: Seq<WatchEntry>)
    ensures
        forall|i: int| 0 <= i < es.len() ==> (#[trigger] es[i]).last_heartbeat <= latest_of(es),
        es.len() > 0 ==> exists|i: int| 0 <= i < es.len() && (#[trigger] es[i]).last_heartbeat == latest_of(es),
        es.len() == 0 ==> latest_of(es) == 0,
    decreases es.len(),
{
    if es.len() > 0 {
        let init = es.drop_last();
        lemma_latest_heartbeat(init);
        assert forall|i: int| 0 <= i < es.len() implies (#[trigger] es[i]).last_heartbeat <= latest_of(es) by {
            if i < es.len() - 1 {
                assert(es[i] == init[i]);
            }
        }
        if es.last().last_heartbeat > latest_of(init) || init.len() == 0 {
            assert(es[es.len() - 1].last_heartbeat == es.last().last_heartbeat);
            if es.last().last_heartbeat <= latest_of(init) {
                assert(latest_of(init) == 0);
            }
        } else {
            let i = choose|i: int| 0 <= i < init.len() && (#[trigger] init[i]).last_heartbeat == latest_of(init);
            assert(es[i] == init[i]);
        }
    }
}

/// Monitors plugin isolates.
pub struct Watchdog {
    epoch: Instant,
    entries: KeyedVec<WatchEntry>,
}

impl Watchdog {
    /// The monitored entries are well formed.
    pub closed spec fn wf(&self) -> bool {
        &&& self.entries.wf()
        &&& forall|i: int|
            0 <= i < self.entries.values().len() ==> #[trigger] self.entries.values()[i].plugin_id@
                == self.entries.keys()[i]
    }

    /// The monitored plugins, by id.
    pub closed spec fn view(&self) -> Map<Seq<char>, WatchEntry> {
        self.entries.as_map()
    }

    /// The monitored entries in the order monitoring started.
    pub closed spec fn entry_seq(&self) -> Seq<WatchEntry> {
        self.entries.values()
    }

    /// The entries in monitoring order are the monitored plugins: each id once, every
    /// monitored id present, and each entry the one monitored under its id.
    pub proof fn lemma_entries_view(&self)
        requires
            self.wf(),
        ensures
            entry_ids(self.entry_seq()).no_duplicates(),
            entry_ids(self.entry_seq()).to_set() == self.view().dom(),
            forall|i: int|
                0 <= i < self.entry_seq().len() ==> #[trigger] self.view()[self.entry_seq()[i].plugin_id@]
                    == self.entry_seq()[i],
    {
        self.entries.lemma_wf();
        self.entries.lemma_as_map();
        assert(entry_ids(self.entry_seq()) =~= self.entries.keys());
    }

    /// A watchdog that monitors nothing yet.
    pub fn new() -> (r: Self)
        ensures
            r.wf(),
            r.view() == Map::<Seq<char>, WatchEntry>::empty(),
            r.entry_seq() == Seq::<WatchEntry>::empty(),
    {
        let r = Watchdog { epoch: clock_now(), entries: KeyedVec::new() };
        proof {
            assert(r.view() =~= Map::<Seq<char>, WatchEntry>::empty());
        }
        r
    }

    /// Starts (or restarts) monitoring `plugin_id` at time `now`.
    pub fn start_at(&mut self, plugin_id: &str, now: u64) -> (r: Result<(), WatchdogError>)
        requires
            old(self).wf(),
        ensures
            final(self).wf(),
            r is Ok,
            final(self).view().dom() == old(self).view().dom().insert(plugin_id@),
            forall|k: Seq<char>|
                #[trigger] old(self).view().dom().contains(k) && k != plugin_id@ ==> final(self).view()[k]
                    == old(self).view()[k],
            final(self).view()[plugin_id@].plugin_id@ == plugin_id@,
            final(self).view()[plugin_id@].started_at == now,
            final(self).view()[plugin_id@].last_heartbeat == now,
            final(self).view()[plugin_id@].execution_timeout == EXECUTION_TIMEOUT_NANOS,
            final(self).view()[plugin_id@].heartbeat_timeout == HEARTBEAT_TIMEOUT_NANOS,
    {
        let entry = WatchEntry {
            plugin_id: plugin_id.to_owned(),
            started_at: now,
            last_heartbeat: now,
            execution_timeout: EXECUTION_TIMEOUT_NANOS,
            heartbeat_timeout: HEARTBEAT_TIMEOUT_NANOS,
        };
        let ghost before = self.entries;
        self.entries.insert(plugin_id.to_owned(), entry);
        proof {
            before.lemma_wf();
            if before.keys().contains(plugin_id@) {
                crate::keyed_vec::lemma_index_of_unique(before.keys(), before.keys().index_of(plugin_id@));
            }
        }
        Ok(())
    }

    /// Starts (or restarts) monitoring `plugin_id` now.
    pub fn start(&mut self, plugin_id: &str) -> (r: Result<(), WatchdogError>)
        requires
            old(self).wf(),
        ensures
            final(self).wf(),
            r is Ok,
            final(self).view() == old(self).view().insert(plugin_id@, final(self).view()[plugin_id@]),
            final(self).view()[plugin_id@].plugin_id@ == plugin_id@,
            final(self).view()[plugin_id@].started_at == final(self).view()[plugin_id@].last_heartbeat,
            final(self).view()[plugin_id@].execution_timeout == EXECUTION_TIMEOUT_NANOS,
            final(self).view()[plugin_id@].heartbeat_timeout == HEARTBEAT_TIMEOUT_NANOS,
    {
        let now = nanos_since(&self.epoch);
        let r = self.start_at(plugin_id, now);
        proof {
            assert(self.view() =~= old(self).view().insert(plugin_id@, self.view()[plugin_id@]));
        }
        r
    }

    /// Records a heartbeat of `plugin_id` at time `now`; refused when it is not monitored.
    pub fn heartbeat_at(&mut self, plugin_id: &str, now: u64) -> (r: Result<(), WatchdogError>)
        requires
            old(self).wf(),
        ensures
            final(self).wf(),
            r is Ok <==> old(self).view().dom().contains(plugin_id@),
            r is Ok ==> final(self).view() == old(self).view().insert(
                plugin_id@,
                WatchEntry { last_heartbeat: now, ..old(self).view()[plugin_id@] },
            ),
            r is Err ==> final(self).view() == old(self).view(),
    {
        proof {
            self.entries.lemma_as_map();
        }
        let updated = match self.entries.get(plugin_id) {
            None => {
                return Err(WatchdogError::NotFound);
            },
            Some(e) => WatchEntry {
                plugin_id: e.plugin_id.clone(),
                started_at: e.started_at,
                last_heartbeat: now,
                execution_timeout: e.execution_timeout,
                heartbeat_timeout: e.heartbeat_timeout,
            },
        };
        let ghost before = self.entries;
        self.entries.insert(plugin_id.to_owned(), updated);
        proof {
            before.lemma_wf();
            let j = before.keys().index_of(plugin_id@);
            crate::keyed_vec::lemma_index_of_unique(before.keys(), j);
        }
        Ok(())
    }

    /// Records a heartbeat of `plugin_id` now; refused when it is not monitored.
    pub fn heartbeat(&mut self, plugin_id: &str) -> (r: Result<(), WatchdogError>)
        requires
            old(self).wf(),
        ensures
            final(self).wf(),
            r is Ok <==> old(self).view().dom().contains(plugin_id@),
            r is Ok ==> final(self).view() == old(self).view().insert(
                plugin_id@,
                WatchEntry {
                    last_heartbeat: final(self).view()[plugin_id@].last_heartbeat,
                    ..old(self).view()[plugin_id@]
                },
            ),
            r is Err ==> final(self).view() == old(self).view(),
    {
        let now = nanos_since(&self.epoch);
        self.heartbeat_at(plugin_id, now)
    }

    /// Every monitored plugin's last heartbeat is at or before `now`.
    pub open spec fn heard_by(&self, now: u64) -> bool {
        forall|id: Seq<char>| #[trigger] self.view().dom().contains(id) ==> self.view()[id].last_heartbeat <= now
    }

    /// `ids` is what a check at time `now` reports: the monitored plugins whose heartbeat
    /// is overdue at `now`, each once, in the order monitoring started.
    pub open spec fn reports(&self, ids: Seq<Seq<char>>, now: u64) -> bool {
        &&& ids == overdue_ids(self.entry_seq(), now)
        &&& ids.no_duplicates()
        &&& forall|id: Seq<char>|
            #[trigger] ids.contains(id) <==> self.view().dom().contains(id) && overdue(self.view()[id], now)
    }

    /// The overdue ids of the entries are exactly the overdue monitored plugins.
    proof fn lemma_reports(&self, now: u64)
        requires
            self.wf(),
        ensures
            self.reports(overdue_ids(self.entry_seq(), now), now),
    {
        let es = self.entry_seq();
        let ids = overdue_ids(es, now);
        lemma_overdue_ids_members(es, now);
        self.lemma_entries_view();
        assert forall|id: Seq<char>|
            #[trigger] ids.contains(id) <==> self.view().dom().contains(id) && overdue(self.view()[id], now) by {
            if ids.contains(id) {
                let i = choose|i: int| 0 <= i < es.len() && es[i].plugin_id@ == id && overdue(es[i], now);
                assert(entry_ids(es)[i] == id);
                assert(entry_ids(es).to_set().contains(id));
                assert(self.view()[es[i].plugin_id@] == es[i]);
            }
            if self.view().dom().contains(id) && overdue(self.view()[id], now) {
                assert(entry_ids(es).to_set().contains(id));
                let i = choose|i: int| 0 <= i < entry_ids(es).len() && entry_ids(es)[i] == id;
                assert(es[i].plugin_id@ == id);
                assert(self.view()[es[i].plugin_id@] == es[i]);
            }
        }
    }

    /// The latest last heartbeat among the monitored plugins (zero when none is monitored).
    fn latest_heartbeat(&self) -> (t: u64)
        requires
            self.wf(),
        ensures
            self.heard_by(t),
            t == latest_of(self.entry_seq()),
    {
        proof {
            self.entries.lemma_wf();
            self.lemma_entries_view();
        }
        let n = self.entries.len();
        let mut t: u64 = 0;
        for i in 0..n
            invariant
                n == self.entry_seq().len(),
                n == self.entries.keys().len(),
                self.wf(),
                forall|j: int| 0 <= j < i ==> #[trigger] self.entry_seq()[j].last_heartbeat <= t,
                t == latest_of(self.entry_seq().take(i as int)),
        {
            proof {
                assert(self.entry_seq().take(i + 1).drop_last() =~= self.entry_seq().take(i as int));
            }
            let e = self.entries.value_at(i);
            if e.last_heartbeat > t {
                t = e.last_heartbeat;
            }
        }
        proof {
            let es = self.entry_seq();
            assert(es.take(n as int) =~= es);
            assert forall|id: Seq<char>| #[trigger] self.view().dom().contains(id) implies self.view()[id].last_heartbeat
                <= t by {
                assert(entry_ids(es).to_set().contains(id));
                let i = choose|i: int| 0 <= i < entry_ids(es).len() && entry_ids(es)[i] == id;
                assert(es[i].plugin_id@ == id);
                assert(self.view()[es[i].plugin_id@] == es[i]);
                assert(es[i].last_heartbeat <= t);
            }
        }
        t
    }

    /// The ids of the monitored plugins whose last heartbeat is more than their heartbeat
    /// timeout before `now`, in the order monitoring started.
    pub fn check_at(&self, now: u64) -> (r: Vec<String>)
        requires
            self.wf(),
        ensures
            r@.map_values(|s: String| s@) == overdue_ids(self.entry_seq(), now),
            self.reports(r@.map_values(|s: String| s@), now),
    {
        proof {
            self.lemma_reports(now);
        }
        proof {
            self.entries.lemma_wf();
        }
        let n = self.entries.len();
        let mut out: Vec<String> = Vec::new();
        for i in 0..n
            invariant
                n == self.entry_seq().len(),
                n == self.entries.keys().len(),
                self.wf(),
                out@.map_values(|s: String| s@) == overdue_ids(self.entry_seq().take(i as int), now),
        {
            let e = self.entries.value_at(i);
            let ghost before = out@;
            proof {
                assert(self.entry_seq().take(i + 1).drop_last() =~= self.entry_seq().take(i as int));
            }
            let gap = if now >= e.last_heartbeat {
                now - e.last_heartbeat
            } else {
                0
            };
            if gap > e.heartbeat_timeout {
                out.push(e.plugin_id.clone());
                proof {
                    assert(out@.map_values(|s: String| s@) =~= before.map_values(|s: String| s@).push(
                        e.plugin_id@,
                    ));
                }
            }
        }
        proof {
            assert(self.entry_seq().take(n as int) =~= self.entry_seq());
        }
        out
    }

    /// The ids of the monitored plugins whose heartbeat is overdue now. "Now" is the
    /// clock reading, taken no earlier than the latest recorded heartbeat (the clock is
    /// monotonic, so this only matters to the statement).
    pub fn check(&mut self) -> (r: Vec<String>)
        requires
            old(self).wf(),
        ensures
            final(self).wf(),
            final(self).view() == old(self).view(),
            final(self).entry_seq() == old(self).entry_seq(),
            exists|now: u64|
                old(self).heard_by(now) && #[trigger] old(self).reports(string_views(r@), now),
            exists|clock: u64| #[trigger] old(self).checked_with(string_views(r@), clock),
    {
        let clock = nanos_since(&self.epoch);
        self.check_with_clock(clock)
    }

    /// `ids` is what a check with the clock reading `clock` reports: the plugins overdue at
    /// `clock` when no recorded heartbeat is later than it, and otherwise the plugins
    /// overdue at the latest recorded heartbeat.
    pub open spec fn checked_with(&self, ids: Seq<Seq<char>>, clock: u64) -> bool {
        &&& self.heard_by(clock) ==> self.reports(ids, clock)
        &&& !self.heard_by(clock) ==> self.reports(ids, latest_of(self.entry_seq()))
    }

    /// The ids of the monitored plugins whose heartbeat is overdue at the clock reading
    /// `clock`, taken no earlier than the latest recorded heartbeat. When every recorded
    /// heartbeat is at or before `clock`, the check is judged at `clock` itself.
    pub fn check_with_clock(&self, clock: u64) -> (r: Vec<String>)
        requires
            self.wf(),
        ensures
            self.heard_by(clock) ==> self.reports(string_views(r@), clock),
            (forall|i: int|
                0 <= i < self.entry_seq().len() ==> (#[trigger] self.entry_seq()[i]).last_heartbeat <= clock)
                ==> self.reports(string_views(r@), clock),
            self.checked_with(string_views(r@), clock),
            exists|now: u64| self.heard_by(now) && #[trigger] self.reports(string_views(r@), now),
    {
        let latest = self.latest_heartbeat();
        let now = if clock < latest {
            latest
        } else {
            clock
        };
        let r = self.check_at(now);
        proof {
            lemma_latest_heartbeat(self.entry_seq());
            self.lemma_entries_view();
            let es = self.entry_seq();
            assert(self.heard_by(now));
            assert(string_views(r@) == r@.map_values(|s: String| s@));
            if self.heard_by(clock) && clock < latest {
                let i = choose|i: int| 0 <= i < es.len() && (#[trigger] es[i]).last_heartbeat == latest_of(es);
                assert(self.view().dom().contains(es[i].plugin_id@)) by {
                    assert(entry_ids(es)[i] == es[i].plugin_id@);
                    assert(entry_ids(es).to_set().contains(es[i].plugin_id@));
                }
                assert(self.view()[es[i].plugin_id@] == es[i]);
            }
            if !self.heard_by(clock) {
                let id = choose|id: Seq<char>| #[trigger] self.view().dom().contains(id) && !(self.view()[id].last_heartbeat <= clock);
                assert(entry_ids(es).to_set().contains(id));
                let i = choose|i: int| 0 <= i < entry_ids(es).len() && entry_ids(es)[i] == id;
                assert(es[i].plugin_id@ == id);
                assert(self.view()[es[i].plugin_id@] == es[i]);
                assert(es[i].last_heartbeat <= latest);
            }
        }
        r
    }

    /// Stops monitoring `plugin_id` (nothing happens when it is not monitored).
    pub fn stop(&mut self, plugin_id: &str)
        requires
            old(self).wf(),
        ensures
            final(self).wf(),
            final(self).view() == old(self).view().remove(plugin_id@),
    {
        let ghost before = self.entries;
        let _ = self.entries.remove(plugin_id);
        proof {
            before.lemma_wf();
            if before.keys().contains(plugin_id@) {
                let j = before.keys().index_of(plugin_id@);
                crate::keyed_vec::lemma_index_of_unique(before.keys(), j);
                before.keys().remove_ensures(j);
                before.values().remove_ensures(j);
                assert forall|i: int| 0 <= i < self.entries.values().len() implies #[trigger] self.entries.values()[i].plugin_id@
                    == self.entries.keys()[i] by {
                    if i < j {
                        assert(self.entries.values()[i] == before.values()[i]);
                        assert(self.entries.keys()[i] == before.keys()[i]);
                    } else {
                        assert(self.entries.values()[i] == before.values()[i + 1]);
                        assert(self.entries.keys()[i] == before.keys()[i + 1]);
                    }
                }
            }
        }
    }
}

} // verus!
