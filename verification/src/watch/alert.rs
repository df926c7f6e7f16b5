//! Alerts on resource thresholds and on a watched process.

use crate::text::{contains_text, eq_ignore_ascii_case, equal_ignoring_ascii_case, occurs_in};
use crate::time::Timestamp;
use crate::watch::monitor::{single_lt, IeeeSingle, ProcessInfo, SystemSnapshot};
use std::collections::HashSet;
use vstd::prelude::*;

verus! {

broadcast use vstd::std_specs::hash::group_hash_axioms;

/// Alert configuration.
#[derive(Debug, Clone, PartialEq)]
pub struct AlertConfig {
    /// System CPU usage threshold (percent).
    pub cpu_threshold: Option<IeeeSingle>,
    /// System memory usage threshold (percent).
    pub memory_threshold: Option<IeeeSingle>,
    /// A process to watch, by name.
    pub watch_process: Option<String>,
    /// Alert if any process uses more than this CPU share (percent).
    pub process_cpu_threshold: Option<IeeeSingle>,
    /// Alert if any process uses more than this memory (bytes).
    pub process_memory_threshold: Option<u64>,
}

impl Default for AlertConfig {
    fn default() -> (r: Self)
        ensures
            r.cpu_threshold is None,
            r.memory_threshold is None,
            r.watch_process is None,
            r.process_cpu_threshold is None,
            r.process_memory_threshold is None,
    {
        AlertConfig {
            cpu_threshold: None,
            memory_threshold: None,
            watch_process: None,
            process_cpu_threshold: None,
            process_memory_threshold: None,
        }
    }
}

impl AlertConfig {
    /// This configuration with the thresholds and watched process given on the command
    /// line put in place of those it had; absent options leave it unchanged.
    pub fn with_overrides(self, cpu: Option<IeeeSingle>, memory: Option<IeeeSingle>, watch: Option<String>) -> (r: Self)
        ensures
            r.cpu_threshold == (if cpu is Some { cpu } else { self.cpu_threshold }),
            r.memory_threshold == (if memory is Some { memory } else { self.memory_threshold }),
            r.watch_process == (if watch is Some { watch } else { self.watch_process }),
            r.process_cpu_threshold == self.process_cpu_threshold,
            r.process_memory_threshold == self.process_memory_threshold,
    {
        let mut config = self;
        if cpu.is_some() {
            config.cpu_threshold = cpu;
        }
        if memory.is_some() {
            config.memory_threshold = memory;
        }
        if watch.is_some() {
            config.watch_process = watch;
        }
        config
    }
}

#[derive(Debug, Clone, Copy, PartialEq, Eq, Structural)]
pub enum AlertLevel {
    Info,
    Warning,
    Critical,
}

/// What an alert is about, with the readings it reports.
#[derive(Debug, Clone, PartialEq)]
pub enum AlertKind {
    /// System CPU usage is above its threshold.
    SystemCpu { usage: IeeeSingle, threshold: IeeeSingle },
    /// System memory usage (percent) is above its threshold.
    SystemMemory { usage: IeeeSingle, threshold: IeeeSingle },
    /// A process uses more CPU than the per-process threshold.
    ProcessCpu { name: String, pid: u32, usage: IeeeSingle },
    /// A process uses more memory than the per-process threshold.
    ProcessMemory { name: String, pid: u32, memory_bytes: u64 },
    /// The watched process has appeared.
    WatchedStarted { name: String },
    /// The watched process has gone.
    WatchedStopped { name: String },
}

/// Triggered alert.
#[derive(Debug, Clone, PartialEq)]
pub struct Alert {
    pub level: AlertLevel,
    pub kind: AlertKind,
    pub timestamp: Timestamp,
}

/// The level of each kind of alert: warnings for the system and for the watched
/// process going away, information otherwise.
pub open spec fn level_of(kind: AlertKind) -> AlertLevel {
    match kind {
        AlertKind::SystemCpu { .. } => AlertLevel::Warning,
        AlertKind::SystemMemory { .. } => AlertLevel::Warning,
        AlertKind::ProcessCpu { .. } => AlertLevel::Info,
        AlertKind::ProcessMemory { .. } => AlertLevel::Info,
        AlertKind::WatchedStarted { .. } => AlertLevel::Info,
        AlertKind::WatchedStopped { .. } => AlertLevel::Warning,
    }
}

fn level_for(kind: &AlertKind) -> (r: AlertLevel)
    ensures
        r == level_of(*kind),
{
    match kind {
        AlertKind::SystemCpu { .. } => AlertLevel::Warning,
        AlertKind::SystemMemory { .. } => AlertLevel::Warning,
        AlertKind::ProcessCpu { .. } => AlertLevel::Info,
        AlertKind::ProcessMemory { .. } => AlertLevel::Info,
        AlertKind::WatchedStarted { .. } => AlertLevel::Info,
        AlertKind::WatchedStopped { .. } => AlertLevel::Warning,
    }
}

/// The system-wide alerts: CPU usage above its threshold, then memory usage above its
/// threshold.
pub open spec fn system_alerts(cfg: AlertConfig, cpu_usage: IeeeSingle, memory_usage: IeeeSingle) -> Seq<AlertKind> {
    (match cfg.cpu_threshold {
        Some(t) => if single_lt(t.bits, cpu_usage.bits) {
            seq![AlertKind::SystemCpu { usage: cpu_usage, threshold: t }]
        } else {
            Seq::empty()
        },
        None => Seq::empty(),
    }) + (match cfg.memory_threshold {
        Some(t) => if single_lt(t.bits, memory_usage.bits) {
            seq![AlertKind::SystemMemory { usage: memory_usage, threshold: t }]
        } else {
            Seq::empty()
        },
        None => Seq::empty(),
    })
}

/// The process uses more CPU than the per-process threshold.
pub open spec fn over_cpu(cfg: AlertConfig, p: ProcessInfo) -> bool {
    cfg.process_cpu_threshold matches Some(t) && single_lt(t.bits, p.cpu_percent.bits)
}

/// The process uses more memory than the per-process threshold.
pub open spec fn over_memory(cfg: AlertConfig, p: ProcessInfo) -> bool {
    cfg.process_memory_threshold matches Some(t) && p.memory_bytes > t
}

/// The alerts for one process and the PIDs alerted on afterwards: a process alerts at
/// most once over the engine's life, on CPU first, else on memory.
pub open spec fn process_step(cfg: AlertConfig, alerted: Set<u32>, p: ProcessInfo) -> (Seq<AlertKind>, Set<u32>) {
    if over_cpu(cfg, p) && !alerted.contains(p.pid) {
        (seq![AlertKind::ProcessCpu { name: p.name, pid: p.pid, usage: p.cpu_percent }], alerted.insert(p.pid))
    } else if over_memory(cfg, p) && !alerted.contains(p.pid) {
        (seq![AlertKind::ProcessMemory { name: p.name, pid: p.pid, memory_bytes: p.memory_bytes }], alerted.insert(p.pid))
    } else {
        (Seq::empty(), alerted)
    }
}

/// The per-process alerts for the processes in order, and the PIDs alerted on afterwards.
pub open spec fn process_pass(cfg: AlertConfig, alerted: Set<u32>, ps: Seq<ProcessInfo>) -> (Seq<AlertKind>, Set<u32>)
    decreases ps.len(),
{
    if ps.len() == 0 {
        (Seq::empty(), alerted)
    } else {
        let (k, s) = process_pass(cfg, alerted, ps.drop_last());
        let (k2, s2) = process_step(cfg, s, ps.last());
        (k + k2, s2)
    }
}

/// The process counts as the watched one: its name equals `name` up to ASCII case, or
/// its executable path contains `name`.
pub open spec fn is_watched(name: Seq<char>, p: ProcessInfo) -> bool {
    ||| eq_ignore_ascii_case(p.name@, name)
    ||| (p.exe matches Some(e) && occurs_in(name, e@))
}

/// The watched process is among `ps`.
pub open spec fn watched_present(name: Seq<char>, ps: Seq<ProcessInfo>) -> bool {
    exists|i: int| 0 <= i < ps.len() && is_watched(name, #[trigger] ps[i])
}

/// The watched-process alert, if its presence changed, and whether it is now seen.
pub open spec fn watch_step(cfg: AlertConfig, seen: bool, ps: Seq<ProcessInfo>) -> (Seq<AlertKind>, bool) {
    match cfg.watch_process {
        None => (Seq::empty(), seen),
        Some(w) => if watched_present(w@, ps) {
            if !seen {
                (seq![AlertKind::WatchedStarted { name: w }], true)
            } else {
                (Seq::empty(), true)
            }
        } else if seen {
            (seq![AlertKind::WatchedStopped { name: w }], false)
        } else {
            (Seq::empty(), false)
        },
    }
}

/// The kinds of the alerts, in order.
pub open spec fn kinds_of(alerts: Seq<Alert>) -> Seq<AlertKind> {
    alerts.map_values(|a: Alert| a.kind)
}

/// Alert engine.
pub struct AlertEngine {
    config: AlertConfig,
    /// PIDs already alerted on, so that a process alerts once.
    alerted_pids: HashSet<u32>,
    /// Whether the watched process was present at the last check.
    watched_process_seen: bool,
}

impl AlertEngine {
    pub closed spec fn config(&self) -> AlertConfig {
        self.config
    }

    /// The PIDs already alerted on.
    pub closed spec fn alerted(&self) -> Set<u32> {
        self.alerted_pids@
    }

    /// Whether the watched process was present at the last check.
    pub closed spec fn watched_seen(&self) -> bool {
        self.watched_process_seen
    }

    /// An engine that has alerted on nothing yet.
    pub fn new(config: AlertConfig) -> (r: Self)
        ensures
            r.config() == config,
            r.alerted() == Set::<u32>::empty(),
            !r.watched_seen(),
    {
        AlertEngine { config, alerted_pids: HashSet::new(), watched_process_seen: false }
    }

    /// Checks a system reading and its processes and returns the alerts that fire,
    /// all stamped with the current time: system CPU, system memory (`memory_usage` is
    /// the used share of memory in percent), then per-process alerts in process order,
    /// then the watched process appearing or going.
    pub fn check(&mut self, snapshot: &SystemSnapshot, memory_usage: IeeeSingle, processes: &[ProcessInfo]) -> (r: Vec<Alert>)
        ensures
            final(self).config() == old(self).config(),
            kinds_of(r@) == system_alerts(old(self).config(), snapshot.cpu.usage_percent, memory_usage)
                + process_pass(old(self).config(), old(self).alerted(), processes@).0
                + watch_step(old(self).config(), old(self).watched_seen(), processes@).0,
            final(self).alerted() == process_pass(old(self).config(), old(self).alerted(), processes@).1,
            final(self).watched_seen() == watch_step(old(self).config(), old(self).watched_seen(), processes@).1,
            forall|i: int| 0 <= i < r@.len() ==> #[trigger] r@[i].level == level_of(r@[i].kind),
            forall|i: int, j: int| 0 <= i < r@.len() && 0 <= j < r@.len() ==> #[trigger] r@[i].timestamp
                == #[trigger] r@[j].timestamp,
    {
        let now = Timestamp::now();
        let mut kinds: Vec<AlertKind> = Vec::new();
        if let Some(t) = self.config.cpu_threshold {
            if t.lt(&snapshot.cpu.usage_percent) {
                kinds.push(AlertKind::SystemCpu { usage: snapshot.cpu.usage_percent, threshold: t });
            }
        }
        if let Some(t) = self.config.memory_threshold {
            if t.lt(&memory_usage) {
                kinds.push(AlertKind::SystemMemory { usage: memory_usage, threshold: t });
            }
        }
        assert(kinds@ =~= system_alerts(self.config, snapshot.cpu.usage_percent, memory_usage));
        let ghost sys = kinds@;
        let n = processes.len();
        for i in 0..n
            invariant
                n == processes@.len(),
                self.config == old(self).config,
                self.watched_process_seen == old(self).watched_process_seen,
                kinds@ == sys + process_pass(self.config, old(self).alerted_pids@, processes@.take(i as int)).0,
                self.alerted_pids@ == process_pass(self.config, old(self).alerted_pids@, processes@.take(i as int)).1,
        {
            let p = &processes[i];
            let ghost before = kinds@;
            let ghost pre = processes@.take(i as int);
            assert(processes@.take(i + 1).drop_last() =~= pre);
            assert(processes@.take(i + 1).last() == *p);
            let mut cpu_hit = false;
            if let Some(t) = self.config.process_cpu_threshold {
                if t.lt(&p.cpu_percent) && !self.alerted_pids.contains(&p.pid) {
                    kinds.push(AlertKind::ProcessCpu { name: p.name.clone(), pid: p.pid, usage: p.cpu_percent });
                    self.alerted_pids.insert(p.pid);
                    cpu_hit = true;
                }
            }
            if !cpu_hit {
                if let Some(t) = self.config.process_memory_threshold {
                    if p.memory_bytes > t && !self.alerted_pids.contains(&p.pid) {
                        kinds.push(AlertKind::ProcessMemory { name: p.name.clone(), pid: p.pid, memory_bytes: p.memory_bytes });
                        self.alerted_pids.insert(p.pid);
                    }
                }
            }
            assert(kinds@ =~= sys + process_pass(self.config, old(self).alerted_pids@, processes@.take(i + 1)).0);
        }
        assert(processes@.take(n as int) =~= processes@);
        let ghost mid = kinds@;
        if let Some(w) = &self.config.watch_process {
            let mut found = false;
            for i in 0..n
                invariant
                    n == processes@.len(),
                    found <==> exists|j: int| 0 <= j < i && is_watched(w@, #[trigger] processes@[j]),
            {
                let p = &processes[i];
                let hit = if equal_ignoring_ascii_case(p.name.as_str(), w.as_str()) {
                    true
                } else {
                    match &p.exe {
                        Some(e) => contains_text(e.as_str(), w.as_str()),
                        None => false,
                    }
                };
                if hit {
                    found = true;
                }
            }
            if found {
                if !self.watched_process_seen {
                    kinds.push(AlertKind::WatchedStarted { name: w.clone() });
                    self.watched_process_seen = true;
                }
            } else if self.watched_process_seen {
                kinds.push(AlertKind::WatchedStopped { name: w.clone() });
                self.watched_process_seen = false;
            }
        }
        assert(kinds@ =~= mid + watch_step(self.config, old(self).watched_process_seen, processes@).0);
        let mut alerts: Vec<Alert> = Vec::new();
        let m = kinds.len();
        let mut rest = kinds;
        let ghost all = rest@;
        for i in 0..m
            invariant
                m == all.len(),
                rest@ == all.skip(i as int),
                alerts@.len() == i,
                kinds_of(alerts@) == all.take(i as int),
                forall|k: int| 0 <= k < alerts@.len() ==> #[trigger] alerts@[k].level == level_of(alerts@[k].kind),
                forall|k: int| 0 <= k < alerts@.len() ==> #[trigger] alerts@[k].timestamp == now,
        {
            let ghost k0 = rest@[0];
            assert(k0 == all[i as int]);
            let kind = rest.remove(0);
            assert(kind == k0);
            let level = level_for(&kind);
            let ghost prev = alerts@;
            let alert = Alert { level, kind, timestamp: now };
            assert(alert.kind == k0);
            alerts.push(alert);
            assert(alerts@ == prev.push(alert));
            assert(prev.len() == i);
            assert(kinds_of(alerts@) =~= kinds_of(prev).push(k0));
            assert(all.take(i + 1) =~= all.take(i as int).push(k0));
            assert(rest@ =~= all.skip(i + 1));
        }
        assert(all.take(m as int) =~= all);
        alerts
    }
}

/// The process is over a per-process threshold.
pub open spec fn over_threshold(cfg: AlertConfig, p: ProcessInfo) -> bool {
    over_cpu(cfg, p) || over_memory(cfg, p)
}

/// After a pass, every process over a threshold has been alerted on, and nothing alerted
/// on before is forgotten.
pub proof fn lemma_pass_marks(cfg: AlertConfig, alerted: Set<u32>, ps: Seq<ProcessInfo>)
    ensures
        alerted.subset_of(process_pass(cfg, alerted, ps).1),
        forall|i: int| 0 <= i < ps.len() && over_threshold(cfg, #[trigger] ps[i]) ==> process_pass(cfg, alerted, ps).1.contains(ps[i].pid),
    decreases ps.len(),
{
    if ps.len() > 0 {
        let t = ps.drop_last();
        lemma_pass_marks(cfg, alerted, t);
        let s = process_pass(cfg, alerted, t).1;
        assert forall|i: int| 0 <= i < ps.len() && over_threshold(cfg, #[trigger] ps[i]) implies process_pass(cfg, alerted, ps).1.contains(ps[i].pid) by {
            if i < ps.len() - 1 {
                assert(t[i] == ps[i]);
            }
        }
    }
}

/// A pass over processes that are all already alerted on, where over a threshold,
/// raises nothing and alerts on nothing new.
pub proof fn lemma_pass_silent(cfg: AlertConfig, alerted: Set<u32>, ps: Seq<ProcessInfo>)
    requires
        forall|i: int| 0 <= i < ps.len() && over_threshold(cfg, #[trigger] ps[i]) ==> alerted.contains(ps[i].pid),
    ensures
        process_pass(cfg, alerted, ps).0.len() == 0,
        process_pass(cfg, alerted, ps).1 == alerted,
    decreases ps.len(),
{
    if ps.len() > 0 {
        let t = ps.drop_last();
        assert forall|i: int| 0 <= i < t.len() && over_threshold(cfg, #[trigger] t[i]) implies alerted.contains(t[i].pid) by {
            assert(t[i] == ps[i]);
        }
        lemma_pass_silent(cfg, alerted, t);
        assert(over_threshold(cfg, ps[ps.len() - 1]) ==> alerted.contains(ps.last().pid));
    }
}

/// No alert spam: checking the same processes again raises no per-process alert.
pub proof fn lemma_no_repeated_process_alerts(cfg: AlertConfig, alerted: Set<u32>, ps: Seq<ProcessInfo>)
    ensures
        process_pass(cfg, process_pass(cfg, alerted, ps).1, ps).0.len() == 0,
{
    lemma_pass_marks(cfg, alerted, ps);
    lemma_pass_silent(cfg, process_pass(cfg, alerted, ps).1, ps);
}

/// The watched process is announced once per appearance: checking the same processes
/// again announces nothing.
pub proof fn lemma_watch_announces_once(cfg: AlertConfig, seen: bool, ps: Seq<ProcessInfo>)
    ensures
        watch_step(cfg, watch_step(cfg, seen, ps).1, ps).0.len() == 0,
{
}

/// The PID a per-process alert is about; the other alerts name none.
pub open spec fn alert_pid(kind: AlertKind) -> Option<u32> {
    match kind {
        AlertKind::ProcessCpu { pid, .. } => Some(pid),
        AlertKind::ProcessMemory { pid, .. } => Some(pid),
        _ => None,
    }
}

/// Some alert among `kinds` is about the process with PID `q`.
pub open spec fn alerts_on(kinds: Seq<AlertKind>, q: u32) -> bool {
    exists|j: int| 0 <= j < kinds.len() && #[trigger] alert_pid(kinds[j]) == Some(q)
}

/// A process with PID `q` among `ps` is over a per-process threshold.
pub open spec fn over_among(cfg: AlertConfig, ps: Seq<ProcessInfo>, q: u32) -> bool {
    exists|i: int| 0 <= i < ps.len() && ps[i].pid == q && #[trigger] over_threshold(cfg, ps[i])
}

/// The PIDs alerted on after checking each list of processes in `calls` in turn,
/// starting from the PIDs `alerted`.
pub open spec fn alerted_after(cfg: AlertConfig, alerted: Set<u32>, calls: Seq<Seq<ProcessInfo>>) -> Set<u32>
    decreases calls.len(),
{
    if calls.len() == 0 {
        alerted
    } else {
        process_pass(cfg, alerted_after(cfg, alerted, calls.drop_last()), calls.last()).1
    }
}

/// The per-process alerts raised by check number `k` of those checks.
pub open spec fn call_alerts(cfg: AlertConfig, alerted: Set<u32>, calls: Seq<Seq<ProcessInfo>>, k: int) -> Seq<AlertKind> {
    process_pass(cfg, alerted_after(cfg, alerted, calls.take(k)), calls[k]).0
}

/// One more check moves the PIDs alerted on as `AlertEngine::check` does: an engine made
/// by `AlertEngine::new` and then given the process lists `calls` has alerted on
/// `alerted_after(cfg, Set::empty(), calls)`, and check number `k` raises the per-process
/// alerts `call_alerts(cfg, Set::empty(), calls, k)`.
pub proof fn lemma_alerted_after_push(cfg: AlertConfig, alerted: Set<u32>, calls: Seq<Seq<ProcessInfo>>, ps: Seq<ProcessInfo>)
    ensures
        alerted_after(cfg, alerted, calls.push(ps)) == process_pass(cfg, alerted_after(cfg, alerted, calls), ps).1,
        call_alerts(cfg, alerted, calls.push(ps), calls.len() as int) == process_pass(cfg, alerted_after(cfg, alerted, calls), ps).0,
{
    assert(calls.push(ps).drop_last() =~= calls);
    assert(calls.push(ps).take(calls.len() as int) =~= calls);
}

proof fn lemma_run_prefix(cfg: AlertConfig, sets: Seq<Set<u32>>, calls: Seq<Seq<ProcessInfo>>, k: int)
    requires
        sets.len() == calls.len() + 1,
        forall|j: int| 0 <= j < calls.len() ==> sets[j + 1] == #[trigger] process_pass(cfg, sets[j], calls[j]).1,
        0 <= k <= calls.len(),
    ensures
        sets[k] == alerted_after(cfg, sets[0], calls.take(k)),
    decreases k,
{
    if k == 0 {
        assert(calls.take(0) =~= Seq::<Seq<ProcessInfo>>::empty());
    } else {
        lemma_run_prefix(cfg, sets, calls, k - 1);
        assert(calls.take(k).drop_last() =~= calls.take(k - 1));
        assert(calls.take(k).last() == calls[k - 1]);
        assert(sets[k] == process_pass(cfg, sets[k - 1], calls[k - 1]).1);
    }
}

/// A run of checks follows the run functions: where `sets[k]` are the PIDs an engine
/// has alerted on before check number `k` of the process lists `calls`, and each check
/// moves them as `AlertEngine::check` does, `sets[k]` is
/// `alerted_after(cfg, sets[0], calls.take(k))` and check number `k` raises the
/// per-process alerts `call_alerts(cfg, sets[0], calls, k)`. With `AlertEngine::new`,
/// `sets[0]` is empty.
pub proof fn lemma_run_of_checks(cfg: AlertConfig, sets: Seq<Set<u32>>, calls: Seq<Seq<ProcessInfo>>)
    requires
        sets.len() == calls.len() + 1,
        forall|k: int| 0 <= k < calls.len() ==> sets[k + 1] == #[trigger] process_pass(cfg, sets[k], calls[k]).1,
    ensures
        forall|k: int| 0 <= k <= calls.len() ==> #[trigger] sets[k] == alerted_after(cfg, sets[0], calls.take(k)),
        forall|k: int| 0 <= k < calls.len() ==> #[trigger] process_pass(cfg, sets[k], calls[k]).0 == call_alerts(cfg, sets[0], calls, k),
{
    assert forall|k: int| 0 <= k <= calls.len() implies #[trigger] sets[k] == alerted_after(cfg, sets[0], calls.take(k)) by {
        lemma_run_prefix(cfg, sets, calls, k);
    }
    assert forall|k: int| 0 <= k < calls.len() implies #[trigger] process_pass(cfg, sets[k], calls[k]).0 == call_alerts(cfg, sets[0], calls, k) by {
        lemma_run_prefix(cfg, sets, calls, k);
    }
}

/// One pass over processes: each alert is about a process over a threshold whose PID was
/// not alerted on before and is afterwards; no two alerts are about the same PID; and
/// the PIDs alerted on afterwards are those before and those of the alerts.
pub proof fn lemma_pass_alerts(cfg: AlertConfig, alerted: Set<u32>, ps: Seq<ProcessInfo>)
    ensures
        forall|j: int| 0 <= j < process_pass(cfg, alerted, ps).0.len() ==> {
            let q = #[trigger] alert_pid(process_pass(cfg, alerted, ps).0[j]);
            &&& q is Some
            &&& !alerted.contains(q.unwrap())
            &&& process_pass(cfg, alerted, ps).1.contains(q.unwrap())
            &&& over_among(cfg, ps, q.unwrap())
        },
        forall|j1: int, j2: int| 0 <= j1 < process_pass(cfg, alerted, ps).0.len() && 0 <= j2 < process_pass(cfg, alerted, ps).0.len()
            && j1 != j2 ==> #[trigger] alert_pid(process_pass(cfg, alerted, ps).0[j1]) != #[trigger] alert_pid(process_pass(cfg, alerted, ps).0[j2]),
        forall|q: u32| #[trigger] process_pass(cfg, alerted, ps).1.contains(q) <==> (alerted.contains(q) || alerts_on(process_pass(cfg, alerted, ps).0, q)),
    decreases ps.len(),
{
    if ps.len() > 0 {
        let t = ps.drop_last();
        let p = ps.last();
        lemma_pass_alerts(cfg, alerted, t);
        let (k, s1) = process_pass(cfg, alerted, t);
        let (k2, s2) = process_step(cfg, s1, p);
        let ks = k + k2;
        assert(process_pass(cfg, alerted, ps) == (ks, s2));
        assert forall|i: int| 0 <= i < t.len() implies t[i] == ps[i] by {}
        assert forall|q: u32| over_among(cfg, t, q) implies over_among(cfg, ps, q) by {
            let i = choose|i: int| 0 <= i < t.len() && t[i].pid == q && #[trigger] over_threshold(cfg, t[i]);
            assert(ps[i] == t[i]);
        }
        if k2.len() == 1 {
            assert(over_threshold(cfg, ps[ps.len() - 1]));
            assert(over_among(cfg, ps, p.pid));
        }
        assert forall|j: int| 0 <= j < ks.len() implies {
            let q = #[trigger] alert_pid(ks[j]);
            &&& q is Some
            &&& !alerted.contains(q.unwrap())
            &&& s2.contains(q.unwrap())
            &&& over_among(cfg, ps, q.unwrap())
        } by {
            if j < k.len() {
                assert(ks[j] == k[j]);
                let q = alert_pid(k[j]);
                assert(over_among(cfg, t, q.unwrap()));
            } else {
                assert(ks[j] == k2[j - k.len()]);
            }
        }
        assert forall|j1: int, j2: int| 0 <= j1 < ks.len() && 0 <= j2 < ks.len() && j1 != j2
            implies #[trigger] alert_pid(ks[j1]) != #[trigger] alert_pid(ks[j2]) by {
            if j1 < k.len() && j2 < k.len() {
                assert(ks[j1] == k[j1] && ks[j2] == k[j2]);
            } else if j1 < k.len() {
                assert(ks[j1] == k[j1]);
                assert(s1.contains(alert_pid(k[j1]).unwrap()));
            } else if j2 < k.len() {
                assert(ks[j2] == k[j2]);
                assert(s1.contains(alert_pid(k[j2]).unwrap()));
            }
        }
        assert forall|q: u32| #[trigger] s2.contains(q) <==> (alerted.contains(q) || alerts_on(ks, q)) by {
            if alerts_on(k, q) {
                let j = choose|j: int| 0 <= j < k.len() && #[trigger] alert_pid(k[j]) == Some(q);
                assert(ks[j] == k[j]);
            }
            if alerts_on(ks, q) {
                let j = choose|j: int| 0 <= j < ks.len() && #[trigger] alert_pid(ks[j]) == Some(q);
                if j < k.len() {
                    assert(ks[j] == k[j]);
                } else {
                    assert(ks[j] == k2[j - k.len()]);
                }
            }
            if k2.len() == 1 && q == p.pid {
                assert(ks[k.len() as int] == k2[0]);
                assert(alert_pid(ks[k.len() as int]) == Some(q));
            }
        }
    }
}

/// After checking `calls` in turn from the PIDs `alerted`, a PID has been alerted on
/// exactly when it was before, or some check saw a process with that PID over a
/// threshold.
pub proof fn lemma_alerted_after(cfg: AlertConfig, alerted: Set<u32>, calls: Seq<Seq<ProcessInfo>>, q: u32)
    ensures
        alerted_after(cfg, alerted, calls).contains(q) <==> (alerted.contains(q)
            || exists|k: int| 0 <= k < calls.len() && over_among(cfg, #[trigger] calls[k], q)),
    decreases calls.len(),
{
    if calls.len() > 0 {
        let t = calls.drop_last();
        let ps = calls.last();
        lemma_alerted_after(cfg, alerted, t, q);
        let s = alerted_after(cfg, alerted, t);
        lemma_pass_alerts(cfg, s, ps);
        lemma_pass_marks(cfg, s, ps);
        let s2 = process_pass(cfg, s, ps).1;
        if alerts_on(process_pass(cfg, s, ps).0, q) {
            let j = choose|j: int| 0 <= j < process_pass(cfg, s, ps).0.len() && #[trigger] alert_pid(process_pass(cfg, s, ps).0[j]) == Some(q);
            assert(over_among(cfg, ps, q));
        }
        if over_among(cfg, ps, q) {
            let i = choose|i: int| 0 <= i < ps.len() && ps[i].pid == q && #[trigger] over_threshold(cfg, ps[i]);
            assert(s2.contains(ps[i].pid));
        }
        assert(s2.contains(q) <==> (s.contains(q) || over_among(cfg, ps, q)));
        if exists|k: int| 0 <= k < calls.len() && over_among(cfg, #[trigger] calls[k], q) {
            let k = choose|k: int| 0 <= k < calls.len() && over_among(cfg, #[trigger] calls[k], q);
            if k < t.len() {
                assert(t[k] == calls[k]);
            } else {
                assert(calls[k] == ps);
            }
        }
        if exists|k: int| 0 <= k < t.len() && over_among(cfg, #[trigger] t[k], q) {
            let k = choose|k: int| 0 <= k < t.len() && over_among(cfg, #[trigger] t[k], q);
            assert(t[k] == calls[k]);
        }
        if over_among(cfg, ps, q) {
            assert(calls[calls.len() - 1] == ps);
        }
    }
}

/// Per-process alerts come at the first excess: over any run of checks, check number
/// `k` alerts on a PID not alerted on before the run exactly when a process with that
/// PID is over a threshold in that check and in none before it.
pub proof fn lemma_alert_at_first_excess(cfg: AlertConfig, alerted: Set<u32>, calls: Seq<Seq<ProcessInfo>>, k: int, q: u32)
    requires
        0 <= k < calls.len(),
        !alerted.contains(q),
    ensures
        alerts_on(call_alerts(cfg, alerted, calls, k), q) <==> {
            &&& over_among(cfg, calls[k], q)
            &&& forall|k2: int| 0 <= k2 < k ==> !over_among(cfg, #[trigger] calls[k2], q)
        },
{
    let pre = calls.take(k);
    let s = alerted_after(cfg, alerted, pre);
    let ps = calls[k];
    lemma_alerted_after(cfg, alerted, pre, q);
    lemma_pass_alerts(cfg, s, ps);
    lemma_pass_marks(cfg, s, ps);
    let ks = process_pass(cfg, s, ps).0;
    assert forall|k2: int| 0 <= k2 < k implies pre[k2] == calls[k2] by {}
    if exists|k2: int| 0 <= k2 < k && over_among(cfg, #[trigger] calls[k2], q) {
        let k2 = choose|k2: int| 0 <= k2 < k && over_among(cfg, #[trigger] calls[k2], q);
        assert(over_among(cfg, pre[k2], q));
    }
    if exists|k2: int| 0 <= k2 < pre.len() && over_among(cfg, #[trigger] pre[k2], q) {
        let k2 = choose|k2: int| 0 <= k2 < pre.len() && over_among(cfg, #[trigger] pre[k2], q);
        assert(over_among(cfg, calls[k2], q));
    }
    assert(s.contains(q) <==> exists|k2: int| 0 <= k2 < k && over_among(cfg, #[trigger] calls[k2], q));
    if alerts_on(ks, q) {
        let j = choose|j: int| 0 <= j < ks.len() && #[trigger] alert_pid(ks[j]) == Some(q);
        assert(!s.contains(q));
    }
    if over_among(cfg, ps, q) && !s.contains(q) {
        let i = choose|i: int| 0 <= i < ps.len() && ps[i].pid == q && #[trigger] over_threshold(cfg, ps[i]);
        assert(process_pass(cfg, s, ps).1.contains(ps[i].pid));
    }
}

/// No alert spam over any run of checks: a PID gets at most one per-process alert over
/// all of them, and none at all if it was alerted on before the run.
pub proof fn lemma_alerts_once_per_pid(
    cfg: AlertConfig,
    alerted: Set<u32>,
    calls: Seq<Seq<ProcessInfo>>,
    k1: int,
    j1: int,
    k2: int,
    j2: int,
)
    requires
        0 <= k1 < calls.len(),
        0 <= k2 < calls.len(),
        0 <= j1 < call_alerts(cfg, alerted, calls, k1).len(),
        0 <= j2 < call_alerts(cfg, alerted, calls, k2).len(),
        alert_pid(call_alerts(cfg, alerted, calls, k1)[j1]) == alert_pid(call_alerts(cfg, alerted, calls, k2)[j2]),
    ensures
        k1 == k2,
        j1 == j2,
        !alerted.contains(alert_pid(call_alerts(cfg, alerted, calls, k1)[j1]).unwrap()),
{
    let ks1 = call_alerts(cfg, alerted, calls, k1);
    let ks2 = call_alerts(cfg, alerted, calls, k2);
    let s1 = alerted_after(cfg, alerted, calls.take(k1));
    lemma_pass_alerts(cfg, s1, calls[k1]);
    let q = alert_pid(ks1[j1]).unwrap();
    assert(alert_pid(ks1[j1]) == Some(q));
    lemma_alerted_after(cfg, alerted, calls.take(k1), q);
    assert(!alerted.contains(q));
    assert(alerts_on(ks1, q));
    assert(alerts_on(ks2, q));
    lemma_alert_at_first_excess(cfg, alerted, calls, k1, q);
    lemma_alert_at_first_excess(cfg, alerted, calls, k2, q);
    if k1 < k2 {
        assert(!over_among(cfg, calls[k1], q));
    }
    if k2 < k1 {
        assert(!over_among(cfg, calls[k2], q));
    }
}

/// The alerts of one check that are about processes are those of its process pass:
/// the system and watched-process alerts name no PID.
pub proof fn lemma_check_process_alerts(
    cfg: AlertConfig,
    alerted: Set<u32>,
    seen: bool,
    cpu_usage: IeeeSingle,
    memory_usage: IeeeSingle,
    ps: Seq<ProcessInfo>,
    q: u32,
)
    ensures
        alerts_on(system_alerts(cfg, cpu_usage, memory_usage) + process_pass(cfg, alerted, ps).0
            + watch_step(cfg, seen, ps).0, q) <==> alerts_on(process_pass(cfg, alerted, ps).0, q),
{
    let a = system_alerts(cfg, cpu_usage, memory_usage);
    let b = process_pass(cfg, alerted, ps).0;
    let c = watch_step(cfg, seen, ps).0;
    let all = a + b + c;
    if alerts_on(all, q) {
        let j = choose|j: int| 0 <= j < all.len() && #[trigger] alert_pid(all[j]) == Some(q);
        if j < a.len() {
            assert(all[j] == a[j]);
        } else if j < a.len() + b.len() {
            assert(all[j] == b[j - a.len()]);
            assert(alert_pid(b[j - a.len()]) == Some(q));
        } else {
            assert(all[j] == c[j - a.len() - b.len()]);
        }
    }
    if alerts_on(b, q) {
        let j = choose|j: int| 0 <= j < b.len() && #[trigger] alert_pid(b[j]) == Some(q);
        assert(all[a.len() + j] == b[j]);
        assert(alert_pid(all[a.len() + j]) == Some(q));
    }
}

/// The system alerts are independent of each other: a memory alert with the reading and
/// threshold fires exactly when a memory threshold is set and the memory usage is above
/// it, whatever the CPU threshold, and a CPU alert fires exactly when a CPU threshold is
/// set and the CPU usage is above it, whatever the memory threshold; nothing else is a
/// system alert, and the CPU alert comes first.
pub proof fn lemma_system_alerts_fire(cfg: AlertConfig, cpu_usage: IeeeSingle, memory_usage: IeeeSingle)
    ensures
        forall|t: IeeeSingle| #[trigger] system_alerts(cfg, cpu_usage, memory_usage).contains(
            AlertKind::SystemMemory { usage: memory_usage, threshold: t },
        ) <==> (cfg.memory_threshold == Some(t) && single_lt(t.bits, memory_usage.bits)),
        forall|t: IeeeSingle| #[trigger] system_alerts(cfg, cpu_usage, memory_usage).contains(
            AlertKind::SystemCpu { usage: cpu_usage, threshold: t },
        ) <==> (cfg.cpu_threshold == Some(t) && single_lt(t.bits, cpu_usage.bits)),
        system_alerts(cfg, cpu_usage, memory_usage).len() == (if cfg.cpu_threshold matches Some(t) && single_lt(
            t.bits,
            cpu_usage.bits,
        ) {
            1int
        } else {
            0int
        }) + (if cfg.memory_threshold matches Some(t) && single_lt(t.bits, memory_usage.bits) {
            1int
        } else {
            0int
        }),
        forall|j: int| 0 <= j < system_alerts(cfg, cpu_usage, memory_usage).len() ==> {
            let k = #[trigger] system_alerts(cfg, cpu_usage, memory_usage)[j];
            k is SystemCpu || k is SystemMemory
        },
        system_alerts(cfg, cpu_usage, memory_usage).len() == 2 ==> system_alerts(cfg, cpu_usage, memory_usage)[0] is SystemCpu,
{
    let a = system_alerts(cfg, cpu_usage, memory_usage);
    let c: Seq<AlertKind> = match cfg.cpu_threshold {
        Some(t) => if single_lt(t.bits, cpu_usage.bits) {
            seq![AlertKind::SystemCpu { usage: cpu_usage, threshold: t }]
        } else {
            Seq::empty()
        },
        None => Seq::empty(),
    };
    let m: Seq<AlertKind> = match cfg.memory_threshold {
        Some(t) => if single_lt(t.bits, memory_usage.bits) {
            seq![AlertKind::SystemMemory { usage: memory_usage, threshold: t }]
        } else {
            Seq::empty()
        },
        None => Seq::empty(),
    };
    assert(a == c + m);
    assert forall|j: int| 0 <= j < a.len() implies (#[trigger] a[j] is SystemCpu || a[j] is SystemMemory) && (j < c.len() ==> a[j] is SystemCpu) && (j >= c.len() ==> a[j] is SystemMemory) by {
        if j < c.len() {
            assert(a[j] == c[j]);
        } else {
            assert(a[j] == m[j - c.len()]);
        }
    }
    assert forall|t: IeeeSingle| #[trigger] a.contains(AlertKind::SystemMemory { usage: memory_usage, threshold: t })
        <==> (cfg.memory_threshold == Some(t) && single_lt(t.bits, memory_usage.bits)) by {
        let x = AlertKind::SystemMemory { usage: memory_usage, threshold: t };
        if a.contains(x) {
            let j = choose|j: int| 0 <= j < a.len() && a[j] == x;
            assert(a[j] is SystemMemory);
            assert(j >= c.len());
            assert(a[j] == m[j - c.len()]);
        }
        if cfg.memory_threshold == Some(t) && single_lt(t.bits, memory_usage.bits) {
            assert(a[c.len() as int] == m[0]);
        }
    }
    assert forall|t: IeeeSingle| #[trigger] a.contains(AlertKind::SystemCpu { usage: cpu_usage, threshold: t })
        <==> (cfg.cpu_threshold == Some(t) && single_lt(t.bits, cpu_usage.bits)) by {
        let x = AlertKind::SystemCpu { usage: cpu_usage, threshold: t };
        if a.contains(x) {
            let j = choose|j: int| 0 <= j < a.len() && a[j] == x;
            assert(a[j] is SystemCpu);
            assert(j < c.len());
            assert(a[j] == c[j]);
        }
        if cfg.cpu_threshold == Some(t) && single_lt(t.bits, cpu_usage.bits) {
            assert(a[0] == c[0]);
        }
    }
}

/// Every per-process alert of a pass reports a process of the pass, by name, PID and the
/// reading that is strictly above its threshold: a CPU alert the CPU share, above the
/// per-process CPU threshold; a memory alert the memory, above the per-process memory
/// threshold, for a process whose CPU share is not above the CPU threshold (CPU is
/// reported first). And a process whose PID has not been alerted on, with a reading
/// strictly above a threshold, is alerted on.
pub proof fn lemma_process_alerts_report_excess(cfg: AlertConfig, alerted: Set<u32>, ps: Seq<ProcessInfo>)
    ensures
        forall|j: int| 0 <= j < process_pass(cfg, alerted, ps).0.len() ==> (
            #[trigger] process_pass(cfg, alerted, ps).0[j] matches AlertKind::ProcessCpu { name, pid, usage } ==> {
                &&& cfg.process_cpu_threshold matches Some(t) && single_lt(t.bits, usage.bits)
                &&& exists|i: int| 0 <= i < ps.len() && #[trigger] ps[i].pid == pid && ps[i].name == name && ps[i].cpu_percent == usage
            }),
        forall|j: int| 0 <= j < process_pass(cfg, alerted, ps).0.len() ==> (
            #[trigger] process_pass(cfg, alerted, ps).0[j] matches AlertKind::ProcessMemory { name, pid, memory_bytes } ==> {
                &&& cfg.process_memory_threshold matches Some(m) && memory_bytes > m
                &&& exists|i: int| 0 <= i < ps.len() && #[trigger] ps[i].pid == pid && ps[i].name == name
                    && ps[i].memory_bytes == memory_bytes
                    && !(cfg.process_cpu_threshold matches Some(t) && single_lt(t.bits, ps[i].cpu_percent.bits))
            }),
        forall|i: int| 0 <= i < ps.len() && !alerted.contains(#[trigger] ps[i].pid) && (
            (cfg.process_cpu_threshold matches Some(t) && single_lt(t.bits, ps[i].cpu_percent.bits))
            || (cfg.process_memory_threshold matches Some(m) && ps[i].memory_bytes > m))
            ==> alerts_on(process_pass(cfg, alerted, ps).0, ps[i].pid),
    decreases ps.len(),
{
    let ks = process_pass(cfg, alerted, ps).0;
    lemma_pass_alerts(cfg, alerted, ps);
    lemma_pass_marks(cfg, alerted, ps);
    assert forall|i: int| 0 <= i < ps.len() && !alerted.contains(#[trigger] ps[i].pid) && (
        (cfg.process_cpu_threshold matches Some(t) && single_lt(t.bits, ps[i].cpu_percent.bits))
        || (cfg.process_memory_threshold matches Some(m) && ps[i].memory_bytes > m))
        implies alerts_on(ks, ps[i].pid) by {
        assert(over_threshold(cfg, ps[i]));
        assert(process_pass(cfg, alerted, ps).1.contains(ps[i].pid));
    }
    if ps.len() > 0 {
        let front = ps.drop_last();
        let p = ps.last();
        lemma_process_alerts_report_excess(cfg, alerted, front);
        let (k, s1) = process_pass(cfg, alerted, front);
        let (k2, s2) = process_step(cfg, s1, p);
        assert(ks == k + k2);
        assert(ps[ps.len() - 1] == p);
        assert forall|j: int| 0 <= j < ks.len() implies (#[trigger] ks[j] matches AlertKind::ProcessCpu { name, pid, usage } ==> {
            &&& cfg.process_cpu_threshold matches Some(t) && single_lt(t.bits, usage.bits)
            &&& exists|i: int| 0 <= i < ps.len() && #[trigger] ps[i].pid == pid && ps[i].name == name && ps[i].cpu_percent == usage
        }) by {
            if j < k.len() {
                assert(ks[j] == k[j]);
                match k[j] {
                    AlertKind::ProcessCpu { name, pid, usage } => {
                        let i = choose|i: int| 0 <= i < front.len() && #[trigger] front[i].pid == pid && front[i].name == name
                            && front[i].cpu_percent == usage;
                        assert(ps[i] == front[i]);
                    },
                    _ => {},
                }
            } else {
                assert(ks[j] == k2[j - k.len()]);
            }
        }
        assert forall|j: int| 0 <= j < ks.len() implies (#[trigger] ks[j] matches AlertKind::ProcessMemory { name, pid, memory_bytes } ==> {
            &&& cfg.process_memory_threshold matches Some(m) && memory_bytes > m
            &&& exists|i: int| 0 <= i < ps.len() && #[trigger] ps[i].pid == pid && ps[i].name == name
                && ps[i].memory_bytes == memory_bytes
                && !(cfg.process_cpu_threshold matches Some(t) && single_lt(t.bits, ps[i].cpu_percent.bits))
        }) by {
            if j < k.len() {
                assert(ks[j] == k[j]);
                match k[j] {
                    AlertKind::ProcessMemory { name, pid, memory_bytes } => {
                        let i = choose|i: int| 0 <= i < front.len() && #[trigger] front[i].pid == pid && front[i].name == name
                            && front[i].memory_bytes == memory_bytes
                            && !(cfg.process_cpu_threshold matches Some(t) && single_lt(t.bits, front[i].cpu_percent.bits));
                        assert(ps[i] == front[i]);
                    },
                    _ => {},
                }
            } else {
                assert(ks[j] == k2[j - k.len()]);
            }
        }
    }
}

/// The watched process is announced when it appears and when it goes, and only then:
/// with a process to watch, a start alert comes exactly when it is among the processes
/// and was not seen at the last check, a stop alert exactly when it is not among them
/// and was seen, nothing else is raised, and afterwards it counts as seen exactly when
/// it is among them. Without a process to watch nothing is raised or changed.
pub proof fn lemma_watch_announces_changes(cfg: AlertConfig, seen: bool, ps: Seq<ProcessInfo>)
    ensures
        cfg.watch_process matches Some(w) ==> {
            let present = exists|i: int| 0 <= i < ps.len() && is_watched(w@, #[trigger] ps[i]);
            &&& watch_step(cfg, seen, ps).1 == present
            &&& watch_step(cfg, seen, ps).0.len() <= 1
            &&& (watch_step(cfg, seen, ps).0 == seq![AlertKind::WatchedStarted { name: w }] <==> present && !seen)
            &&& (watch_step(cfg, seen, ps).0 == seq![AlertKind::WatchedStopped { name: w }] <==> !present && seen)
            &&& (watch_step(cfg, seen, ps).0.len() == 0 <==> present == seen)
        },
        cfg.watch_process is None ==> watch_step(cfg, seen, ps) == (Seq::<AlertKind>::empty(), seen),
{
    if cfg.watch_process is Some {
        let w = cfg.watch_process->0;
        let started = seq![AlertKind::WatchedStarted { name: w }];
        let stopped = seq![AlertKind::WatchedStopped { name: w }];
        assert(started[0] != stopped[0]);
        assert(started != stopped);
        assert(started.len() == 1 && stopped.len() == 1);
    }
}

/// A name matches the watched name when the two are equal up to ASCII case, and a path
/// matches when the watched name occurs in it: the process counts as the watched one
/// exactly when its name matches or its executable path does.
pub proof fn lemma_watched_by_name_or_path(name: Seq<char>, p: ProcessInfo)
    ensures
        is_watched(name, p) <==> (eq_ignore_ascii_case(p.name@, name) || (p.exe matches Some(e) && occurs_in(name, e@))),
{
}

} // verus!
