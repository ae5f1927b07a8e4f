use vstd::prelude::*;
use crate::collector::MetricsCollector;
use crate::metrics::{CpuMetricsV, DiskInfoV, MemoryMetrics, SystemMetrics, SystemMetricsV};
use crate::percent::Percent;

verus! {

// ---------------------------------------------------------------------------
// Alert evaluation: fixed threshold rules over one snapshot.
// ---------------------------------------------------------------------------

/// A CPU alert fires strictly above this many whole percent.
pub const CPU_ALERT_THRESHOLD: u64 = 80;

/// A memory alert fires strictly above this many whole percent.
pub const MEMORY_ALERT_THRESHOLD: u64 = 85;

/// A disk alert fires strictly above this many whole percent.
pub const DISK_ALERT_THRESHOLD: u64 = 90;

/// One threshold crossing, with the value that crossed it; disk alerts
/// carry the disk's name, once per qualifying disk.
#[derive(Clone, Debug)]
pub enum Alert {
    Cpu { usage_percent: Percent },
    Memory { usage_percent: Percent },
    Disk { name: String, usage_percent: Percent },
}

#[verifier::ext_equal]
pub enum AlertV {
    Cpu { usage_percent: Percent },
    Memory { usage_percent: Percent },
    Disk { name: Seq<char>, usage_percent: Percent },
}

impl View for Alert {
    type V = AlertV;

    open spec fn view(&self) -> AlertV {
        match self {
            Alert::Cpu { usage_percent } => AlertV::Cpu { usage_percent: *usage_percent },
            Alert::Memory { usage_percent } => AlertV::Memory { usage_percent: *usage_percent },
            Alert::Disk { name, usage_percent } => AlertV::Disk {
                name: name@,
                usage_percent: *usage_percent,
            },
        }
    }
}

/// Whether a snapshot's CPU usage strictly exceeds the CPU threshold.
pub open spec fn cpu_alert_triggered(c: CpuMetricsV) -> bool {
    c.usage_percent.num > CPU_ALERT_THRESHOLD * c.usage_percent.den
}

/// Whether a snapshot's memory usage strictly exceeds the memory threshold.
pub open spec fn memory_alert_triggered(m: MemoryMetrics) -> bool {
    m.usage_percent.num > MEMORY_ALERT_THRESHOLD * m.usage_percent.den
}

/// Whether one disk's usage strictly exceeds the disk threshold.
pub open spec fn disk_alert_triggered(d: DiskInfoV) -> bool {
    d.usage_percent.num > DISK_ALERT_THRESHOLD * d.usage_percent.den
}

/// The disk alerts of a disk sequence: one per qualifying disk, in
/// snapshot order.
pub open spec fn disk_alerts(disks: Seq<DiskInfoV>) -> Seq<AlertV>
    decreases disks.len(),
{
    if disks.len() == 0 {
        Seq::empty()
    } else {
        let rest = disk_alerts(disks.drop_last());
        if disk_alert_triggered(disks.last()) {
            rest.push(AlertV::Disk {
                name: disks.last().name,
                usage_percent: disks.last().usage_percent,
            })
        } else {
            rest
        }
    }
}

/// Every alert a snapshot raises, ordered: CPU, then memory, then one per
/// qualifying disk in snapshot order; empty when no rule triggers. Network
/// metrics raise no alert in the current rule set.
pub open spec fn alerts_of(s: SystemMetricsV) -> Seq<AlertV> {
    (if cpu_alert_triggered(s.cpu) {
        seq![AlertV::Cpu { usage_percent: s.cpu.usage_percent }]
    } else {
        Seq::empty()
    }) + (if memory_alert_triggered(s.memory) {
        seq![AlertV::Memory { usage_percent: s.memory.usage_percent }]
    } else {
        Seq::empty()
    }) + disk_alerts(s.disk.disks)
}

impl SystemMetricsV {
    /// Every usage percentage of the snapshot is a well-formed ratio; holds
    /// in particular of every well-formed snapshot.
    pub open spec fn percents_wf(self) -> bool {
        &&& self.cpu.usage_percent.wf()
        &&& self.memory.usage_percent.wf()
        &&& forall|i: int| 0 <= i < self.disk.disks.len()
            ==> (#[trigger] self.disk.disks[i]).usage_percent.wf()
    }
}

/// Every well-formed snapshot — in particular every snapshot the builders
/// produce — satisfies the alert evaluator's precondition.
pub proof fn lemma_wf_snapshot_percents(s: SystemMetricsV)
    requires
        s.wf(),
    ensures
        s.percents_wf(),
{
    assert forall|i: int| 0 <= i < s.disk.disks.len() implies (#[trigger] s.disk.disks[i])
        .usage_percent.wf() by {
        assert(s.disk.disks[i].wf());
    }
}

/// Applies the threshold rules to one snapshot and returns exactly the
/// alerts it raises, in evaluation order. Pure: no side effects, total on
/// every snapshot whose percentages are well formed.
pub fn evaluate_alerts(metrics: &SystemMetrics) -> (alerts: Vec<Alert>)
    requires
        metrics@.percents_wf(),
    ensures
        alerts@.map(|i: int, a: Alert| a@) == alerts_of(metrics@),
{
    let ghost dviews = metrics@.disk.disks;
    let mut alerts: Vec<Alert> = Vec::new();
    if metrics.cpu.usage_percent.exceeds(CPU_ALERT_THRESHOLD) {
        alerts.push(Alert::Cpu { usage_percent: metrics.cpu.usage_percent });
    }
    if metrics.memory.usage_percent.exceeds(MEMORY_ALERT_THRESHOLD) {
        alerts.push(Alert::Memory { usage_percent: metrics.memory.usage_percent });
    }
    let ghost base = alerts@.map(|i: int, a: Alert| a@);
    proof {
        assert(base =~= (if cpu_alert_triggered(metrics@.cpu) {
            seq![AlertV::Cpu { usage_percent: metrics@.cpu.usage_percent }]
        } else {
            Seq::empty()
        }) + (if memory_alert_triggered(metrics@.memory) {
            seq![AlertV::Memory { usage_percent: metrics@.memory.usage_percent }]
        } else {
            Seq::empty()
        }));
    }
    let n = metrics.disk.disks.len();
    let mut idx: usize = 0;
    while idx < n
        invariant
            idx <= n,
            n == metrics.disk.disks@.len(),
            dviews == metrics@.disk.disks,
            metrics@.percents_wf(),
            alerts@.map(|i: int, a: Alert| a@) == base + disk_alerts(dviews.take(idx as int)),
        decreases n - idx,
    {
        let d = &metrics.disk.disks[idx];
        proof {
            assert(dviews.take(idx + 1).drop_last() =~= dviews.take(idx as int));
            assert(dviews.take(idx + 1).last() == dviews[idx as int]);
            assert(dviews[idx as int] == d@);
        }
        if d.usage_percent.exceeds(DISK_ALERT_THRESHOLD) {
            alerts.push(Alert::Disk {
                name: d.name.clone(),
                usage_percent: d.usage_percent,
            });
            proof {
                assert(disk_alert_triggered(dviews.take(idx + 1).last()));
                let ghost pushed = AlertV::Disk {
                    name: dviews[idx as int].name,
                    usage_percent: dviews[idx as int].usage_percent,
                };
                assert(alerts@.last()@ == pushed);
                assert(disk_alerts(dviews.take(idx + 1))
                    =~~= disk_alerts(dviews.take(idx as int)).push(pushed));
                assert(alerts@.map(|i: int, a: Alert| a@)
                    =~~= (base + disk_alerts(dviews.take(idx as int))).push(pushed));
                assert(alerts@.map(|i: int, a: Alert| a@)
                    =~~= base + disk_alerts(dviews.take(idx + 1)));
            }
        } else {
            proof {
                assert(!disk_alert_triggered(dviews.take(idx + 1).last()));
                assert(alerts@.map(|i: int, a: Alert| a@)
                    =~~= base + disk_alerts(dviews.take(idx + 1)));
            }
        }
        idx = idx + 1;
    }
    proof {
        assert(dviews.take(n as int) =~= dviews);
        assert(alerts@.map(|i: int, a: Alert| a@) =~~= alerts_of(metrics@));
    }
    alerts
}

// ---------------------------------------------------------------------------
// The sampling loop's state machine. The waiting itself is the embedding's
// business; the decisions — when a tick counts, when the loop stops — are
// here, where they are checked.
// ---------------------------------------------------------------------------

/// The loop's phase: `Running` is entered once, on start, and left only for
/// `Stopped`, on cancellation.
#[derive(Clone, Copy, Debug, PartialEq, Eq, Structural)]
pub enum MonitorPhase {
    Idle,
    Running,
    Stopped,
}

/// The sampling loop's state: its phase, its strictly positive tick
/// interval, and the number of the next tick, counted from 1.
#[derive(Clone, Copy, Debug, PartialEq, Eq, Structural)]
pub struct Scheduler {
    pub phase: MonitorPhase,
    pub interval_ms: u64,
    pub iteration: u64,
}

impl Scheduler {
    /// The interval stays positive and the counter stays at least 1.
    pub open spec fn wf(self) -> bool {
        &&& self.interval_ms > 0
        &&& self.iteration >= 1
    }

    /// A scheduler at rest, ready to start.
    pub fn new(interval_ms: u64) -> (s: Scheduler)
        requires
            interval_ms > 0,
        ensures
            s.wf(),
            s.phase == MonitorPhase::Idle,
            s.interval_ms == interval_ms,
            s.iteration == 1,
    {
        Scheduler { phase: MonitorPhase::Idle, interval_ms, iteration: 1 }
    }

    /// Enters `Running`, with the iteration counter at 1.
    pub fn start(&mut self)
        requires
            old(self).wf(),
            old(self).phase == MonitorPhase::Idle,
        ensures
            final(self).wf(),
            final(self).phase == MonitorPhase::Running,
            final(self).interval_ms == old(self).interval_ms,
            final(self).iteration == 1,
    {
        self.phase = MonitorPhase::Running;
        self.iteration = 1;
    }

    /// One completed tick: returns its number and advances the counter.
    /// Ticks are strictly sequential; nothing else advances the counter.
    pub fn on_tick(&mut self) -> (tick: u64)
        requires
            old(self).wf(),
            old(self).phase == MonitorPhase::Running,
            old(self).iteration < u64::MAX,
        ensures
            final(self).wf(),
            final(self).phase == MonitorPhase::Running,
            final(self).interval_ms == old(self).interval_ms,
            final(self).iteration == old(self).iteration + 1,
            tick == old(self).iteration,
    {
        let tick = self.iteration;
        self.iteration = self.iteration + 1;
        tick
    }

    /// Cancellation: the loop leaves `Running` for `Stopped` and starts no
    /// further tick.
    pub fn on_cancel(&mut self)
        requires
            old(self).wf(),
            old(self).phase == MonitorPhase::Running,
        ensures
            final(self).wf(),
            final(self).phase == MonitorPhase::Stopped,
            final(self).interval_ms == old(self).interval_ms,
            final(self).iteration == old(self).iteration,
    {
        self.phase = MonitorPhase::Stopped;
    }
}

/// Whether a bounded run's wall-clock budget still allows another wait:
/// the budget is checked before each wait, strictly.
pub fn budget_allows(elapsed_ms: u64, budget_ms: u64) -> (r: bool)
    ensures
        r == (elapsed_ms < budget_ms),
{
    elapsed_ms < budget_ms
}

/// How many ticks a loop with the given interval completes before a
/// cancellation signaled at `cancel_at_ms`: one per full interval elapsed,
/// and none of a tick in flight is lost or half-done.
pub fn completed_ticks(interval_ms: u64, cancel_at_ms: u64) -> (n: u64)
    requires
        interval_ms > 0,
    ensures
        n == cancel_at_ms / interval_ms,
{
    cancel_at_ms / interval_ms
}

// ---------------------------------------------------------------------------
// The monitor: one collector, owned exclusively, and the pure evaluation.
// ---------------------------------------------------------------------------

/// One monitor instance: owns its probe adapter exclusively, so refreshes
/// of concurrent instances can never interleave.
pub struct SystemMonitor {
    collector: MetricsCollector,
}

impl SystemMonitor {
    /// A monitor with a fresh collector.
    pub fn new() -> SystemMonitor {
        SystemMonitor { collector: MetricsCollector::new() }
    }

    /// One tick's work on the data side: a fresh, well-formed snapshot.
    pub fn collect_metrics(&mut self) -> (r: SystemMetrics)
        ensures
            r@.wf(),
    {
        self.collector.collect()
    }

    /// A single snapshot outside any loop, same guarantee as a tick's.
    pub fn collect_single_snapshot(&mut self) -> (r: SystemMetrics)
        ensures
            r@.wf(),
    {
        self.collector.collect()
    }

    /// The alerts the given snapshot raises; see `evaluate_alerts`.
    pub fn check_alerts(&self, metrics: &SystemMetrics) -> (alerts: Vec<Alert>)
        requires
            metrics@.percents_wf(),
        ensures
            alerts@.map(|i: int, a: Alert| a@) == alerts_of(metrics@),
    {
        evaluate_alerts(metrics)
    }
}

} // verus!
