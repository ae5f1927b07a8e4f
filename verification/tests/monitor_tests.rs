use sysmon::collector::MetricsCollector;
use sysmon::metrics::{
    CpuMetrics, DiskMetrics, DiskProbe, LoadAverage, MemoryMetrics, NetworkMetrics,
    SystemMetrics,
};
use sysmon::monitor::{completed_ticks, evaluate_alerts, Alert, MonitorPhase, Scheduler,
    SystemMonitor};
use sysmon::percent::Percent;

fn snapshot(cpu_usage: Percent, mem_total: u64, mem_used: u64, disks: Vec<DiskProbe>)
    -> SystemMetrics
{
    let mut s = SystemMetrics::new();
    s.cpu = CpuMetrics::from_cores(
        &vec![],
        LoadAverage { one_min_bits: 0, five_min_bits: 0, fifteen_min_bits: 0 },
    );
    s.cpu.usage_percent = cpu_usage;
    s.memory = MemoryMetrics::from_probe(mem_total, mem_used, 0, 0, 0);
    s.disk = DiskMetrics::from_probes(disks);
    s.network = NetworkMetrics::from_interfaces(vec![]);
    s
}

fn disk(name: &str, total: u64, available: u64) -> DiskProbe {
    DiskProbe {
        name: name.to_string(),
        mount_point: format!("/{}", name),
        file_system: "xfs".to_string(),
        total_space_bytes: total,
        available_space_bytes: available,
    }
}

#[test]
fn cpu_alert_fires_above_eighty() {
    // 81.0 percent.
    let s = snapshot(Percent { num: 810, den: 10 }, 0, 0, vec![]);
    let alerts = evaluate_alerts(&s);
    assert_eq!(alerts.len(), 1);
    assert!(matches!(alerts[0], Alert::Cpu { .. }));
}

#[test]
fn cpu_alert_silent_below_eighty() {
    // 79.9 percent.
    let s = snapshot(Percent { num: 799, den: 10 }, 0, 0, vec![]);
    assert_eq!(evaluate_alerts(&s).len(), 0);
}

#[test]
fn cpu_alert_silent_at_boundary() {
    // Exactly 80.0 percent: strict comparison, no alert.
    let s = snapshot(Percent { num: 800, den: 10 }, 0, 0, vec![]);
    assert_eq!(evaluate_alerts(&s).len(), 0);
}

#[test]
fn memory_alert_boundary() {
    // 850 of 1000 bytes: exactly 85 percent, no alert.
    let s = snapshot(Percent { num: 0, den: 1 }, 1000, 850, vec![]);
    assert_eq!(evaluate_alerts(&s).len(), 0);
    // 851 of 1000 bytes: above the boundary, the alert fires.
    let s = snapshot(Percent { num: 0, den: 1 }, 1000, 851, vec![]);
    let alerts = evaluate_alerts(&s);
    assert_eq!(alerts.len(), 1);
    assert!(matches!(alerts[0], Alert::Memory { .. }));
}

#[test]
fn alerts_come_in_evaluation_order() {
    // CPU 81%, memory 86%, one quiet disk, two disks above 90%.
    let s = snapshot(
        Percent { num: 810, den: 10 },
        1000,
        860,
        vec![disk("quiet", 100, 50), disk("full1", 100, 9), disk("full2", 100, 8)],
    );
    let alerts = evaluate_alerts(&s);
    assert_eq!(alerts.len(), 4);
    assert!(matches!(alerts[0], Alert::Cpu { .. }));
    assert!(matches!(alerts[1], Alert::Memory { .. }));
    match &alerts[2] {
        Alert::Disk { name, usage_percent } => {
            assert_eq!(name, "full1");
            assert_eq!(*usage_percent, Percent { num: 9100, den: 100 });
        }
        other => panic!("expected a disk alert, got {:?}", other),
    }
    match &alerts[3] {
        Alert::Disk { name, .. } => assert_eq!(name, "full2"),
        other => panic!("expected a disk alert, got {:?}", other),
    }
}

#[test]
fn disk_alert_boundary_is_strict() {
    // Exactly 90 percent used: no alert.
    let s = snapshot(Percent { num: 0, den: 1 }, 0, 0, vec![disk("d", 100, 10)]);
    assert_eq!(evaluate_alerts(&s).len(), 0);
}

#[test]
fn scheduler_counts_two_ticks_before_cancellation() {
    // Interval 100 ms, cancellation at 250 ms: ticks at ~100 and ~200 only.
    assert_eq!(completed_ticks(100, 250), 2);
    let mut sched = Scheduler::new(100);
    assert_eq!(sched.phase, MonitorPhase::Idle);
    sched.start();
    assert_eq!(sched.phase, MonitorPhase::Running);
    let mut done: u64 = 0;
    while done < completed_ticks(100, 250) {
        let tick = sched.on_tick();
        assert_eq!(tick, done + 1);
        done += 1;
    }
    sched.on_cancel();
    assert_eq!(sched.phase, MonitorPhase::Stopped);
    assert_eq!(done, 2);
    // The next tick number would have been 3; it never runs.
    assert_eq!(sched.iteration, 3);
}

#[test]
fn completed_ticks_edge_cases() {
    assert_eq!(completed_ticks(100, 99), 0);
    assert_eq!(completed_ticks(100, 100), 1);
    assert_eq!(completed_ticks(5000, 30_000), 6);
    assert_eq!(completed_ticks(1, 0), 0);
}

#[test]
fn live_collection_produces_well_formed_snapshot() {
    let mut collector = MetricsCollector::new();
    let s = collector.collect();
    // The derived-field formulas hold of live readings too.
    for d in &s.disk.disks {
        assert!(d.available_space_bytes <= d.total_space_bytes);
        assert_eq!(d.used_space_bytes, d.total_space_bytes - d.available_space_bytes);
    }
    let mut recv: u128 = 0;
    for i in &s.network.interfaces {
        recv += i.bytes_received as u128;
    }
    if recv <= u64::MAX as u128 {
        assert_eq!(s.network.total_bytes_received as u128, recv);
    }
    if !s.cpu.cores.is_empty() {
        assert_eq!(s.cpu.usage_percent.den, s.cpu.cores.len() as u128);
    }
}

#[test]
fn monitor_collects_single_snapshot() {
    let mut monitor = SystemMonitor::new();
    let s = monitor.collect_single_snapshot();
    let alerts = monitor.check_alerts(&s);
    // Every alert names a rule; no network alerts exist in the rule set.
    for a in &alerts {
        assert!(matches!(
            a,
            Alert::Cpu { .. } | Alert::Memory { .. } | Alert::Disk { .. }
        ));
    }
}
