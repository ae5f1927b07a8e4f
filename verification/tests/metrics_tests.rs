use sysmon::metrics::{
    CoreMetrics, DiskMetrics, DiskProbe, LoadAverage, MemoryMetrics, NetworkInterface,
    NetworkMetrics, SystemMetrics,
};
use sysmon::metrics::CpuMetrics;
use sysmon::percent::Percent;

fn load(one: u64, five: u64, fifteen: u64) -> LoadAverage {
    LoadAverage { one_min_bits: one, five_min_bits: five, fifteen_min_bits: fifteen }
}

fn probe(name: &str, total: u64, available: u64) -> DiskProbe {
    DiskProbe {
        name: name.to_string(),
        mount_point: format!("/mnt/{}", name),
        file_system: "ext4".to_string(),
        total_space_bytes: total,
        available_space_bytes: available,
    }
}

fn iface(name: &str, recv: u64, sent: u64) -> NetworkInterface {
    NetworkInterface {
        name: name.to_string(),
        bytes_received: recv,
        bytes_transmitted: sent,
        packets_received: 10,
        packets_transmitted: 20,
        errors_on_received: 0,
        errors_on_transmitted: 1,
    }
}

#[test]
fn cpu_mean_is_exact() {
    let cpu = CpuMetrics::from_cores(&vec![10, 20, 30], load(0, 0, 0));
    assert_eq!(cpu.usage_percent, Percent { num: 60, den: 3 });
    assert_eq!(cpu.cores.len(), 3);
    assert_eq!(cpu.cores[0], CoreMetrics { core_id: 0, usage_percent: 10 });
    assert_eq!(cpu.cores[1], CoreMetrics { core_id: 1, usage_percent: 20 });
    assert_eq!(cpu.cores[2], CoreMetrics { core_id: 2, usage_percent: 30 });
}

#[test]
fn cpu_mean_of_no_cores_is_zero() {
    let cpu = CpuMetrics::from_cores(&vec![], load(1, 2, 3));
    assert_eq!(cpu.usage_percent, Percent { num: 0, den: 1 });
    assert_eq!(cpu.cores.len(), 0);
    assert_eq!(cpu.load_average, load(1, 2, 3));
}

#[test]
fn memory_usage_share_is_exact() {
    let m = MemoryMetrics::from_probe(1000, 850, 150, 2000, 5);
    assert_eq!(m.usage_percent, Percent { num: 85000, den: 1000 });
    assert_eq!(m.total_bytes, 1000);
    assert_eq!(m.used_bytes, 850);
    assert_eq!(m.available_bytes, 150);
    assert_eq!(m.swap_total_bytes, 2000);
    assert_eq!(m.swap_used_bytes, 5);
}

#[test]
fn memory_usage_share_of_zero_total_is_zero() {
    let m = MemoryMetrics::from_probe(0, 0, 0, 0, 0);
    assert_eq!(m.usage_percent, Percent { num: 0, den: 1 });
}

#[test]
fn disk_used_space_is_total_minus_available() {
    let d = sysmon::metrics::DiskInfo::from_probe(probe("sda", 1000, 400));
    assert_eq!(d.used_space_bytes, 600);
    assert_eq!(d.usage_percent, Percent { num: 60000, den: 1000 });
    assert_eq!(d.name, "sda");
    assert_eq!(d.mount_point, "/mnt/sda");
    assert_eq!(d.file_system, "ext4");
}

#[test]
fn disk_usage_of_zero_total_is_zero() {
    let d = sysmon::metrics::DiskInfo::from_probe(probe("empty", 0, 0));
    assert_eq!(d.used_space_bytes, 0);
    assert_eq!(d.usage_percent, Percent { num: 0, den: 1 });
}

#[test]
fn disk_metrics_keeps_readable_entries_in_order() {
    let m = DiskMetrics::from_probes(vec![
        probe("a", 100, 40),
        probe("b", 50, 50),
        probe("c", 10, 0),
    ]);
    assert_eq!(m.disks.len(), 3);
    assert_eq!(m.disks[0].name, "a");
    assert_eq!(m.disks[0].used_space_bytes, 60);
    assert_eq!(m.disks[1].name, "b");
    assert_eq!(m.disks[1].used_space_bytes, 0);
    assert_eq!(m.disks[2].name, "c");
    assert_eq!(m.disks[2].used_space_bytes, 10);
    assert_eq!(m.total_read_bytes, 0);
    assert_eq!(m.total_written_bytes, 0);
}

#[test]
fn disk_metrics_skips_inconsistent_entry() {
    let m = DiskMetrics::from_probes(vec![
        probe("good", 100, 40),
        probe("bad", 10, 20),
        probe("tail", 8, 8),
    ]);
    assert_eq!(m.disks.len(), 2);
    assert_eq!(m.disks[0].name, "good");
    assert_eq!(m.disks[1].name, "tail");
}

#[test]
fn network_totals_are_recomputed_sums() {
    let m = NetworkMetrics::from_interfaces(vec![iface("eth0", 100, 7), iface("lo", 200, 3)]);
    assert_eq!(m.total_bytes_received, 300);
    assert_eq!(m.total_bytes_transmitted, 10);
    assert_eq!(m.interfaces.len(), 2);
    assert_eq!(m.interfaces[0].name, "eth0");
    assert_eq!(m.interfaces[1].name, "lo");
}

#[test]
fn network_totals_of_no_interfaces_are_zero() {
    let m = NetworkMetrics::from_interfaces(vec![]);
    assert_eq!(m.total_bytes_received, 0);
    assert_eq!(m.total_bytes_transmitted, 0);
}

#[test]
fn network_totals_clamp_when_sum_overflows() {
    let m = NetworkMetrics::from_interfaces(vec![
        iface("a", u64::MAX, 1),
        iface("b", 1, 2),
    ]);
    assert_eq!(m.total_bytes_received, u64::MAX);
    assert_eq!(m.total_bytes_transmitted, 3);
}

#[test]
fn empty_snapshot_is_empty_and_timestamped() {
    let s = SystemMetrics::new();
    assert_eq!(s.cpu.cores.len(), 0);
    assert_eq!(s.cpu.usage_percent, Percent { num: 0, den: 1 });
    assert_eq!(s.memory.total_bytes, 0);
    assert_eq!(s.disk.disks.len(), 0);
    assert_eq!(s.network.interfaces.len(), 0);
    // 2020-01-01T00:00:00Z in milliseconds: the clock reads the real time.
    assert!(s.timestamp_millis > 1_577_836_800_000);
}

#[test]
fn percent_exceeds_is_strict() {
    assert!(!Percent { num: 800, den: 10 }.exceeds(80));
    assert!(Percent { num: 801, den: 10 }.exceeds(80));
    assert!(!Percent { num: 799, den: 10 }.exceeds(80));
}

#[test]
fn cpu_mean_keeps_fractions_exactly() {
    // The mean of 10 and 21 is 15.5: the ratio keeps it exact.
    let cpu = CpuMetrics::from_cores(&vec![10, 21], load(0, 0, 0));
    assert_eq!(cpu.usage_percent, Percent { num: 31, den: 2 });
}

#[test]
fn memory_share_handles_extreme_counters() {
    let m = MemoryMetrics::from_probe(u64::MAX, u64::MAX, 0, 0, 0);
    assert_eq!(
        m.usage_percent,
        Percent { num: 100u128 * (u64::MAX as u128), den: u64::MAX as u128 }
    );
    assert!(m.usage_percent.exceeds(85));
}
