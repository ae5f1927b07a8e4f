use sysmon::metrics::{
    CoreMetrics, CpuMetrics, DiskInfo, DiskMetrics, DiskProbe, LoadAverage, MemoryMetrics,
    NetworkInterface, NetworkMetrics, SystemMetrics,
};
use sysmon::percent::Percent;

fn sample_snapshot() -> SystemMetrics {
    let mut s = SystemMetrics::new();
    s.timestamp_millis = 1_700_000_000_123;
    s.cpu = CpuMetrics::from_cores(
        &vec![15, 97, 3],
        LoadAverage {
            one_min_bits: 0x3FE0_0000_0000_0000,
            five_min_bits: 42,
            fifteen_min_bits: u64::MAX,
        },
    );
    s.memory = MemoryMetrics::from_probe(16_000_000_000, 9_500_000_000, 6_000_000_000, 2_000, 1);
    s.disk = DiskMetrics::from_probes(vec![
        DiskProbe {
            name: "nvme0n1p2 — système".to_string(),
            mount_point: "/".to_string(),
            file_system: "btrfs".to_string(),
            total_space_bytes: 512_000_000_000,
            available_space_bytes: 100_000_000_000,
        },
        DiskProbe {
            name: "".to_string(),
            mount_point: "/empty name".to_string(),
            file_system: "vfat".to_string(),
            total_space_bytes: 0,
            available_space_bytes: 0,
        },
    ]);
    s.network = NetworkMetrics::from_interfaces(vec![NetworkInterface {
        name: "eth0".to_string(),
        bytes_received: u64::MAX,
        bytes_transmitted: 1,
        packets_received: 2,
        packets_transmitted: 3,
        errors_on_received: 4,
        errors_on_transmitted: 5,
    }]);
    s
}

fn assert_snapshots_equal(a: &SystemMetrics, b: &SystemMetrics) {
    assert_eq!(a.timestamp_millis, b.timestamp_millis);
    assert_eq!(a.cpu.usage_percent, b.cpu.usage_percent);
    assert_eq!(a.cpu.cores, b.cpu.cores);
    assert_eq!(a.cpu.load_average, b.cpu.load_average);
    assert_eq!(a.memory, b.memory);
    assert_eq!(a.disk.total_read_bytes, b.disk.total_read_bytes);
    assert_eq!(a.disk.total_written_bytes, b.disk.total_written_bytes);
    assert_eq!(a.disk.disks.len(), b.disk.disks.len());
    for (x, y) in a.disk.disks.iter().zip(b.disk.disks.iter()) {
        assert_eq!(x.name, y.name);
        assert_eq!(x.mount_point, y.mount_point);
        assert_eq!(x.file_system, y.file_system);
        assert_eq!(x.total_space_bytes, y.total_space_bytes);
        assert_eq!(x.available_space_bytes, y.available_space_bytes);
        assert_eq!(x.used_space_bytes, y.used_space_bytes);
        assert_eq!(x.usage_percent, y.usage_percent);
    }
    assert_eq!(a.network.total_bytes_received, b.network.total_bytes_received);
    assert_eq!(a.network.total_bytes_transmitted, b.network.total_bytes_transmitted);
    assert_eq!(a.network.interfaces.len(), b.network.interfaces.len());
    for (x, y) in a.network.interfaces.iter().zip(b.network.interfaces.iter()) {
        assert_eq!(x.name, y.name);
        assert_eq!(x.bytes_received, y.bytes_received);
        assert_eq!(x.bytes_transmitted, y.bytes_transmitted);
        assert_eq!(x.packets_received, y.packets_received);
        assert_eq!(x.packets_transmitted, y.packets_transmitted);
        assert_eq!(x.errors_on_received, y.errors_on_received);
        assert_eq!(x.errors_on_transmitted, y.errors_on_transmitted);
    }
}

#[test]
fn round_trip_is_field_for_field_identity() {
    let s = sample_snapshot();
    let words = s.encode();
    let back = SystemMetrics::decode(&words).expect("a well-formed record decodes");
    assert_snapshots_equal(&s, &back);
}

#[test]
fn round_trip_of_empty_snapshot() {
    let mut s = SystemMetrics::new();
    s.timestamp_millis = -1;
    let words = s.encode();
    let back = SystemMetrics::decode(&words).expect("a well-formed record decodes");
    assert_snapshots_equal(&s, &back);
}

#[test]
fn round_trip_of_live_snapshot() {
    let mut collector = sysmon::collector::MetricsCollector::new();
    let s = collector.collect();
    let words = s.encode();
    let back = SystemMetrics::decode(&words).expect("a well-formed record decodes");
    assert_snapshots_equal(&s, &back);
}

#[test]
fn decode_rejects_truncated_record() {
    let s = sample_snapshot();
    let mut words = s.encode();
    words.pop();
    assert!(SystemMetrics::decode(&words).is_none());
}

#[test]
fn decode_rejects_trailing_garbage() {
    let s = sample_snapshot();
    let mut words = s.encode();
    words.push(0);
    assert!(SystemMetrics::decode(&words).is_none());
}

#[test]
fn decode_rejects_empty_input() {
    assert!(SystemMetrics::decode(&vec![]).is_none());
}

#[test]
fn different_snapshots_encode_differently() {
    let a = sample_snapshot();
    let mut b = sample_snapshot();
    b.memory.used_bytes += 1;
    assert_ne!(a.encode(), b.encode());
}

#[test]
fn core_encoding_is_two_words_per_core() {
    let a = CpuMetrics::from_cores(
        &vec![1, 2],
        LoadAverage { one_min_bits: 0, five_min_bits: 0, fifteen_min_bits: 0 },
    );
    assert_eq!(a.cores, vec![
        CoreMetrics { core_id: 0, usage_percent: 1 },
        CoreMetrics { core_id: 1, usage_percent: 2 },
    ]);
    let mut s = SystemMetrics::new();
    s.cpu = a;
    let with_cores = s.encode().len();
    s.cpu = CpuMetrics::from_cores(
        &vec![],
        LoadAverage { one_min_bits: 0, five_min_bits: 0, fifteen_min_bits: 0 },
    );
    let without_cores = s.encode().len();
    assert_eq!(with_cores, without_cores + 4);
}

#[test]
fn disk_info_percent_survives_the_trip() {
    let d = DiskInfo::from_probe(DiskProbe {
        name: "sda1".to_string(),
        mount_point: "/data".to_string(),
        file_system: "ext4".to_string(),
        total_space_bytes: 10,
        available_space_bytes: 1,
    });
    assert_eq!(d.usage_percent, Percent { num: 900, den: 10 });
    let mut s = SystemMetrics::new();
    s.disk.disks.push(d);
    let back = SystemMetrics::decode(&s.encode()).expect("decodes");
    assert_eq!(back.disk.disks[0].usage_percent, Percent { num: 900, den: 10 });
    assert_eq!(back.disk.disks[0].name, "sda1");
}
