use vstd::prelude::*;
use crate::metrics::{
    CpuMetrics, DiskMetrics, DiskProbe, LoadAverage, MemoryMetrics, NetworkInterface,
    NetworkMetrics, SystemMetrics,
};

verus! {

// ---------------------------------------------------------------------------
// The platform's system-information source, declared for the verifier.
// Values of these types are opaque here: the probe only carries them, and
// every reading is converted to plain values at the boundary below.
// ---------------------------------------------------------------------------

#[verifier::external_type_specification]
#[verifier::external_body]
pub struct ExSystem(sysinfo::System);

#[verifier::external_type_specification]
#[verifier::external_body]
pub struct ExDisks(sysinfo::Disks);

#[verifier::external_type_specification]
#[verifier::external_body]
pub struct ExNetworks(sysinfo::Networks);

#[verifier::external_type_specification]
#[verifier::external_body]
pub struct ExDisk(sysinfo::Disk);

#[verifier::external_type_specification]
#[verifier::external_body]
pub struct ExNetworkData(sysinfo::NetworkData);

/// Relies on sysinfo's `System::new_all`: a fresh source with every
/// category of counters requested.
pub assume_specification[ sysinfo::System::new_all ]() -> sysinfo::System;

/// Relies on sysinfo's `System::refresh_all`: re-reads the underlying OS
/// counters; what they read next depends on the machine, so nothing is
/// promised of the refreshed state.
pub assume_specification[ sysinfo::System::refresh_all ](s: &mut sysinfo::System);

/// Relies on sysinfo's `System::total_memory` (bytes); the value is the
/// machine's, so nothing is promised of it.
pub assume_specification[ sysinfo::System::total_memory ](s: &sysinfo::System) -> u64;

/// Relies on sysinfo's `System::used_memory` (bytes).
pub assume_specification[ sysinfo::System::used_memory ](s: &sysinfo::System) -> u64;

/// Relies on sysinfo's `System::available_memory` (bytes).
pub assume_specification[ sysinfo::System::available_memory ](s: &sysinfo::System) -> u64;

/// Relies on sysinfo's `System::total_swap` (bytes).
pub assume_specification[ sysinfo::System::total_swap ](s: &sysinfo::System) -> u64;

/// Relies on sysinfo's `System::used_swap` (bytes).
pub assume_specification[ sysinfo::System::used_swap ](s: &sysinfo::System) -> u64;

/// Relies on sysinfo's `Disks::new_with_refreshed_list`: a fresh disk list,
/// already read once.
pub assume_specification[ sysinfo::Disks::new_with_refreshed_list ]() -> sysinfo::Disks;

/// Relies on sysinfo's `Disks::refresh`: re-reads the disk list, dropping
/// disks that disappeared when the flag is set.
pub assume_specification[ sysinfo::Disks::refresh ](
    d: &mut sysinfo::Disks,
    remove_not_listed_disks: bool,
);

/// Relies on sysinfo's `Networks::new_with_refreshed_list`: a fresh
/// interface list, already read once.
pub assume_specification[ sysinfo::Networks::new_with_refreshed_list ]() -> sysinfo::Networks;

/// Relies on sysinfo's `Networks::refresh`: re-reads the interface list,
/// dropping interfaces that disappeared when the flag is set.
pub assume_specification[ sysinfo::Networks::refresh ](
    n: &mut sysinfo::Networks,
    remove_not_listed_interfaces: bool,
);

// ---------------------------------------------------------------------------
// Boundary readings, converted to plain values.
// ---------------------------------------------------------------------------

/// Relies on sysinfo's `System::cpus` and `Cpu::cpu_usage`: one usage per
/// core, in the platform's core order. The platform reports a percentage;
/// it is truncated to whole percent here, the precision this core keeps.
/// The values are the machine's, so nothing is promised of them.
#[verifier::external_body]
fn read_cpu_usages(s: &sysinfo::System) -> Vec<u64> {
    s.cpus().iter().map(|c| c.cpu_usage() as u64).collect()
}

/// Relies on sysinfo's `System::load_average`: the three platform load
/// averages, carried through untouched as their IEEE-754 bit patterns.
#[verifier::external_body]
fn read_load_average() -> LoadAverage {
    let l = sysinfo::System::load_average();
    LoadAverage {
        one_min_bits: l.one.to_bits(),
        five_min_bits: l.five.to_bits(),
        fifteen_min_bits: l.fifteen.to_bits(),
    }
}

/// Relies on sysinfo's `Disks::list` and the `Disk` readers `name`,
/// `mount_point`, `file_system`, `total_space` and `available_space`: one
/// raw record per listed disk, in list order, names read lossily as text.
#[verifier::external_body]
fn read_disk_probes(d: &sysinfo::Disks) -> Vec<DiskProbe> {
    d.list()
        .iter()
        .map(|disk| DiskProbe {
            name: disk.name().to_string_lossy().to_string(),
            mount_point: disk.mount_point().to_string_lossy().to_string(),
            file_system: disk.file_system().to_string_lossy().to_string(),
            total_space_bytes: disk.total_space(),
            available_space_bytes: disk.available_space(),
        })
        .collect()
}

/// Relies on sysinfo's `Networks::list` and the `NetworkData` readers
/// `total_received`, `total_transmitted`, `packets_received`,
/// `packets_transmitted`, `errors_on_received` and `errors_on_transmitted`:
/// one record per interface; the platform's map fixes no order.
#[verifier::external_body]
fn read_network_interfaces(n: &sysinfo::Networks) -> Vec<NetworkInterface> {
    n.list()
        .iter()
        .map(|(name, data)| NetworkInterface {
            name: name.clone(),
            bytes_received: data.total_received(),
            bytes_transmitted: data.total_transmitted(),
            packets_received: data.packets_received(),
            packets_transmitted: data.packets_transmitted(),
            errors_on_received: data.errors_on_received(),
            errors_on_transmitted: data.errors_on_transmitted(),
        })
        .collect()
}

// ---------------------------------------------------------------------------
// The probe adapter: refresh, then pure reads.
// ---------------------------------------------------------------------------

/// Owns the platform's counter sources exclusively; the only mutable state
/// of the core is the cached readings behind `refresh`.
pub struct MetricsCollector {
    system: sysinfo::System,
    disks: sysinfo::Disks,
    networks: sysinfo::Networks,
}

impl MetricsCollector {
    /// A collector with every counter source initialized and read once.
    pub fn new() -> MetricsCollector {
        let mut system = sysinfo::System::new_all();
        system.refresh_all();
        let disks = sysinfo::Disks::new_with_refreshed_list();
        let networks = sysinfo::Networks::new_with_refreshed_list();
        MetricsCollector { system, disks, networks }
    }

    /// Re-reads every underlying OS counter; called before each tick's
    /// reads so that no reading is stale.
    fn refresh(&mut self) {
        self.system.refresh_all();
        self.disks.refresh(true);
        self.networks.refresh(true);
    }

    /// One full, well-formed snapshot of the machine: refresh, timestamp,
    /// then normalize every reading. Total: whatever the platform reports,
    /// a snapshot is produced and every derived field obeys its formula.
    pub fn collect(&mut self) -> (r: SystemMetrics)
        ensures
            r@.wf(),
    {
        self.refresh();
        let timestamp_millis = crate::clock::now_timestamp_millis();
        SystemMetrics {
            timestamp_millis,
            cpu: self.collect_cpu_metrics(),
            memory: self.collect_memory_metrics(),
            disk: self.collect_disk_metrics(),
            network: self.collect_network_metrics(),
        }
    }

    /// CPU metrics from the cores' usages as last refreshed.
    pub fn collect_cpu_metrics(&self) -> (r: CpuMetrics)
        ensures
            r@.wf(),
    {
        let usages = read_cpu_usages(&self.system);
        CpuMetrics::from_cores(&usages, read_load_average())
    }

    /// Memory metrics as last refreshed.
    pub fn collect_memory_metrics(&self) -> (r: MemoryMetrics)
        ensures
            r.wf(),
    {
        MemoryMetrics::from_probe(
            self.system.total_memory(),
            self.system.used_memory(),
            self.system.available_memory(),
            self.system.total_swap(),
            self.system.used_swap(),
        )
    }

    /// Disk metrics as last refreshed; an inconsistent disk record is
    /// skipped rather than aborting the snapshot.
    pub fn collect_disk_metrics(&self) -> (r: DiskMetrics)
        ensures
            r@.wf(),
    {
        DiskMetrics::from_probes(read_disk_probes(&self.disks))
    }

    /// Network metrics as last refreshed, totals recomputed from the
    /// interface counters.
    pub fn collect_network_metrics(&self) -> (r: NetworkMetrics)
        ensures
            r@.wf(),
    {
        NetworkMetrics::from_interfaces(read_network_interfaces(&self.networks))
    }
}

} // verus!
