use vstd::prelude::*;
use crate::percent::Percent;

verus! {

// ---------------------------------------------------------------------------
// Data model: one immutable record per sampling tick.
// ---------------------------------------------------------------------------

/// Platform load averages. The platform reports them as binary64 values;
/// the core never interprets them, so they are carried through untouched as
/// the IEEE-754 bit patterns read from the probe.
#[derive(Clone, Copy, Debug, PartialEq, Eq, Structural)]
pub struct LoadAverage {
    pub one_min_bits: u64,
    pub five_min_bits: u64,
    pub fifteen_min_bits: u64,
}

/// One CPU core: its position in the probe's ordering and its usage in
/// whole percent.
#[derive(Clone, Copy, Debug, PartialEq, Eq, Structural)]
pub struct CoreMetrics {
    pub core_id: usize,
    pub usage_percent: u64,
}

/// CPU state at one instant: the exact mean usage over all cores, the
/// per-core usages in probe order, and the platform load averages.
#[derive(Clone, Debug)]
pub struct CpuMetrics {
    pub usage_percent: Percent,
    pub cores: Vec<CoreMetrics>,
    pub load_average: LoadAverage,
}

/// Memory state at one instant, with the usage share of total memory.
#[derive(Clone, Copy, Debug, PartialEq, Eq, Structural)]
pub struct MemoryMetrics {
    pub total_bytes: u64,
    pub used_bytes: u64,
    pub available_bytes: u64,
    pub usage_percent: Percent,
    pub swap_total_bytes: u64,
    pub swap_used_bytes: u64,
}

/// One mounted disk, with the derived used-space and usage fields.
#[derive(Clone, Debug)]
pub struct DiskInfo {
    pub name: String,
    pub mount_point: String,
    pub total_space_bytes: u64,
    pub available_space_bytes: u64,
    pub used_space_bytes: u64,
    pub usage_percent: Percent,
    pub file_system: String,
}

/// All disks of one snapshot. The probe exposes no read/write counters, so
/// the two totals are always zero; that is a documented limitation.
#[derive(Clone, Debug)]
pub struct DiskMetrics {
    pub disks: Vec<DiskInfo>,
    pub total_read_bytes: u64,
    pub total_written_bytes: u64,
}

/// One network interface, with the platform's cumulative counters.
#[derive(Clone, Debug)]
pub struct NetworkInterface {
    pub name: String,
    pub bytes_received: u64,
    pub bytes_transmitted: u64,
    pub packets_received: u64,
    pub packets_transmitted: u64,
    pub errors_on_received: u64,
    pub errors_on_transmitted: u64,
}

/// All interfaces of one snapshot, with byte totals recomputed from the
/// interface counters on every build.
#[derive(Clone, Debug)]
pub struct NetworkMetrics {
    pub interfaces: Vec<NetworkInterface>,
    pub total_bytes_received: u64,
    pub total_bytes_transmitted: u64,
}

/// The full system state at one instant, created fresh on each tick and
/// never mutated afterwards.
#[derive(Clone, Debug)]
pub struct SystemMetrics {
    pub timestamp_millis: i64,
    pub cpu: CpuMetrics,
    pub memory: MemoryMetrics,
    pub disk: DiskMetrics,
    pub network: NetworkMetrics,
}

// ---------------------------------------------------------------------------
// Raw probe records, before normalization.
// ---------------------------------------------------------------------------

/// One disk as the probe reports it, before the derived fields are computed.
#[derive(Clone, Debug)]
pub struct DiskProbe {
    pub name: String,
    pub mount_point: String,
    pub file_system: String,
    pub total_space_bytes: u64,
    pub available_space_bytes: u64,
}

// ---------------------------------------------------------------------------
// Mathematical views.
// ---------------------------------------------------------------------------

#[verifier::ext_equal]
pub struct DiskProbeV {
    pub name: Seq<char>,
    pub mount_point: Seq<char>,
    pub file_system: Seq<char>,
    pub total_space_bytes: u64,
    pub available_space_bytes: u64,
}

impl View for DiskProbe {
    type V = DiskProbeV;

    open spec fn view(&self) -> DiskProbeV {
        DiskProbeV {
            name: self.name@,
            mount_point: self.mount_point@,
            file_system: self.file_system@,
            total_space_bytes: self.total_space_bytes,
            available_space_bytes: self.available_space_bytes,
        }
    }
}

#[verifier::ext_equal]
pub struct CpuMetricsV {
    pub usage_percent: Percent,
    pub cores: Seq<CoreMetrics>,
    pub load_average: LoadAverage,
}

impl View for CpuMetrics {
    type V = CpuMetricsV;

    open spec fn view(&self) -> CpuMetricsV {
        CpuMetricsV {
            usage_percent: self.usage_percent,
            cores: self.cores@,
            load_average: self.load_average,
        }
    }
}

#[verifier::ext_equal]
pub struct DiskInfoV {
    pub name: Seq<char>,
    pub mount_point: Seq<char>,
    pub total_space_bytes: u64,
    pub available_space_bytes: u64,
    pub used_space_bytes: u64,
    pub usage_percent: Percent,
    pub file_system: Seq<char>,
}

impl View for DiskInfo {
    type V = DiskInfoV;

    open spec fn view(&self) -> DiskInfoV {
        DiskInfoV {
            name: self.name@,
            mount_point: self.mount_point@,
            total_space_bytes: self.total_space_bytes,
            available_space_bytes: self.available_space_bytes,
            used_space_bytes: self.used_space_bytes,
            usage_percent: self.usage_percent,
            file_system: self.file_system@,
        }
    }
}

#[verifier::ext_equal]
pub struct DiskMetricsV {
    pub disks: Seq<DiskInfoV>,
    pub total_read_bytes: u64,
    pub total_written_bytes: u64,
}

impl View for DiskMetrics {
    type V = DiskMetricsV;

    open spec fn view(&self) -> DiskMetricsV {
        DiskMetricsV {
            disks: self.disks@.map(|i: int, d: DiskInfo| d@),
            total_read_bytes: self.total_read_bytes,
            total_written_bytes: self.total_written_bytes,
        }
    }
}

#[verifier::ext_equal]
pub struct NetworkInterfaceV {
    pub name: Seq<char>,
    pub bytes_received: u64,
    pub bytes_transmitted: u64,
    pub packets_received: u64,
    pub packets_transmitted: u64,
    pub errors_on_received: u64,
    pub errors_on_transmitted: u64,
}

impl View for NetworkInterface {
    type V = NetworkInterfaceV;

    open spec fn view(&self) -> NetworkInterfaceV {
        NetworkInterfaceV {
            name: self.name@,
            bytes_received: self.bytes_received,
            bytes_transmitted: self.bytes_transmitted,
            packets_received: self.packets_received,
            packets_transmitted: self.packets_transmitted,
            errors_on_received: self.errors_on_received,
            errors_on_transmitted: self.errors_on_transmitted,
        }
    }
}

#[verifier::ext_equal]
pub struct NetworkMetricsV {
    pub interfaces: Seq<NetworkInterfaceV>,
    pub total_bytes_received: u64,
    pub total_bytes_transmitted: u64,
}

impl View for NetworkMetrics {
    type V = NetworkMetricsV;

    open spec fn view(&self) -> NetworkMetricsV {
        NetworkMetricsV {
            interfaces: self.interfaces@.map(|i: int, n: NetworkInterface| n@),
            total_bytes_received: self.total_bytes_received,
            total_bytes_transmitted: self.total_bytes_transmitted,
        }
    }
}

#[verifier::ext_equal]
pub struct SystemMetricsV {
    pub timestamp_millis: i64,
    pub cpu: CpuMetricsV,
    pub memory: MemoryMetrics,
    pub disk: DiskMetricsV,
    pub network: NetworkMetricsV,
}

impl View for SystemMetrics {
    type V = SystemMetricsV;

    open spec fn view(&self) -> SystemMetricsV {
        SystemMetricsV {
            timestamp_millis: self.timestamp_millis,
            cpu: self.cpu@,
            memory: self.memory,
            disk: self.disk@,
            network: self.network@,
        }
    }
}

// ---------------------------------------------------------------------------
// Sums and derived sequences.
// ---------------------------------------------------------------------------

/// The sum of a sequence of counters.
pub open spec fn sum_u64s(s: Seq<u64>) -> int
    decreases s.len(),
{
    if s.len() == 0 {
        0
    } else {
        sum_u64s(s.drop_last()) + s.last()
    }
}

/// The per-core usages of a core sequence, in order.
pub open spec fn core_usages(cores: Seq<CoreMetrics>) -> Seq<u64> {
    cores.map(|i: int, c: CoreMetrics| c.usage_percent)
}

/// The received-byte counters of an interface sequence, in order.
pub open spec fn received_counters(ifs: Seq<NetworkInterfaceV>) -> Seq<u64> {
    ifs.map(|i: int, n: NetworkInterfaceV| n.bytes_received)
}

/// The transmitted-byte counters of an interface sequence, in order.
pub open spec fn transmitted_counters(ifs: Seq<NetworkInterfaceV>) -> Seq<u64> {
    ifs.map(|i: int, n: NetworkInterfaceV| n.bytes_transmitted)
}

/// A sum clamped to what a 64-bit counter can hold.
pub open spec fn clamp_u64(x: int) -> int {
    if x > u64::MAX {
        u64::MAX as int
    } else {
        x
    }
}

/// The disk entry derived from one readable probe record.
pub open spec fn disk_info_of(p: DiskProbeV) -> DiskInfoV {
    DiskInfoV {
        name: p.name,
        mount_point: p.mount_point,
        total_space_bytes: p.total_space_bytes,
        available_space_bytes: p.available_space_bytes,
        used_space_bytes: (p.total_space_bytes - p.available_space_bytes) as u64,
        usage_percent: if p.total_space_bytes == 0 {
            Percent { num: 0, den: 1 }
        } else {
            Percent {
                num: (100 * (p.total_space_bytes - p.available_space_bytes)) as u128,
                den: p.total_space_bytes as u128,
            }
        },
        file_system: p.file_system,
    }
}

/// Whether a probe record is consistent enough to keep: an entry whose
/// available space exceeds its total is unreadable and is skipped rather
/// than aborting the snapshot.
pub open spec fn disk_probe_readable(p: DiskProbeV) -> bool {
    p.available_space_bytes <= p.total_space_bytes
}

/// The disk entries derived from a probe sequence: every readable record,
/// in probe order.
pub open spec fn disks_of(s: Seq<DiskProbeV>) -> Seq<DiskInfoV>
    decreases s.len(),
{
    if s.len() == 0 {
        Seq::empty()
    } else {
        let rest = disks_of(s.drop_last());
        if disk_probe_readable(s.last()) {
            rest.push(disk_info_of(s.last()))
        } else {
            rest
        }
    }
}

// ---------------------------------------------------------------------------
// Well-formedness: what holds of every value the library builds.
// ---------------------------------------------------------------------------

impl CpuMetricsV {
    /// The mean is exactly the sum of the core usages over their number,
    /// zero for an empty core list, and core ids are positions.
    pub open spec fn wf(self) -> bool {
        &&& self.usage_percent.wf()
        &&& if self.cores.len() == 0 {
            self.usage_percent == (Percent { num: 0, den: 1 })
        } else {
            self.usage_percent.num == sum_u64s(core_usages(self.cores))
                && self.usage_percent.den == self.cores.len()
        }
        &&& forall|i: int| 0 <= i < self.cores.len() ==> #[trigger] self.cores[i].core_id == i
    }
}

impl MemoryMetrics {
    /// The usage share is exactly `used / total` in percent, zero when
    /// `total` is zero.
    pub open spec fn wf(self) -> bool {
        &&& self.usage_percent.wf()
        &&& if self.total_bytes == 0 {
            self.usage_percent == (Percent { num: 0, den: 1 })
        } else {
            self.usage_percent.num == 100 * self.used_bytes
                && self.usage_percent.den == self.total_bytes
        }
    }
}

impl DiskInfoV {
    /// Used space is exactly total minus available, and the usage share is
    /// exactly `used / total` in percent, zero when `total` is zero.
    pub open spec fn wf(self) -> bool {
        &&& self.available_space_bytes <= self.total_space_bytes
        &&& self.used_space_bytes == self.total_space_bytes - self.available_space_bytes
        &&& self.usage_percent.wf()
        &&& if self.total_space_bytes == 0 {
            self.usage_percent == (Percent { num: 0, den: 1 })
        } else {
            self.usage_percent.num == 100 * self.used_space_bytes
                && self.usage_percent.den == self.total_space_bytes
        }
    }
}

impl DiskMetricsV {
    /// Every entry is well formed; the probe exposes no read/write
    /// counters, so those totals are zero.
    pub open spec fn wf(self) -> bool {
        &&& forall|i: int| 0 <= i < self.disks.len() ==> #[trigger] self.disks[i].wf()
        &&& self.total_read_bytes == 0
        &&& self.total_written_bytes == 0
    }
}

impl NetworkMetricsV {
    /// The totals are the sums of the interface counters, recomputed each
    /// snapshot and clamped only where a sum would not fit the counter.
    pub open spec fn wf(self) -> bool {
        &&& self.total_bytes_received == clamp_u64(sum_u64s(received_counters(self.interfaces)))
        &&& self.total_bytes_transmitted == clamp_u64(sum_u64s(transmitted_counters(self.interfaces)))
    }
}

impl SystemMetricsV {
    /// Every derived field of the snapshot obeys its defining formula.
    pub open spec fn wf(self) -> bool {
        &&& self.cpu.wf()
        &&& self.memory.wf()
        &&& self.disk.wf()
        &&& self.network.wf()
    }
}

// ---------------------------------------------------------------------------
// Builders: normalization and edge-case arithmetic.
// ---------------------------------------------------------------------------

impl CpuMetrics {
    /// Builds the per-core list (probe order, ids are positions) and the
    /// exact mean usage; the mean of no cores is zero.
    pub fn from_cores(usages: &Vec<u64>, load_average: LoadAverage) -> (r: CpuMetrics)
        ensures
            r@.wf(),
            r@.load_average == load_average,
            r@.cores.len() == usages@.len(),
            forall|i: int| 0 <= i < usages@.len() ==> #[trigger] r@.cores[i]
                == (CoreMetrics { core_id: i as usize, usage_percent: usages@[i] }),
            usages@.len() == 0 ==> r@.usage_percent == (Percent { num: 0, den: 1 }),
            usages@.len() > 0 ==> r@.usage_percent.num == sum_u64s(usages@)
                && r@.usage_percent.den == usages@.len(),
    {
        let n = usages.len();
        let mut cores: Vec<CoreMetrics> = Vec::new();
        let mut total: u128 = 0;
        let mut idx: usize = 0;
        while idx < n
            invariant
                idx <= n,
                n == usages@.len(),
                cores@.len() == idx,
                forall|i: int| 0 <= i < idx ==> #[trigger] cores@[i]
                    == (CoreMetrics { core_id: i as usize, usage_percent: usages@[i] }),
                total == sum_u64s(usages@.take(idx as int)),
                total <= idx * 0xffff_ffff_ffff_ffffu64,
            decreases n - idx,
        {
            let u = usages[idx];
            proof {
                assert(usages@.take(idx + 1).drop_last() =~= usages@.take(idx as int));
                assert(usages@.take(idx + 1).last() == usages@[idx as int]);
            }
            total = total + (u as u128);
            cores.push(CoreMetrics { core_id: idx, usage_percent: u });
            idx = idx + 1;
        }
        let usage_percent = Percent::of_mean(total, n);
        let r = CpuMetrics { usage_percent, cores, load_average };
        proof {
            assert(usages@.take(n as int) =~= usages@);
            assert(core_usages(r@.cores) =~= usages@);
        }
        r
    }
}

impl MemoryMetrics {
    /// Normalizes one memory reading; the usage share of zero total memory
    /// is zero.
    pub fn from_probe(
        total_bytes: u64,
        used_bytes: u64,
        available_bytes: u64,
        swap_total_bytes: u64,
        swap_used_bytes: u64,
    ) -> (r: MemoryMetrics)
        ensures
            r.wf(),
            r.total_bytes == total_bytes,
            r.used_bytes == used_bytes,
            r.available_bytes == available_bytes,
            r.swap_total_bytes == swap_total_bytes,
            r.swap_used_bytes == swap_used_bytes,
            total_bytes == 0 ==> r.usage_percent == (Percent { num: 0, den: 1 }),
            total_bytes > 0 ==> r.usage_percent.num == 100 * used_bytes
                && r.usage_percent.den == total_bytes,
    {
        MemoryMetrics {
            total_bytes,
            used_bytes,
            available_bytes,
            usage_percent: Percent::of_ratio(used_bytes, total_bytes),
            swap_total_bytes,
            swap_used_bytes,
        }
    }
}

impl DiskInfo {
    /// Derives the used-space and usage fields of one readable disk record.
    pub fn from_probe(p: DiskProbe) -> (r: DiskInfo)
        requires
            p.available_space_bytes <= p.total_space_bytes,
        ensures
            r@.wf(),
            r@ == disk_info_of(p@),
    {
        let used = p.total_space_bytes - p.available_space_bytes;
        DiskInfo {
            name: p.name,
            mount_point: p.mount_point,
            total_space_bytes: p.total_space_bytes,
            available_space_bytes: p.available_space_bytes,
            used_space_bytes: used,
            usage_percent: Percent::of_ratio(used, p.total_space_bytes),
            file_system: p.file_system,
        }
    }
}

impl DiskMetrics {
    /// Maps every readable probe record to a disk entry, in probe order,
    /// skipping unreadable records rather than aborting the snapshot.
    pub fn from_probes(probes: Vec<DiskProbe>) -> (r: DiskMetrics)
        ensures
            r@.wf(),
            r@.disks == disks_of(probes@.map(|i: int, p: DiskProbe| p@)),
            r.total_read_bytes == 0,
            r.total_written_bytes == 0,
    {
        let ghost pviews = probes@.map(|i: int, p: DiskProbe| p@);
        let n = probes.len();
        let mut disks: Vec<DiskInfo> = Vec::new();
        let mut idx: usize = 0;
        while idx < n
            invariant
                idx <= n,
                n == probes@.len(),
                pviews == probes@.map(|i: int, p: DiskProbe| p@),
                disks@.map(|i: int, d: DiskInfo| d@) == disks_of(pviews.take(idx as int)),
                forall|i: int| 0 <= i < disks@.len() ==> (#[trigger] disks@[i])@.wf(),
            decreases n - idx,
        {
            let p = &probes[idx];
            proof {
                assert(pviews.take(idx + 1).drop_last() =~= pviews.take(idx as int));
                assert(pviews.take(idx + 1).last() == pviews[idx as int]);
            }
            if p.available_space_bytes <= p.total_space_bytes {
                let entry = DiskInfo::from_probe(DiskProbe {
                    name: p.name.clone(),
                    mount_point: p.mount_point.clone(),
                    file_system: p.file_system.clone(),
                    total_space_bytes: p.total_space_bytes,
                    available_space_bytes: p.available_space_bytes,
                });
                disks.push(entry);
                proof {
                    assert(disks@.map(|i: int, d: DiskInfo| d@)
                        =~= disks_of(pviews.take(idx + 1)));
                }
            } else {
                proof {
                    assert(disks@.map(|i: int, d: DiskInfo| d@)
                        =~= disks_of(pviews.take(idx + 1)));
                }
            }
            idx = idx + 1;
        }
        proof {
            assert(pviews.take(n as int) =~= pviews);
        }
        DiskMetrics { disks, total_read_bytes: 0, total_written_bytes: 0 }
    }
}

impl NetworkMetrics {
    /// Keeps every interface in probe order and recomputes the byte totals
    /// as the sums of the interface counters; a sum that would not fit a
    /// 64-bit counter is clamped to the counter's maximum.
    pub fn from_interfaces(interfaces: Vec<NetworkInterface>) -> (r: NetworkMetrics)
        ensures
            r@.wf(),
            r@.interfaces == interfaces@.map(|i: int, x: NetworkInterface| x@),
            sum_u64s(received_counters(r@.interfaces)) <= u64::MAX
                ==> r.total_bytes_received == sum_u64s(received_counters(r@.interfaces)),
            sum_u64s(transmitted_counters(r@.interfaces)) <= u64::MAX
                ==> r.total_bytes_transmitted == sum_u64s(transmitted_counters(r@.interfaces)),
    {
        let ghost iviews = interfaces@.map(|i: int, x: NetworkInterface| x@);
        let n = interfaces.len();
        let mut recv: u128 = 0;
        let mut sent: u128 = 0;
        let mut idx: usize = 0;
        while idx < n
            invariant
                idx <= n,
                n == interfaces@.len(),
                iviews == interfaces@.map(|i: int, x: NetworkInterface| x@),
                recv == sum_u64s(received_counters(iviews.take(idx as int))),
                sent == sum_u64s(transmitted_counters(iviews.take(idx as int))),
                recv <= idx * 0xffff_ffff_ffff_ffffu64,
                sent <= idx * 0xffff_ffff_ffff_ffffu64,
            decreases n - idx,
        {
            let x = &interfaces[idx];
            proof {
                assert(received_counters(iviews.take(idx + 1)).drop_last()
                    =~= received_counters(iviews.take(idx as int)));
                assert(transmitted_counters(iviews.take(idx + 1)).drop_last()
                    =~= transmitted_counters(iviews.take(idx as int)));
                assert(received_counters(iviews.take(idx + 1)).last()
                    == iviews[idx as int].bytes_received);
                assert(transmitted_counters(iviews.take(idx + 1)).last()
                    == iviews[idx as int].bytes_transmitted);
            }
            recv = recv + (x.bytes_received as u128);
            sent = sent + (x.bytes_transmitted as u128);
            idx = idx + 1;
        }
        proof {
            assert(iviews.take(n as int) =~= iviews);
        }
        let total_bytes_received: u64 = if recv > 0xffff_ffff_ffff_ffffu128 {
            u64::MAX
        } else {
            recv as u64
        };
        let total_bytes_transmitted: u64 = if sent > 0xffff_ffff_ffff_ffffu128 {
            u64::MAX
        } else {
            sent as u64
        };
        NetworkMetrics { interfaces, total_bytes_received, total_bytes_transmitted }
    }
}

impl SystemMetrics {
    /// An empty snapshot, timestamped at the moment of the call: no cores,
    /// no disks, no interfaces, every counter zero and every share zero.
    pub fn new() -> (r: SystemMetrics)
        ensures
            r@.wf(),
            r@.cpu.cores.len() == 0,
            r@.disk.disks.len() == 0,
            r@.network.interfaces.len() == 0,
            r.memory.total_bytes == 0 && r.memory.used_bytes == 0
                && r.memory.available_bytes == 0 && r.memory.swap_total_bytes == 0
                && r.memory.swap_used_bytes == 0,
            r.cpu.load_average == (LoadAverage {
                one_min_bits: 0,
                five_min_bits: 0,
                fifteen_min_bits: 0,
            }),
            r.cpu.usage_percent == (Percent { num: 0, den: 1 }),
            r.network.total_bytes_received == 0 && r.network.total_bytes_transmitted == 0,
    {
        let r = SystemMetrics {
            timestamp_millis: crate::clock::now_timestamp_millis(),
            cpu: CpuMetrics::from_cores(
                &Vec::new(),
                LoadAverage { one_min_bits: 0, five_min_bits: 0, fifteen_min_bits: 0 },
            ),
            memory: MemoryMetrics::from_probe(0, 0, 0, 0, 0),
            disk: DiskMetrics::from_probes(Vec::new()),
            network: NetworkMetrics::from_interfaces(Vec::new()),
        };
        proof {
            assert(Seq::<DiskProbeV>::empty() =~= Seq::<DiskProbe>::empty().map(|i: int, p: DiskProbe| p@));
        }
        r
    }
}

} // verus!
