use vstd::prelude::*;
use vstd::string::StrSliceExecFns;
use crate::metrics::{
    CoreMetrics, CpuMetrics, CpuMetricsV, DiskInfo, DiskInfoV, DiskMetrics, DiskMetricsV,
    LoadAverage, MemoryMetrics, NetworkInterface, NetworkInterfaceV, NetworkMetrics,
    NetworkMetricsV, SystemMetrics, SystemMetricsV,
};
use crate::percent::Percent;

verus! {

// ---------------------------------------------------------------------------
// The persistence format: a snapshot as a sequence of 64-bit words. Wide
// counters take two words, a string takes its length and then one word per
// character, a list takes its length and then its elements in order. The
// format is lossless: see `lemma_snapshot_round_trip`.
// ---------------------------------------------------------------------------

/// The two words of one 128-bit counter, high half first.
pub open spec fn enc_u128(x: u128) -> Seq<u64> {
    seq![(x >> 64) as u64, x as u64]
}

/// The 128-bit counter read back from its two words.
pub open spec fn dec_u128(hi: u64, lo: u64) -> u128 {
    (((hi as u128) << 64) | (lo as u128)) as u128
}

/// Reading the two words of a counter back gives the counter.
pub proof fn lemma_u128_words(x: u128)
    ensures
        dec_u128((x >> 64) as u64, x as u64) == x,
{
    assert((((((x >> 64) as u64) as u128) << 64) | ((x as u64) as u128)) == x) by (bit_vector);
}

/// A signed timestamp is carried in one word, two's complement.
pub proof fn lemma_i64_word(x: i64)
    ensures
        (x as u64) as i64 == x,
{
    assert(((x as u64) as i64) == x) by (bit_vector);
}

/// The word carrying one character's scalar value.
pub open spec fn char_word(c: char) -> u64 {
    c as u64
}

/// Whether a word is the scalar value of some character.
pub open spec fn is_char_word(w: u64) -> bool {
    exists|c: char| char_word(c) == w
}

/// The character whose scalar value a word carries.
pub open spec fn char_of_word(w: u64) -> char {
    choose|c: char| char_word(c) == w
}

/// A character's scalar value lies in the scalar range.
pub proof fn lemma_char_scalar_range(c: char)
    ensures
        char_word(c) < 0xD800 || (0xE000 <= char_word(c) && char_word(c) <= 0x10FFFF),
{
    assert((c as int) < 0xD800 || (0xE000 <= (c as int) && (c as int) <= 0x10FFFF));
}

/// A word that is some character's scalar value lies in the scalar range.
pub proof fn lemma_char_word_range(w: u64)
    requires
        is_char_word(w),
    ensures
        w < 0xD800 || (0xE000 <= w && w <= 0x10FFFF),
{
    let c = choose|c: char| char_word(c) == w;
    lemma_char_scalar_range(c);
}

/// Reading a character's word back gives the character.
pub proof fn lemma_char_word(c: char)
    ensures
        is_char_word(char_word(c)),
        char_of_word(char_word(c)) == c,
{
    assert(char_word(c) == char_word(c));
    assert(is_char_word(char_word(c)));
    let c2 = char_of_word(char_word(c));
    assert(c2 as u64 == c as u64);
    assert(c2 == c);
}

// ---------------------------------------------------------------------------
// The encoding, word for word.
// ---------------------------------------------------------------------------

/// A string: its length, then one word per character.
pub open spec fn enc_str(s: Seq<char>) -> Seq<u64> {
    seq![s.len() as u64] + s.map(|i: int, c: char| char_word(c))
}

/// A percentage: numerator then denominator, two words each.
pub open spec fn enc_percent(p: Percent) -> Seq<u64> {
    enc_u128(p.num) + enc_u128(p.den)
}

/// The three load-average bit patterns.
pub open spec fn enc_load(l: LoadAverage) -> Seq<u64> {
    seq![l.one_min_bits, l.five_min_bits, l.fifteen_min_bits]
}

/// One core: its id and its usage.
pub open spec fn enc_core(c: CoreMetrics) -> Seq<u64> {
    seq![c.core_id as u64, c.usage_percent]
}

/// A list's elements, in order, each under its own encoding.
pub open spec fn enc_list<T>(s: Seq<T>, f: spec_fn(T) -> Seq<u64>) -> Seq<u64>
    decreases s.len(),
{
    if s.len() == 0 {
        Seq::empty()
    } else {
        f(s[0]) + enc_list(s.skip(1), f)
    }
}

/// CPU metrics: mean usage, load averages, then the counted core list.
pub open spec fn enc_cpu(c: CpuMetricsV) -> Seq<u64> {
    enc_percent(c.usage_percent) + enc_load(c.load_average) + seq![c.cores.len() as u64]
        + enc_list(c.cores, |x: CoreMetrics| enc_core(x))
}

/// Memory metrics: the five counters around the usage share.
pub open spec fn enc_memory(m: MemoryMetrics) -> Seq<u64> {
    seq![m.total_bytes, m.used_bytes, m.available_bytes] + enc_percent(m.usage_percent)
        + seq![m.swap_total_bytes, m.swap_used_bytes]
}

/// One disk entry: its three names, its three space counters, its share.
pub open spec fn enc_disk_info(d: DiskInfoV) -> Seq<u64> {
    enc_str(d.name) + enc_str(d.mount_point) + enc_str(d.file_system)
        + seq![d.total_space_bytes, d.available_space_bytes, d.used_space_bytes]
        + enc_percent(d.usage_percent)
}

/// Disk metrics: the counted disk list, then the two totals.
pub open spec fn enc_disk(d: DiskMetricsV) -> Seq<u64> {
    seq![d.disks.len() as u64] + enc_list(d.disks, |x: DiskInfoV| enc_disk_info(x))
        + seq![d.total_read_bytes, d.total_written_bytes]
}

/// One interface: its name, then its six counters.
pub open spec fn enc_iface(n: NetworkInterfaceV) -> Seq<u64> {
    enc_str(n.name) + seq![
        n.bytes_received,
        n.bytes_transmitted,
        n.packets_received,
        n.packets_transmitted,
        n.errors_on_received,
        n.errors_on_transmitted,
    ]
}

/// Network metrics: the counted interface list, then the two totals.
pub open spec fn enc_network(n: NetworkMetricsV) -> Seq<u64> {
    seq![n.interfaces.len() as u64] + enc_list(n.interfaces, |x: NetworkInterfaceV| enc_iface(x))
        + seq![n.total_bytes_received, n.total_bytes_transmitted]
}

/// A snapshot: its timestamp word, then its four components.
pub open spec fn enc_snapshot(s: SystemMetricsV) -> Seq<u64> {
    seq![s.timestamp_millis as u64] + enc_cpu(s.cpu) + enc_memory(s.memory) + enc_disk(s.disk)
        + enc_network(s.network)
}

/// The length bounds under which a snapshot's counted lists fit their
/// length words and a reader's cursors; every snapshot held in the
/// executable types obeys them.
pub open spec fn enc_wf(s: SystemMetricsV) -> bool {
    &&& s.cpu.cores.len() <= usize::MAX
    &&& s.disk.disks.len() <= usize::MAX
    &&& s.network.interfaces.len() <= usize::MAX
    &&& forall|i: int| 0 <= i < s.disk.disks.len() ==> {
        let d = #[trigger] s.disk.disks[i];
        d.name.len() <= usize::MAX && d.mount_point.len() <= usize::MAX
            && d.file_system.len() <= usize::MAX
    }
    &&& forall|i: int| 0 <= i < s.network.interfaces.len()
        ==> (#[trigger] s.network.interfaces[i]).name.len() <= usize::MAX
}

// ---------------------------------------------------------------------------
// The decoding, position by position.
// ---------------------------------------------------------------------------

/// `n` characters read from `pos` on; fails on a word that is no character.
pub open spec fn dec_chars(b: Seq<u64>, pos: int, n: int) -> Option<(Seq<char>, int)>
    decreases n,
{
    if n <= 0 {
        Some((Seq::empty(), pos))
    } else if 0 <= pos < b.len() && is_char_word(b[pos]) {
        match dec_chars(b, pos + 1, n - 1) {
            Option::None => Option::None,
            Option::Some((s, p)) => Option::Some((seq![char_of_word(b[pos])] + s, p)),
        }
    } else {
        Option::None
    }
}

/// A counted string.
pub open spec fn dec_str(b: Seq<u64>, pos: int) -> Option<(Seq<char>, int)> {
    if 0 <= pos < b.len() && b[pos] <= usize::MAX {
        dec_chars(b, pos + 1, b[pos] as int)
    } else {
        Option::None
    }
}

/// One core, two words.
pub open spec fn dec_core(b: Seq<u64>, pos: int) -> Option<(CoreMetrics, int)> {
    if 0 <= pos && pos + 2 <= b.len() && b[pos] <= usize::MAX {
        Some((CoreMetrics { core_id: b[pos] as usize, usage_percent: b[pos + 1] }, pos + 2))
    } else {
        None
    }
}

/// `n` elements read in order, each under its own decoding.
pub open spec fn dec_list<T>(
    b: Seq<u64>,
    pos: int,
    n: int,
    fd: spec_fn(Seq<u64>, int) -> Option<(T, int)>,
) -> Option<(Seq<T>, int)>
    decreases n,
{
    if n <= 0 {
        Some((Seq::empty(), pos))
    } else {
        match fd(b, pos) {
            Option::None => Option::None,
            Option::Some((x, p1)) => match dec_list(b, p1, n - 1, fd) {
                Option::None => Option::None,
                Option::Some((s, p2)) => Option::Some((seq![x] + s, p2)),
            },
        }
    }
}

/// CPU metrics, the counterpart of `enc_cpu`.
pub open spec fn dec_cpu(b: Seq<u64>, pos: int) -> Option<(CpuMetricsV, int)> {
    if 0 <= pos && pos + 8 <= b.len() && b[pos + 7] <= usize::MAX {
        let pc = Percent { num: dec_u128(b[pos], b[pos + 1]), den: dec_u128(b[pos + 2], b[pos + 3]) };
        let l = LoadAverage {
            one_min_bits: b[pos + 4],
            five_min_bits: b[pos + 5],
            fifteen_min_bits: b[pos + 6],
        };
        match dec_list(b, pos + 8, b[pos + 7] as int, |bb: Seq<u64>, q: int| dec_core(bb, q)) {
            Option::None => Option::None,
            Option::Some((cs, p)) => Option::Some(
                (CpuMetricsV { usage_percent: pc, cores: cs, load_average: l }, p),
            ),
        }
    } else {
        Option::None
    }
}

/// Memory metrics, nine words.
pub open spec fn dec_memory(b: Seq<u64>, pos: int) -> Option<(MemoryMetrics, int)> {
    if 0 <= pos && pos + 9 <= b.len() {
        Some((
            MemoryMetrics {
                total_bytes: b[pos],
                used_bytes: b[pos + 1],
                available_bytes: b[pos + 2],
                usage_percent: Percent {
                    num: dec_u128(b[pos + 3], b[pos + 4]),
                    den: dec_u128(b[pos + 5], b[pos + 6]),
                },
                swap_total_bytes: b[pos + 7],
                swap_used_bytes: b[pos + 8],
            },
            pos + 9,
        ))
    } else {
        None
    }
}

/// One disk entry, the counterpart of `enc_disk_info`.
pub open spec fn dec_disk_info(b: Seq<u64>, pos: int) -> Option<(DiskInfoV, int)> {
    match dec_str(b, pos) {
        Option::None => Option::None,
        Option::Some((name, p1)) => match dec_str(b, p1) {
            Option::None => Option::None,
            Option::Some((mount_point, p2)) => match dec_str(b, p2) {
                Option::None => Option::None,
                Option::Some((file_system, p3)) => if p3 + 7 <= b.len() {
                    Option::Some(
                        (
                            DiskInfoV {
                                name,
                                mount_point,
                                total_space_bytes: b[p3],
                                available_space_bytes: b[p3 + 1],
                                used_space_bytes: b[p3 + 2],
                                usage_percent: Percent {
                                    num: dec_u128(b[p3 + 3], b[p3 + 4]),
                                    den: dec_u128(b[p3 + 5], b[p3 + 6]),
                                },
                                file_system,
                            },
                            p3 + 7,
                        ),
                    )
                } else {
                    Option::None
                },
            },
        },
    }
}

/// Disk metrics, the counterpart of `enc_disk`.
pub open spec fn dec_disk(b: Seq<u64>, pos: int) -> Option<(DiskMetricsV, int)> {
    if 0 <= pos < b.len() && b[pos] <= usize::MAX {
        match dec_list(b, pos + 1, b[pos] as int, |bb: Seq<u64>, q: int| dec_disk_info(bb, q)) {
            Option::None => Option::None,
            Option::Some((ds, p1)) => if p1 + 2 <= b.len() {
                Option::Some(
                    (
                        DiskMetricsV {
                            disks: ds,
                            total_read_bytes: b[p1],
                            total_written_bytes: b[p1 + 1],
                        },
                        p1 + 2,
                    ),
                )
            } else {
                Option::None
            },
        }
    } else {
        Option::None
    }
}

/// One interface, the counterpart of `enc_iface`.
pub open spec fn dec_iface(b: Seq<u64>, pos: int) -> Option<(NetworkInterfaceV, int)> {
    match dec_str(b, pos) {
        Option::None => Option::None,
        Option::Some((name, p1)) => if p1 + 6 <= b.len() {
            Option::Some(
                (
                    NetworkInterfaceV {
                        name,
                        bytes_received: b[p1],
                        bytes_transmitted: b[p1 + 1],
                        packets_received: b[p1 + 2],
                        packets_transmitted: b[p1 + 3],
                        errors_on_received: b[p1 + 4],
                        errors_on_transmitted: b[p1 + 5],
                    },
                    p1 + 6,
                ),
            )
        } else {
            Option::None
        },
    }
}

/// Network metrics, the counterpart of `enc_network`.
pub open spec fn dec_network(b: Seq<u64>, pos: int) -> Option<(NetworkMetricsV, int)> {
    if 0 <= pos < b.len() && b[pos] <= usize::MAX {
        match dec_list(b, pos + 1, b[pos] as int, |bb: Seq<u64>, q: int| dec_iface(bb, q)) {
            Option::None => Option::None,
            Option::Some((ns, p1)) => if p1 + 2 <= b.len() {
                Option::Some(
                    (
                        NetworkMetricsV {
                            interfaces: ns,
                            total_bytes_received: b[p1],
                            total_bytes_transmitted: b[p1 + 1],
                        },
                        p1 + 2,
                    ),
                )
            } else {
                Option::None
            },
        }
    } else {
        Option::None
    }
}

/// A snapshot, the counterpart of `enc_snapshot`.
pub open spec fn dec_snapshot(b: Seq<u64>, pos: int) -> Option<(SystemMetricsV, int)> {
    if 0 <= pos < b.len() {
        match dec_cpu(b, pos + 1) {
            Option::None => Option::None,
            Option::Some((cpu, p1)) => match dec_memory(b, p1) {
                Option::None => Option::None,
                Option::Some((memory, p2)) => match dec_disk(b, p2) {
                    Option::None => Option::None,
                    Option::Some((disk, p3)) => match dec_network(b, p3) {
                        Option::None => Option::None,
                        Option::Some((network, p4)) => Option::Some(
                            (
                                SystemMetricsV {
                                    timestamp_millis: b[pos] as i64,
                                    cpu,
                                    memory,
                                    disk,
                                    network,
                                },
                                p4,
                            ),
                        ),
                    },
                },
            },
        }
    } else {
        Option::None
    }
}


// ---------------------------------------------------------------------------
// The round trip: decoding an encoding gives the encoded value back.
// ---------------------------------------------------------------------------

/// A subrange equal to a concatenation splits into its two parts.
proof fn lemma_concat_parts(b: Seq<u64>, pos: int, x: Seq<u64>, y: Seq<u64>)
    requires
        0 <= pos,
        pos + x.len() + y.len() <= b.len(),
        b.subrange(pos, pos + x.len() + y.len()) == x + y,
    ensures
        b.subrange(pos, pos + x.len() as int) == x,
        b.subrange(pos + x.len() as int, pos + x.len() + y.len()) == y,
{
    assert forall|k: int| 0 <= k < x.len() implies b.subrange(pos, pos + x.len() as int)[k]
        == x[k] by {
        assert(b.subrange(pos, pos + x.len() + y.len())[k] == b[pos + k]);
        assert((x + y)[k] == x[k]);
        assert(b.subrange(pos, pos + x.len() as int)[k] == b[pos + k]);
    }
    assert(b.subrange(pos, pos + x.len() as int) =~= x);
    assert forall|k: int| 0 <= k < y.len() implies b.subrange(
        pos + x.len() as int,
        pos + x.len() + y.len(),
    )[k] == y[k] by {
        assert(b.subrange(pos, pos + x.len() + y.len())[x.len() + k] == b[pos + x.len() + k]);
        assert((x + y)[x.len() + k] == y[k]);
        assert(b.subrange(pos + x.len() as int, pos + x.len() + y.len())[k] == b[
            pos + x.len() + k
        ]);
    }
    assert(b.subrange(pos + x.len() as int, pos + x.len() + y.len()) =~= y);
}

/// Appending one element extends a list's encoding by that element's.
proof fn lemma_enc_list_snoc<T>(s: Seq<T>, x: T, f: spec_fn(T) -> Seq<u64>)
    ensures
        enc_list(s.push(x), f) == enc_list(s, f) + f(x),
    decreases s.len(),
{
    if s.len() == 0 {
        assert(s.push(x)[0] == x);
        assert(s.push(x).skip(1) =~= Seq::<T>::empty());
        assert(enc_list(s.push(x).skip(1), f) == Seq::<u64>::empty());
        assert(enc_list(s.push(x), f) == f(x) + Seq::<u64>::empty());
        assert(enc_list(s, f) == Seq::<u64>::empty());
        assert(enc_list(s.push(x), f) =~= enc_list(s, f) + f(x));
    } else {
        assert(s.push(x).skip(1) =~= s.skip(1).push(x));
        lemma_enc_list_snoc(s.skip(1), x, f);
        assert(s.push(x)[0] == s[0]);
        assert(enc_list(s.push(x), f) == f(s[0]) + enc_list(s.skip(1).push(x), f));
        assert(enc_list(s.push(x), f) == f(s[0]) + (enc_list(s.skip(1), f) + f(x)));
        assert(enc_list(s, f) == f(s[0]) + enc_list(s.skip(1), f));
        assert(enc_list(s.push(x), f) =~= enc_list(s, f) + f(x));
    }
}

/// Characters written at `pos` are read back as themselves.
proof fn lemma_dec_chars_of_enc(b: Seq<u64>, pos: int, s: Seq<char>)
    requires
        0 <= pos,
        pos + s.len() <= b.len(),
        forall|j: int| 0 <= j < s.len() ==> b[pos + j] == char_word(#[trigger] s[j]),
    ensures
        dec_chars(b, pos, s.len() as int) == Some((s, pos + s.len())),
    decreases s.len(),
{
    if s.len() == 0 {
        assert(s =~= Seq::<char>::empty());
    } else {
        lemma_char_word(s[0]);
        assert(b[pos] == char_word(s[0]));
        let rest = s.skip(1);
        assert forall|j: int| 0 <= j < rest.len() implies b[pos + 1 + j] == char_word(
            #[trigger] rest[j],
        ) by {
            assert(rest[j] == s[j + 1]);
            assert(b[pos + (j + 1)] == char_word(s[j + 1]));
        }
        lemma_dec_chars_of_enc(b, pos + 1, rest);
        assert(seq![char_of_word(b[pos])] + rest =~= s);
    }
}

/// A string written at `pos` is read back as itself.
proof fn lemma_dec_str_of_enc(b: Seq<u64>, pos: int, s: Seq<char>)
    requires
        0 <= pos,
        s.len() <= usize::MAX,
        pos + 1 + s.len() <= b.len(),
        b.subrange(pos, pos + 1 + s.len()) == enc_str(s),
    ensures
        dec_str(b, pos) == Some((s, pos + 1 + s.len())),
{
    assert(b[pos] == s.len() as u64) by {
        assert(b.subrange(pos, pos + 1 + s.len())[0] == b[pos]);
        assert(enc_str(s)[0] == s.len() as u64);
    }
    assert forall|j: int| 0 <= j < s.len() implies b[pos + 1 + j] == char_word(
        #[trigger] s[j],
    ) by {
        assert(b.subrange(pos, pos + 1 + s.len())[1 + j] == b[pos + 1 + j]);
        assert(enc_str(s)[1 + j] == char_word(s[j]));
    }
    lemma_dec_chars_of_enc(b, pos + 1, s);
}

/// A list written at `pos` is read back element for element, provided each
/// element's own encoding reads back as itself wherever it stands.
proof fn lemma_dec_list_of_enc<T>(
    b: Seq<u64>,
    pos: int,
    s: Seq<T>,
    f: spec_fn(T) -> Seq<u64>,
    fd: spec_fn(Seq<u64>, int) -> Option<(T, int)>,
)
    requires
        0 <= pos,
        pos + enc_list(s, f).len() <= b.len(),
        b.subrange(pos, pos + enc_list(s, f).len()) == enc_list(s, f),
        forall|i: int, q: int|
            #![trigger fd(b, q), f(s[i])]
            0 <= i < s.len() && 0 <= q && q + f(s[i]).len() <= b.len() && b.subrange(
                q,
                q + f(s[i]).len(),
            ) == f(s[i]) ==> fd(b, q) == Some((s[i], q + f(s[i]).len())),
    ensures
        dec_list(b, pos, s.len() as int, fd) == Some((s, pos + enc_list(s, f).len())),
    decreases s.len(),
{
    if s.len() == 0 {
        assert(s =~= Seq::<T>::empty());
    } else {
        let e0 = f(s[0]);
        let rest = s.skip(1);
        let erest = enc_list(rest, f);
        assert(enc_list(s, f) == e0 + erest);
        lemma_concat_parts(b, pos, e0, erest);
        assert(fd(b, pos) == Some((s[0], pos + e0.len() as int)));
        assert forall|i: int, q: int|
            #![trigger fd(b, q), f(rest[i])]
            0 <= i < rest.len() && 0 <= q && q + f(rest[i]).len() <= b.len() && b.subrange(
                q,
                q + f(rest[i]).len(),
            ) == f(rest[i]) implies fd(b, q) == Some((rest[i], q + f(rest[i]).len())) by {
            assert(rest[i] == s[i + 1]);
            assert(fd(b, q) == Some((s[i + 1], q + f(s[i + 1]).len())));
        }
        lemma_dec_list_of_enc(b, pos + e0.len() as int, rest, f, fd);
        assert(seq![s[0]] + rest =~= s);
    }
}

/// CPU metrics written at `pos` are read back as themselves.
proof fn lemma_dec_cpu_of_enc(b: Seq<u64>, pos: int, c: CpuMetricsV)
    requires
        0 <= pos,
        c.cores.len() <= usize::MAX,
        pos + enc_cpu(c).len() <= b.len(),
        b.subrange(pos, pos + enc_cpu(c).len()) == enc_cpu(c),
    ensures
        dec_cpu(b, pos) == Some((c, pos + enc_cpu(c).len())),
{
    let fe = |x: CoreMetrics| enc_core(x);
    let fd = |bb: Seq<u64>, q: int| dec_core(bb, q);
    let w = seq![
        (c.usage_percent.num >> 64) as u64,
        c.usage_percent.num as u64,
        (c.usage_percent.den >> 64) as u64,
        c.usage_percent.den as u64,
        c.load_average.one_min_bits,
        c.load_average.five_min_bits,
        c.load_average.fifteen_min_bits,
        c.cores.len() as u64,
    ];
    let y = enc_list(c.cores, fe);
    assert(enc_cpu(c) =~= w + y);
    assert(b.subrange(pos, pos + enc_cpu(c).len()) == w + y);
    lemma_concat_parts(b, pos, w, y);
    assert(b[pos] == w[0]) by { assert(b.subrange(pos, pos + 8)[0] == b[pos]); }
    assert(b[pos + 1] == w[1]) by { assert(b.subrange(pos, pos + 8)[1] == b[pos + 1]); }
    assert(b[pos + 2] == w[2]) by { assert(b.subrange(pos, pos + 8)[2] == b[pos + 2]); }
    assert(b[pos + 3] == w[3]) by { assert(b.subrange(pos, pos + 8)[3] == b[pos + 3]); }
    assert(b[pos + 4] == w[4]) by { assert(b.subrange(pos, pos + 8)[4] == b[pos + 4]); }
    assert(b[pos + 5] == w[5]) by { assert(b.subrange(pos, pos + 8)[5] == b[pos + 5]); }
    assert(b[pos + 6] == w[6]) by { assert(b.subrange(pos, pos + 8)[6] == b[pos + 6]); }
    assert(b[pos + 7] == w[7]) by { assert(b.subrange(pos, pos + 8)[7] == b[pos + 7]); }
    lemma_u128_words(c.usage_percent.num);
    lemma_u128_words(c.usage_percent.den);
    assert forall|i: int, q: int|
        #![trigger fd(b, q), fe(c.cores[i])]
        0 <= i < c.cores.len() && 0 <= q && q + fe(c.cores[i]).len() <= b.len() && b.subrange(
            q,
            q + fe(c.cores[i]).len(),
        ) == fe(c.cores[i]) implies fd(b, q) == Some((c.cores[i], q + fe(c.cores[i]).len())) by {
        let x = c.cores[i];
        assert(b[q] == x.core_id as u64) by {
            assert(b.subrange(q, q + 2)[0] == b[q]);
            assert(fe(x)[0] == x.core_id as u64);
        }
        assert(b[q + 1] == x.usage_percent) by {
            assert(b.subrange(q, q + 2)[1] == b[q + 1]);
            assert(fe(x)[1] == x.usage_percent);
        }
    }
    lemma_dec_list_of_enc(b, pos + 8, c.cores, fe, fd);
    let r = dec_cpu(b, pos);
    assert(r is Some);
    assert(r->Some_0.0 =~~= c);
}

/// Memory metrics written at `pos` are read back as themselves.
proof fn lemma_dec_memory_of_enc(b: Seq<u64>, pos: int, m: MemoryMetrics)
    requires
        0 <= pos,
        pos + 9 <= b.len(),
        b.subrange(pos, pos + 9) == enc_memory(m),
    ensures
        dec_memory(b, pos) == Some((m, pos + 9)),
{
    let w = seq![
        m.total_bytes,
        m.used_bytes,
        m.available_bytes,
        (m.usage_percent.num >> 64) as u64,
        m.usage_percent.num as u64,
        (m.usage_percent.den >> 64) as u64,
        m.usage_percent.den as u64,
        m.swap_total_bytes,
        m.swap_used_bytes,
    ];
    assert(enc_memory(m) =~= w);
    assert(b[pos] == w[0]) by { assert(b.subrange(pos, pos + 9)[0] == b[pos]); }
    assert(b[pos + 1] == w[1]) by { assert(b.subrange(pos, pos + 9)[1] == b[pos + 1]); }
    assert(b[pos + 2] == w[2]) by { assert(b.subrange(pos, pos + 9)[2] == b[pos + 2]); }
    assert(b[pos + 3] == w[3]) by { assert(b.subrange(pos, pos + 9)[3] == b[pos + 3]); }
    assert(b[pos + 4] == w[4]) by { assert(b.subrange(pos, pos + 9)[4] == b[pos + 4]); }
    assert(b[pos + 5] == w[5]) by { assert(b.subrange(pos, pos + 9)[5] == b[pos + 5]); }
    assert(b[pos + 6] == w[6]) by { assert(b.subrange(pos, pos + 9)[6] == b[pos + 6]); }
    assert(b[pos + 7] == w[7]) by { assert(b.subrange(pos, pos + 9)[7] == b[pos + 7]); }
    assert(b[pos + 8] == w[8]) by { assert(b.subrange(pos, pos + 9)[8] == b[pos + 8]); }
    lemma_u128_words(m.usage_percent.num);
    lemma_u128_words(m.usage_percent.den);
    let r = dec_memory(b, pos);
    assert(r is Some);
    assert(r->Some_0.0 =~~= m);
}

/// One disk entry written at `pos` is read back as itself.
proof fn lemma_dec_disk_info_of_enc(b: Seq<u64>, pos: int, d: DiskInfoV)
    requires
        0 <= pos,
        d.name.len() <= usize::MAX,
        d.mount_point.len() <= usize::MAX,
        d.file_system.len() <= usize::MAX,
        pos + enc_disk_info(d).len() <= b.len(),
        b.subrange(pos, pos + enc_disk_info(d).len()) == enc_disk_info(d),
    ensures
        dec_disk_info(b, pos) == Some((d, pos + enc_disk_info(d).len())),
{
    let w = seq![
        d.total_space_bytes,
        d.available_space_bytes,
        d.used_space_bytes,
        (d.usage_percent.num >> 64) as u64,
        d.usage_percent.num as u64,
        (d.usage_percent.den >> 64) as u64,
        d.usage_percent.den as u64,
    ];
    let rest1 = enc_str(d.mount_point) + enc_str(d.file_system) + w;
    let rest2 = enc_str(d.file_system) + w;
    assert(enc_disk_info(d) =~= enc_str(d.name) + rest1);
    assert(b.subrange(pos, pos + enc_disk_info(d).len()) == enc_str(d.name) + rest1);
    lemma_concat_parts(b, pos, enc_str(d.name), rest1);
    lemma_dec_str_of_enc(b, pos, d.name);
    let p1: int = pos + 1 + d.name.len() as int;
    assert(rest1 =~= enc_str(d.mount_point) + rest2);
    lemma_concat_parts(b, p1, enc_str(d.mount_point), rest2);
    lemma_dec_str_of_enc(b, p1, d.mount_point);
    let p2: int = p1 + 1 + d.mount_point.len() as int;
    lemma_concat_parts(b, p2, enc_str(d.file_system), w);
    lemma_dec_str_of_enc(b, p2, d.file_system);
    let p3: int = p2 + 1 + d.file_system.len() as int;
    assert(b[p3] == w[0]) by { assert(b.subrange(p3, p3 + 7)[0] == b[p3]); }
    assert(b[p3 + 1] == w[1]) by { assert(b.subrange(p3, p3 + 7)[1] == b[p3 + 1]); }
    assert(b[p3 + 2] == w[2]) by { assert(b.subrange(p3, p3 + 7)[2] == b[p3 + 2]); }
    assert(b[p3 + 3] == w[3]) by { assert(b.subrange(p3, p3 + 7)[3] == b[p3 + 3]); }
    assert(b[p3 + 4] == w[4]) by { assert(b.subrange(p3, p3 + 7)[4] == b[p3 + 4]); }
    assert(b[p3 + 5] == w[5]) by { assert(b.subrange(p3, p3 + 7)[5] == b[p3 + 5]); }
    assert(b[p3 + 6] == w[6]) by { assert(b.subrange(p3, p3 + 7)[6] == b[p3 + 6]); }
    lemma_u128_words(d.usage_percent.num);
    lemma_u128_words(d.usage_percent.den);
    let r = dec_disk_info(b, pos);
    assert(r is Some);
    assert(r->Some_0.0 =~~= d);
}

/// Disk metrics written at `pos` are read back as themselves.
proof fn lemma_dec_disk_of_enc(b: Seq<u64>, pos: int, d: DiskMetricsV)
    requires
        0 <= pos,
        d.disks.len() <= usize::MAX,
        forall|i: int| 0 <= i < d.disks.len() ==> {
            let x = #[trigger] d.disks[i];
            x.name.len() <= usize::MAX && x.mount_point.len() <= usize::MAX && x.file_system.len()
                <= usize::MAX
        },
        pos + enc_disk(d).len() <= b.len(),
        b.subrange(pos, pos + enc_disk(d).len()) == enc_disk(d),
    ensures
        dec_disk(b, pos) == Some((d, pos + enc_disk(d).len())),
{
    let fe = |x: DiskInfoV| enc_disk_info(x);
    let fd = |bb: Seq<u64>, q: int| dec_disk_info(bb, q);
    let el = enc_list(d.disks, fe);
    let tail = seq![d.total_read_bytes, d.total_written_bytes];
    assert(enc_disk(d) =~= seq![d.disks.len() as u64] + (el + tail));
    assert(b.subrange(pos, pos + enc_disk(d).len()) == seq![d.disks.len() as u64] + (el + tail));
    lemma_concat_parts(b, pos, seq![d.disks.len() as u64], el + tail);
    assert(b[pos] == d.disks.len() as u64) by {
        assert(b.subrange(pos, pos + 1)[0] == b[pos]);
    }
    lemma_concat_parts(b, pos + 1, el, tail);
    assert forall|i: int, q: int|
        #![trigger fd(b, q), fe(d.disks[i])]
        0 <= i < d.disks.len() && 0 <= q && q + fe(d.disks[i]).len() <= b.len() && b.subrange(
            q,
            q + fe(d.disks[i]).len(),
        ) == fe(d.disks[i]) implies fd(b, q) == Some((d.disks[i], q + fe(d.disks[i]).len())) by {
        lemma_dec_disk_info_of_enc(b, q, d.disks[i]);
    }
    lemma_dec_list_of_enc(b, pos + 1, d.disks, fe, fd);
    let p1: int = pos + 1 + el.len() as int;
    assert(b[p1] == d.total_read_bytes) by { assert(b.subrange(p1, p1 + 2)[0] == b[p1]); }
    assert(b[p1 + 1] == d.total_written_bytes) by {
        assert(b.subrange(p1, p1 + 2)[1] == b[p1 + 1]);
    }
    let r = dec_disk(b, pos);
    assert(r is Some);
    assert(r->Some_0.0 =~~= d);
}

/// One interface written at `pos` is read back as itself.
proof fn lemma_dec_iface_of_enc(b: Seq<u64>, pos: int, n: NetworkInterfaceV)
    requires
        0 <= pos,
        n.name.len() <= usize::MAX,
        pos + enc_iface(n).len() <= b.len(),
        b.subrange(pos, pos + enc_iface(n).len()) == enc_iface(n),
    ensures
        dec_iface(b, pos) == Some((n, pos + enc_iface(n).len())),
{
    let w = seq![
        n.bytes_received,
        n.bytes_transmitted,
        n.packets_received,
        n.packets_transmitted,
        n.errors_on_received,
        n.errors_on_transmitted,
    ];
    assert(enc_iface(n) =~= enc_str(n.name) + w);
    assert(b.subrange(pos, pos + enc_iface(n).len()) == enc_str(n.name) + w);
    lemma_concat_parts(b, pos, enc_str(n.name), w);
    lemma_dec_str_of_enc(b, pos, n.name);
    let p1: int = pos + 1 + n.name.len() as int;
    assert(b[p1] == w[0]) by { assert(b.subrange(p1, p1 + 6)[0] == b[p1]); }
    assert(b[p1 + 1] == w[1]) by { assert(b.subrange(p1, p1 + 6)[1] == b[p1 + 1]); }
    assert(b[p1 + 2] == w[2]) by { assert(b.subrange(p1, p1 + 6)[2] == b[p1 + 2]); }
    assert(b[p1 + 3] == w[3]) by { assert(b.subrange(p1, p1 + 6)[3] == b[p1 + 3]); }
    assert(b[p1 + 4] == w[4]) by { assert(b.subrange(p1, p1 + 6)[4] == b[p1 + 4]); }
    assert(b[p1 + 5] == w[5]) by { assert(b.subrange(p1, p1 + 6)[5] == b[p1 + 5]); }
    let r = dec_iface(b, pos);
    assert(r is Some);
    assert(r->Some_0.0 =~~= n);
}

/// Network metrics written at `pos` are read back as themselves.
proof fn lemma_dec_network_of_enc(b: Seq<u64>, pos: int, n: NetworkMetricsV)
    requires
        0 <= pos,
        n.interfaces.len() <= usize::MAX,
        forall|i: int| 0 <= i < n.interfaces.len()
            ==> (#[trigger] n.interfaces[i]).name.len() <= usize::MAX,
        pos + enc_network(n).len() <= b.len(),
        b.subrange(pos, pos + enc_network(n).len()) == enc_network(n),
    ensures
        dec_network(b, pos) == Some((n, pos + enc_network(n).len())),
{
    let fe = |x: NetworkInterfaceV| enc_iface(x);
    let fd = |bb: Seq<u64>, q: int| dec_iface(bb, q);
    let el = enc_list(n.interfaces, fe);
    let tail = seq![n.total_bytes_received, n.total_bytes_transmitted];
    assert(enc_network(n) =~= seq![n.interfaces.len() as u64] + (el + tail));
    assert(b.subrange(pos, pos + enc_network(n).len()) == seq![n.interfaces.len() as u64] + (el
        + tail));
    lemma_concat_parts(b, pos, seq![n.interfaces.len() as u64], el + tail);
    assert(b[pos] == n.interfaces.len() as u64) by {
        assert(b.subrange(pos, pos + 1)[0] == b[pos]);
    }
    lemma_concat_parts(b, pos + 1, el, tail);
    assert forall|i: int, q: int|
        #![trigger fd(b, q), fe(n.interfaces[i])]
        0 <= i < n.interfaces.len() && 0 <= q && q + fe(n.interfaces[i]).len() <= b.len()
            && b.subrange(q, q + fe(n.interfaces[i]).len()) == fe(n.interfaces[i]) implies fd(
            b,
            q,
        ) == Some((n.interfaces[i], q + fe(n.interfaces[i]).len())) by {
        lemma_dec_iface_of_enc(b, q, n.interfaces[i]);
    }
    lemma_dec_list_of_enc(b, pos + 1, n.interfaces, fe, fd);
    let p1: int = pos + 1 + el.len() as int;
    assert(b[p1] == n.total_bytes_received) by { assert(b.subrange(p1, p1 + 2)[0] == b[p1]); }
    assert(b[p1 + 1] == n.total_bytes_transmitted) by {
        assert(b.subrange(p1, p1 + 2)[1] == b[p1 + 1]);
    }
    let r = dec_network(b, pos);
    assert(r is Some);
    assert(r->Some_0.0 =~~= n);
}

/// The round trip: a snapshot's encoding, decoded, is the snapshot again,
/// field for field — the persistence format loses nothing.
#[verifier::rlimit(100)]
pub proof fn lemma_snapshot_round_trip(s: SystemMetricsV)
    requires
        enc_wf(s),
    ensures
        dec_snapshot(enc_snapshot(s), 0) == Some((s, enc_snapshot(s).len() as int)),
{
    let b = enc_snapshot(s);
    let ecpu = enc_cpu(s.cpu);
    let emem = enc_memory(s.memory);
    let edisk = enc_disk(s.disk);
    let enet = enc_network(s.network);
    assert(emem.len() == 9);
    assert(b =~= seq![s.timestamp_millis as u64] + (ecpu + (emem + (edisk + enet))));
    assert(b.subrange(0, b.len() as int) =~= b);
    lemma_concat_parts(b, 0, seq![s.timestamp_millis as u64], ecpu + (emem + (edisk + enet)));
    assert(b[0] == s.timestamp_millis as u64) by {
        assert(b.subrange(0, 1)[0] == b[0]);
    }
    lemma_i64_word(s.timestamp_millis);
    lemma_concat_parts(b, 1, ecpu, emem + (edisk + enet));
    lemma_dec_cpu_of_enc(b, 1, s.cpu);
    let p1: int = 1 + ecpu.len() as int;
    lemma_concat_parts(b, p1, emem, edisk + enet);
    lemma_dec_memory_of_enc(b, p1, s.memory);
    let p2: int = p1 + 9;
    lemma_concat_parts(b, p2, edisk, enet);
    lemma_dec_disk_of_enc(b, p2, s.disk);
    let p3: int = p2 + edisk.len() as int;
    lemma_dec_network_of_enc(b, p3, s.network);
    let r = dec_snapshot(b, 0);
    assert(r is Some);
    assert(r->Some_0.0 =~~= s);
}

/// Two snapshots with the same encoding are the same snapshot: nothing in
/// a persisted record is ambiguous.
pub proof fn lemma_encoding_injective(a: SystemMetricsV, c: SystemMetricsV)
    requires
        enc_wf(a),
        enc_wf(c),
        enc_snapshot(a) == enc_snapshot(c),
    ensures
        a == c,
{
    lemma_snapshot_round_trip(a);
    lemma_snapshot_round_trip(c);
}

} // verus!

verus! {

// ---------------------------------------------------------------------------
// The executable writer.
// ---------------------------------------------------------------------------

/// Relies on std's `char::from_u32`: `Some` exactly off the surrogate range
/// and up to the largest scalar value, and the returned character carries
/// the given value.
pub assume_specification[ char::from_u32 ](v: u32) -> (r: Option<char>)
    ensures
        r matches Some(c) ==> c as u32 == v && c as u64 == v as u64,
        (v < 0xD800 || (0xE000 <= v && v <= 0x10FFFF)) ==> r is Some,
;

/// Relies on std's `String::push`: appends exactly the one character.
pub assume_specification[ String::push ](s: &mut String, c: char)
    ensures
        final(s)@ == old(s)@.push(c),
;

fn push_u128(out: &mut Vec<u64>, x: u128)
    ensures
        final(out)@ == old(out)@ + enc_u128(x),
{
    out.push((x >> 64) as u64);
    out.push(#[verifier::truncate] (x as u64));
    proof {
        assert(out@ =~= old(out)@ + enc_u128(x));
    }
}

fn push_str(out: &mut Vec<u64>, s: &String)
    ensures
        final(out)@ == old(out)@ + enc_str(s@),
{
    let n = s.as_str().unicode_len();
    out.push(n as u64);
    let mut i: usize = 0;
    while i < n
        invariant
            n == s@.len(),
            i <= n,
            out@ == old(out)@ + seq![n as u64] + s@.take(i as int).map(
                |j: int, c: char| char_word(c),
            ),
        decreases n - i,
    {
        let c = s.as_str().get_char(i);
        out.push(c as u64);
        proof {
            assert(out@ =~= old(out)@ + seq![n as u64] + s@.take(i + 1).map(
                |j: int, c: char| char_word(c),
            ));
        }
        i = i + 1;
    }
    proof {
        assert(s@.take(n as int) =~= s@);
        assert(out@ =~= old(out)@ + enc_str(s@));
    }
}

fn push_percent(out: &mut Vec<u64>, p: &Percent)
    ensures
        final(out)@ == old(out)@ + enc_percent(*p),
{
    push_u128(out, p.num);
    push_u128(out, p.den);
    proof {
        assert(out@ =~= old(out)@ + enc_percent(*p));
    }
}

fn push_cpu(out: &mut Vec<u64>, c: &CpuMetrics)
    ensures
        final(out)@ == old(out)@ + enc_cpu(c@),
{
    let ghost fe = |x: CoreMetrics| enc_core(x);
    push_percent(out, &c.usage_percent);
    out.push(c.load_average.one_min_bits);
    out.push(c.load_average.five_min_bits);
    out.push(c.load_average.fifteen_min_bits);
    let n = c.cores.len();
    out.push(n as u64);
    let ghost base = out@;
    let mut i: usize = 0;
    while i < n
        invariant
            n == c.cores@.len(),
            i <= n,
            out@ == base + enc_list(c.cores@.take(i as int), fe),
            fe == (|x: CoreMetrics| enc_core(x)),
        decreases n - i,
    {
        let core = c.cores[i];
        out.push(core.core_id as u64);
        out.push(core.usage_percent);
        proof {
            lemma_enc_list_snoc(c.cores@.take(i as int), core, fe);
            assert(c.cores@.take(i + 1) =~= c.cores@.take(i as int).push(core));
            assert(out@ =~= base + enc_list(c.cores@.take(i + 1), fe));
        }
        i = i + 1;
    }
    proof {
        assert(c.cores@.take(n as int) =~= c.cores@);
        assert(out@ =~= old(out)@ + enc_cpu(c@));
    }
}

fn push_memory(out: &mut Vec<u64>, m: &MemoryMetrics)
    ensures
        final(out)@ == old(out)@ + enc_memory(*m),
{
    out.push(m.total_bytes);
    out.push(m.used_bytes);
    out.push(m.available_bytes);
    push_percent(out, &m.usage_percent);
    out.push(m.swap_total_bytes);
    out.push(m.swap_used_bytes);
    proof {
        assert(out@ =~= old(out)@ + enc_memory(*m));
    }
}

fn push_disk_info(out: &mut Vec<u64>, d: &DiskInfo)
    ensures
        final(out)@ == old(out)@ + enc_disk_info(d@),
{
    push_str(out, &d.name);
    push_str(out, &d.mount_point);
    push_str(out, &d.file_system);
    out.push(d.total_space_bytes);
    out.push(d.available_space_bytes);
    out.push(d.used_space_bytes);
    push_percent(out, &d.usage_percent);
    proof {
        assert(out@ =~= old(out)@ + enc_disk_info(d@));
    }
}

fn push_disk(out: &mut Vec<u64>, d: &DiskMetrics)
    ensures
        final(out)@ == old(out)@ + enc_disk(d@),
{
    let ghost fe = |x: DiskInfoV| enc_disk_info(x);
    let ghost dviews = d.disks@.map(|j: int, x: DiskInfo| x@);
    let n = d.disks.len();
    out.push(n as u64);
    let ghost base = out@;
    let mut i: usize = 0;
    while i < n
        invariant
            n == d.disks@.len(),
            i <= n,
            dviews == d.disks@.map(|j: int, x: DiskInfo| x@),
            out@ == base + enc_list(dviews.take(i as int), fe),
            fe == (|x: DiskInfoV| enc_disk_info(x)),
        decreases n - i,
    {
        push_disk_info(out, &d.disks[i]);
        proof {
            lemma_enc_list_snoc(dviews.take(i as int), dviews[i as int], fe);
            assert(dviews.take(i + 1) =~= dviews.take(i as int).push(dviews[i as int]));
            assert(out@ =~= base + enc_list(dviews.take(i + 1), fe));
        }
        i = i + 1;
    }
    out.push(d.total_read_bytes);
    out.push(d.total_written_bytes);
    proof {
        assert(dviews.take(n as int) =~= dviews);
        assert(out@ =~= old(out)@ + enc_disk(d@));
    }
}

fn push_iface(out: &mut Vec<u64>, x: &NetworkInterface)
    ensures
        final(out)@ == old(out)@ + enc_iface(x@),
{
    push_str(out, &x.name);
    out.push(x.bytes_received);
    out.push(x.bytes_transmitted);
    out.push(x.packets_received);
    out.push(x.packets_transmitted);
    out.push(x.errors_on_received);
    out.push(x.errors_on_transmitted);
    proof {
        assert(out@ =~= old(out)@ + enc_iface(x@));
    }
}

fn push_network(out: &mut Vec<u64>, m: &NetworkMetrics)
    ensures
        final(out)@ == old(out)@ + enc_network(m@),
{
    let ghost fe = |x: NetworkInterfaceV| enc_iface(x);
    let ghost iviews = m.interfaces@.map(|j: int, x: NetworkInterface| x@);
    let n = m.interfaces.len();
    out.push(n as u64);
    let ghost base = out@;
    let mut i: usize = 0;
    while i < n
        invariant
            n == m.interfaces@.len(),
            i <= n,
            iviews == m.interfaces@.map(|j: int, x: NetworkInterface| x@),
            out@ == base + enc_list(iviews.take(i as int), fe),
            fe == (|x: NetworkInterfaceV| enc_iface(x)),
        decreases n - i,
    {
        push_iface(out, &m.interfaces[i]);
        proof {
            lemma_enc_list_snoc(iviews.take(i as int), iviews[i as int], fe);
            assert(iviews.take(i + 1) =~= iviews.take(i as int).push(iviews[i as int]));
            assert(out@ =~= base + enc_list(iviews.take(i + 1), fe));
        }
        i = i + 1;
    }
    out.push(m.total_bytes_received);
    out.push(m.total_bytes_transmitted);
    proof {
        assert(iviews.take(n as int) =~= iviews);
        assert(out@ =~= old(out)@ + enc_network(m@));
    }
}

impl SystemMetrics {
    /// The snapshot's persistence record, exactly `enc_snapshot` of it.
    pub fn encode(&self) -> (out: Vec<u64>)
        ensures
            out@ == enc_snapshot(self@),
    {
        let mut out: Vec<u64> = Vec::new();
        out.push(#[verifier::truncate] (self.timestamp_millis as u64));
        push_cpu(&mut out, &self.cpu);
        push_memory(&mut out, &self.memory);
        push_disk(&mut out, &self.disk);
        push_network(&mut out, &self.network);
        proof {
            assert(out@ =~= enc_snapshot(self@));
        }
        out
    }
}

} // verus!

verus! {

// ---------------------------------------------------------------------------
// The executable reader. Each reader is proved sound — whatever it returns
// re-encodes to exactly the words it consumed — and complete: wherever the
// decoding relation holds, the reader succeeds with that value.
// ---------------------------------------------------------------------------

proof fn lemma_words_of_u128(hi: u64, lo: u64)
    ensures
        ((((hi as u128) << 64) | (lo as u128)) >> 64) as u64 == hi,
        ((((hi as u128) << 64) | (lo as u128)) as u64) == lo,
{
    assert((((((hi as u128) << 64) | (lo as u128)) >> 64) as u64) == hi) by (bit_vector);
    assert(((((hi as u128) << 64) | (lo as u128)) as u64) == lo) by (bit_vector);
}

proof fn lemma_word_of_i64(w: u64)
    ensures
        ((w as i64) as u64) == w,
{
    assert(((w as i64) as u64) == w) by (bit_vector);
}

fn read_word(buf: &Vec<u64>, pos: &mut usize) -> (r: Option<u64>)
    ensures
        r matches Some(w) ==> *old(pos) < buf@.len() && *final(pos) == *old(pos) + 1 && w
            == buf@[*old(pos) as int],
        *old(pos) < buf@.len() ==> r is Some,
{
    if *pos < buf.len() {
        let w = buf[*pos];
        *pos = *pos + 1;
        Some(w)
    } else {
        None
    }
}

fn read_u128(buf: &Vec<u64>, pos: &mut usize) -> (r: Option<u128>)
    ensures
        r matches Some(x) ==> *old(pos) + 2 == *final(pos) && *final(pos) <= buf@.len()
            && buf@.subrange(*old(pos) as int, *final(pos) as int) == enc_u128(x),
        *old(pos) + 2 <= buf@.len() ==> r == Some(
            dec_u128(buf@[*old(pos) as int], buf@[*old(pos) + 1]),
        ) && *final(pos) == *old(pos) + 2,
{
    let w0 = match read_word(buf, pos) {
        Some(w) => w,
        None => {
            return None;
        },
    };
    let w1 = match read_word(buf, pos) {
        Some(w) => w,
        None => {
            return None;
        },
    };
    let x = ((w0 as u128) << 64) | (w1 as u128);
    proof {
        lemma_words_of_u128(w0, w1);
        assert(buf@.subrange(*old(pos) as int, *pos as int) =~= enc_u128(x));
    }
    Some(x)
}

fn read_percent(buf: &Vec<u64>, pos: &mut usize) -> (r: Option<Percent>)
    ensures
        r matches Some(p) ==> *old(pos) + 4 == *final(pos) && *final(pos) <= buf@.len()
            && buf@.subrange(*old(pos) as int, *final(pos) as int) == enc_percent(p),
        *old(pos) + 4 <= buf@.len() ==> r == Some(
            Percent {
                num: dec_u128(buf@[*old(pos) as int], buf@[*old(pos) + 1]),
                den: dec_u128(buf@[*old(pos) + 2], buf@[*old(pos) + 3]),
            },
        ) && *final(pos) == *old(pos) + 4,
{
    let num = match read_u128(buf, pos) {
        Some(x) => x,
        None => {
            return None;
        },
    };
    let den = match read_u128(buf, pos) {
        Some(x) => x,
        None => {
            return None;
        },
    };
    let p = Percent { num, den };
    proof {
        assert(buf@.subrange(*old(pos) as int, *pos as int) =~= enc_percent(p));
    }
    Some(p)
}

fn read_string(buf: &Vec<u64>, pos: &mut usize) -> (r: Option<String>)
    ensures
        r matches Some(s) ==> *old(pos) <= *final(pos) <= buf@.len() && buf@.subrange(
            *old(pos) as int,
            *final(pos) as int,
        ) == enc_str(s@),
        dec_str(buf@, *old(pos) as int) matches Some(v) ==> (r matches Some(s) && s@ == v.0
            && *final(pos) == v.1),
{
    let ghost start = *old(pos);
    let nw = match read_word(buf, pos) {
        Some(w) => w,
        None => {
            return None;
        },
    };
    if nw > usize::MAX as u64 {
        return None;
    }
    let n = nw as usize;
    let mut s = String::new();
    let mut i: usize = 0;
    proof {
        if dec_chars(buf@, start + 1, n as int) is Some {
            let v0 = dec_chars(buf@, start + 1, n as int)->Some_0;
            assert(Seq::<char>::empty() + v0.0 =~= v0.0);
        }
    }
    while i < n
        invariant
            start == *old(pos),
            i <= n,
            n == nw,
            start < buf@.len(),
            buf@[start as int] == nw,
            *pos == start + 1 + i,
            *pos <= buf@.len(),
            s@.len() == i,
            buf@.subrange(start + 1, *pos as int) == s@.map(|j: int, c: char| char_word(c)),
            dec_chars(buf@, start + 1, n as int) == (match dec_chars(
                buf@,
                *pos as int,
                n - i,
            ) {
                Option::None => Option::<(Seq<char>, int)>::None,
                Option::Some((cs, p)) => Option::Some((s@ + cs, p)),
            }),
        decreases n - i,
    {
        let ghost posb = *pos;
        let w = match read_word(buf, pos) {
            Some(w) => w,
            None => {
                proof {
                    assert(dec_chars(buf@, posb as int, n - i) is None);
                    assert(dec_chars(buf@, start + 1, n as int) is None);
                    assert(dec_str(buf@, start as int) is None);
                }
                return None;
            },
        };
        if w > 0x10FFFF {
            proof {
                if is_char_word(w) {
                    lemma_char_word_range(w);
                }
                assert(dec_chars(buf@, posb as int, n - i) is None);
                assert(dec_chars(buf@, start + 1, n as int) is None);
                assert(dec_str(buf@, start as int) is None);
            }
            return None;
        }
        let c = match char::from_u32(w as u32) {
            Some(c) => c,
            None => {
                proof {
                    if is_char_word(w) {
                        lemma_char_word_range(w);
                    }
                    assert(dec_chars(buf@, posb as int, n - i) is None);
                    assert(dec_chars(buf@, start + 1, n as int) is None);
                    assert(dec_str(buf@, start as int) is None);
                }
                return None;
            },
        };
        proof {
            assert(c as u64 == w);
            assert(char_word(c) == w);
            assert(is_char_word(w));
            lemma_char_word(c);
        }
        let ghost s_old = s@;
        s.push(c);
        proof {
            assert(buf@.subrange(start + 1, *pos as int) =~= s@.map(
                |j: int, c: char| char_word(c),
            ));
            if dec_chars(buf@, posb + 1, n - i - 1) is Some {
                let v2 = dec_chars(buf@, posb + 1, n - i - 1)->Some_0;
                assert(s_old + (seq![c] + v2.0) =~= s@ + v2.0);
            }
        }
        i = i + 1;
    }
    proof {
        assert(s@.len() as u64 == nw);
        assert(buf@.subrange(start as int, *pos as int) =~= enc_str(s@));
        assert(dec_chars(buf@, *pos as int, 0) == Some((Seq::<char>::empty(), *pos as int)));
        if dec_chars(buf@, start + 1, n as int) is Some {
            let v = dec_chars(buf@, start + 1, n as int)->Some_0;
            assert(s@ + Seq::<char>::empty() =~= s@);
            assert(v.0 == s@ && v.1 == *pos as int);
        }
        assert(dec_str(buf@, start as int) == dec_chars(buf@, start + 1, n as int));
    }
    Some(s)
}

fn read_cpu(buf: &Vec<u64>, pos: &mut usize) -> (r: Option<CpuMetrics>)
    ensures
        r matches Some(c) ==> *old(pos) <= *final(pos) <= buf@.len() && buf@.subrange(
            *old(pos) as int,
            *final(pos) as int,
        ) == enc_cpu(c@),
        dec_cpu(buf@, *old(pos) as int) matches Some(v) ==> (r matches Some(c) && c@ == v.0
            && *final(pos) == v.1),
{
    let ghost fe = |x: CoreMetrics| enc_core(x);
    let ghost fd = |bb: Seq<u64>, q: int| dec_core(bb, q);
    let ghost start = *old(pos);
    let usage_percent = match read_percent(buf, pos) {
        Some(p) => p,
        None => {
            return None;
        },
    };
    let one = match read_word(buf, pos) {
        Some(w) => w,
        None => {
            return None;
        },
    };
    let five = match read_word(buf, pos) {
        Some(w) => w,
        None => {
            return None;
        },
    };
    let fifteen = match read_word(buf, pos) {
        Some(w) => w,
        None => {
            return None;
        },
    };
    let nw = match read_word(buf, pos) {
        Some(w) => w,
        None => {
            return None;
        },
    };
    if nw > usize::MAX as u64 {
        return None;
    }
    let n = nw as usize;
    let ghost lstart = *pos;
    let mut cores: Vec<CoreMetrics> = Vec::new();
    let mut i: usize = 0;
    proof {
        if dec_list(buf@, lstart as int, n as int, fd) is Some {
            let v0 = dec_list(buf@, lstart as int, n as int, fd)->Some_0;
            assert(Seq::<CoreMetrics>::empty() + v0.0 =~= v0.0);
        }
    }
    while i < n
        invariant
            start == *old(pos),
            i <= n,
            n == nw,
            start + 8 <= buf@.len(),
            lstart == start + 8,
            buf@[start + 7] == nw,
            lstart <= *pos <= buf@.len(),
            cores@.len() == i,
            buf@.subrange(lstart as int, *pos as int) == enc_list(cores@, fe),
            dec_list(buf@, lstart as int, n as int, fd) == (match dec_list(
                buf@,
                *pos as int,
                n - i,
                fd,
            ) {
                Option::None => Option::<(Seq<CoreMetrics>, int)>::None,
                Option::Some((cs, p)) => Option::Some((cores@ + cs, p)),
            }),
            fe == (|x: CoreMetrics| enc_core(x)),
            fd == (|bb: Seq<u64>, q: int| dec_core(bb, q)),
        decreases n - i,
    {
        let ghost posb = *pos;
        let idw = match read_word(buf, pos) {
            Some(w) => w,
            None => {
                proof {
                    assert(fd(buf@, posb as int) is None);
                    assert(dec_list(buf@, posb as int, n - i, fd) is None);
                    assert(dec_cpu(buf@, start as int) is None);
                }
                return None;
            },
        };
        if idw > usize::MAX as u64 {
            proof {
                assert(fd(buf@, posb as int) is None);
                assert(dec_list(buf@, posb as int, n - i, fd) is None);
                assert(dec_cpu(buf@, start as int) is None);
            }
            return None;
        }
        let uw = match read_word(buf, pos) {
            Some(w) => w,
            None => {
                proof {
                    assert(fd(buf@, posb as int) is None);
                    assert(dec_list(buf@, posb as int, n - i, fd) is None);
                    assert(dec_cpu(buf@, start as int) is None);
                }
                return None;
            },
        };
        let core = CoreMetrics { core_id: idw as usize, usage_percent: uw };
        let ghost prev = cores@;
        proof {
            lemma_enc_list_snoc(cores@, core, fe);
            assert(fd(buf@, posb as int) == Some((core, posb + 2)));
        }
        cores.push(core);
        proof {
            assert(buf@.subrange(lstart as int, *pos as int) =~= enc_list(cores@, fe));
            if dec_list(buf@, posb + 2, n - i - 1, fd) is Some {
                let v2 = dec_list(buf@, posb + 2, n - i - 1, fd)->Some_0;
                assert(prev + (seq![core] + v2.0) =~= cores@ + v2.0);
            }
        }
        i = i + 1;
    }
    let c = CpuMetrics {
        usage_percent,
        cores,
        load_average: LoadAverage {
            one_min_bits: one,
            five_min_bits: five,
            fifteen_min_bits: fifteen,
        },
    };
    proof {
        assert(buf@.subrange(start + 4, start + 8) =~= seq![one, five, fifteen, nw]);
        assert(buf@.subrange(start as int, *pos as int) =~= buf@.subrange(start as int, start + 4)
            + buf@.subrange(start + 4, start + 8) + buf@.subrange(lstart as int, *pos as int));
        assert(c@.cores.len() as u64 == nw);
        assert(buf@.subrange(start as int, *pos as int) =~= enc_cpu(c@));
        assert(dec_list(buf@, *pos as int, 0, fd) == Some((Seq::<CoreMetrics>::empty(), *pos as int)));
        if dec_list(buf@, lstart as int, n as int, fd) is Some {
            let v = dec_list(buf@, lstart as int, n as int, fd)->Some_0;
            assert(cores@ + Seq::<CoreMetrics>::empty() =~= cores@);
            assert(v.0 == cores@ && v.1 == *pos as int);
        }
        if dec_cpu(buf@, start as int) is Some {
            let v = dec_cpu(buf@, start as int)->Some_0;
            assert(c@ =~~= v.0);
        }
    }
    Some(c)
}

fn read_memory(buf: &Vec<u64>, pos: &mut usize) -> (r: Option<MemoryMetrics>)
    ensures
        r matches Some(m) ==> *old(pos) + 9 == *final(pos) && *final(pos) <= buf@.len()
            && buf@.subrange(*old(pos) as int, *final(pos) as int) == enc_memory(m),
        dec_memory(buf@, *old(pos) as int) matches Some(v) ==> r == Some(v.0) && *final(pos)
            == v.1,
{
    let ghost start = *old(pos);
    let total = match read_word(buf, pos) {
        Some(w) => w,
        None => {
            return None;
        },
    };
    let used = match read_word(buf, pos) {
        Some(w) => w,
        None => {
            return None;
        },
    };
    let available = match read_word(buf, pos) {
        Some(w) => w,
        None => {
            return None;
        },
    };
    let usage_percent = match read_percent(buf, pos) {
        Some(p) => p,
        None => {
            return None;
        },
    };
    let swap_total = match read_word(buf, pos) {
        Some(w) => w,
        None => {
            return None;
        },
    };
    let swap_used = match read_word(buf, pos) {
        Some(w) => w,
        None => {
            return None;
        },
    };
    let m = MemoryMetrics {
        total_bytes: total,
        used_bytes: used,
        available_bytes: available,
        usage_percent,
        swap_total_bytes: swap_total,
        swap_used_bytes: swap_used,
    };
    proof {
        assert(buf@.subrange(start as int, *pos as int) =~= enc_memory(m));
    }
    Some(m)
}

fn read_disk_info(buf: &Vec<u64>, pos: &mut usize) -> (r: Option<DiskInfo>)
    ensures
        r matches Some(d) ==> *old(pos) <= *final(pos) <= buf@.len() && buf@.subrange(
            *old(pos) as int,
            *final(pos) as int,
        ) == enc_disk_info(d@),
        dec_disk_info(buf@, *old(pos) as int) matches Some(v) ==> (r matches Some(d) && d@
            == v.0 && *final(pos) == v.1),
{
    let ghost start = *old(pos);
    let name = match read_string(buf, pos) {
        Some(s) => s,
        None => {
            return None;
        },
    };
    let ghost p1 = *pos;
    let mount_point = match read_string(buf, pos) {
        Some(s) => s,
        None => {
            return None;
        },
    };
    let ghost p2 = *pos;
    let file_system = match read_string(buf, pos) {
        Some(s) => s,
        None => {
            return None;
        },
    };
    let ghost p3 = *pos;
    let total = match read_word(buf, pos) {
        Some(w) => w,
        None => {
            return None;
        },
    };
    let available = match read_word(buf, pos) {
        Some(w) => w,
        None => {
            return None;
        },
    };
    let used = match read_word(buf, pos) {
        Some(w) => w,
        None => {
            return None;
        },
    };
    let usage_percent = match read_percent(buf, pos) {
        Some(p) => p,
        None => {
            return None;
        },
    };
    let d = DiskInfo {
        name,
        mount_point,
        total_space_bytes: total,
        available_space_bytes: available,
        used_space_bytes: used,
        usage_percent,
        file_system,
    };
    proof {
        assert(buf@.subrange(p3 as int, p3 + 3) =~= seq![total, available, used]);
        assert(buf@.subrange(start as int, *pos as int) =~= buf@.subrange(start as int, p1 as int)
            + buf@.subrange(p1 as int, p2 as int) + buf@.subrange(p2 as int, p3 as int)
            + buf@.subrange(p3 as int, p3 + 3) + buf@.subrange(p3 + 3, *pos as int));
        assert(buf@.subrange(start as int, *pos as int) =~= enc_disk_info(d@));
        if dec_disk_info(buf@, start as int) is Some {
            let v = dec_disk_info(buf@, start as int)->Some_0;
            assert(d@ =~~= v.0);
        }
    }
    Some(d)
}

fn read_disk(buf: &Vec<u64>, pos: &mut usize) -> (r: Option<DiskMetrics>)
    ensures
        r matches Some(d) ==> *old(pos) <= *final(pos) <= buf@.len() && buf@.subrange(
            *old(pos) as int,
            *final(pos) as int,
        ) == enc_disk(d@),
        dec_disk(buf@, *old(pos) as int) matches Some(v) ==> (r matches Some(d) && d@ == v.0
            && *final(pos) == v.1),
{
    let ghost fe = |x: DiskInfoV| enc_disk_info(x);
    let ghost fd = |bb: Seq<u64>, q: int| dec_disk_info(bb, q);
    let ghost start = *old(pos);
    let nw = match read_word(buf, pos) {
        Some(w) => w,
        None => {
            return None;
        },
    };
    if nw > usize::MAX as u64 {
        return None;
    }
    let n = nw as usize;
    let ghost lstart = *pos;
    let mut disks: Vec<DiskInfo> = Vec::new();
    let mut i: usize = 0;
    proof {
        if dec_list(buf@, lstart as int, n as int, fd) is Some {
            let v0 = dec_list(buf@, lstart as int, n as int, fd)->Some_0;
            assert(Seq::<DiskInfoV>::empty() + v0.0 =~= v0.0);
        }
    }
    while i < n
        invariant
            start == *old(pos),
            i <= n,
            n == nw,
            start < buf@.len(),
            lstart == start + 1,
            buf@[start as int] == nw,
            lstart <= *pos <= buf@.len(),
            disks@.len() == i,
            buf@.subrange(lstart as int, *pos as int) == enc_list(
                disks@.map(|j: int, x: DiskInfo| x@),
                fe,
            ),
            dec_list(buf@, lstart as int, n as int, fd) matches Some(vfull) ==> (dec_list(
                buf@,
                *pos as int,
                n - i,
                fd,
            ) matches Some(v2) && vfull.0 == disks@.map(|j: int, x: DiskInfo| x@) + v2.0 && vfull.1
                == v2.1),
            fe == (|x: DiskInfoV| enc_disk_info(x)),
            fd == (|bb: Seq<u64>, q: int| dec_disk_info(bb, q)),
        decreases n - i,
    {
        let ghost posb = *pos;
        let ghost prev = disks@.map(|j: int, x: DiskInfo| x@);
        let d = match read_disk_info(buf, pos) {
            Some(d) => d,
            None => {
                proof {
                    assert(fd(buf@, posb as int) is None);
                    if dec_list(buf@, lstart as int, n as int, fd) is Some {
                        assert(fd(buf@, posb as int) is Some);
                    }
                    assert(dec_disk(buf@, start as int) is None);
                }
                return None;
            },
        };
        proof {
            lemma_enc_list_snoc(prev, d@, fe);
        }
        disks.push(d);
        proof {
            assert(disks@.map(|j: int, x: DiskInfo| x@) =~= prev.push(d@));
            assert(buf@.subrange(lstart as int, *pos as int) =~= buf@.subrange(
                lstart as int,
                posb as int,
            ) + buf@.subrange(posb as int, *pos as int));
            assert(buf@.subrange(lstart as int, *pos as int) == enc_list(prev, fe) + fe(d@));
            assert(buf@.subrange(lstart as int, *pos as int) == enc_list(
                disks@.map(|j: int, x: DiskInfo| x@),
                fe,
            ));
            if dec_list(buf@, lstart as int, n as int, fd) is Some {
                assert(dec_list(buf@, posb as int, n - i, fd) is Some);
                let w0 = fd(buf@, posb as int)->Some_0;
                assert(d@ == w0.0 && *pos == w0.1);
                let v2 = dec_list(buf@, w0.1, n - i - 1, fd)->Some_0;
                assert(prev + (seq![w0.0] + v2.0) =~= disks@.map(|j: int, x: DiskInfo| x@)
                    + v2.0);
            }
        }
        i = i + 1;
    }
    let ghost lend = *pos;
    let read_total = match read_word(buf, pos) {
        Some(w) => w,
        None => {
            proof {
                assert(dec_disk(buf@, start as int) is None);
            }
            return None;
        },
    };
    let written_total = match read_word(buf, pos) {
        Some(w) => w,
        None => {
            proof {
                assert(dec_disk(buf@, start as int) is None);
            }
            return None;
        },
    };
    let d = DiskMetrics { disks, total_read_bytes: read_total, total_written_bytes: written_total };
    proof {
        assert(d@.disks.len() as u64 == nw);
        assert(buf@.subrange(start as int, *pos as int) =~= buf@.subrange(start as int, lstart as int)
            + buf@.subrange(lstart as int, *pos - 2) + buf@.subrange(*pos - 2, *pos as int));
        assert(buf@.subrange(start as int, *pos as int) =~= enc_disk(d@));
        assert(dec_list(buf@, lend as int, 0, fd) == Some((Seq::<DiskInfoV>::empty(), lend as int)));
        if dec_list(buf@, lstart as int, n as int, fd) is Some {
            let v = dec_list(buf@, lstart as int, n as int, fd)->Some_0;
            assert(d@.disks + Seq::<DiskInfoV>::empty() =~= d@.disks);
            assert(v.0 == d@.disks && v.1 == lend as int);
        }
        if dec_disk(buf@, start as int) is Some {
            let v = dec_disk(buf@, start as int)->Some_0;
            assert(d@ =~~= v.0);
        }
    }
    Some(d)
}

fn read_iface(buf: &Vec<u64>, pos: &mut usize) -> (r: Option<NetworkInterface>)
    ensures
        r matches Some(x) ==> *old(pos) <= *final(pos) <= buf@.len() && buf@.subrange(
            *old(pos) as int,
            *final(pos) as int,
        ) == enc_iface(x@),
        dec_iface(buf@, *old(pos) as int) matches Some(v) ==> (r matches Some(x) && x@ == v.0
            && *final(pos) == v.1),
{
    let ghost start = *old(pos);
    let name = match read_string(buf, pos) {
        Some(s) => s,
        None => {
            return None;
        },
    };
    let ghost p1 = *pos;
    let recv = match read_word(buf, pos) {
        Some(w) => w,
        None => {
            return None;
        },
    };
    let sent = match read_word(buf, pos) {
        Some(w) => w,
        None => {
            return None;
        },
    };
    let pr = match read_word(buf, pos) {
        Some(w) => w,
        None => {
            return None;
        },
    };
    let pt = match read_word(buf, pos) {
        Some(w) => w,
        None => {
            return None;
        },
    };
    let er = match read_word(buf, pos) {
        Some(w) => w,
        None => {
            return None;
        },
    };
    let et = match read_word(buf, pos) {
        Some(w) => w,
        None => {
            return None;
        },
    };
    let x = NetworkInterface {
        name,
        bytes_received: recv,
        bytes_transmitted: sent,
        packets_received: pr,
        packets_transmitted: pt,
        errors_on_received: er,
        errors_on_transmitted: et,
    };
    proof {
        assert(buf@.subrange(p1 as int, *pos as int) =~= seq![recv, sent, pr, pt, er, et]);
        assert(buf@.subrange(start as int, *pos as int) =~= buf@.subrange(start as int, p1 as int)
            + buf@.subrange(p1 as int, *pos as int));
        assert(buf@.subrange(start as int, *pos as int) =~= enc_iface(x@));
        if dec_iface(buf@, start as int) is Some {
            let v = dec_iface(buf@, start as int)->Some_0;
            assert(x@ =~~= v.0);
        }
    }
    Some(x)
}

fn read_network(buf: &Vec<u64>, pos: &mut usize) -> (r: Option<NetworkMetrics>)
    ensures
        r matches Some(m) ==> *old(pos) <= *final(pos) <= buf@.len() && buf@.subrange(
            *old(pos) as int,
            *final(pos) as int,
        ) == enc_network(m@),
        dec_network(buf@, *old(pos) as int) matches Some(v) ==> (r matches Some(m) && m@ == v.0
            && *final(pos) == v.1),
{
    let ghost fe = |x: NetworkInterfaceV| enc_iface(x);
    let ghost fd = |bb: Seq<u64>, q: int| dec_iface(bb, q);
    let ghost start = *old(pos);
    let nw = match read_word(buf, pos) {
        Some(w) => w,
        None => {
            return None;
        },
    };
    if nw > usize::MAX as u64 {
        return None;
    }
    let n = nw as usize;
    let ghost lstart = *pos;
    let mut interfaces: Vec<NetworkInterface> = Vec::new();
    let mut i: usize = 0;
    proof {
        if dec_list(buf@, lstart as int, n as int, fd) is Some {
            let v0 = dec_list(buf@, lstart as int, n as int, fd)->Some_0;
            assert(Seq::<NetworkInterfaceV>::empty() + v0.0 =~= v0.0);
        }
    }
    while i < n
        invariant
            start == *old(pos),
            i <= n,
            n == nw,
            start < buf@.len(),
            lstart == start + 1,
            buf@[start as int] == nw,
            lstart <= *pos <= buf@.len(),
            interfaces@.len() == i,
            buf@.subrange(lstart as int, *pos as int) == enc_list(
                interfaces@.map(|j: int, x: NetworkInterface| x@),
                fe,
            ),
            dec_list(buf@, lstart as int, n as int, fd) matches Some(vfull) ==> (dec_list(
                buf@,
                *pos as int,
                n - i,
                fd,
            ) matches Some(v2) && vfull.0 == interfaces@.map(|j: int, x: NetworkInterface| x@) + v2.0 && vfull.1
                == v2.1),
            fe == (|x: NetworkInterfaceV| enc_iface(x)),
            fd == (|bb: Seq<u64>, q: int| dec_iface(bb, q)),
        decreases n - i,
    {
        let ghost posb = *pos;
        let ghost prev = interfaces@.map(|j: int, x: NetworkInterface| x@);
        let x = match read_iface(buf, pos) {
            Some(x) => x,
            None => {
                proof {
                    assert(fd(buf@, posb as int) is None);
                    if dec_list(buf@, lstart as int, n as int, fd) is Some {
                        assert(fd(buf@, posb as int) is Some);
                    }
                    assert(dec_network(buf@, start as int) is None);
                }
                return None;
            },
        };
        proof {
            lemma_enc_list_snoc(prev, x@, fe);
        }
        interfaces.push(x);
        proof {
            assert(interfaces@.map(|j: int, x: NetworkInterface| x@) =~= prev.push(x@));
            assert(buf@.subrange(lstart as int, *pos as int) =~= buf@.subrange(
                lstart as int,
                posb as int,
            ) + buf@.subrange(posb as int, *pos as int));
            assert(buf@.subrange(lstart as int, *pos as int) == enc_list(prev, fe) + fe(x@));
            assert(buf@.subrange(lstart as int, *pos as int) == enc_list(
                interfaces@.map(|j: int, x: NetworkInterface| x@),
                fe,
            ));
            if dec_list(buf@, lstart as int, n as int, fd) is Some {
                assert(dec_list(buf@, posb as int, n - i, fd) is Some);
                let w0 = fd(buf@, posb as int)->Some_0;
                assert(x@ == w0.0 && *pos == w0.1);
                let v2 = dec_list(buf@, w0.1, n - i - 1, fd)->Some_0;
                assert(prev + (seq![w0.0] + v2.0)
                    =~= interfaces@.map(|j: int, x: NetworkInterface| x@) + v2.0);
            }
        }
        i = i + 1;
    }
    let ghost lend = *pos;
    let recv_total = match read_word(buf, pos) {
        Some(w) => w,
        None => {
            proof {
                assert(dec_network(buf@, start as int) is None);
            }
            return None;
        },
    };
    let sent_total = match read_word(buf, pos) {
        Some(w) => w,
        None => {
            proof {
                assert(dec_network(buf@, start as int) is None);
            }
            return None;
        },
    };
    let m = NetworkMetrics {
        interfaces,
        total_bytes_received: recv_total,
        total_bytes_transmitted: sent_total,
    };
    proof {
        assert(m@.interfaces.len() as u64 == nw);
        assert(buf@.subrange(start as int, *pos as int) =~= buf@.subrange(start as int, lstart as int)
            + buf@.subrange(lstart as int, *pos - 2) + buf@.subrange(*pos - 2, *pos as int));
        assert(buf@.subrange(start as int, *pos as int) =~= enc_network(m@));
        assert(dec_list(buf@, lend as int, 0, fd) == Some(
            (Seq::<NetworkInterfaceV>::empty(), lend as int),
        ));
        if dec_list(buf@, lstart as int, n as int, fd) is Some {
            let v = dec_list(buf@, lstart as int, n as int, fd)->Some_0;
            assert(m@.interfaces + Seq::<NetworkInterfaceV>::empty() =~= m@.interfaces);
            assert(v.0 == m@.interfaces && v.1 == lend as int);
        }
        if dec_network(buf@, start as int) is Some {
            let v = dec_network(buf@, start as int)->Some_0;
            assert(m@ =~~= v.0);
        }
    }
    Some(m)
}

impl SystemMetrics {
    /// Reads a persistence record back. Sound: a returned snapshot
    /// re-encodes to exactly the given words, so by
    /// `lemma_encoding_injective` it is the snapshot that was written.
    /// Complete: a buffer that decodes in full yields that snapshot, so by
    /// `lemma_snapshot_round_trip` decoding an encoded snapshot always
    /// succeeds, field for field.
    pub fn decode(buf: &Vec<u64>) -> (r: Option<SystemMetrics>)
        ensures
            r matches Some(m) ==> buf@ == enc_snapshot(m@),
            dec_snapshot(buf@, 0) matches Some(v) ==> (v.1 == buf@.len() ==> (r matches Some(
                m,
            ) && m@ == v.0)),
    {
        let mut pos: usize = 0;
        let tsw = match read_word(buf, &mut pos) {
            Some(w) => w,
            None => {
                return None;
            },
        };
        let cpu = match read_cpu(buf, &mut pos) {
            Some(c) => c,
            None => {
                return None;
            },
        };
        let ghost p1 = pos;
        let memory = match read_memory(buf, &mut pos) {
            Some(m) => m,
            None => {
                return None;
            },
        };
        let ghost p2 = pos;
        let disk = match read_disk(buf, &mut pos) {
            Some(d) => d,
            None => {
                return None;
            },
        };
        let ghost p3 = pos;
        let network = match read_network(buf, &mut pos) {
            Some(n) => n,
            None => {
                return None;
            },
        };
        if pos != buf.len() {
            return None;
        }
        let m = SystemMetrics { timestamp_millis: tsw as i64, cpu, memory, disk, network };
        proof {
            lemma_word_of_i64(tsw);
            assert(buf@.subrange(0, buf@.len() as int) =~= buf@);
            assert(buf@ =~= buf@.subrange(0, 1) + buf@.subrange(1, p1 as int) + buf@.subrange(
                p1 as int,
                p2 as int,
            ) + buf@.subrange(p2 as int, p3 as int) + buf@.subrange(p3 as int, pos as int));
            assert(buf@.subrange(0, 1) =~= seq![tsw]);
            assert(buf@ =~= enc_snapshot(m@));
            if dec_snapshot(buf@, 0) is Some {
                let v = dec_snapshot(buf@, 0)->Some_0;
                assert(m@ =~~= v.0);
            }
        }
        Some(m)
    }
}

} // verus!
