//! Turning raw per-device samples into the reported snapshot fields: disk
//! space summed over real filesystems, network counters summed over
//! interfaces, and CPU model names deduplicated.
//!
//! The sampler hands this module one record per disk and per interface; what
//! is computed from them is specified here exactly.

use vstd::prelude::*;
use crate::geoip::GeoIp;
use crate::protocol::{HostSnapshot, StateSnapshot};

verus! {

/// One disk as sampled: its filesystem name and its space counters.
#[derive(Clone, PartialEq, Eq, Debug)]
pub struct DiskSample {
    pub file_system: String,
    pub total_space: u64,
    pub available_space: u64,
}

/// One network interface's counters: cumulative transfer and the transfer of
/// the latest refresh interval.
#[derive(Clone, Copy, PartialEq, Eq, Structural, Debug)]
pub struct NetSample {
    pub total_received: u64,
    pub total_transmitted: u64,
    pub received: u64,
    pub transmitted: u64,
}

/// The four network sums a state report carries.
#[derive(Clone, Copy, PartialEq, Eq, Structural, Debug)]
pub struct NetTotals {
    pub in_transfer: u64,
    pub out_transfer: u64,
    pub in_speed: u64,
    pub out_speed: u64,
}

/// Whether a filesystem name is `overlay`, compared without regard to ASCII
/// case. Overlay mounts shadow a real filesystem and are left out of the disk
/// sums.
pub open spec fn spec_is_overlay(s: Seq<char>) -> bool {
    &&& s.len() == 7
    &&& (s[0] == 'o' || s[0] == 'O')
    &&& (s[1] == 'v' || s[1] == 'V')
    &&& (s[2] == 'e' || s[2] == 'E')
    &&& (s[3] == 'r' || s[3] == 'R')
    &&& (s[4] == 'l' || s[4] == 'L')
    &&& (s[5] == 'a' || s[5] == 'A')
    &&& (s[6] == 'y' || s[6] == 'Y')
}

/// Case-insensitive test for the `overlay` filesystem name.
pub fn is_overlay_fs(s: &str) -> (r: bool)
    ensures
        r == spec_is_overlay(s@),
{
    if s.unicode_len() != 7 {
        return false;
    }
    let c0 = s.get_char(0);
    let c1 = s.get_char(1);
    let c2 = s.get_char(2);
    let c3 = s.get_char(3);
    let c4 = s.get_char(4);
    let c5 = s.get_char(5);
    let c6 = s.get_char(6);
    (c0 == 'o' || c0 == 'O') && (c1 == 'v' || c1 == 'V') && (c2 == 'e' || c2 == 'E') && (c3 == 'r'
        || c3 == 'R') && (c4 == 'l' || c4 == 'L') && (c5 == 'a' || c5 == 'A') && (c6 == 'y' || c6
        == 'Y')
}

/// Total and used space over the non-overlay disks, as unbounded integers.
pub open spec fn spec_disk_sums(disks: Seq<DiskSample>) -> (int, int)
    decreases disks.len(),
{
    if disks.len() == 0 {
        (0, 0)
    } else {
        let rest = spec_disk_sums(disks.drop_last());
        let d = disks.last();
        if spec_is_overlay(d.file_system@) {
            rest
        } else {
            (rest.0 + d.total_space, rest.1 + (d.total_space - d.available_space))
        }
    }
}

/// Disk sums are never negative: each disk contributes nonnegative amounts.
proof fn lemma_disk_sums_nonneg(disks: Seq<DiskSample>)
    requires
        forall|i: int|
            0 <= i < disks.len() ==> (#[trigger] disks[i]).available_space <= disks[i].total_space,
    ensures
        spec_disk_sums(disks).0 >= 0,
        spec_disk_sums(disks).1 >= 0,
    decreases disks.len(),
{
    if disks.len() > 0 {
        assert(forall|i: int|
            0 <= i < disks.drop_last().len() ==> (#[trigger] disks.drop_last()[i]).available_space
                <= disks.drop_last()[i].total_space);
        lemma_disk_sums_nonneg(disks.drop_last());
    }
}

/// Every prefix of the disk sums stays within the whole, and nothing is
/// negative.
proof fn lemma_disk_sums_prefix(disks: Seq<DiskSample>, k: int)
    requires
        0 <= k <= disks.len(),
        forall|i: int|
            0 <= i < disks.len() ==> (#[trigger] disks[i]).available_space <= disks[i].total_space,
    ensures
        0 <= spec_disk_sums(disks.subrange(0, k)).0,
        0 <= spec_disk_sums(disks.subrange(0, k)).1,
        spec_disk_sums(disks.subrange(0, k)).0 <= spec_disk_sums(
            disks.subrange(0, disks.len() as int),
        ).0,
        spec_disk_sums(disks.subrange(0, k)).1 <= spec_disk_sums(
            disks.subrange(0, disks.len() as int),
        ).1,
    decreases disks.len() - k,
{
    assert(forall|i: int|
        0 <= i < disks.subrange(0, k).len() ==> (#[trigger] disks.subrange(0, k)[i]).available_space
            <= disks.subrange(0, k)[i].total_space);
    lemma_disk_sums_nonneg(disks.subrange(0, k));
    if k < disks.len() {
        assert(disks.subrange(0, k + 1).drop_last() =~= disks.subrange(0, k));
        assert(disks.subrange(0, k + 1).last() == disks[k]);
        lemma_disk_sums_prefix(disks, k + 1);
    } else {
        assert(disks.subrange(0, k) =~= disks.subrange(0, disks.len() as int));
    }
}

/// Sums total and used space over every disk that is not an overlay mount.
/// `used` is `total - available` per disk.
pub fn disk_sums(disks: &Vec<DiskSample>) -> (r: (u64, u64))
    requires
        forall|i: int|
            0 <= i < disks@.len() ==> (#[trigger] disks@[i]).available_space
                <= disks@[i].total_space,
        spec_disk_sums(disks@).0 <= u64::MAX,
    ensures
        r.0 == spec_disk_sums(disks@).0,
        r.1 == spec_disk_sums(disks@).1,
{
    let n = disks.len();
    let mut total: u64 = 0;
    let mut used: u64 = 0;
    let mut k: usize = 0;
    proof {
        assert(disks@.subrange(0, 0).len() == 0);
        assert(disks@.subrange(0, n as int) =~= disks@);
    }
    while k < n
        invariant
            n == disks@.len(),
            0 <= k <= n,
            forall|i: int|
                0 <= i < disks@.len() ==> (#[trigger] disks@[i]).available_space
                    <= disks@[i].total_space,
            spec_disk_sums(disks@).0 <= u64::MAX,
            total == spec_disk_sums(disks@.subrange(0, k as int)).0,
            used == spec_disk_sums(disks@.subrange(0, k as int)).1,
        decreases n - k,
    {
        proof {
            assert(disks@.subrange(0, k as int + 1).drop_last() =~= disks@.subrange(0, k as int));
            assert(disks@.subrange(0, k as int + 1).last() == disks@[k as int]);
            lemma_disk_sums_prefix(disks@, k as int + 1);
            assert(disks@.subrange(0, n as int) =~= disks@);
            assert(spec_disk_sums(disks@.subrange(0, k as int + 1)).1 <= spec_disk_sums(
                disks@.subrange(0, k as int + 1),
            ).0) by {
                lemma_disk_used_le_total(disks@.subrange(0, k as int + 1));
            }
        }
        let d = &disks[k];
        if !is_overlay_fs(d.file_system.as_str()) {
            total = total + d.total_space;
            used = used + (d.total_space - d.available_space);
        }
        k = k + 1;
    }
    proof {
        assert(disks@.subrange(0, n as int) =~= disks@);
    }
    (total, used)
}

/// Used space never exceeds total space.
proof fn lemma_disk_used_le_total(disks: Seq<DiskSample>)
    requires
        forall|i: int|
            0 <= i < disks.len() ==> (#[trigger] disks[i]).available_space <= disks[i].total_space,
    ensures
        spec_disk_sums(disks).1 <= spec_disk_sums(disks).0,
    decreases disks.len(),
{
    if disks.len() > 0 {
        assert(disks.drop_last() =~= disks.subrange(0, disks.len() - 1));
        assert(forall|i: int|
            0 <= i < disks.drop_last().len() ==> (#[trigger] disks.drop_last()[i]).available_space
                <= disks.drop_last()[i].total_space);
        lemma_disk_used_le_total(disks.drop_last());
    }
}

/// The four network sums over every interface, as unbounded integers:
/// cumulative received and transmitted, and the latest interval's received
/// and transmitted.
pub open spec fn spec_net_totals(nets: Seq<NetSample>) -> (int, int, int, int)
    decreases nets.len(),
{
    if nets.len() == 0 {
        (0, 0, 0, 0)
    } else {
        let rest = spec_net_totals(nets.drop_last());
        let s = nets.last();
        (
            rest.0 + s.total_received,
            rest.1 + s.total_transmitted,
            rest.2 + s.received,
            rest.3 + s.transmitted,
        )
    }
}

/// Every prefix of the network sums stays within the whole, and nothing is
/// negative.
proof fn lemma_net_totals_prefix(nets: Seq<NetSample>, k: int)
    requires
        0 <= k <= nets.len(),
    ensures
        0 <= spec_net_totals(nets.subrange(0, k)).0,
        0 <= spec_net_totals(nets.subrange(0, k)).1,
        0 <= spec_net_totals(nets.subrange(0, k)).2,
        0 <= spec_net_totals(nets.subrange(0, k)).3,
        spec_net_totals(nets.subrange(0, k)).0 <= spec_net_totals(
            nets.subrange(0, nets.len() as int),
        ).0,
        spec_net_totals(nets.subrange(0, k)).1 <= spec_net_totals(
            nets.subrange(0, nets.len() as int),
        ).1,
        spec_net_totals(nets.subrange(0, k)).2 <= spec_net_totals(
            nets.subrange(0, nets.len() as int),
        ).2,
        spec_net_totals(nets.subrange(0, k)).3 <= spec_net_totals(
            nets.subrange(0, nets.len() as int),
        ).3,
    decreases nets.len() - k,
{
    lemma_net_totals_nonneg(nets.subrange(0, k));
    if k < nets.len() {
        assert(nets.subrange(0, k + 1).drop_last() =~= nets.subrange(0, k));
        assert(nets.subrange(0, k + 1).last() == nets[k]);
        lemma_net_totals_prefix(nets, k + 1);
    } else {
        assert(nets.subrange(0, k) =~= nets.subrange(0, nets.len() as int));
    }
}

/// Network sums are never negative.
proof fn lemma_net_totals_nonneg(nets: Seq<NetSample>)
    ensures
        spec_net_totals(nets).0 >= 0,
        spec_net_totals(nets).1 >= 0,
        spec_net_totals(nets).2 >= 0,
        spec_net_totals(nets).3 >= 0,
    decreases nets.len(),
{
    if nets.len() > 0 {
        lemma_net_totals_nonneg(nets.drop_last());
    }
}

/// Sums the four counters over every sampled interface.
pub fn aggregate_net(nets: &Vec<NetSample>) -> (r: NetTotals)
    requires
        spec_net_totals(nets@).0 <= u64::MAX,
        spec_net_totals(nets@).1 <= u64::MAX,
        spec_net_totals(nets@).2 <= u64::MAX,
        spec_net_totals(nets@).3 <= u64::MAX,
    ensures
        r.in_transfer == spec_net_totals(nets@).0,
        r.out_transfer == spec_net_totals(nets@).1,
        r.in_speed == spec_net_totals(nets@).2,
        r.out_speed == spec_net_totals(nets@).3,
{
    let n = nets.len();
    let mut in_transfer: u64 = 0;
    let mut out_transfer: u64 = 0;
    let mut in_speed: u64 = 0;
    let mut out_speed: u64 = 0;
    let mut k: usize = 0;
    proof {
        assert(nets@.subrange(0, 0).len() == 0);
        assert(nets@.subrange(0, n as int) =~= nets@);
    }
    while k < n
        invariant
            n == nets@.len(),
            0 <= k <= n,
            spec_net_totals(nets@).0 <= u64::MAX,
            spec_net_totals(nets@).1 <= u64::MAX,
            spec_net_totals(nets@).2 <= u64::MAX,
            spec_net_totals(nets@).3 <= u64::MAX,
            in_transfer == spec_net_totals(nets@.subrange(0, k as int)).0,
            out_transfer == spec_net_totals(nets@.subrange(0, k as int)).1,
            in_speed == spec_net_totals(nets@.subrange(0, k as int)).2,
            out_speed == spec_net_totals(nets@.subrange(0, k as int)).3,
        decreases n - k,
    {
        proof {
            assert(nets@.subrange(0, k as int + 1).drop_last() =~= nets@.subrange(0, k as int));
            assert(nets@.subrange(0, k as int + 1).last() == nets@[k as int]);
            lemma_net_totals_prefix(nets@, k as int + 1);
            assert(nets@.subrange(0, n as int) =~= nets@);
        }
        let s = nets[k];
        in_transfer = in_transfer + s.total_received;
        out_transfer = out_transfer + s.total_transmitted;
        in_speed = in_speed + s.received;
        out_speed = out_speed + s.transmitted;
        k = k + 1;
    }
    proof {
        assert(nets@.subrange(0, n as int) =~= nets@);
    }
    NetTotals { in_transfer, out_transfer, in_speed, out_speed }
}

/// Whether some element of `xs` reads exactly the characters `b`.
pub open spec fn spec_covered_by(xs: Seq<String>, b: Seq<char>) -> bool {
    exists|i: int| 0 <= i < xs.len() && (#[trigger] xs[i])@ == b
}

/// Whether some element of `v` reads the same as `s`.
fn contains_string(v: &Vec<String>, s: &String) -> (r: bool)
    ensures
        r == spec_covered_by(v@, s@),
{
    let mut k: usize = 0;
    while k < v.len()
        invariant
            0 <= k <= v@.len(),
            forall|j: int| 0 <= j < k ==> (#[trigger] v@[j])@ != s@,
        decreases v@.len() - k,
    {
        if v[k].eq(s) {
            return true;
        }
        k = k + 1;
    }
    false
}

/// Keeps the first occurrence of every distinct name, in order: the result
/// repeats nothing, every kept name occurs in the input, and every input name
/// is kept once.
pub fn distinct_brands(brands: &Vec<String>) -> (r: Vec<String>)
    ensures
        forall|i: int, j: int| 0 <= i < j < r@.len() ==> (#[trigger] r@[i])@ != (#[trigger] r@[j])@,
        forall|i: int| 0 <= i < r@.len() ==> spec_covered_by(brands@, (#[trigger] r@[i])@),
        forall|j: int| 0 <= j < brands@.len() ==> spec_covered_by(r@, (#[trigger] brands@[j])@),
{
    let mut r: Vec<String> = Vec::new();
    let mut k: usize = 0;
    while k < brands.len()
        invariant
            0 <= k <= brands@.len(),
            forall|i: int, j: int|
                0 <= i < j < r@.len() ==> (#[trigger] r@[i])@ != (#[trigger] r@[j])@,
            forall|i: int| 0 <= i < r@.len() ==> spec_covered_by(brands@, (#[trigger] r@[i])@),
            forall|j: int| 0 <= j < k ==> spec_covered_by(r@, (#[trigger] brands@[j])@),
        decreases brands@.len() - k,
    {
        let b = &brands[k];
        let had = contains_string(&r, b);
        let ghost r_old = r@;
        if !had {
            r.push(b.clone());
        }
        proof {
            assert(forall|i: int| 0 <= i < r_old.len() ==> r@[i] == r_old[i]);
            if !had {
                assert(r@[r@.len() - 1]@ == brands@[k as int]@);
                assert(spec_covered_by(brands@, r@[r@.len() - 1]@));
            }
            assert forall|j: int| 0 <= j < k + 1 implies spec_covered_by(
                r@,
                (#[trigger] brands@[j])@,
            ) by {
                if j < k {
                    let i0 = choose|i: int|
                        0 <= i < r_old.len() && (#[trigger] r_old[i])@ == brands@[j]@;
                    assert(r@[i0]@ == brands@[j]@);
                } else if had {
                    let i0 = choose|i: int|
                        0 <= i < r_old.len() && (#[trigger] r_old[i])@ == brands@[k as int]@;
                    assert(r@[i0]@ == brands@[j]@);
                } else {
                    assert(r@[r@.len() - 1]@ == brands@[j]@);
                }
            }
            assert forall|i: int| 0 <= i < r@.len() implies spec_covered_by(
                brands@,
                (#[trigger] r@[i])@,
            ) by {
                if i >= r_old.len() {
                    assert(r@[i]@ == brands@[k as int]@);
                }
            }
        }
        k = k + 1;
    }
    r
}

/// Assembles one state snapshot from the sampled values: the CPU, memory and
/// swap readings as given, the disk and network sums computed here, the load
/// averages as given.
pub fn build_state_snapshot(
    cpu_usage: u64,
    mem_used: u64,
    swap_used: u64,
    disks: &Vec<DiskSample>,
    nets: &Vec<NetSample>,
    load1: u64,
    load5: u64,
    load15: u64,
) -> (r: StateSnapshot)
    requires
        forall|i: int|
            0 <= i < disks@.len() ==> (#[trigger] disks@[i]).available_space
                <= disks@[i].total_space,
        spec_disk_sums(disks@).0 <= u64::MAX,
        spec_net_totals(nets@).0 <= u64::MAX,
        spec_net_totals(nets@).1 <= u64::MAX,
        spec_net_totals(nets@).2 <= u64::MAX,
        spec_net_totals(nets@).3 <= u64::MAX,
    ensures
        r.cpu_usage == cpu_usage,
        r.mem_used == mem_used,
        r.swap_used == swap_used,
        r.disk_used == spec_disk_sums(disks@).1,
        r.net_in_transfer == spec_net_totals(nets@).0,
        r.net_out_transfer == spec_net_totals(nets@).1,
        r.net_in_speed == spec_net_totals(nets@).2,
        r.net_out_speed == spec_net_totals(nets@).3,
        r.load1 == load1,
        r.load5 == load5,
        r.load15 == load15,
{
    let sums = disk_sums(disks);
    let net = aggregate_net(nets);
    StateSnapshot {
        cpu_usage,
        mem_used,
        swap_used,
        disk_used: sums.1,
        net_in_transfer: net.in_transfer,
        net_out_transfer: net.out_transfer,
        net_in_speed: net.in_speed,
        net_out_speed: net.out_speed,
        load1,
        load5,
        load15,
    }
}

/// Assembles one host snapshot: CPU model names deduplicated, the core count
/// taken from the number of sampled CPUs, total disk space summed over
/// non-overlay disks, and the resolved addresses as given.
pub fn build_host_snapshot(
    os_name: String,
    distribution_id: String,
    os_version: String,
    cpus: Vec<String>,
    kernel_version: String,
    mem_total: u64,
    swap_total: u64,
    arch: String,
    boot_time: u64,
    disks: &Vec<DiskSample>,
    geo: GeoIp,
) -> (r: HostSnapshot)
    requires
        forall|i: int|
            0 <= i < disks@.len() ==> (#[trigger] disks@[i]).available_space
                <= disks@[i].total_space,
        spec_disk_sums(disks@).0 <= u64::MAX,
    ensures
        r.os_name == os_name,
        r.distribution_id == distribution_id,
        r.os_version == os_version,
        r.cpu_cores == cpus@.len(),
        forall|i: int, j: int|
            0 <= i < j < r.cpu@.len() ==> (#[trigger] r.cpu@[i])@ != (#[trigger] r.cpu@[j])@,
        forall|j: int| 0 <= j < cpus@.len() ==> spec_covered_by(r.cpu@, (#[trigger] cpus@[j])@),
        r.kernel_version == kernel_version,
        r.mem_total == mem_total,
        r.disk_total == spec_disk_sums(disks@).0,
        r.swap_total == swap_total,
        r.arch == arch,
        r.boot_time == boot_time,
        r.ipv4 == geo.ipv4,
        r.ipv6 == geo.ipv6,
{
    let cpu_cores = cpus.len() as u64;
    let cpu = distinct_brands(&cpus);
    let sums = disk_sums(disks);
    HostSnapshot {
        os_name,
        distribution_id,
        os_version,
        cpu,
        cpu_cores,
        kernel_version,
        mem_total,
        disk_total: sums.0,
        swap_total,
        arch,
        boot_time,
        ipv4: geo.ipv4,
        ipv6: geo.ipv6,
    }
}

} // verus!
