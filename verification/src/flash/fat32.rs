//! Builds a complete FAT32 file system in one sequential pass.
//!
//! Every file and its size is known up front, so each directory and file
//! gets a contiguous cluster range before anything is written. The volume
//! is then produced from its first byte to its last.
use vstd::prelude::*;
use vstd::arithmetic::div_mod::{
    lemma_div_denominator, lemma_div_is_ordered, lemma_div_is_ordered_by_denominator,
    lemma_multiply_divide_lt, lemma_fundamental_div_mod, lemma_div_multiples_vanish,
    lemma_mod_multiples_basic,
};
use vstd::arithmetic::mul::lemma_mul_inequality;
use crate::models::{decimal, push_decimal, MIB};
pub use super::fat_entries::FatDateTime;
pub use super::fat_names::{short_name, unique_long_names, volume_label, volume_label_text};
pub use super::fat_plan::{FatNode, Placement, Plan};

verus! {

/// Below this many clusters a volume counts as FAT16.
pub const MIN_CLUSTERS: u64 = 65525;
/// Where FAT32 cluster numbers run out.
pub const MAX_CLUSTERS: u64 = 0x0FFF_FFF5;
/// Sectors reserved at least before the FATs.
pub const RESERVED_MIN: u64 = 32;
/// The data region starts on a 1 MiB boundary.
pub const ALIGN: u64 = 1048576;
/// FAT32 can't store a file of 4 GiB or more.
pub const MAX_FILE_SIZE: u64 = 0xFFFF_FFFF;
/// The largest cluster size used.
pub const MAX_CLUSTER_BYTES: u64 = 65536;

pub open spec fn sat_sub(a: int, b: int) -> int {
    if a > b {
        a - b
    } else {
        0
    }
}

/// Sectors of one FAT for `total` sectors of `bps` bytes and `spc` sectors
/// per cluster. Over-estimates the clusters (it ignores the FATs), so the
/// FAT has an entry for every cluster.
pub open spec fn fat_sectors_for(total: int, bps: int, spc: int) -> int {
    ((sat_sub(total, RESERVED_MIN as int) / spc + 2) * 4 + bps - 1) / bps
}

/// First sector of the data region: after the reserved sectors and both
/// FATs, rounded up to the 1 MiB grid.
pub open spec fn data_start_for(total: int, bps: int, spc: int) -> int {
    let a = ALIGN as int / bps;
    ((RESERVED_MIN as int + 2 * fat_sectors_for(total, bps, spc) + a - 1) / a) * a
}

/// Data clusters for a cluster size of `cluster` bytes.
pub open spec fn clusters_for(total: int, bps: int, cluster: int) -> int {
    let spc = cluster / bps;
    sat_sub(total, data_start_for(total, bps, spc)) / spc
}

/// Microsoft's default cluster size for a partition of `bytes`, at least
/// one sector.
pub open spec fn default_cluster(bytes: int, bps: int) -> int {
    let gib = 1073741824int;
    let c = if bytes <= 8 * gib {
        4096int
    } else if bytes <= 16 * gib {
        8192int
    } else if bytes <= 32 * gib {
        16384int
    } else {
        32768int
    };
    if c >= bps {
        c
    } else {
        bps
    }
}

/// Sectors the volume spans: the partition, capped to 32-bit sector numbers.
pub open spec fn total_sectors_for(bytes: int, bps: int) -> int {
    if bytes / bps <= u32::MAX {
        bytes / bps
    } else {
        u32::MAX as int
    }
}

/// The cluster sizes `plan` may pick: powers of two from 512 bytes to
/// 64 KiB.
pub open spec fn is_cluster_size(c: int) -> bool {
    c == 512 || c == 1024 || c == 2048 || c == 4096 || c == 8192 || c == 16384 || c == 32768
        || c == 65536
}

/// `target` is `c` doubled zero or more times.
pub open spec fn doubles_to(c: int, target: int) -> bool
    decreases (if c < target { target - c } else { 0 }),
{
    if c <= 0 || c > target {
        false
    } else if c == target {
        true
    } else {
        doubles_to(2 * c, target)
    }
}

/// `target` is `c` halved zero or more times.
pub open spec fn halves_to(c: int, target: int) -> bool
    decreases c,
{
    if c <= 0 || c < target {
        false
    } else if c == target {
        true
    } else {
        c % 2 == 0 && halves_to(c / 2, target)
    }
}

/// Every size doubling up from `c` below `target` gives too many clusters.
pub open spec fn too_many_up(total: int, bps: int, c: int, target: int) -> bool
    decreases (if c < target { target - c } else { 0 }),
{
    if c <= 0 || c >= target {
        true
    } else {
        clusters_for(total, bps, c) > MAX_CLUSTERS && too_many_up(total, bps, 2 * c, target)
    }
}

/// Every size halving down from `c` above `target` gives too few clusters.
pub open spec fn too_few_down(total: int, bps: int, c: int, target: int) -> bool
    decreases c,
{
    if c <= target || c <= 0 {
        true
    } else {
        clusters_for(total, bps, c) < MIN_CLUSTERS && too_few_down(total, bps, c / 2, target)
    }
}

/// A partition on which no cluster size gives enough clusters: every size
/// from the default down to one sector gives too few.
pub open spec fn too_small_for_fat32(bytes: int, bps: int) -> bool {
    let total = total_sectors_for(bytes, bps);
    let c0 = default_cluster(bytes, bps);
    &&& too_few_down(total, bps, c0, bps)
    &&& clusters_for(total, bps, bps) < MIN_CLUSTERS
}

/// Sizes and regions of a FAT32 volume.
#[derive(Debug, Clone, Copy, PartialEq, Eq, Structural)]
pub struct Geometry {
    pub bytes_per_sector: u32,
    pub sectors_per_cluster: u32,
    pub reserved_sectors: u32,
    pub fat_sectors: u32,
    pub total_sectors: u32,
    /// Number of data clusters (numbered from 2).
    pub clusters: u32,
}

/// `g` is the layout of a volume of `total` sectors with clusters of
/// `spc` sectors.
pub open spec fn geometry_matches(g: Geometry, bytes: int, bps: int) -> bool {
    let total = total_sectors_for(bytes, bps);
    let spc = g.sectors_per_cluster as int;
    &&& g.bytes_per_sector == bps
    &&& g.total_sectors == total
    &&& spc >= 1
    &&& g.fat_sectors == fat_sectors_for(total, bps, spc)
    &&& g.reserved_sectors + 2 * g.fat_sectors == data_start_for(total, bps, spc)
    &&& g.clusters == clusters_for(total, bps, spc * bps)
}

pub proof fn lemma_doubles_extend(c: int, target: int)
    requires
        doubles_to(c, target),
    ensures
        doubles_to(c, 2 * target),
    decreases (if c < target { target - c } else { 0 }),
{
    if c < target {
        lemma_doubles_extend(2 * c, target);
    } else {
        assert(doubles_to(2 * target, 2 * target));
    }
}

pub proof fn lemma_too_many_extend(total: int, bps: int, c: int, target: int)
    requires
        doubles_to(c, target),
        too_many_up(total, bps, c, target),
        clusters_for(total, bps, target) > MAX_CLUSTERS,
    ensures
        too_many_up(total, bps, c, 2 * target),
    decreases (if c < target { target - c } else { 0 }),
{
    if c < target {
        lemma_too_many_extend(total, bps, 2 * c, target);
    } else {
        assert(too_many_up(total, bps, 2 * target, 2 * target));
    }
}

pub proof fn lemma_halves_extend(c: int, target: int)
    requires
        halves_to(c, target),
        target > 0,
        target % 2 == 0,
    ensures
        halves_to(c, target / 2),
    decreases c,
{
    if c > target {
        lemma_halves_extend(c / 2, target);
    } else {
        assert(halves_to(target / 2, target / 2));
    }
}

pub proof fn lemma_too_few_extend(total: int, bps: int, c: int, target: int)
    requires
        halves_to(c, target),
        too_few_down(total, bps, c, target),
        clusters_for(total, bps, target) < MIN_CLUSTERS,
        target > 0,
        target % 2 == 0,
    ensures
        too_few_down(total, bps, c, target / 2),
    decreases c,
{
    if c > target {
        lemma_too_few_extend(total, bps, c / 2, target);
    } else {
        assert(too_few_down(total, bps, target / 2, target / 2));
    }
}

/// Everything in the halving chain from `c` down to `target` gave too few
/// clusters, so anything in it does.
pub proof fn lemma_too_few_member(total: int, bps: int, c: int, mid: int, target: int)
    requires
        halves_to(c, mid),
        too_few_down(total, bps, c, target),
        mid > target,
        target > 0,
    ensures
        clusters_for(total, bps, mid) < MIN_CLUSTERS,
    decreases c,
{
    if c > mid {
        lemma_too_few_member(total, bps, c / 2, mid, target);
    }
}

/// More sectors per cluster never make the FATs or the reserved area larger.
pub proof fn lemma_data_start_mono(total: int, bps: int, s1: int, s2: int)
    requires
        0 <= total,
        bps == 512 || bps == 4096,
        1 <= s1 <= s2,
    ensures
        fat_sectors_for(total, bps, s2) <= fat_sectors_for(total, bps, s1),
        data_start_for(total, bps, s2) <= data_start_for(total, bps, s1),
        data_start_for(total, bps, s1) >= RESERVED_MIN + 2 * fat_sectors_for(total, bps, s1),
{
    let t = sat_sub(total, RESERVED_MIN as int);
    lemma_div_is_ordered_by_denominator(t, s1, s2);
    let x1 = (t / s1 + 2) * 4 + bps - 1;
    let x2 = (t / s2 + 2) * 4 + bps - 1;
    lemma_div_is_ordered(x2, x1, bps);
    let a = ALIGN as int / bps;
    assert(a > 0);
    let f1 = fat_sectors_for(total, bps, s1);
    let f2 = fat_sectors_for(total, bps, s2);
    lemma_div_is_ordered(RESERVED_MIN + 2 * f2 + a - 1, RESERVED_MIN + 2 * f1 + a - 1, a);
    let q1 = (RESERVED_MIN + 2 * f1 + a - 1) / a;
    let q2 = (RESERVED_MIN + 2 * f2 + a - 1) / a;
    lemma_mul_inequality(q2, q1, a);
    lemma_fundamental_div_mod(RESERVED_MIN + 2 * f1 + a - 1, a);
    assert(q1 * a >= RESERVED_MIN + 2 * f1) by (nonlinear_arith)
        requires
            RESERVED_MIN + 2 * f1 + a - 1 == a * q1 + (RESERVED_MIN + 2 * f1 + a - 1) % a,
            0 <= (RESERVED_MIN + 2 * f1 + a - 1) % a < a,
    ;
}

/// Doubling a cluster size that gives too many clusters still gives
/// enough.
pub proof fn lemma_double_keeps_enough(total: int, bps: int, c: int)
    requires
        0 <= total,
        bps == 512 || bps == 4096,
        c >= bps,
        c % bps == 0,
        clusters_for(total, bps, c) > MAX_CLUSTERS,
    ensures
        clusters_for(total, bps, 2 * c) >= MIN_CLUSTERS,
{
    let s = c / bps;
    assert(s >= 1) by (nonlinear_arith)
        requires
            c >= bps,
            bps > 0,
            s == c / bps,
    {
        lemma_div_is_ordered(bps, c, bps);
    }
    assert((2 * c) / bps == 2 * s) by (nonlinear_arith)
        requires
            c % bps == 0,
            bps > 0,
            s == c / bps,
    {
        lemma_fundamental_div_mod(c, bps);
        lemma_fundamental_div_mod(2 * c, bps);
    }
    lemma_data_start_mono(total, bps, s, 2 * s);
    let x1 = sat_sub(total, data_start_for(total, bps, s));
    let x2 = sat_sub(total, data_start_for(total, bps, 2 * s));
    assert(x2 >= x1);
    lemma_div_is_ordered(x1, x2, 2 * s);
    lemma_div_denominator(x1, s, 2);
    assert(s * 2 == 2 * s);
}

/// Halving a cluster size that gives too few clusters doesn't give too
/// many.
pub proof fn lemma_halve_keeps_few(total: int, bps: int, c: int)
    requires
        0 <= total,
        bps == 512 || bps == 4096,
        c > bps,
        c % (2 * bps) == 0,
        clusters_for(total, bps, c) < MIN_CLUSTERS,
    ensures
        clusters_for(total, bps, c / 2) <= MAX_CLUSTERS,
        (c / 2) % bps == 0,
{
    let k = c / (2 * bps);
    lemma_fundamental_div_mod(c, 2 * bps);
    assert(c == 2 * (bps * k) && c == bps * (2 * k)) by (nonlinear_arith)
        requires
            c == (2 * bps) * k + c % (2 * bps),
            c % (2 * bps) == 0,
    ;
    assert(k >= 1) by (nonlinear_arith)
        requires
            c == bps * (2 * k),
            c > bps,
            bps > 0,
    ;
    lemma_div_multiples_vanish(bps * k, 2);
    assert(c / 2 == bps * k);
    lemma_div_multiples_vanish(k, bps);
    lemma_div_multiples_vanish(2 * k, bps);
    lemma_mod_multiples_basic(k, bps);
    assert(k * bps == bps * k) by (nonlinear_arith);
    let h = (c / 2) / bps;
    assert(h == k);
    assert(c / bps == 2 * h);
    lemma_data_start_mono(total, bps, h, 2 * h);
    let x1 = sat_sub(total, data_start_for(total, bps, 2 * h));
    let xh = sat_sub(total, data_start_for(total, bps, h));
    assert(xh <= x1);
    lemma_fundamental_div_mod(x1, 2 * h);
    assert(x1 < MIN_CLUSTERS * (2 * h)) by (nonlinear_arith)
        requires
            x1 == (2 * h) * (x1 / (2 * h)) + x1 % (2 * h),
            x1 % (2 * h) < 2 * h,
            x1 / (2 * h) < MIN_CLUSTERS,
            h >= 1,
    ;
    assert(xh < h * (2 * MIN_CLUSTERS)) by (nonlinear_arith)
        requires
            xh <= x1,
            x1 < MIN_CLUSTERS * (2 * h),
    ;
    lemma_multiply_divide_lt(xh, h, 2 * MIN_CLUSTERS as int);
}

/// With the largest clusters there are never too many: at most
/// 2^32 sectors fit 32-bit sector numbers.
pub proof fn lemma_largest_cluster_fits(total: int, bps: int)
    requires
        0 <= total <= u32::MAX,
        bps == 512 || bps == 4096,
    ensures
        clusters_for(total, bps, MAX_CLUSTER_BYTES as int) <= MAX_CLUSTERS,
{
    let s = MAX_CLUSTER_BYTES as int / bps;
    let ds = data_start_for(total, bps, s);
    lemma_data_start_mono(total, bps, s, s);
    let f = fat_sectors_for(total, bps, s);
    let x = sat_sub(total, ds);
    if bps == 512 {
        assert(s == 128);
        lemma_div_is_ordered(x, u32::MAX as int, 128);
    } else {
        assert(s == 16);
        let t = sat_sub(total, RESERVED_MIN as int);
        if total >= 4294967136 {
            assert(t / 16 >= 268435444) by {
                lemma_div_is_ordered(4294967104int, t, 16);
            }
            assert(f >= 64) by {
                lemma_div_is_ordered(268435446int * 4 + 4095, (t / 16 + 2) * 4 + 4095, 4096);
            }
            assert(x < 268435446 * 16);
        } else {
            assert(x < 268435446 * 16);
        }
        lemma_multiply_divide_lt(x, 16, 268435446);
    }
}

/// The data region is on the 1 MiB grid, and the FAT has an entry for
/// every cluster.
pub proof fn lemma_geometry_facts(t: int, b: int, spc: int, fat: int, ds: int, clusters: int)
    requires
        b == 512 || b == 4096,
        0 <= t,
        1 <= spc,
        fat == fat_sectors_for(t, b, spc),
        ds == data_start_for(t, b, spc),
        ds >= RESERVED_MIN + 2 * fat,
        clusters == clusters_for(t, b, spc * b),
        (spc * b) / b == spc,
    ensures
        (ds * b) % (MIB as int) == 0,
        fat * b / 4 >= clusters + 2,
{
    let a = ALIGN as int / b;
    assert(a * b == MIB);
    let q = (RESERVED_MIN + 2 * fat + a - 1) / a;
    assert(ds * b == q * (MIB as int)) by (nonlinear_arith)
        requires
            ds == q * a,
            a * b == MIB,
    ;
    vstd::arithmetic::div_mod::lemma_mod_multiples_basic(q, MIB as int);
    let x = (sat_sub(t, RESERVED_MIN as int) / spc + 2) * 4;
    lemma_fundamental_div_mod(x + b - 1, b);
    assert(fat * b >= x) by (nonlinear_arith)
        requires
            x + b - 1 == b * fat + (x + b - 1) % b,
            0 <= (x + b - 1) % b < b,
    ;
    lemma_div_is_ordered(x, fat * b, 4);
    assert(x / 4 == sat_sub(t, RESERVED_MIN as int) / spc + 2);
    lemma_div_is_ordered(sat_sub(t, ds), sat_sub(t, RESERVED_MIN as int), spc);
}

/// Where the cluster-size search stands: `dir` is 0 at the default size
/// `c0`, 1 while doubling and 2 while halving.
pub open spec fn search_state(t: int, b: int, c0: int, c: int, dir: int) -> bool {
    &&& b == 512 || b == 4096
    &&& 0 <= t <= u32::MAX
    &&& b <= c
    &&& is_cluster_size(c)
    &&& c0 >= b
    &&& is_cluster_size(c0)
    &&& 0 <= dir <= 2
    &&& dir == 0 ==> c == c0
    &&& dir == 1 ==> doubles_to(c0, c) && too_many_up(t, b, c0, c) && c > c0 && clusters_for(
        t,
        b,
        c0,
    ) > MAX_CLUSTERS
    &&& dir == 2 ==> halves_to(c0, c) && too_few_down(t, b, c0, c) && c < c0 && clusters_for(
        t,
        b,
        c,
    ) <= MAX_CLUSTERS
}

pub proof fn lemma_search_double(t: int, b: int, c0: int, c: int, dir: int)
    requires
        search_state(t, b, c0, c, dir),
        clusters_for(t, b, c) > MAX_CLUSTERS,
        c < MAX_CLUSTER_BYTES,
    ensures
        search_state(t, b, c0, 2 * c, 1),
{
    if dir == 0 {
        assert(doubles_to(c0, c0));
    }
    lemma_doubles_extend(c0, c);
    lemma_too_many_extend(t, b, c0, c);
}

/// The size before the last doubling gave too many clusters.
pub proof fn lemma_too_many_last(t: int, b: int, c: int, target: int)
    requires
        doubles_to(c, target),
        too_many_up(t, b, c, target),
        c < target,
    ensures
        clusters_for(t, b, target / 2) > MAX_CLUSTERS,
        target % 2 == 0,
    decreases target - c,
{
    assert(c > 0 && doubles_to(2 * c, target));
    assert(clusters_for(t, b, c) > MAX_CLUSTERS && too_many_up(t, b, 2 * c, target));
    if 2 * c < target {
        lemma_too_many_last(t, b, 2 * c, target);
    } else {
        assert(2 * c == target);
        assert(target / 2 == c);
    }
}

pub proof fn lemma_search_halve(t: int, b: int, c0: int, c: int, dir: int)
    requires
        search_state(t, b, c0, c, dir),
        clusters_for(t, b, c) < MIN_CLUSTERS,
        c > b,
    ensures
        search_state(t, b, c0, c / 2, 2),
{
    if b == 512 {
        assert(c % 1024 == 0);
        assert((c / 2) % 512 == 0);
    } else {
        assert(c % 8192 == 0);
        assert((c / 2) % 4096 == 0);
    }
    if dir == 1 {
        lemma_too_many_last(t, b, c0, c);
        lemma_double_keeps_enough(t, b, c / 2);
        assert(2 * (c / 2) == c);
        assert(false);
    }
    if dir == 0 {
        assert(halves_to(c0, c0));
    }
    lemma_halves_extend(c0, c);
    lemma_too_few_extend(t, b, c0, c);
    lemma_halve_keeps_few(t, b, c);
}

pub proof fn lemma_search_fails(t: int, b: int, c0: int, c: int, dir: int)
    requires
        search_state(t, b, c0, c, dir),
        clusters_for(t, b, c) < MIN_CLUSTERS,
        c <= b,
    ensures
        too_few_down(t, b, c0, b),
        clusters_for(t, b, b) < MIN_CLUSTERS,
{
    assert(c == b);
    if dir == 1 {
        assert(false);
    }
}

pub proof fn lemma_search_succeeds(t: int, b: int, c0: int, c: int, dir: int)
    requires
        search_state(t, b, c0, c, dir),
        clusters_for(t, b, c) >= MIN_CLUSTERS,
        clusters_for(t, b, c) <= MAX_CLUSTERS || c >= MAX_CLUSTER_BYTES,
    ensures
        MIN_CLUSTERS <= clusters_for(t, b, c) <= MAX_CLUSTERS,
        !(too_few_down(t, b, c0, b) && clusters_for(t, b, b) < MIN_CLUSTERS),
        (doubles_to(c0, c) && too_many_up(t, b, c0, c)) || (halves_to(c0, c) && too_few_down(
            t,
            b,
            c0,
            c,
        )),
{
    if c >= MAX_CLUSTER_BYTES {
        lemma_largest_cluster_fits(t, b);
    }
    if too_few_down(t, b, c0, b) && clusters_for(t, b, b) < MIN_CLUSTERS {
        if dir == 2 && c > b {
            lemma_too_few_member(t, b, c0, c, b);
        }
        if dir == 0 && c0 > b {
            assert(clusters_for(t, b, c0) < MIN_CLUSTERS);
        }
        if dir == 1 {
            assert(c0 > b ==> clusters_for(t, b, c0) < MIN_CLUSTERS);
            lemma_double_keeps_enough(t, b, c0);
        }
    }
    if dir == 0 {
        assert(doubles_to(c0, c0));
    }
}

/// Sectors of one FAT, first data sector and data clusters for clusters
/// of `cluster` bytes.
fn layout_for(total: u64, bps: u64, cluster: u64) -> (r: (u64, u64, u64))
    requires
        total <= u32::MAX,
        bps == 512 || bps == 4096,
        is_cluster_size(cluster as int),
        cluster >= bps,
    ensures
        r.0 == fat_sectors_for(total as int, bps as int, (cluster / bps) as int),
        r.1 == data_start_for(total as int, bps as int, (cluster / bps) as int),
        r.2 == clusters_for(total as int, bps as int, cluster as int),
        r.1 >= RESERVED_MIN + 2 * r.0,
        r.0 <= 0x0400_0000,
        r.1 <= 0x0900_0000,
        r.2 <= u32::MAX,
        1 <= cluster / bps <= 128,
{
    let spc = cluster / bps;
    let t = total.saturating_sub(RESERVED_MIN);
    proof {
        assert(1 <= spc <= 128);
        lemma_div_is_ordered(t as int / spc as int, t as int, 1);
        assert(t as int / spc as int <= t);
    }
    let fat_sectors = ((t / spc + 2) * 4 + bps - 1) / bps;
    let a = ALIGN / bps;
    proof {
        lemma_div_is_ordered(((t / spc + 2) * 4 + bps - 1) as int, 0x4_0000_0010int + 4095, bps as int);
        lemma_div_is_ordered(0x4_0000_0010int + 4095, 0x4_0000_0010int + 4095, 512);
        lemma_div_is_ordered_by_denominator(0x4_0000_0010int + 4095, 512, bps as int);
        lemma_data_start_mono(total as int, bps as int, spc as int, spc as int);
    }
    let data_start = (RESERVED_MIN + 2 * fat_sectors + a - 1) / a * a;
    proof {
        lemma_div_is_ordered((RESERVED_MIN + 2 * fat_sectors + a - 1) as int, 0x0800_1000int, a as int);
        assert((0x0800_1000int / a as int) * a as int <= 0x0800_1000) by {
            lemma_fundamental_div_mod(0x0800_1000int, a as int);
        }
        lemma_mul_inequality((RESERVED_MIN + 2 * fat_sectors + a - 1) as int / a as int, 0x0800_1000int / a as int, a as int);
    }
    let clusters = total.saturating_sub(data_start) / spc;
    proof {
        lemma_div_is_ordered((total.saturating_sub(data_start)) as int, total as int, spc as int);
        lemma_div_is_ordered_by_denominator(total as int, 1, spc as int);
    }
    (fat_sectors, data_start, clusters)
}

/// What `Geometry::plan` picks for a partition of `bytes` bytes with
/// `bps`-byte sectors: Microsoft's default cluster size, doubled while
/// there are too many clusters or halved while there are too few.
pub open spec fn planned_geometry(g: Geometry, bytes: int, bps: int) -> bool {
    let total = total_sectors_for(bytes, bps);
    let c0 = default_cluster(bytes, bps);
    let c = g.sectors_per_cluster * bps;
    &&& geometry_matches(g, bytes, bps)
    &&& MIN_CLUSTERS <= g.clusters <= MAX_CLUSTERS
    &&& ((doubles_to(c0, c) && too_many_up(total, bps, c0, c)) || (halves_to(c0, c) && too_few_down(
        total,
        bps,
        c0,
        c,
    )))
    &&& (g.reserved_sectors + 2 * g.fat_sectors) * bps % (MIB as int) == 0
    &&& g.fat_sectors * bps / 4 >= g.clusters + 2
}

/// Why no FAT32 volume can be planned.
pub open spec fn geometry_error_text(bytes: int, bps: u32) -> Seq<char> {
    if bps != 512 && bps != 4096 {
        "unsupported sector size "@ + decimal(bps as nat)
    } else {
        "the drive is too small for FAT32"@
    }
}

impl Geometry {
    /// Picks cluster size and region sizes for a partition of
    /// `partition_bytes`. Cluster sizes start at Microsoft's defaults and
    /// double while there are too many clusters, or halve while there are
    /// too few.
    pub fn plan(partition_bytes: u64, bytes_per_sector: u32) -> (r: Result<Geometry, String>)
        ensures
            (r is Err) <==> (bytes_per_sector != 512 && bytes_per_sector != 4096)
                || too_small_for_fat32(partition_bytes as int, bytes_per_sector as int),
            r matches Ok(g) ==> planned_geometry(g, partition_bytes as int, bytes_per_sector as int),
            r matches Err(m) ==> m@ == geometry_error_text(partition_bytes as int, bytes_per_sector),
    {
        let bps = bytes_per_sector as u64;
        if bps != 512 && bps != 4096 {
            let mut msg = String::from_str("unsupported sector size ");
            push_decimal(&mut msg, bps);
            proof {
                reveal_strlit("unsupported sector size ");
            }
            return Err(msg);
        }
        let total = if partition_bytes / bps <= 0xFFFF_FFFF {
            partition_bytes / bps
        } else {
            0xFFFF_FFFF
        };
        let gib: u64 = 1073741824;
        let mut cluster: u64 = if partition_bytes <= 8 * gib {
            4096
        } else if partition_bytes <= 16 * gib {
            8192
        } else if partition_bytes <= 32 * gib {
            16384
        } else {
            32768
        };
        if cluster < bps {
            cluster = bps;
        }
        let ghost c0 = cluster as int;
        let ghost t = total as int;
        let ghost b = bps as int;
        // 0: at the default, 1: doubling, 2: halving.
        let ghost mut dir: int = 0;
        proof {
            assert(c0 == default_cluster(partition_bytes as int, b));
            assert(t == total_sectors_for(partition_bytes as int, b));
            assert(is_cluster_size(c0));
        }
        loop
            invariant
                bps == 512 || bps == 4096,
                b == bps,
                t == total,
                total <= u32::MAX,
                c0 == default_cluster(partition_bytes as int, b),
                t == total_sectors_for(partition_bytes as int, b),
                bytes_per_sector == bps,
                search_state(t, b, c0, cluster as int, dir),
            decreases (if dir == 2 { 0int } else { 1int }), (if dir == 2 {
                cluster as int
            } else {
                2 * MAX_CLUSTER_BYTES - cluster
            }),
        {
            let spc = cluster / bps;
            let (fat_sectors, data_start, clusters) = layout_for(total, bps, cluster);
            if clusters > MAX_CLUSTERS && cluster < MAX_CLUSTER_BYTES {
                proof {
                    lemma_search_double(t, b, c0, cluster as int, dir);
                    dir = 1;
                }
                cluster = cluster * 2;
                continue;
            }
            if clusters < MIN_CLUSTERS {
                if cluster > bps {
                    proof {
                        lemma_search_halve(t, b, c0, cluster as int, dir);
                        dir = 2;
                    }
                    cluster = cluster / 2;
                    continue;
                }
                proof {
                    lemma_search_fails(t, b, c0, cluster as int, dir);
                }
                return Err(String::from_str("the drive is too small for FAT32"));
            }
            proof {
                lemma_search_succeeds(t, b, c0, cluster as int, dir);
                lemma_geometry_facts(t, b, spc as int, fat_sectors as int, data_start as int, clusters as int);
            }
            return Ok(Geometry {
                bytes_per_sector,
                sectors_per_cluster: spc as u32,
                reserved_sectors: (data_start - 2 * fat_sectors) as u32,
                fat_sectors: fat_sectors as u32,
                total_sectors: total as u32,
                clusters: clusters as u32,
            });
        }
    }

    pub open spec fn spec_cluster_bytes(&self) -> int {
        self.sectors_per_cluster * self.bytes_per_sector
    }

    pub open spec fn spec_data_offset(&self) -> int {
        (self.reserved_sectors + 2 * self.fat_sectors) * self.bytes_per_sector
    }

    pub fn cluster_bytes(&self) -> (r: u64)
        ensures
            r == self.spec_cluster_bytes(),
    {
        proof {
            vstd::arithmetic::mul::lemma_mul_upper_bound(
                self.sectors_per_cluster as int,
                u32::MAX as int,
                self.bytes_per_sector as int,
                u32::MAX as int,
            );
        }
        self.sectors_per_cluster as u64 * self.bytes_per_sector as u64
    }

    /// Byte offset of the data region from the start of the partition.
    pub fn data_offset(&self) -> (r: u64)
        requires
            self.spec_data_offset() <= u64::MAX,
        ensures
            r == self.spec_data_offset(),
    {
        (self.reserved_sectors as u64 + 2 * self.fat_sectors as u64) * self.bytes_per_sector as u64
    }
}

} // verus!
