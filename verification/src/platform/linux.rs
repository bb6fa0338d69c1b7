//! The Linux disk provider: turns what `lsblk`, `blkid` and sysfs
//! report into disks and their layouts.
use vstd::prelude::*;
use crate::flash::fat_names::{chars_of, string_of};
use crate::models::{
    ascii_lowercase, decimal, partitions_of, push_decimal, str_eq, to_ascii_lowercase, trim_str,
    trimmed, BusType, ByteSize, Disk, DiskId, FileSystem, HealthStatus, MediaType, Partition,
    PartitionFlags, PartitionId, PartitionKind, PartitionTable, Segment, fs_from_lsblk,
    partition_id_text, FLAG_ACTIVE_MOUNT, FLAG_BOOT, FLAG_LOCKED, FLAG_SYSTEM,
};
use crate::text::{starts_with, strings_view};
use super::{DiskInventory, InventoryError, InventorySource};

verus! {

/// GPT keeps a backup header and entry array at the very end of the
/// disk, which `lsblk`'s device size doesn't exclude; the trailing free
/// space is capped by this already MiB-aligned amount.
pub const GPT_BACKUP_RESERVE: u64 = 1048576;

/// A device as `lsblk --json --bytes --output-all --paths` lists it (only
/// the fields used), with what was probed for it on top: its start from
/// sysfs (in bytes) and the file system type and label `blkid` read.
#[derive(Debug, Default)]
pub struct LsblkDevice {
    pub name: String,
    pub path: Option<String>,
    pub size: u64,
    pub dev_type: String,
    pub ro: bool,
    pub rm: bool,
    pub tran: Option<String>,
    pub rota: Option<bool>,
    pub model: Option<String>,
    pub vendor: Option<String>,
    pub serial: Option<String>,
    pub pttype: Option<String>,
    pub fstype: Option<String>,
    pub label: Option<String>,
    pub parttype: Option<String>,
    pub mountpoints: Option<Vec<Option<String>>>,
    pub phy_sec: Option<u32>,
    pub children: Option<Vec<LsblkDevice>>,
    pub sysfs_start: Option<u64>,
    pub blkid_fstype: Option<String>,
    pub blkid_label: Option<String>,
}

/// The text of an optional string.
pub open spec fn opt_text(o: Option<String>) -> Option<Seq<char>> {
    match o {
        Some(s) => Some(s@),
        None => None,
    }
}

/// Index of the last `/`, or -1.
pub open spec fn last_slash(s: Seq<char>) -> int
    decreases s.len(),
{
    if s.len() == 0 {
        -1
    } else if s.last() == '/' {
        s.len() - 1
    } else {
        last_slash(s.drop_last())
    }
}

pub proof fn lemma_last_slash(s: Seq<char>)
    ensures
        -1 <= last_slash(s) < s.len(),
    decreases s.len(),
{
    if s.len() > 0 && s.last() != '/' {
        lemma_last_slash(s.drop_last());
    }
}

/// What follows the last `/` of a path (all of it without one).
pub open spec fn spec_basename(s: Seq<char>) -> Seq<char> {
    s.skip(last_slash(s) + 1)
}

/// The bare device name of a path: what follows its last `/`.
pub fn basename(path: &str) -> (r: &str)
    ensures
        r@ == spec_basename(path@),
{
    let n = path.unicode_len();
    let mut i = n;
    proof {
        lemma_last_slash(path@);
        assert(path@.take(n as int) =~= path@);
    }
    while i > 0
        invariant
            i <= n,
            n == path@.len(),
            last_slash(path@) == last_slash(path@.take(i as int)),
        decreases i,
    {
        if path.get_char(i - 1) == '/' {
            return path.substring_char(i, n);
        }
        assert(path@.take(i as int).drop_last() =~= path@.take(i - 1));
        i = i - 1;
    }
    path.substring_char(0, n)
}

/// A partition's device path: the name itself if it is a path, else
/// under `/dev/`.
pub open spec fn spec_child_path(name: Seq<char>) -> Seq<char> {
    if name.len() > 0 && name[0] == '/' {
        name
    } else {
        "/dev/"@ + name
    }
}

pub fn child_path(name: &str) -> (r: String)
    ensures
        r@ == spec_child_path(name@),
{
    if name.unicode_len() > 0 && name.get_char(0) == '/' {
        String::from_str(name)
    } else {
        let mut s = String::from_str("/dev/");
        s.append(name);
        s
    }
}

/// Vendor or model text: trimmed, and empty where it is a raw PCI vendor
/// id (`0x...`), as virtio devices report.
pub open spec fn spec_clean_vendor_model(raw: Option<Seq<char>>) -> Seq<char> {
    let v = match raw {
        Some(s) => trimmed(s),
        None => Seq::empty(),
    };
    if v.len() >= 2 && v[0] == '0' && v[1] == 'x' {
        Seq::empty()
    } else {
        v
    }
}

pub fn clean_vendor_model(raw: Option<String>) -> (r: String)
    ensures
        r@ == spec_clean_vendor_model(opt_text(raw)),
{
    let value = match &raw {
        Some(s) => trim_str(s.as_str()),
        None => String::new(),
    };
    if value.unicode_len() >= 2 && value.as_str().get_char(0) == '0' && value.as_str().get_char(1) == 'x' {
        String::new()
    } else {
        value
    }
}

/// GPT partition type GUIDs MoonDisk recognizes.
pub open spec fn guid_efi() -> Seq<char> {
    "c12a7328-f81f-11d2-ba4b-00a0c93ec93b"@
}

pub open spec fn guid_msr() -> Seq<char> {
    "e3c9e316-0b5c-4db8-817d-f92df00215ae"@
}

pub open spec fn guid_recovery() -> Seq<char> {
    "de94bba4-06d1-4d40-a16a-bfd50179d6ac"@
}

/// A partition's role from its GPT type GUID (any case), else from its
/// file system.
pub open spec fn spec_partition_kind(parttype: Option<Seq<char>>, fs: FileSystem) -> PartitionKind {
    let g = match parttype {
        Some(t) => Some(ascii_lowercase(t)),
        None => None,
    };
    if g == Some(guid_efi()) {
        PartitionKind::Efi
    } else if g == Some(guid_msr()) {
        PartitionKind::MicrosoftReserved
    } else if g == Some(guid_recovery()) {
        PartitionKind::Recovery
    } else if fs == FileSystem::LinuxSwap {
        PartitionKind::LinuxSwap
    } else if fs is Ext2 || fs is Ext3 || fs is Ext4 || fs is Btrfs || fs is Xfs {
        PartitionKind::LinuxFilesystem
    } else {
        PartitionKind::Other
    }
}

pub fn partition_kind(parttype_guid: Option<&str>, fs: FileSystem) -> (r: PartitionKind)
    ensures
        r == spec_partition_kind(
            match parttype_guid {
                Some(t) => Some(t@),
                None => None,
            },
            fs,
        ),
{
    match parttype_guid {
        Some(t) => {
            let g = to_ascii_lowercase(t);
            if str_eq(g.as_str(), "c12a7328-f81f-11d2-ba4b-00a0c93ec93b") {
                return PartitionKind::Efi;
            }
            if str_eq(g.as_str(), "e3c9e316-0b5c-4db8-817d-f92df00215ae") {
                return PartitionKind::MicrosoftReserved;
            }
            if str_eq(g.as_str(), "de94bba4-06d1-4d40-a16a-bfd50179d6ac") {
                return PartitionKind::Recovery;
            }
        },
        None => {},
    }
    if fs == FileSystem::LinuxSwap {
        PartitionKind::LinuxSwap
    } else if matches!(fs, FileSystem::Ext2 | FileSystem::Ext3 | FileSystem::Ext4 | FileSystem::Btrfs | FileSystem::Xfs) {
        PartitionKind::LinuxFilesystem
    } else {
        PartitionKind::Other
    }
}

/// Number of trailing ASCII digits.
pub open spec fn trailing_digits(s: Seq<char>) -> nat
    decreases s.len(),
{
    if s.len() > 0 && '0' <= s.last() <= '9' {
        1 + trailing_digits(s.drop_last())
    } else {
        0
    }
}

/// The number an ASCII decimal text stands for.
pub open spec fn digits_value(s: Seq<char>) -> int
    decreases s.len(),
{
    if s.len() == 0 {
        0
    } else {
        digits_value(s.drop_last()) * 10 + (s.last() as int - '0' as int)
    }
}

/// The partition number at the end of a device name (`sda1` is 1,
/// `nvme0n1p2` is 2); none without trailing digits or where the number
/// doesn't fit 32 bits.
pub open spec fn spec_partition_number(name: Seq<char>) -> Option<u32> {
    let k = trailing_digits(name);
    let v = digits_value(name.skip(name.len() - k));
    if k == 0 || v > u32::MAX {
        None
    } else {
        Some(v as u32)
    }
}

pub proof fn lemma_trailing_digits(s: Seq<char>)
    ensures
        trailing_digits(s) <= s.len(),
        forall|j: int| s.len() - trailing_digits(s) <= j < s.len() ==> '0' <= #[trigger] s[j] <= '9',
        trailing_digits(s) < s.len() ==> !('0' <= s[s.len() - trailing_digits(s) - 1] <= '9'),
    decreases s.len(),
{
    if s.len() > 0 && '0' <= s.last() <= '9' {
        lemma_trailing_digits(s.drop_last());
        assert forall|j: int| s.len() - trailing_digits(s) <= j < s.len() implies '0' <= #[trigger] s[j] <= '9' by {
            if j < s.len() - 1 {
                assert(s[j] == s.drop_last()[j]);
            }
        }
    }
}

pub proof fn lemma_digits_value_mono(s: Seq<char>, i: int)
    requires
        0 <= i <= s.len(),
        forall|j: int| 0 <= j < s.len() ==> '0' <= #[trigger] s[j] <= '9',
    ensures
        0 <= digits_value(s.take(i)) <= digits_value(s),
    decreases s.len(),
{
    if i < s.len() {
        assert(s.drop_last().take(i) =~= s.take(i));
        lemma_digits_value_mono(s.drop_last(), i);
    } else {
        assert(s.take(i) =~= s);
    }
    if s.len() > 0 {
        lemma_digits_value_mono(s.drop_last(), s.len() - 1);
        assert(s.drop_last().take(s.len() - 1) =~= s.drop_last());
    }
}

/// The partition number at the end of a device name.
pub fn extract_partition_number(child_name: &str, parent_name: &str) -> (r: Option<u32>)
    ensures
        r == spec_partition_number(child_name@),
{
    let v = chars_of(child_name);
    let mut k: usize = 0;
    proof {
        lemma_trailing_digits(v@);
        assert(v@.take(v.len() as int) =~= v@);
    }
    while k < v.len() && '0' <= v[v.len() - 1 - k] && v[v.len() - 1 - k] <= '9'
        invariant
            v@ == child_name@,
            k <= trailing_digits(v@),
            trailing_digits(v@) <= v.len(),
            forall|j: int| v.len() - trailing_digits(v@) <= j < v.len() ==> '0' <= #[trigger] v@[j] <= '9',
            trailing_digits(v@) < v.len() ==> !('0' <= v@[v.len() - trailing_digits(v@) - 1] <= '9'),
        decreases v.len() - k,
    {
        k = k + 1;
    }
    assert(k == trailing_digits(v@));
    if k == 0 {
        return None;
    }
    let start = v.len() - k;
    let ghost ds = v@.skip(start as int);
    let mut value: u64 = 0;
    let mut i: usize = start;
    while i < v.len()
        invariant
            start <= i <= v.len(),
            v@ == child_name@,
            start == v.len() - trailing_digits(v@),
            start < v.len(),
            ds == v@.skip(start as int),
            forall|j: int| 0 <= j < ds.len() ==> '0' <= #[trigger] ds[j] <= '9',
            value == digits_value(ds.take(i - start)),
            value <= u32::MAX,
        decreases v.len() - i,
    {
        assert(ds.take(i - start + 1).drop_last() =~= ds.take(i - start));
        assert(ds[i - start] == v@[i as int]);
        let d = v[i] as u64 - '0' as u64;
        value = value * 10 + d;
        assert(ds.take(i - start + 1).last() == ds[i - start]);
        assert(value == digits_value(ds.take(i - start + 1)));
        if value > 0xFFFF_FFFF {
            proof {
                lemma_digits_value_mono(ds, i - start + 1);
            }
            return None;
        }
        i = i + 1;
    }
    assert(ds.take(ds.len() as int) =~= ds);
    Some(value as u32)
}

/// The bus a disk is on, from its transport; without one, loop and
/// virtio (`vd*`) devices are virtual and removable ones count as USB.
pub open spec fn spec_bus(tran: Option<Seq<char>>, dev_type: Seq<char>, name: Seq<char>, rm: bool) -> BusType {
    match tran {
        Some(t) => if t == "nvme"@ {
            BusType::Nvme
        } else if t == "sata"@ || t == "ata"@ {
            BusType::Sata
        } else if t == "usb"@ {
            BusType::Usb
        } else if t == "virtio"@ {
            BusType::Virtual
        } else {
            BusType::Unknown
        },
        None => {
            let b = spec_basename(name);
            if dev_type == "loop"@ || (b.len() >= 2 && b.take(2) == "vd"@) {
                BusType::Virtual
            } else if rm {
                BusType::Usb
            } else {
                BusType::Unknown
            }
        },
    }
}

fn bus_of(dev: &LsblkDevice) -> (r: BusType)
    ensures
        r == spec_bus(opt_text(dev.tran), dev.dev_type@, dev.name@, dev.rm),
{
    match &dev.tran {
        Some(t) => {
            let t = t.as_str();
            if str_eq(t, "nvme") {
                BusType::Nvme
            } else if str_eq(t, "sata") || str_eq(t, "ata") {
                BusType::Sata
            } else if str_eq(t, "usb") {
                BusType::Usb
            } else if str_eq(t, "virtio") {
                BusType::Virtual
            } else {
                BusType::Unknown
            }
        },
        None => {
            proof {
                reveal_strlit("vd");
            }
            if str_eq(dev.dev_type.as_str(), "loop") || starts_with(basename(dev.name.as_str()), "vd") {
                BusType::Virtual
            } else if dev.rm {
                BusType::Usb
            } else {
                BusType::Unknown
            }
        },
    }
}

/// The partition table type `lsblk` names.
pub open spec fn spec_table(pttype: Option<Seq<char>>) -> PartitionTable {
    if pttype == Some("gpt"@) {
        PartitionTable::Gpt
    } else if pttype == Some("dos"@) {
        PartitionTable::Mbr
    } else {
        PartitionTable::NoTable
    }
}

/// A disk's device path: the listed path, else `/dev/` and its name.
pub open spec fn spec_disk_path(dev: LsblkDevice) -> Seq<char> {
    match dev.path {
        Some(p) => p@,
        None => "/dev/"@ + dev.name@,
    }
}

/// Whether the system's root device lies on the device at `path`.
pub open spec fn on_system(system_source: Option<Seq<char>>, path: Seq<char>) -> bool {
    match system_source {
        Some(src) => path.len() <= src.len() && src.take(path.len() as int) == path,
        None => false,
    }
}

/// Where a child starts: as sysfs says, else right after the previous one.
pub open spec fn child_start(c: LsblkDevice, cursor: int) -> int {
    match c.sysfs_start {
        Some(s) => s as int,
        None => cursor,
    }
}

/// The end of the first `k` children, laid out one after another.
pub open spec fn cursor_after(children: Seq<LsblkDevice>, k: int) -> int
    decreases k,
{
    if k <= 0 {
        0
    } else {
        child_start(children[k - 1], cursor_after(children, k - 1)) + children[k - 1].size
    }
}

/// Where the free space at the end of a disk stops: before the GPT backup
/// on GPT disks.
pub open spec fn usable_end(size: u64, table: PartitionTable) -> int {
    if table == PartitionTable::Gpt {
        if size >= GPT_BACKUP_RESERVE {
            size - GPT_BACKUP_RESERVE
        } else {
            0
        }
    } else {
        size as int
    }
}

/// The flag bits of a partition: mounted where it has mount points;
/// system, boot and locked where the system runs from it.
pub open spec fn child_flags(mounted: bool, system: bool) -> u8 {
    ((if mounted { FLAG_ACTIVE_MOUNT } else { 0u8 }) | (if system {
        FLAG_SYSTEM | FLAG_BOOT | FLAG_LOCKED
    } else {
        0u8
    })) as u8
}

/// The end of a segment.
pub open spec fn seg_end(s: Segment) -> int {
    s.spec_start() + s.spec_size()
}

/// Free space fills exactly the gap in front of what follows it.
pub open spec fn gaps_ok(layout: Seq<Segment>) -> bool {
    forall|i: int|
        0 <= i < layout.len() ==> ((#[trigger] layout[i]) is Unallocated ==> layout[i].spec_size()
            > 0 && layout[i].spec_start() == (if i == 0 {
            0
        } else {
            seg_end(layout[i - 1])
        }) && (i + 1 < layout.len() ==> seg_end(layout[i]) == layout[i + 1].spec_start()))
}

/// Partition `k` of a disk matches child `k` of the device.
pub open spec fn partition_matches(
    p: Partition,
    c: LsblkDevice,
    k: int,
    cursor: int,
    path: Seq<char>,
    system_source: Option<Seq<char>>,
    is_system: bool,
) -> bool {
    let number = match spec_partition_number(c.name@) {
        Some(n) => n,
        None => (k + 1) as u32,
    };
    let fs = fs_from_lsblk(
        match c.blkid_fstype {
            Some(t) => t@,
            None => match c.fstype {
                Some(t) => t@,
                None => Seq::empty(),
            },
        },
    );
    &&& p.start.0 == child_start(c, cursor)
    &&& p.size.0 == c.size
    &&& p.number == number
    &&& p.id.0@ == partition_id_text(path, number as nat)
    &&& p.fs == fs
    &&& p.kind == spec_partition_kind(opt_text(c.parttype), fs)
    &&& opt_text(p.label) == (match c.blkid_label {
        Some(l) => Some(l@),
        None => opt_text(c.label),
    })
    &&& p.used is None
    &&& p.drive_letter is None
    &&& p.flags.bits == child_flags(
        p.mountpoints.len() > 0,
        is_system && on_system(system_source, spec_child_path(c.name@)),
    )
}


/// The children a device lists.
pub open spec fn children_of(dev: LsblkDevice) -> Seq<LsblkDevice> {
    match dev.children {
        Some(c) => c@,
        None => Seq::empty(),
    }
}

/// What a disk's display name says: "Datenträger" and its position.
pub open spec fn display_name_of(index: nat) -> Seq<char> {
    "Datenträger "@ + decimal(index)
}

fn clone_opt(o: &Option<String>) -> (r: Option<String>)
    ensures
        opt_text(r) == opt_text(*o),
{
    match o {
        Some(s) => Some(s.clone()),
        None => None,
    }
}

/// The mount points `lsblk` lists, without the empty entries.
pub open spec fn present(ms: Seq<Option<String>>) -> Seq<Seq<char>>
    decreases ms.len(),
{
    if ms.len() == 0 {
        Seq::empty()
    } else {
        let p = present(ms.drop_last());
        match ms.last() {
            Some(m) => p.push(m@),
            None => p,
        }
    }
}

fn mount_points(ms: &Option<Vec<Option<String>>>) -> (r: Vec<String>)
    ensures
        strings_view(r@) == match ms {
            Some(v) => present(v@),
            None => Seq::empty(),
        },
{
    let mut out: Vec<String> = Vec::new();
    match ms {
        Some(v) => {
            let mut i: usize = 0;
            while i < v.len()
                invariant
                    i <= v.len(),
                    strings_view(out@) == present(v@.take(i as int)),
                decreases v.len() - i,
            {
                assert(v@.take(i + 1).drop_last() =~= v@.take(i as int));
                match &v[i] {
                    Some(m) => {
                        let ghost before = strings_view(out@);
                        out.push(m.clone());
                        assert(strings_view(out@) =~= before.push(m@));
                    },
                    None => {},
                }
                i = i + 1;
            }
            assert(v@.take(v.len() as int) =~= v@);
        },
        None => {},
    }
    out
}

pub proof fn lemma_partitions_push(l: Seq<Segment>, s: Segment)
    ensures
        partitions_of(l.push(s)) == match s {
            Segment::Partition(p) => partitions_of(l).push(p),
            Segment::Unallocated { .. } => partitions_of(l),
        },
{
    assert(l.push(s).drop_last() =~= l);
}

/// Builds the disk for one `lsblk` device (disk or loop device), the
/// `index`-th listed. Partitions follow each other in the order listed,
/// each at the start sysfs gave or else right after the previous one;
/// free space fills the gaps, and the end of the disk up to where the GPT
/// backup begins.
/// Disk `r` is what `to_disk` makes of device `dev`, the `index`-th disk
/// listed, with `sys` the source of the root file system.
pub open spec fn lsblk_disk(r: Disk, dev: LsblkDevice, index: nat, sys: Option<Seq<char>>) -> bool {
    &&& r.id.0@ == spec_disk_path(dev)
    &&& r.display_name@ == display_name_of(index)
    &&& r.vendor@ == spec_clean_vendor_model(opt_text(dev.vendor))
    &&& r.model@ == spec_clean_vendor_model(opt_text(dev.model))
    &&& opt_text(r.serial) == opt_text(dev.serial)
    &&& r.bus == spec_bus(opt_text(dev.tran), dev.dev_type@, dev.name@, dev.rm)
    &&& r.media == match dev.rota {
            Some(true) => MediaType::Hdd,
            Some(false) => MediaType::Ssd,
            None => MediaType::Unknown,
        }
    &&& r.size.0 == dev.size
    &&& r.logical_sector_size == match dev.phy_sec {
            Some(s) => s,
            None => 512,
        }
    &&& r.table == spec_table(opt_text(dev.pttype))
    &&& r.health == HealthStatus::Unknown
    &&& r.read_only == dev.ro
    &&& r.is_system_disk == on_system(
            sys,
            spec_disk_path(dev),
        )
    &&& partitions_of(r.layout@).len() == children_of(dev).len()
    &&& forall|k: int|
            0 <= k < children_of(dev).len() ==> partition_matches(
                #[trigger] partitions_of(r.layout@)[k],
                children_of(dev)[k],
                k,
                cursor_after(children_of(dev), k),
                spec_disk_path(dev),
                sys,
                r.is_system_disk,
            )
    &&& gaps_ok(r.layout@)
    &&& ({
            let c = cursor_after(children_of(dev), children_of(dev).len() as int);
            let e = usable_end(dev.size, r.table);
            if c < e {
                r.layout@.len() > 0 && r.layout@.last() is Unallocated && r.layout@.last().spec_start()
                    == c && seg_end(r.layout@.last()) == e
            } else {
                r.layout@.len() == 0 || r.layout@.last() is Partition
            }
        })
}

pub fn to_disk(dev: &LsblkDevice, index: usize, system_source: Option<&str>) -> (r: Disk)
    requires
        device_ok(*dev),
    ensures
        lsblk_disk(
            r,
            *dev,
            index as nat,
            match system_source {
                Some(s) => Some(s@),
                None => None,
            },
        ),
{
    let ghost kids = children_of(*dev);
    let ghost sys = match system_source {
        Some(s) => Some(s@),
        None => None,
    };
    let ghost dpath = spec_disk_path(*dev);
    let path = match &dev.path {
        Some(p) => p.clone(),
        None => {
            let mut s = String::from_str("/dev/");
            s.append(dev.name.as_str());
            s
        },
    };
    let id = DiskId::from_string(path.clone());
    let bus = bus_of(dev);
    let media = match dev.rota {
        Some(true) => MediaType::Hdd,
        Some(false) => MediaType::Ssd,
        None => MediaType::Unknown,
    };
    let table = match &dev.pttype {
        Some(t) => if str_eq(t.as_str(), "gpt") {
            PartitionTable::Gpt
        } else if str_eq(t.as_str(), "dos") {
            PartitionTable::Mbr
        } else {
            PartitionTable::NoTable
        },
        None => PartitionTable::NoTable,
    };
    let is_system_disk = match system_source {
        Some(src) => starts_with(src, path.as_str()),
        None => false,
    };
    let empty: Vec<LsblkDevice> = Vec::new();
    let children = match &dev.children {
        Some(c) => c,
        None => &empty,
    };
    assert(children@ == kids);
    let mut layout: Vec<Segment> = Vec::new();
    let mut cursor: u64 = 0;
    let mut i: usize = 0;
    while i < children.len()
        invariant
            i <= children.len(),
            children@ == kids,
            kids.len() < u32::MAX,
            forall|k: int| 0 <= k <= kids.len() ==> cursor_after(kids, k) <= u64::MAX,
            cursor == cursor_after(kids, i as int),
            cursor == if layout@.len() == 0 {
                0
            } else {
                seg_end(layout@.last())
            },
            layout@.len() == 0 || layout@.last() is Partition,
            id.0@ == dpath,
            sys == match system_source {
                Some(s) => Some(s@),
                None => None,
            },
            partitions_of(layout@).len() == i,
            forall|k: int|
                0 <= k < i ==> partition_matches(
                    #[trigger] partitions_of(layout@)[k],
                    kids[k],
                    k,
                    cursor_after(kids, k),
                    dpath,
                    sys,
                    is_system_disk,
                ),
            gaps_ok(layout@),
        decreases children.len() - i,
    {
        let child = &children[i];
        let start = match child.sysfs_start {
            Some(s) => s,
            None => cursor,
        };
        let size = child.size;
        let ghost before = layout@;
        if start > cursor {
            layout.push(Segment::Unallocated { start: ByteSize(cursor), size: ByteSize(start - cursor) });
            proof {
                lemma_partitions_push(before, layout@.last());
            }
        }
        let ghost mid = layout@;
        let number = match extract_partition_number(child.name.as_str(), dev.name.as_str()) {
            Some(n) => n,
            None => (i + 1) as u32,
        };
        let pid = PartitionId::new(&id, number);
        proof {
            reveal_strlit("");
        }
        let fs = FileSystem::from_lsblk_fstype(
            match &child.blkid_fstype {
                Some(t) => t.as_str(),
                None => match &child.fstype {
                    Some(t) => t.as_str(),
                    None => "",
                },
            },
        );
        proof {
            reveal_strlit("");
        }
        let label = match &child.blkid_label {
            Some(l) => Some(l.clone()),
            None => clone_opt(&child.label),
        };
        let kind = partition_kind(
            match &child.parttype {
                Some(t) => Some(t.as_str()),
                None => None,
            },
            fs,
        );
        let mountpoints = mount_points(&child.mountpoints);
        let cpath = child_path(child.name.as_str());
        let on_sys = is_system_disk && match system_source {
            Some(src) => starts_with(src, cpath.as_str()),
            None => false,
        };
        let mounted = mountpoints.len() > 0;
        let bits: u8 = (if mounted { FLAG_ACTIVE_MOUNT } else { 0u8 }) | (if on_sys {
            FLAG_SYSTEM | FLAG_BOOT | FLAG_LOCKED
        } else {
            0u8
        });
        let p = Partition {
            id: pid,
            number,
            start: ByteSize(start),
            size: ByteSize(size),
            used: None,
            fs,
            kind,
            label,
            flags: PartitionFlags::from_bits_truncate(bits),
            drive_letter: None,
            mountpoints,
        };
        assert(p.start.0 == child_start(kids[i as int], cursor_after(kids, i as int)));
        assert(p.number == match spec_partition_number(kids[i as int].name@) { Some(n) => n, None => (i + 1) as u32 });
        assert(p.id.0@ == partition_id_text(dpath, number as nat));
        assert(p.kind == spec_partition_kind(opt_text(kids[i as int].parttype), fs));
        assert(on_sys == (is_system_disk && on_system(sys, spec_child_path(kids[i as int].name@))));
        assert(partition_matches(p, kids[i as int], i as int, cursor_after(kids, i as int), dpath, sys, is_system_disk)) by {
            assert(p.flags.bits == bits) by {
                assert((bits & 15u8) == bits) by (bit_vector)
                    requires
                        bits == ((if mounted { 4u8 } else { 0u8 }) | (if on_sys { 2u8 | 1u8 | 8u8 } else { 0u8 })),
                ;
            }
        }
        layout.push(Segment::Partition(p));
        proof {
            lemma_partitions_push(mid, Segment::Partition(p));
            assert(cursor_after(kids, i + 1) == start + size);
            assert forall|k: int|
                0 <= k < i + 1 implies partition_matches(
                    #[trigger] partitions_of(layout@)[k],
                    kids[k],
                    k,
                    cursor_after(kids, k),
                    dpath,
                    sys,
                    is_system_disk,
                ) by {
                if k < i {
                    assert(partitions_of(layout@)[k] == partitions_of(before)[k]);
                }
            }
            assert forall|j: int| 0 <= j < layout@.len() implies ((#[trigger] layout@[j]) is Unallocated
                ==> layout@[j].spec_size() > 0 && layout@[j].spec_start() == (if j == 0 {
                0
            } else {
                seg_end(layout@[j - 1])
            }) && (j + 1 < layout@.len() ==> seg_end(layout@[j]) == layout@[j + 1].spec_start())) by {
                if j < before.len() {
                    assert(layout@[j] == before[j]);
                    if j + 1 < before.len() {
                        assert(layout@[j + 1] == before[j + 1]);
                    }
                }
            }
        }
        cursor = start + size;
        i = i + 1;
    }
    let end = if table == PartitionTable::Gpt {
        dev.size.saturating_sub(GPT_BACKUP_RESERVE)
    } else {
        dev.size
    };
    if cursor < end {
        let ghost before = layout@;
        layout.push(Segment::Unallocated { start: ByteSize(cursor), size: ByteSize(end - cursor) });
        proof {
            lemma_partitions_push(before, layout@.last());
            assert forall|j: int| 0 <= j < layout@.len() implies ((#[trigger] layout@[j]) is Unallocated
                ==> layout@[j].spec_size() > 0 && layout@[j].spec_start() == (if j == 0 {
                0
            } else {
                seg_end(layout@[j - 1])
            }) && (j + 1 < layout@.len() ==> seg_end(layout@[j]) == layout@[j + 1].spec_start())) by {
                if j < before.len() {
                    assert(layout@[j] == before[j]);
                    if j + 1 < before.len() {
                        assert(layout@[j + 1] == before[j + 1]);
                    }
                }
            }
        }
    }
    let mut display_name = String::from_str("Datenträger ");
    push_decimal(&mut display_name, index as u64);
    Disk {
        id,
        display_name,
        vendor: clean_vendor_model(clone_opt(&dev.vendor)),
        model: clean_vendor_model(clone_opt(&dev.model)),
        serial: clone_opt(&dev.serial),
        bus,
        media,
        size: ByteSize(dev.size),
        logical_sector_size: match dev.phy_sec {
            Some(s) => s,
            None => 512,
        },
        table,
        health: HealthStatus::Unknown,
        read_only: dev.ro,
        is_system_disk,
        layout,
    }
}


/// A device whose partitions can be laid out: fewer than 2^32 of them,
/// and their ends fit 64 bits.
pub open spec fn device_ok(dev: LsblkDevice) -> bool {
    &&& children_of(dev).len() < u32::MAX
    &&& forall|k: int| 0 <= k <= children_of(dev).len() ==> cursor_after(children_of(dev), k) <= u64::MAX
}

/// Whether a device's partitions can be laid out.
pub fn device_is_ok(dev: &LsblkDevice) -> (r: bool)
    ensures
        r == device_ok(*dev),
{
    let empty: Vec<LsblkDevice> = Vec::new();
    let children = match &dev.children {
        Some(c) => c,
        None => &empty,
    };
    let ghost kids = children_of(*dev);
    assert(children@ == kids);
    if children.len() >= 0xFFFF_FFFF {
        return false;
    }
    let mut cursor: u64 = 0;
    let mut i: usize = 0;
    while i < children.len()
        invariant
            i <= children.len(),
            children@ == kids,
            kids == children_of(*dev),
            kids.len() < u32::MAX,
            cursor == cursor_after(kids, i as int),
            forall|k: int| 0 <= k <= i ==> cursor_after(kids, k) <= u64::MAX,
        decreases children.len() - i,
    {
        let start = match children[i].sysfs_start {
            Some(s) => s,
            None => cursor,
        };
        if children[i].size > 0xFFFF_FFFF_FFFF_FFFF - start {
            assert(cursor_after(kids, i + 1) > u64::MAX);
            return false;
        }
        cursor = start + children[i].size;
        i = i + 1;
    }
    true
}

/// Whether `lsblk` lists a disk MoonDisk shows: a disk or loop device of
/// non-zero size (zram and unattached loop devices have none).
pub open spec fn listed(d: LsblkDevice) -> bool {
    (d.dev_type@ == "disk"@ || d.dev_type@ == "loop"@) && d.size > 0
}

/// The devices MoonDisk shows, in order.
pub open spec fn listed_devices(devs: Seq<LsblkDevice>) -> Seq<LsblkDevice>
    decreases devs.len(),
{
    if devs.len() == 0 {
        Seq::empty()
    } else {
        let p = listed_devices(devs.drop_last());
        if listed(devs.last()) {
            p.push(devs.last())
        } else {
            p
        }
    }
}

/// The disks for an `lsblk` listing: every disk and loop device of
/// non-zero size, numbered in order.
pub fn disks_from_lsblk(devices: &Vec<LsblkDevice>, system_source: Option<&str>) -> (r: Vec<Disk>)
    requires
        forall|i: int| 0 <= i < devices.len() ==> device_ok(#[trigger] devices@[i]),
    ensures
        r.len() == listed_devices(devices@).len(),
        forall|k: int|
            0 <= k < r.len() ==> lsblk_disk(
                #[trigger] r@[k],
                listed_devices(devices@)[k],
                k as nat,
                match system_source {
                    Some(s) => Some(s@),
                    None => None,
                },
            ),
{
    let mut out: Vec<Disk> = Vec::new();
    let mut i: usize = 0;
    while i < devices.len()
        invariant
            i <= devices.len(),
            forall|j: int| 0 <= j < devices.len() ==> device_ok(#[trigger] devices@[j]),
            out.len() == listed_devices(devices@.take(i as int)).len(),
            forall|k: int|
                0 <= k < out.len() ==> lsblk_disk(
                    #[trigger] out@[k],
                    listed_devices(devices@.take(i as int))[k],
                    k as nat,
                    match system_source {
                        Some(s) => Some(s@),
                        None => None,
                    },
                ),
        decreases devices.len() - i,
    {
        let d = &devices[i];
        assert(devices@.take(i + 1).drop_last() =~= devices@.take(i as int));
        assert(devices@.take(i + 1).last() == *d);
        proof {
            reveal_strlit("disk");
            reveal_strlit("loop");
        }
        if (str_eq(d.dev_type.as_str(), "disk") || str_eq(d.dev_type.as_str(), "loop")) && d.size > 0 {
            let k = out.len();
            let disk = to_disk(d, k, system_source);
            out.push(disk);
        }
        i = i + 1;
    }
    assert(devices@.take(devices.len() as int) =~= devices@);
    out
}

/// The Linux provider, over an `lsblk` listing read beforehand (with each
/// partition's sysfs start and `blkid` probe filled in) and the device
/// the system's root lives on.
pub struct LinuxDiskProvider {
    devices: Vec<LsblkDevice>,
    system_source: Option<String>,
}

impl LinuxDiskProvider {
    #[verifier::type_invariant]
    spec fn inv(self) -> bool {
        forall|i: int| 0 <= i < self.devices.len() ==> device_ok(#[trigger] self.devices@[i])
    }

    /// A provider for this listing; none where a device's partition ends
    /// don't fit 64 bits.
    pub fn new(devices: Vec<LsblkDevice>, system_source: Option<String>) -> (r: Option<Self>)
        ensures
            r is Some <==> forall|i: int| 0 <= i < devices.len() ==> device_ok(#[trigger] devices@[i]),
    {
        let mut i: usize = 0;
        while i < devices.len()
            invariant
                i <= devices.len(),
                forall|j: int| 0 <= j < i ==> device_ok(#[trigger] devices@[j]),
            decreases devices.len() - i,
        {
            if !device_is_ok(&devices[i]) {
                return None;
            }
            i = i + 1;
        }
        Some(LinuxDiskProvider { devices, system_source })
    }
}

impl DiskInventory for LinuxDiskProvider {
    /// One disk per listed disk or loop device, as `to_disk` makes it.
    closed spec fn lists(&self, l: Result<Seq<Disk>, InventoryError>) -> bool {
        l matches Ok(ds) && ds.len() == listed_devices(self.devices@).len() && forall|k: int|
            0 <= k < ds.len() ==> lsblk_disk(
                #[trigger] ds[k],
                listed_devices(self.devices@)[k],
                k as nat,
                match self.system_source {
                    Some(s) => Some(s@),
                    None => None,
                },
            )
    }

    fn source(&self) -> (r: InventorySource)
        ensures
            r == InventorySource::Linux,
    {
        InventorySource::Linux
    }

    fn list_disks(&self) -> (r: Result<Vec<Disk>, InventoryError>) {
        proof {
            use_type_invariant(self);
        }
        let src = match &self.system_source {
            Some(s) => Some(s.as_str()),
            None => None,
        };
        Ok(disks_from_lsblk(&self.devices, src))
    }
}

/// The partition table of a disk listed from `lsblk`: MBR exactly where
/// lsblk reports `dos`, GPT exactly where it reports `gpt`, and no table
/// for anything else or nothing.
pub proof fn lemma_lsblk_table(r: Disk, dev: LsblkDevice, index: nat, sys: Option<Seq<char>>)
    requires
        lsblk_disk(r, dev, index, sys),
    ensures
        (r.table == PartitionTable::Mbr) <==> opt_text(dev.pttype) == Some("dos"@),
        (r.table == PartitionTable::Gpt) <==> opt_text(dev.pttype) == Some("gpt"@),
        (r.table == PartitionTable::NoTable) <==> !(opt_text(dev.pttype) == Some("dos"@) || opt_text(dev.pttype)
            == Some("gpt"@)),
{
    reveal_strlit("dos");
    reveal_strlit("gpt");
    assert("dos"@[0] != "gpt"@[0]);
}

/// The bus of a disk `lsblk` lists: by its transport (NVMe, SATA/ATA,
/// USB, virtio); without one, loop and `vd*` devices are virtual and
/// other removable ones USB.
pub proof fn lemma_lsblk_bus(tran: Option<Seq<char>>, dev_type: Seq<char>, name: Seq<char>, rm: bool)
    ensures
        tran == Some("nvme"@) ==> spec_bus(tran, dev_type, name, rm) == BusType::Nvme,
        tran == Some("sata"@) || tran == Some("ata"@) ==> spec_bus(tran, dev_type, name, rm) == BusType::Sata,
        tran == Some("usb"@) ==> spec_bus(tran, dev_type, name, rm) == BusType::Usb,
        tran == Some("virtio"@) ==> spec_bus(tran, dev_type, name, rm) == BusType::Virtual,
        tran is None && dev_type == "loop"@ ==> spec_bus(tran, dev_type, name, rm) == BusType::Virtual,
        tran is None && dev_type != "loop"@ && !(spec_basename(name).len() >= 2 && spec_basename(name).take(2) == "vd"@) && rm ==> spec_bus(tran, dev_type, name, rm) == BusType::Usb,
        tran is None && dev_type != "loop"@ && !(spec_basename(name).len() >= 2 && spec_basename(name).take(2) == "vd"@) && !rm ==> spec_bus(tran, dev_type, name, rm) == BusType::Unknown,
{
    reveal_strlit("ata");
    reveal_strlit("loop");
    reveal_strlit("nvme");
    reveal_strlit("sata");
    reveal_strlit("usb");
    reveal_strlit("vd");
    reveal_strlit("virtio");
    assert("ata"@.len() != "loop"@.len());
    assert("ata"@.len() != "nvme"@.len());
    assert("ata"@.len() != "sata"@.len());
    assert("ata"@[0] != "usb"@[0]);
    assert("ata"@.len() != "vd"@.len());
    assert("ata"@.len() != "virtio"@.len());
    assert("loop"@[0] != "nvme"@[0]);
    assert("loop"@[0] != "sata"@[0]);
    assert("loop"@.len() != "usb"@.len());
    assert("loop"@.len() != "vd"@.len());
    assert("loop"@.len() != "virtio"@.len());
    assert("nvme"@[0] != "sata"@[0]);
    assert("nvme"@.len() != "usb"@.len());
    assert("nvme"@.len() != "vd"@.len());
    assert("nvme"@.len() != "virtio"@.len());
    assert("sata"@.len() != "usb"@.len());
    assert("sata"@.len() != "vd"@.len());
    assert("sata"@.len() != "virtio"@.len());
    assert("usb"@.len() != "vd"@.len());
    assert("usb"@.len() != "virtio"@.len());
    assert("vd"@.len() != "virtio"@.len());
}

/// A partition's role on Linux: EFI, Microsoft Reserved and Windows
/// Recovery by their GPT type GUIDs in any case; otherwise swap for a swap
/// file system, a Linux file system for ext2/3/4, Btrfs and XFS, and
/// anything else other.
pub proof fn lemma_lsblk_partition_kind(t: Option<Seq<char>>, fs: FileSystem)
    ensures
        t matches Some(s) && ascii_lowercase(s) == "c12a7328-f81f-11d2-ba4b-00a0c93ec93b"@ ==> spec_partition_kind(t, fs) == PartitionKind::Efi,
        t matches Some(s) && ascii_lowercase(s) == "e3c9e316-0b5c-4db8-817d-f92df00215ae"@ ==> spec_partition_kind(t, fs) == PartitionKind::MicrosoftReserved,
        t matches Some(s) && ascii_lowercase(s) == "de94bba4-06d1-4d40-a16a-bfd50179d6ac"@ ==> spec_partition_kind(t, fs) == PartitionKind::Recovery,
        !(t matches Some(s) && (ascii_lowercase(s) == "c12a7328-f81f-11d2-ba4b-00a0c93ec93b"@ || ascii_lowercase(s)
            == "e3c9e316-0b5c-4db8-817d-f92df00215ae"@ || ascii_lowercase(s) == "de94bba4-06d1-4d40-a16a-bfd50179d6ac"@))
            ==> spec_partition_kind(t, fs) == (if fs == FileSystem::LinuxSwap {
            PartitionKind::LinuxSwap
        } else if fs is Ext2 || fs is Ext3 || fs is Ext4 || fs is Btrfs || fs is Xfs {
            PartitionKind::LinuxFilesystem
        } else {
            PartitionKind::Other
        }),
{
    reveal_strlit("c12a7328-f81f-11d2-ba4b-00a0c93ec93b");
    reveal_strlit("de94bba4-06d1-4d40-a16a-bfd50179d6ac");
    reveal_strlit("e3c9e316-0b5c-4db8-817d-f92df00215ae");
    assert("c12a7328-f81f-11d2-ba4b-00a0c93ec93b"@[0] != "de94bba4-06d1-4d40-a16a-bfd50179d6ac"@[0]);
    assert("c12a7328-f81f-11d2-ba4b-00a0c93ec93b"@[0] != "e3c9e316-0b5c-4db8-817d-f92df00215ae"@[0]);
    assert("de94bba4-06d1-4d40-a16a-bfd50179d6ac"@[0] != "e3c9e316-0b5c-4db8-817d-f92df00215ae"@[0]);
}

} // verus!
