//! Mock disk provider: realistic, deterministic sample data for UI
//! development, demos and tests.
use vstd::prelude::*;
use crate::models::{
    BusType, ByteSize, Disk, DiskId, FileSystem, HealthStatus, MediaType, Partition,
    PartitionFlags, PartitionId, PartitionKind, PartitionTable, Segment, contiguous_from,
};
use crate::models::{partition_id_text, FLAG_BOOT, FLAG_LOCKED, FLAG_SYSTEM};
use crate::text::strings_view;
use super::{DiskInventory, InventoryError, InventorySource};

verus! {

pub struct MockDiskProvider;

/// A layout that covers the disk from byte 0 to its end without gap or
/// overlap.
pub open spec fn covers_disk(d: Disk) -> bool {
    let l = d.layout@;
    &&& contiguous_from(l, 0)
    &&& l.len() > 0
    &&& l.last().spec_start() + l.last().spec_size() == d.size.0
}

/// A sample disk: it covers its size and is never the system disk.
pub open spec fn mock_disk_ok(d: Disk) -> bool {
    covers_disk(d) && !d.is_system_disk
}

pub fn gib(n: u64) -> (r: ByteSize)
    requires
        n * 1073741824 <= u64::MAX,
    ensures
        r.0 == n * 1073741824,
{
    ByteSize(n * 1073741824)
}

pub fn mib(n: u64) -> (r: ByteSize)
    requires
        n * 1048576 <= u64::MAX,
    ensures
        r.0 == n * 1048576,
{
    ByteSize(n * 1048576)
}

fn text(s: &str) -> (r: String)
    ensures
        r@ == s@,
{
    String::from_str(s)
}

fn part(
    disk: &DiskId,
    number: u32,
    start: ByteSize,
    size: ByteSize,
    used: Option<ByteSize>,
    fs: FileSystem,
    kind: PartitionKind,
    label: Option<String>,
    flags: PartitionFlags,
    drive_letter: Option<char>,
    mountpoints: Vec<String>,
) -> (r: Partition)
    ensures
        r.number == number,
        r.start == start,
        r.size == size,
        r.fs == fs,
        r.kind == kind,
        r.flags == flags,
        r.drive_letter == drive_letter,
        r.id.0@ == partition_id_text(disk.0@, number as nat),
        r.used == used,
        opt_text(r.label) == opt_text(label),
        r.mountpoints@ == mountpoints@,
{
    Partition {
        id: PartitionId::new(disk, number),
        number,
        start,
        size,
        used,
        fs,
        kind,
        label,
        flags,
        drive_letter,
        mountpoints,
    }
}

pub open spec fn opt_text(o: Option<String>) -> Option<Seq<char>> {
    match o {
        Some(s) => Some(s@),
        None => None,
    }
}

/// Segment `s` is partition `number` of disk `disk`, with these values.
pub open spec fn mock_part(
    s: Segment,
    disk: Seq<char>,
    number: u32,
    start: nat,
    size: nat,
    used: Option<nat>,
    fs: FileSystem,
    kind: PartitionKind,
    label: Option<Seq<char>>,
    flags: u8,
    letter: Option<char>,
    mounts: Seq<Seq<char>>,
) -> bool {
    &&& s matches Segment::Partition(p)
    &&& p.id.0@ == partition_id_text(disk, number as nat)
    &&& p.number == number
    &&& p.start.0 == start
    &&& p.size.0 == size
    &&& match used {
        Some(u) => p.used matches Some(x) && x.0 == u,
        None => p.used is None,
    }
    &&& p.fs == fs
    &&& p.kind == kind
    &&& opt_text(p.label) == label
    &&& p.flags.bits == flags
    &&& p.drive_letter == letter
    &&& strings_view(p.mountpoints@) == mounts
}

/// Segment `s` is free space from `start`, `size` bytes long.
pub open spec fn mock_free(s: Segment, start: nat, size: int) -> bool {
    s is Unallocated && s.spec_start() == start && s.spec_size() == size
}

/// The descriptive fields of a sample disk.
pub open spec fn mock_fields(
    d: Disk,
    id: Seq<char>,
    name: Seq<char>,
    vendor: Seq<char>,
    model: Seq<char>,
    serial: Seq<char>,
    media: MediaType,
) -> bool {
    &&& d.id.0@ == id
    &&& d.display_name@ == name
    &&& d.vendor@ == vendor
    &&& d.model@ == model
    &&& opt_text(d.serial) == Some(serial)
    &&& d.media == media
    &&& d.logical_sector_size == 512
    &&& d.health == HealthStatus::Healthy
    &&& !d.read_only
    &&& !d.is_system_disk
}

fn free(start: u64, size: u64) -> (r: Segment)
    ensures
        r is Unallocated,
        r.spec_start() == start,
        r.spec_size() == size,
{
    Segment::Unallocated { start: ByteSize(start), size: ByteSize(size) }
}

/// `d` is the sample Windows system disk.
pub open spec fn windows_sample(d: Disk) -> bool {
    &&& mock_disk_ok(d)
    &&& d.size.0 == 1000 * 1073741824
    &&& d.bus == BusType::Nvme
    &&& d.table == PartitionTable::Gpt
    &&& mock_fields(d, "mock-disk-0"@, "Datenträger 0"@, "Lunaris Storage"@, "Lunaris NV-1000"@, "MOCK-0001"@, MediaType::Ssd)
    &&& d.layout@.len() == 6
    &&& mock_free(d.layout@[0], 0, 1048576int)
    &&& mock_part(d.layout@[1], "mock-disk-0"@, 1, 1048576, 100 * 1048576, Some(40 * 1048576), FileSystem::Fat32,
        PartitionKind::Efi, Some("EFI"@), FLAG_LOCKED, None, Seq::empty())
    &&& mock_part(d.layout@[2], "mock-disk-0"@, 2, 101 * 1048576, 16 * 1048576, None, FileSystem::Unformatted,
        PartitionKind::MicrosoftReserved, None, FLAG_LOCKED, None, Seq::empty())
    &&& mock_part(d.layout@[3], "mock-disk-0"@, 3, 117 * 1048576, 180 * 1073741824, Some(96 * 1073741824),
        FileSystem::Ntfs, PartitionKind::BasicData, Some("Windows"@), FLAG_SYSTEM | FLAG_BOOT | FLAG_LOCKED,
        Some('C'), Seq::empty())
    &&& mock_part(d.layout@[4], "mock-disk-0"@, 4, 117 * 1048576 + 180 * 1073741824, 750 * 1048576,
        Some(600 * 1048576), FileSystem::Ntfs, PartitionKind::Recovery, Some("Recovery"@), FLAG_LOCKED, None,
        Seq::empty())
    &&& mock_free(d.layout@[5], 867 * 1048576 + 180 * 1073741824, 1000 * 1073741824 - (867 * 1048576 + 180
        * 1073741824))
}

/// A Windows system disk: EFI, MSR, Windows, recovery, free space.
pub fn windows_system_disk() -> (r: Disk)
    ensures
        windows_sample(r),
{
    let id = DiskId::from_str("mock-disk-0");
    let efi = part(&id, 1, mib(1), mib(100), Some(mib(40)), FileSystem::Fat32, PartitionKind::Efi,
        Some(text("EFI")), PartitionFlags::locked(), None, Vec::new());
    let msr = part(&id, 2, mib(101), mib(16), None, FileSystem::Unformatted,
        PartitionKind::MicrosoftReserved, None, PartitionFlags::locked(), None, Vec::new());
    let system = part(&id, 3, mib(117), gib(180), Some(gib(96)), FileSystem::Ntfs,
        PartitionKind::BasicData, Some(text("Windows")), PartitionFlags::system().union(
        PartitionFlags::boot()).union(PartitionFlags::locked()), Some('C'), Vec::new());
    let recovery = part(&id, 4, ByteSize(117 * 1048576 + 180 * 1073741824), mib(750), Some(mib(600)),
        FileSystem::Ntfs, PartitionKind::Recovery, Some(text("Recovery")), PartitionFlags::locked(),
        None, Vec::new());
    let end: u64 = 867 * 1048576 + 180 * 1073741824;
    let total = gib(1000);
    let mut layout: Vec<Segment> = Vec::new();
    layout.push(free(0, 1048576));
    layout.push(Segment::Partition(efi));
    layout.push(Segment::Partition(msr));
    layout.push(Segment::Partition(system));
    layout.push(Segment::Partition(recovery));
    layout.push(free(end, total.0 - end));
    proof {
        let e = Seq::<Seq<char>>::empty();
        assert(strings_view(layout@[1]->Partition_0.mountpoints@) =~= e);
        assert(strings_view(layout@[2]->Partition_0.mountpoints@) =~= e);
        assert(strings_view(layout@[3]->Partition_0.mountpoints@) =~= e);
        assert(strings_view(layout@[4]->Partition_0.mountpoints@) =~= e);
    }
    let d = Disk {
        id,
        display_name: text("Datenträger 0"),
        vendor: text("Lunaris Storage"),
        model: text("Lunaris NV-1000"),
        serial: Some(text("MOCK-0001")),
        bus: BusType::Nvme,
        media: MediaType::Ssd,
        size: total,
        logical_sector_size: 512,
        table: PartitionTable::Gpt,
        health: HealthStatus::Healthy,
        read_only: false,
        is_system_disk: false,
        layout,
    };
    assert(contiguous_from(d.layout@, 0));
    d
}

/// `d` is the sample Linux system disk.
pub open spec fn linux_sample(d: Disk) -> bool {
    &&& mock_disk_ok(d)
    &&& d.size.0 == 512 * 1073741824
    &&& d.bus == BusType::Nvme
    &&& d.table == PartitionTable::Gpt
    &&& mock_fields(d, "mock-disk-1"@, "Datenträger 1"@, "Selene Systems"@, "Selene S2-512"@, "MOCK-0002"@, MediaType::Ssd)
    &&& d.layout@.len() == 8
    &&& mock_free(d.layout@[0], 0, 1048576int)
    &&& mock_part(d.layout@[1], "mock-disk-1"@, 1, 1048576, 512 * 1048576, Some(80 * 1048576), FileSystem::Fat32,
        PartitionKind::Efi, Some("EFI"@), FLAG_LOCKED, None, seq!["/boot/efi"@])
    &&& mock_part(d.layout@[2], "mock-disk-1"@, 2, 513 * 1048576, 1073741824, Some(300 * 1048576), FileSystem::Ext4,
        PartitionKind::LinuxFilesystem, Some("boot"@), FLAG_LOCKED, None, seq!["/boot"@])
    &&& mock_part(d.layout@[3], "mock-disk-1"@, 3, 1537 * 1048576, 180 * 1073741824, Some(60 * 1073741824),
        FileSystem::Btrfs, PartitionKind::LinuxFilesystem, Some("root"@), FLAG_SYSTEM | FLAG_BOOT | FLAG_LOCKED,
        None, seq!["/"@])
    &&& mock_part(d.layout@[4], "mock-disk-1"@, 4, 1537 * 1048576 + 180 * 1073741824, 8 * 1073741824, None,
        FileSystem::LinuxSwap, PartitionKind::LinuxSwap, Some("swap"@), 0, None, Seq::empty())
    &&& mock_free(d.layout@[5], 1537 * 1048576 + 188 * 1073741824, 40 * 1073741824int)
    &&& mock_part(d.layout@[6], "mock-disk-1"@, 5, 1537 * 1048576 + 228 * 1073741824, 247 * 1073741824,
        Some(120 * 1073741824), FileSystem::Ext4, PartitionKind::LinuxFilesystem, Some("home"@), 0, None,
        seq!["/home"@])
    &&& mock_free(d.layout@[7], 1537 * 1048576 + 475 * 1073741824, 512 * 1073741824 - (1537 * 1048576 + 475
        * 1073741824))
}

/// A Linux system disk: EFI, boot, root, swap, a gap, home, free space.
pub fn linux_system_disk() -> (r: Disk)
    ensures
        linux_sample(r),
{
    let id = DiskId::from_str("mock-disk-1");
    let mut m1: Vec<String> = Vec::new();
    m1.push(text("/boot/efi"));
    let efi = part(&id, 1, mib(1), mib(512), Some(mib(80)), FileSystem::Fat32, PartitionKind::Efi,
        Some(text("EFI")), PartitionFlags::locked(), None, m1);
    let mut m2: Vec<String> = Vec::new();
    m2.push(text("/boot"));
    let boot = part(&id, 2, mib(513), gib(1), Some(mib(300)), FileSystem::Ext4,
        PartitionKind::LinuxFilesystem, Some(text("boot")), PartitionFlags::locked(), None, m2);
    let mut m3: Vec<String> = Vec::new();
    m3.push(text("/"));
    let root = part(&id, 3, mib(1537), gib(180), Some(gib(60)), FileSystem::Btrfs,
        PartitionKind::LinuxFilesystem, Some(text("root")), PartitionFlags::system().union(
        PartitionFlags::boot()).union(PartitionFlags::locked()), None, m3);
    let swap = part(&id, 4, ByteSize(1537 * 1048576 + 180 * 1073741824), gib(8), None,
        FileSystem::LinuxSwap, PartitionKind::LinuxSwap, Some(text("swap")), PartitionFlags::empty(),
        None, Vec::new());
    let swap_end: u64 = 1537 * 1048576 + 188 * 1073741824;
    let home_start: u64 = swap_end + 40 * 1073741824;
    let mut m5: Vec<String> = Vec::new();
    m5.push(text("/home"));
    let home = part(&id, 5, ByteSize(home_start), gib(247), Some(gib(120)), FileSystem::Ext4,
        PartitionKind::LinuxFilesystem, Some(text("home")), PartitionFlags::empty(), None, m5);
    let end: u64 = home_start + 247 * 1073741824;
    let total = gib(512);
    let mut layout: Vec<Segment> = Vec::new();
    layout.push(free(0, 1048576));
    layout.push(Segment::Partition(efi));
    layout.push(Segment::Partition(boot));
    layout.push(Segment::Partition(root));
    layout.push(Segment::Partition(swap));
    layout.push(free(swap_end, 40 * 1073741824));
    layout.push(Segment::Partition(home));
    layout.push(free(end, total.0 - end));
    proof {
        assert(strings_view(layout@[1]->Partition_0.mountpoints@) =~= seq!["/boot/efi"@]);
        assert(strings_view(layout@[2]->Partition_0.mountpoints@) =~= seq!["/boot"@]);
        assert(strings_view(layout@[3]->Partition_0.mountpoints@) =~= seq!["/"@]);
        assert(strings_view(layout@[4]->Partition_0.mountpoints@) =~= Seq::<Seq<char>>::empty());
        assert(strings_view(layout@[6]->Partition_0.mountpoints@) =~= seq!["/home"@]);
    }
    let d = Disk {
        id,
        display_name: text("Datenträger 1"),
        vendor: text("Selene Systems"),
        model: text("Selene S2-512"),
        serial: Some(text("MOCK-0002")),
        bus: BusType::Nvme,
        media: MediaType::Ssd,
        size: total,
        logical_sector_size: 512,
        table: PartitionTable::Gpt,
        health: HealthStatus::Healthy,
        read_only: false,
        is_system_disk: false,
        layout,
    };
    assert(contiguous_from(d.layout@, 0));
    d
}

/// `d` is the sample USB stick.
pub open spec fn stick_sample(d: Disk) -> bool {
    &&& mock_disk_ok(d)
    &&& d.size.0 == 64 * 1073741824
    &&& d.bus == BusType::Usb
    &&& d.table == PartitionTable::Mbr
    &&& mock_fields(d, "mock-disk-3"@, "Datenträger 3"@, "Sternschnuppe"@, "Sternschnuppe Stick 64"@, "MOCK-0004"@,
        MediaType::Unknown)
    &&& d.layout@.len() == 3
    &&& mock_free(d.layout@[0], 0, 1048576int)
    &&& mock_part(d.layout@[1], "mock-disk-3"@, 1, 1048576, 59 * 1073741824 + 600 * 1048576, Some(12 * 1073741824),
        FileSystem::ExFat, PartitionKind::BasicData, Some("STICK"@), 0, Some('E'), seq!["/media/stick"@])
    &&& mock_free(d.layout@[2], 601 * 1048576 + 59 * 1073741824, 64 * 1073741824 - (601 * 1048576 + 59
        * 1073741824))
}

/// A 64 GiB USB stick with one exFAT partition.
pub fn usb_stick() -> (r: Disk)
    ensures
        stick_sample(r),
{
    let id = DiskId::from_str("mock-disk-3");
    let mut m: Vec<String> = Vec::new();
    m.push(text("/media/stick"));
    let data = part(&id, 1, mib(1), ByteSize(59 * 1073741824 + 600 * 1048576), Some(gib(12)),
        FileSystem::ExFat, PartitionKind::BasicData, Some(text("STICK")), PartitionFlags::empty(),
        Some('E'), m);
    let end: u64 = 601 * 1048576 + 59 * 1073741824;
    let total = gib(64);
    let mut layout: Vec<Segment> = Vec::new();
    layout.push(free(0, 1048576));
    layout.push(Segment::Partition(data));
    layout.push(free(end, total.0 - end));
    proof {
        assert(strings_view(layout@[1]->Partition_0.mountpoints@) =~= seq!["/media/stick"@]);
    }
    let d = Disk {
        id,
        display_name: text("Datenträger 3"),
        vendor: text("Sternschnuppe"),
        model: text("Sternschnuppe Stick 64"),
        serial: Some(text("MOCK-0004")),
        bus: BusType::Usb,
        media: MediaType::Unknown,
        size: total,
        logical_sector_size: 512,
        table: PartitionTable::Mbr,
        health: HealthStatus::Healthy,
        read_only: false,
        is_system_disk: false,
        layout,
    };
    assert(contiguous_from(d.layout@, 0));
    d
}

impl DiskInventory for MockDiskProvider {
    /// The three sample disks, in order: the Windows system disk, the
    /// Linux system disk and the USB stick.
    open spec fn lists(&self, l: Result<Seq<Disk>, InventoryError>) -> bool {
        l matches Ok(ds) && ds.len() == 3 && windows_sample(ds[0]) && linux_sample(ds[1]) && stick_sample(ds[2])
    }

    fn source(&self) -> (r: InventorySource)
        ensures
            r == InventorySource::Mock,
    {
        InventorySource::Mock
    }

    fn list_disks(&self) -> (r: Result<Vec<Disk>, InventoryError>)
        ensures
            r matches Ok(ds) && ds.len() == 3 && windows_sample(ds@[0]) && linux_sample(ds@[1]) && stick_sample(
                ds@[2],
            ),
    {
        let mut v: Vec<Disk> = Vec::new();
        v.push(windows_system_disk());
        v.push(linux_system_disk());
        v.push(usb_stick());
        Ok(v)
    }
}

} // verus!
