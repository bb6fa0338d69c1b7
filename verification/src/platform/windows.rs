//! The Windows disk provider: turns what the Storage module's `Get-Disk`
//! and `Get-Partition` report into disks and their layouts.
use vstd::prelude::*;
use crate::models::{
    ascii_lowercase, decimal, partitions_of, push_char, push_decimal, str_eq, to_ascii_lowercase,
    BusType, ByteSize, Disk, DiskId, FileSystem, HealthStatus, MediaType, Partition,
    PartitionFlags, PartitionId, PartitionKind, PartitionTable, Segment, fs_from_lsblk,
    partition_id_text, FLAG_ACTIVE_MOUNT, FLAG_BOOT, FLAG_LOCKED, FLAG_SYSTEM,
};
use crate::platform::linux::{lemma_partitions_push, opt_text, seg_end};
use super::{spec_usable_range, usable_range, DiskInventory, InventoryError, InventorySource};

verus! {

/// A disk as `Get-Disk` reports it, with its partitions.
#[derive(Debug)]
pub struct PsDisk {
    pub number: i32,
    pub friendly_name: Option<String>,
    pub manufacturer: Option<String>,
    pub model: Option<String>,
    pub serial_number: Option<String>,
    pub bus_type: Option<String>,
    pub size: u64,
    pub logical_sector_size: Option<u32>,
    pub partition_style: Option<String>,
    pub health_status: Option<String>,
    pub is_read_only: bool,
    pub is_boot: bool,
    pub is_system: bool,
    pub partitions: Vec<PsPartition>,
}

/// A partition as `Get-Partition` reports it.
#[derive(Debug)]
pub struct PsPartition {
    pub partition_number: u32,
    pub offset: u64,
    pub size: u64,
    pub drive_letter: Option<String>,
    pub gpt_type: Option<String>,
    pub is_boot: bool,
    pub is_system: bool,
    pub file_system: Option<String>,
    pub file_system_label: Option<String>,
}

/// The decimal text of a signed number.
pub open spec fn signed_decimal(n: int) -> Seq<char> {
    if n < 0 {
        seq!['-'] + decimal((-n) as nat)
    } else {
        decimal(n as nat)
    }
}

/// The device path of disk `number`: `\\.\PhysicalDriveN`.
pub open spec fn physical_drive(number: int) -> Seq<char> {
    "\\\\.\\PhysicalDrive"@ + signed_decimal(number)
}

fn push_signed(s: &mut String, n: i32)
    ensures
        final(s)@ == old(s)@ + signed_decimal(n as int),
{
    if n < 0 {
        push_char(s, '-');
        let m: i64 = -(n as i64);
        push_decimal(s, m as u64);
        assert(final(s)@ =~= old(s)@ + signed_decimal(n as int));
    } else {
        push_decimal(s, n as u64);
    }
}

/// The bus `Get-Disk` names.
pub open spec fn ps_bus(t: Option<Seq<char>>) -> BusType {
    if t == Some("NVMe"@) {
        BusType::Nvme
    } else if t == Some("SATA"@) || t == Some("ATA"@) || t == Some("RAID"@) {
        BusType::Sata
    } else if t == Some("USB"@) {
        BusType::Usb
    } else if t == Some("Virtual"@) || t == Some("File Backed Virtual"@) {
        BusType::Virtual
    } else {
        BusType::Unknown
    }
}

/// The partition style `Get-Disk` names.
pub open spec fn ps_table(t: Option<Seq<char>>) -> PartitionTable {
    if t == Some("GPT"@) {
        PartitionTable::Gpt
    } else if t == Some("MBR"@) {
        PartitionTable::Mbr
    } else {
        PartitionTable::NoTable
    }
}

/// The health `Get-Disk` names.
pub open spec fn ps_health(t: Option<Seq<char>>) -> HealthStatus {
    if t == Some("Healthy"@) {
        HealthStatus::Healthy
    } else if t == Some("Warning"@) {
        HealthStatus::Warning
    } else if t == Some("Unhealthy"@) || t == Some("Unusable"@) {
        HealthStatus::Failing
    } else {
        HealthStatus::Unknown
    }
}

fn opt_is(o: &Option<String>, s: &str) -> (r: bool)
    ensures
        r == (opt_text(*o) == Some(s@)),
{
    match o {
        Some(v) => str_eq(v.as_str(), s),
        None => false,
    }
}

/// A partition's role from its GPT type GUID, in braces and any case.
pub open spec fn ps_kind(t: Option<Seq<char>>) -> PartitionKind {
    let g = match t {
        Some(s) => Some(ascii_lowercase(s)),
        None => None,
    };
    if g == Some("{c12a7328-f81f-11d2-ba4b-00a0c93ec93b}"@) {
        PartitionKind::Efi
    } else if g == Some("{e3c9e316-0b5c-4db8-817d-f92df00215ae}"@) {
        PartitionKind::MicrosoftReserved
    } else if g == Some("{de94bba4-06d1-4d40-a16a-bfd50179d6ac}"@) {
        PartitionKind::Recovery
    } else {
        PartitionKind::BasicData
    }
}

/// The flag bits of a partition: boot; system and locked; mounted where
/// it has a drive letter.
pub open spec fn ps_flags(boot: bool, system: bool, lettered: bool) -> u8 {
    ((if boot { FLAG_BOOT } else { 0u8 }) | (if system { FLAG_SYSTEM | FLAG_LOCKED } else { 0u8 })
        | (if lettered { FLAG_ACTIVE_MOUNT } else { 0u8 })) as u8
}

/// Partition `p` of a disk matches what `Get-Partition` reported.
pub open spec fn ps_partition_matches(p: Partition, q: PsPartition, disk_path: Seq<char>) -> bool {
    &&& p.number == q.partition_number
    &&& p.id.0@ == partition_id_text(disk_path, q.partition_number as nat)
    &&& p.start.0 == q.offset
    &&& p.size.0 == q.size
    &&& p.used is None
    &&& p.fs == fs_from_lsblk(ascii_lowercase(match q.file_system {
        Some(f) => f@,
        None => Seq::empty(),
    }))
    &&& p.kind == ps_kind(opt_text(q.gpt_type))
    &&& opt_text(p.label) == (match q.file_system_label {
        Some(l) => if l@.len() > 0 { Some(l@) } else { None },
        None => None,
    })
    &&& p.flags.bits == ps_flags(q.is_boot, q.is_system, q.drive_letter is Some)
    &&& p.drive_letter == (match q.drive_letter {
        Some(l) => if l@.len() > 0 { Some(l@[0]) } else { None },
        None => None,
    })
    &&& p.mountpoints.len() == 0
}

/// Where the partitions reach after the first `k`: the usable start, or
/// the furthest partition end.
pub open spec fn ps_cursor(parts: Seq<PsPartition>, start: int, k: int) -> int
    decreases k,
{
    if k <= 0 {
        start
    } else {
        let c = ps_cursor(parts, start, k - 1);
        let e = parts[k - 1].offset + parts[k - 1].size;
        if c >= e {
            c
        } else {
            e
        }
    }
}

/// A disk whose partition ends fit 64 bits.
pub open spec fn ps_disk_ok(d: PsDisk) -> bool {
    forall|k: int| 0 <= k < d.partitions.len() ==> (#[trigger] d.partitions@[k]).offset
        + d.partitions@[k].size <= u64::MAX
}

/// Free space fills exactly the gap up to what follows it.
pub open spec fn ps_gaps_ok(layout: Seq<Segment>) -> bool {
    forall|i: int|
        0 <= i < layout.len() ==> ((#[trigger] layout[i]) is Unallocated ==> layout[i].spec_size()
            > 0 && (i + 1 < layout.len() ==> seg_end(layout[i]) == layout[i + 1].spec_start()))
}

/// Builds the disk for one `Get-Disk` entry. Partitions come in the order
/// listed; free space fills the gaps inside the range partitions may
/// occupy, which leaves out the partition table's reserves.
/// Disk `r` is what `to_disk` makes of `Get-Disk` entry `d`.
pub open spec fn ps_listed_disk(r: Disk, d: PsDisk) -> bool {
    &&& r.id.0@ == physical_drive(d.number as int)
    &&& r.display_name@ == "Datenträger "@ + signed_decimal(d.number as int)
    &&& r.bus == ps_bus(opt_text(d.bus_type))
    &&& r.table == ps_table(opt_text(d.partition_style))
    &&& r.health == ps_health(opt_text(d.health_status))
    &&& r.media == MediaType::Unknown
    &&& r.size.0 == d.size
    &&& r.logical_sector_size == match d.logical_sector_size {
        Some(s) => s,
        None => 512,
    }
    &&& r.read_only == d.is_read_only
    &&& r.is_system_disk == (d.is_boot || d.is_system)
    &&& partitions_of(r.layout@).len() == d.partitions.len()
    &&& forall|k: int|
        0 <= k < d.partitions.len() ==> ps_partition_matches(
            #[trigger] partitions_of(r.layout@)[k],
            d.partitions@[k],
            physical_drive(d.number as int),
        )
    &&& ps_gaps_ok(r.layout@)
    &&& forall|i: int|
        0 <= i < r.layout@.len() ==> (#[trigger] r.layout@[i]) is Unallocated ==> r.layout@[i].spec_start()
            >= spec_usable_range(d.size, r.table).0
    &&& ({
        let c = ps_cursor(d.partitions@, spec_usable_range(d.size, r.table).0 as int, d.partitions.len() as int);
        let e = spec_usable_range(d.size, r.table).1 as int;
        if c < e {
            r.layout@.len() > 0 && r.layout@.last() is Unallocated && r.layout@.last().spec_start() == c
                && seg_end(r.layout@.last()) == e
        } else {
            r.layout@.len() == 0 || r.layout@.last() is Partition
        }
    })
}

pub fn to_disk(d: &PsDisk) -> (r: Disk)
    requires
        ps_disk_ok(*d),
    ensures
        ps_listed_disk(r, *d),
{
    let mut path = String::from_str("\\\\.\\PhysicalDrive");
    push_signed(&mut path, d.number);
    let ghost dpath = path@;
    let id = DiskId::from_string(path.clone());
    let bus = if opt_is(&d.bus_type, "NVMe") {
        BusType::Nvme
    } else if opt_is(&d.bus_type, "SATA") || opt_is(&d.bus_type, "ATA") || opt_is(&d.bus_type, "RAID") {
        BusType::Sata
    } else if opt_is(&d.bus_type, "USB") {
        BusType::Usb
    } else if opt_is(&d.bus_type, "Virtual") || opt_is(&d.bus_type, "File Backed Virtual") {
        BusType::Virtual
    } else {
        BusType::Unknown
    };
    let table = if opt_is(&d.partition_style, "GPT") {
        PartitionTable::Gpt
    } else if opt_is(&d.partition_style, "MBR") {
        PartitionTable::Mbr
    } else {
        PartitionTable::NoTable
    };
    let health = if opt_is(&d.health_status, "Healthy") {
        HealthStatus::Healthy
    } else if opt_is(&d.health_status, "Warning") {
        HealthStatus::Warning
    } else if opt_is(&d.health_status, "Unhealthy") || opt_is(&d.health_status, "Unusable") {
        HealthStatus::Failing
    } else {
        HealthStatus::Unknown
    };
    let (usable_start, usable_end) = usable_range(d.size, table);
    let mut layout: Vec<Segment> = Vec::new();
    let mut cursor: u64 = usable_start;
    let mut i: usize = 0;
    while i < d.partitions.len()
        invariant
            i <= d.partitions.len(),
            ps_disk_ok(*d),
            id.0@ == dpath,
            dpath == physical_drive(d.number as int),
            (usable_start, usable_end) == spec_usable_range(d.size, table),
            usable_start <= cursor,
            cursor == ps_cursor(d.partitions@, usable_start as int, i as int),
            layout@.len() == 0 || layout@.last() is Partition,
            partitions_of(layout@).len() == i,
            forall|k: int|
                0 <= k < i ==> ps_partition_matches(
                    #[trigger] partitions_of(layout@)[k],
                    d.partitions@[k],
                    dpath,
                ),
            ps_gaps_ok(layout@),
            forall|j: int|
                0 <= j < layout@.len() ==> (#[trigger] layout@[j]) is Unallocated ==> layout@[j].spec_start()
                    >= usable_start,
        decreases d.partitions.len() - i,
    {
        let p = &d.partitions[i];
        let ghost before = layout@;
        if p.offset > cursor {
            layout.push(Segment::Unallocated { start: ByteSize(cursor), size: ByteSize(p.offset - cursor) });
            proof {
                lemma_partitions_push(before, layout@.last());
            }
        }
        let ghost mid = layout@;
        let lettered = p.drive_letter.is_some();
        let boot = p.is_boot;
        let system = p.is_system;
        let bits: u8 = (if boot { FLAG_BOOT } else { 0u8 }) | (if system {
            FLAG_SYSTEM | FLAG_LOCKED
        } else {
            0u8
        }) | (if lettered { FLAG_ACTIVE_MOUNT } else { 0u8 });
        let fs_name = match &p.file_system {
            Some(f) => to_ascii_lowercase(f.as_str()),
            None => String::new(),
        };
        let fs = FileSystem::from_lsblk_fstype(fs_name.as_str());
        let kind = match &p.gpt_type {
            Some(t) => {
                let g = to_ascii_lowercase(t.as_str());
                if str_eq(g.as_str(), "{c12a7328-f81f-11d2-ba4b-00a0c93ec93b}") {
                    PartitionKind::Efi
                } else if str_eq(g.as_str(), "{e3c9e316-0b5c-4db8-817d-f92df00215ae}") {
                    PartitionKind::MicrosoftReserved
                } else if str_eq(g.as_str(), "{de94bba4-06d1-4d40-a16a-bfd50179d6ac}") {
                    PartitionKind::Recovery
                } else {
                    PartitionKind::BasicData
                }
            },
            None => PartitionKind::BasicData,
        };
        let label = match &p.file_system_label {
            Some(l) => if l.unicode_len() > 0 {
                Some(l.clone())
            } else {
                None
            },
            None => None,
        };
        let letter = match &p.drive_letter {
            Some(l) => if l.unicode_len() > 0 {
                Some(l.as_str().get_char(0))
            } else {
                None
            },
            None => None,
        };
        let part = Partition {
            id: PartitionId::new(&id, p.partition_number),
            number: p.partition_number,
            start: ByteSize(p.offset),
            size: ByteSize(p.size),
            used: None,
            fs,
            kind,
            label,
            flags: PartitionFlags::from_bits_truncate(bits),
            drive_letter: letter,
            mountpoints: Vec::new(),
        };
        assert(part.flags.bits == bits) by {
            assert((bits & 15u8) == bits) by (bit_vector)
                requires
                    bits == ((if boot { 1u8 } else { 0u8 }) | (if system { 2u8 | 8u8 } else { 0u8 })
                        | (if lettered { 4u8 } else { 0u8 })),
            ;
        }
        assert(ps_partition_matches(part, d.partitions@[i as int], dpath));
        layout.push(Segment::Partition(part));
        proof {
            lemma_partitions_push(mid, Segment::Partition(part));
            assert forall|k: int|
                0 <= k < i + 1 implies ps_partition_matches(
                    #[trigger] partitions_of(layout@)[k],
                    d.partitions@[k],
                    dpath,
                ) by {
                if k < i {
                    assert(partitions_of(layout@)[k] == partitions_of(before)[k]);
                }
            }
            assert forall|j: int| 0 <= j < layout@.len() implies ((#[trigger] layout@[j]) is Unallocated
                ==> layout@[j].spec_size() > 0 && (j + 1 < layout@.len() ==> seg_end(layout@[j])
                == layout@[j + 1].spec_start())) by {
                if j < before.len() {
                    assert(layout@[j] == before[j]);
                    if j + 1 < before.len() {
                        assert(layout@[j + 1] == before[j + 1]);
                    }
                }
            }
            assert forall|j: int|
                0 <= j < layout@.len() implies (#[trigger] layout@[j]) is Unallocated ==> layout@[j].spec_start()
                    >= usable_start by {
                if j < before.len() {
                    assert(layout@[j] == before[j]);
                }
            }
        }
        let e = p.offset + p.size;
        if e > cursor {
            cursor = e;
        }
        i = i + 1;
    }
    if cursor < usable_end {
        let ghost before = layout@;
        layout.push(Segment::Unallocated { start: ByteSize(cursor), size: ByteSize(usable_end - cursor) });
        proof {
            lemma_partitions_push(before, layout@.last());
            assert forall|j: int| 0 <= j < layout@.len() implies ((#[trigger] layout@[j]) is Unallocated
                ==> layout@[j].spec_size() > 0 && (j + 1 < layout@.len() ==> seg_end(layout@[j])
                == layout@[j + 1].spec_start())) by {
                if j < before.len() {
                    assert(layout@[j] == before[j]);
                    if j + 1 < before.len() {
                        assert(layout@[j + 1] == before[j + 1]);
                    }
                }
            }
            assert forall|j: int|
                0 <= j < layout@.len() implies (#[trigger] layout@[j]) is Unallocated ==> layout@[j].spec_start()
                    >= usable_start by {
                if j < before.len() {
                    assert(layout@[j] == before[j]);
                }
            }
        }
    }
    let mut display_name = String::from_str("Datenträger ");
    push_signed(&mut display_name, d.number);
    let vendor = match &d.manufacturer {
        Some(m) => m.clone(),
        None => String::new(),
    };
    let model = match &d.model {
        Some(m) => m.clone(),
        None => match &d.friendly_name {
            Some(f) => f.clone(),
            None => String::new(),
        },
    };
    let serial = match &d.serial_number {
        Some(s) => Some(s.clone()),
        None => None,
    };
    Disk {
        id,
        display_name,
        vendor,
        model,
        serial,
        bus,
        media: MediaType::Unknown,
        size: ByteSize(d.size),
        logical_sector_size: match d.logical_sector_size {
            Some(s) => s,
            None => 512,
        },
        table,
        health,
        read_only: d.is_read_only,
        is_system_disk: d.is_boot || d.is_system,
        layout,
    }
}

/// Whether a disk's partition ends fit 64 bits.
pub fn ps_disk_is_ok(d: &PsDisk) -> (r: bool)
    ensures
        r == ps_disk_ok(*d),
{
    let mut i: usize = 0;
    while i < d.partitions.len()
        invariant
            i <= d.partitions.len(),
            forall|k: int| 0 <= k < i ==> (#[trigger] d.partitions@[k]).offset + d.partitions@[k].size
                <= u64::MAX,
        decreases d.partitions.len() - i,
    {
        if d.partitions[i].size > 0xFFFF_FFFF_FFFF_FFFF - d.partitions[i].offset {
            return false;
        }
        i = i + 1;
    }
    true
}

/// The Windows provider, over the disks `Get-Disk` listed beforehand.
pub struct WindowsDiskProvider {
    disks: Vec<PsDisk>,
}

impl WindowsDiskProvider {
    /// A provider for this listing; none where a partition's end doesn't
    /// fit 64 bits.
    pub fn new(disks: Vec<PsDisk>) -> (r: Option<Self>)
        ensures
            r is Some <==> forall|i: int| 0 <= i < disks.len() ==> ps_disk_ok(#[trigger] disks@[i]),
    {
        let mut i: usize = 0;
        while i < disks.len()
            invariant
                i <= disks.len(),
                forall|j: int| 0 <= j < i ==> ps_disk_ok(#[trigger] disks@[j]),
            decreases disks.len() - i,
        {
            if !ps_disk_is_ok(&disks[i]) {
                return None;
            }
            i = i + 1;
        }
        Some(WindowsDiskProvider { disks })
    }
}


impl WindowsDiskProvider {
    #[verifier::type_invariant]
    spec fn inv(self) -> bool {
        forall|i: int| 0 <= i < self.disks.len() ==> ps_disk_ok(#[trigger] self.disks@[i])
    }
}

impl DiskInventory for WindowsDiskProvider {
    /// One disk per `Get-Disk` entry, in order, as `to_disk` makes it.
    closed spec fn lists(&self, l: Result<Seq<Disk>, InventoryError>) -> bool {
        l matches Ok(ds) && ds.len() == self.disks.len() && forall|k: int|
            0 <= k < ds.len() ==> ps_listed_disk(#[trigger] ds[k], self.disks@[k])
    }

    fn source(&self) -> (r: InventorySource)
        ensures
            r == InventorySource::Windows,
    {
        InventorySource::Windows
    }

    fn list_disks(&self) -> (r: Result<Vec<Disk>, InventoryError>) {
        proof {
            use_type_invariant(self);
        }
        let mut out: Vec<Disk> = Vec::new();
        let mut i: usize = 0;
        while i < self.disks.len()
            invariant
                i <= self.disks.len(),
                forall|j: int| 0 <= j < self.disks.len() ==> ps_disk_ok(#[trigger] self.disks@[j]),
                out.len() == i,
                forall|k: int| 0 <= k < i ==> ps_listed_disk(#[trigger] out@[k], self.disks@[k]),
            decreases self.disks.len() - i,
        {
            out.push(to_disk(&self.disks[i]));
            i = i + 1;
        }
        Ok(out)
    }
}

/// The health and table of a disk listed from `Get-Disk`: failing
/// exactly where Windows reports it `Unhealthy` or `Unusable`, healthy
/// exactly for `Healthy`, a warning exactly for `Warning`; MBR exactly for
/// partition style `MBR` and GPT exactly for `GPT`.
pub proof fn lemma_ps_health_and_table(r: Disk, d: PsDisk)
    requires
        ps_listed_disk(r, d),
    ensures
        (r.health == HealthStatus::Failing) <==> (opt_text(d.health_status) == Some("Unhealthy"@) || opt_text(
            d.health_status,
        ) == Some("Unusable"@)),
        (r.health == HealthStatus::Healthy) <==> opt_text(d.health_status) == Some("Healthy"@),
        (r.health == HealthStatus::Warning) <==> opt_text(d.health_status) == Some("Warning"@),
        (r.table == PartitionTable::Mbr) <==> opt_text(d.partition_style) == Some("MBR"@),
        (r.table == PartitionTable::Gpt) <==> opt_text(d.partition_style) == Some("GPT"@),
{
    reveal_strlit("Unhealthy");
    reveal_strlit("Unusable");
    reveal_strlit("Healthy");
    reveal_strlit("Warning");
    reveal_strlit("MBR");
    reveal_strlit("GPT");
    assert("Unhealthy"@.len() != "Unusable"@.len());
    assert("Healthy"@[0] != "Warning"@[0] && "Healthy"@[0] != "Unhealthy"@[0] && "Warning"@[0] != "Unusable"@[0]);
    assert("MBR"@[0] != "GPT"@[0]);
}

/// The bus `Get-Disk` names: NVMe, SATA (also ATA and RAID), USB, and
/// virtual disks; any other bus is unknown.
pub proof fn lemma_ps_bus(t: Option<Seq<char>>)
    ensures
        t == Some("NVMe"@) ==> ps_bus(t) == BusType::Nvme,
        t == Some("SATA"@) || t == Some("ATA"@) || t == Some("RAID"@) ==> ps_bus(t) == BusType::Sata,
        t == Some("USB"@) ==> ps_bus(t) == BusType::Usb,
        t == Some("Virtual"@) || t == Some("File Backed Virtual"@) ==> ps_bus(t) == BusType::Virtual,
        !((t == Some("NVMe"@)) || (t == Some("SATA"@) || t == Some("ATA"@) || t == Some("RAID"@)) || (t == Some("USB"@)) || (t == Some("Virtual"@) || t == Some("File Backed Virtual"@))) ==> ps_bus(t) == BusType::Unknown,
{
    reveal_strlit("ATA");
    reveal_strlit("File Backed Virtual");
    reveal_strlit("NVMe");
    reveal_strlit("RAID");
    reveal_strlit("SATA");
    reveal_strlit("USB");
    reveal_strlit("Virtual");
    assert("ATA"@.len() != "File Backed Virtual"@.len());
    assert("ATA"@.len() != "NVMe"@.len());
    assert("ATA"@.len() != "RAID"@.len());
    assert("ATA"@.len() != "SATA"@.len());
    assert("ATA"@[0] != "USB"@[0]);
    assert("ATA"@.len() != "Virtual"@.len());
    assert("File Backed Virtual"@.len() != "NVMe"@.len());
    assert("File Backed Virtual"@.len() != "RAID"@.len());
    assert("File Backed Virtual"@.len() != "SATA"@.len());
    assert("File Backed Virtual"@.len() != "USB"@.len());
    assert("File Backed Virtual"@.len() != "Virtual"@.len());
    assert("NVMe"@[0] != "RAID"@[0]);
    assert("NVMe"@[0] != "SATA"@[0]);
    assert("NVMe"@.len() != "USB"@.len());
    assert("NVMe"@.len() != "Virtual"@.len());
    assert("RAID"@[0] != "SATA"@[0]);
    assert("RAID"@.len() != "USB"@.len());
    assert("RAID"@.len() != "Virtual"@.len());
    assert("SATA"@.len() != "USB"@.len());
    assert("SATA"@.len() != "Virtual"@.len());
    assert("USB"@.len() != "Virtual"@.len());
}

/// A partition's role from the GPT type GUID `Get-Partition` names, in any
/// case: EFI, Microsoft Reserved and Windows Recovery by their GUIDs,
/// basic data otherwise.
pub proof fn lemma_ps_kind(t: Option<Seq<char>>)
    ensures
        t matches Some(s) && ascii_lowercase(s) == "{c12a7328-f81f-11d2-ba4b-00a0c93ec93b}"@ ==> ps_kind(t) == PartitionKind::Efi,
        t matches Some(s) && ascii_lowercase(s) == "{e3c9e316-0b5c-4db8-817d-f92df00215ae}"@ ==> ps_kind(t) == PartitionKind::MicrosoftReserved,
        t matches Some(s) && ascii_lowercase(s) == "{de94bba4-06d1-4d40-a16a-bfd50179d6ac}"@ ==> ps_kind(t) == PartitionKind::Recovery,
        !((t matches Some(s) && ascii_lowercase(s) == "{c12a7328-f81f-11d2-ba4b-00a0c93ec93b}"@) || (t matches Some(s) && ascii_lowercase(s) == "{e3c9e316-0b5c-4db8-817d-f92df00215ae}"@) || (t matches Some(s) && ascii_lowercase(s) == "{de94bba4-06d1-4d40-a16a-bfd50179d6ac}"@)) ==> ps_kind(t) == PartitionKind::BasicData,
{
    reveal_strlit("{c12a7328-f81f-11d2-ba4b-00a0c93ec93b}");
    reveal_strlit("{de94bba4-06d1-4d40-a16a-bfd50179d6ac}");
    reveal_strlit("{e3c9e316-0b5c-4db8-817d-f92df00215ae}");
    assert("{c12a7328-f81f-11d2-ba4b-00a0c93ec93b}"@[1] != "{de94bba4-06d1-4d40-a16a-bfd50179d6ac}"@[1]);
    assert("{c12a7328-f81f-11d2-ba4b-00a0c93ec93b}"@[1] != "{e3c9e316-0b5c-4db8-817d-f92df00215ae}"@[1]);
    assert("{de94bba4-06d1-4d40-a16a-bfd50179d6ac}"@[1] != "{e3c9e316-0b5c-4db8-817d-f92df00215ae}"@[1]);
}

} // verus!
