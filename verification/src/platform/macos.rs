//! The macOS disk inventory, from what `diskutil` and `ioreg` report:
//! `diskutil list -plist physical` (the physical disks and their
//! partitions), `diskutil info -plist <id>` (bus, model, file system,
//! label, mount point), `ioreg`'s IOMedia objects (each partition's byte
//! offset, `Base`) and `diskutil info -plist /` (where the system lives).
use vstd::prelude::*;
use crate::flash::fat_names::chars_of;
use crate::models::{
    decimal, partition_id_text, partitions_of, push_decimal, str_eq, trim_str, trimmed, BusType, ByteSize,
    Disk, DiskId, FileSystem, HealthStatus, MediaType, Partition, PartitionFlags, PartitionId,
    PartitionKind, PartitionTable, Segment, FLAG_ACTIVE_MOUNT, FLAG_BOOT, FLAG_LOCKED, FLAG_SYSTEM,
};
use crate::platform::linux::{lemma_partitions_push, opt_text, seg_end};
use crate::platform::windows::ps_gaps_ok;
use super::{spec_usable_range, usable_range};
use crate::text::strings_view;
use super::InventoryError;
use crate::platform::windows_executor::{parse_u32, parse_u32_exec};

verus! {

/// A whole disk as `diskutil list` lists it.
#[derive(Debug, Default)]
pub struct ListedDisk {
    pub device_identifier: String,
    /// The partition scheme, e.g. `GUID_partition_scheme`.
    pub content: String,
    pub size: u64,
    pub partitions: Vec<ListedPartition>,
}

/// A partition as `diskutil list` lists it.
#[derive(Debug, Default)]
pub struct ListedPartition {
    pub device_identifier: String,
    /// The partition type, e.g. `EFI` or `Microsoft Basic Data`.
    pub content: String,
    pub size: u64,
}

/// An APFS container's physical store.
#[derive(Debug, Default)]
pub struct ApfsPhysicalStore {
    pub device_identifier: String,
}

/// What `diskutil info` reports of a disk or partition (the parts used).
#[derive(Debug, Default)]
pub struct DiskutilInfo {
    pub device_identifier: String,
    pub bus_protocol: String,
    pub media_name: String,
    pub device_block_size: u32,
    pub solid_state: Option<bool>,
    pub writable_media: Option<bool>,
    pub smart_status: String,
    pub filesystem_type: String,
    pub volume_name: String,
    pub mount_point: String,
    pub parent_whole_disk: String,
    pub apfs_physical_stores: Vec<ApfsPhysicalStore>,
}

/// The index of the first `c` at or after `i`, or the length.
pub open spec fn first_of(s: Seq<char>, c: char, i: int) -> int
    decreases s.len() - i,
{
    if i < 0 || i >= s.len() {
        s.len() as int
    } else if s[i] == c {
        i
    } else {
        first_of(s, c, i + 1)
    }
}

/// `disk4` is disk 4, `disk4s2` its partition 2; anything else (such as
/// the APFS snapshot `disk3s1s1`) is nothing.
pub open spec fn spec_split_identifier(id: Seq<char>) -> Option<(u32, Option<u32>)> {
    if !(id.len() >= 4 && id.take(4) == "disk"@) {
        None
    } else {
        let rest = id.skip(4);
        let k = first_of(rest, 's', 0);
        match parse_u32(rest.take(k)) {
            None => None,
            Some(d) => if k == rest.len() {
                Some((d, None))
            } else {
                match parse_u32(rest.skip(k + 1)) {
                    None => None,
                    Some(p) => Some((d, Some(p))),
                }
            },
        }
    }
}

/// Splits `diskN` and `diskNsM`.
pub fn split_identifier(id: &str) -> (r: Option<(u32, Option<u32>)>)
    ensures
        r == spec_split_identifier(id@),
{
    proof {
        reveal_strlit("disk");
    }
    let cs = chars_of(id);
    let n = cs.len();
    if n < 4 || cs[0] != 'd' || cs[1] != 'i' || cs[2] != 's' || cs[3] != 'k' {
        proof {
            if n >= 4 {
                assert(id@.take(4) != "disk"@) by {
                    if cs@[0] != 'd' {
                        assert(id@.take(4)[0] != "disk"@[0]);
                    } else if cs@[1] != 'i' {
                        assert(id@.take(4)[1] != "disk"@[1]);
                    } else if cs@[2] != 's' {
                        assert(id@.take(4)[2] != "disk"@[2]);
                    } else {
                        assert(id@.take(4)[3] != "disk"@[3]);
                    }
                }
            }
        }
        return None;
    }
    assert(id@.take(4) =~= "disk"@);
    let ghost rest = id@.skip(4);
    let mut k: usize = 4;
    while k < n && cs[k] != 's'
        invariant
            4 <= k <= n,
            n == cs@.len(),
            cs@ == id@,
            rest == id@.skip(4),
            first_of(rest, 's', 0) == first_of(rest, 's', k - 4),
        decreases n - k,
    {
        assert(rest[k - 4] == cs@[k as int]);
        k = k + 1;
    }
    proof {
        if k < n {
            assert(rest[k - 4] == cs@[k as int]);
        }
    }
    let mut first: Vec<char> = Vec::new();
    let mut i: usize = 4;
    while i < k
        invariant
            4 <= i <= k <= n,
            n == cs@.len(),
            first@ == cs@.subrange(4, i as int),
        decreases k - i,
    {
        first.push(cs[i]);
        i = i + 1;
        assert(first@ =~= cs@.subrange(4, i as int));
    }
    assert(first@ =~= rest.take(k - 4));
    let d = match parse_u32_exec(&first) {
        Some(d) => d,
        None => return None,
    };
    if k == n {
        return Some((d, None));
    }
    let mut second: Vec<char> = Vec::new();
    let mut j: usize = k + 1;
    while j < n
        invariant
            k + 1 <= j <= n,
            n == cs@.len(),
            second@ == cs@.subrange(k + 1, j as int),
        decreases n - j,
    {
        second.push(cs[j]);
        j = j + 1;
        assert(second@ =~= cs@.subrange(k + 1, j as int));
    }
    assert(second@ =~= rest.skip(k - 4 + 1));
    match parse_u32_exec(&second) {
        Some(p) => Some((d, Some(p))),
        None => None,
    }
}

/// The bus `diskutil` names (Apple Silicon's internal SSD reports
/// `Apple Fabric`).
pub open spec fn spec_bus_type(protocol: Seq<char>) -> BusType {
    if protocol == "USB"@ {
        BusType::Usb
    } else if protocol == "SATA"@ {
        BusType::Sata
    } else if protocol == "PCI-Express"@ || protocol == "PCI"@ || protocol == "NVMe"@ || protocol
        == "Apple Fabric"@ {
        BusType::Nvme
    } else if protocol == "Disk Image"@ || protocol == "Virtual Interface"@ {
        BusType::Virtual
    } else {
        BusType::Unknown
    }
}

pub fn bus_type(protocol: &str) -> (r: BusType)
    ensures
        r == spec_bus_type(protocol@),
{
    if str_eq(protocol, "USB") {
        BusType::Usb
    } else if str_eq(protocol, "SATA") {
        BusType::Sata
    } else if str_eq(protocol, "PCI-Express") || str_eq(protocol, "PCI") || str_eq(protocol, "NVMe")
        || str_eq(protocol, "Apple Fabric") {
        BusType::Nvme
    } else if str_eq(protocol, "Disk Image") || str_eq(protocol, "Virtual Interface") {
        BusType::Virtual
    } else {
        BusType::Unknown
    }
}

/// The partition table a `diskutil` scheme names.
pub open spec fn spec_partition_table(scheme: Seq<char>) -> PartitionTable {
    if scheme == "GUID_partition_scheme"@ {
        PartitionTable::Gpt
    } else if scheme == "FDisk_partition_scheme"@ {
        PartitionTable::Mbr
    } else {
        PartitionTable::NoTable
    }
}

pub fn partition_table(scheme: &str) -> (r: PartitionTable)
    ensures
        r == spec_partition_table(scheme@),
{
    if str_eq(scheme, "GUID_partition_scheme") {
        PartitionTable::Gpt
    } else if str_eq(scheme, "FDisk_partition_scheme") {
        PartitionTable::Mbr
    } else {
        PartitionTable::NoTable
    }
}

/// A partition's role from the type `diskutil` names.
pub open spec fn spec_partition_kind(content: Seq<char>) -> PartitionKind {
    if content == "EFI"@ {
        PartitionKind::Efi
    } else if content == "Microsoft Reserved"@ {
        PartitionKind::MicrosoftReserved
    } else if content == "Windows Recovery"@ || content == "Apple_Boot"@ || content
        == "Apple_APFS_Recovery"@ {
        PartitionKind::Recovery
    } else if content == "Microsoft Basic Data"@ || content == "DOS_FAT_32"@ || content
        == "DOS_FAT_16"@ || content == "DOS_FAT_12"@ || content == "Windows_FAT_32"@ || content
        == "Windows_FAT_16"@ || content == "Windows_NTFS"@ {
        PartitionKind::BasicData
    } else if content == "Linux Filesystem"@ || content == "Linux"@ {
        PartitionKind::LinuxFilesystem
    } else if content == "Linux Swap"@ || content == "Linux_Swap"@ {
        PartitionKind::LinuxSwap
    } else {
        PartitionKind::Other
    }
}

pub fn partition_kind(content: &str) -> (r: PartitionKind)
    ensures
        r == spec_partition_kind(content@),
{
    if str_eq(content, "EFI") {
        PartitionKind::Efi
    } else if str_eq(content, "Microsoft Reserved") {
        PartitionKind::MicrosoftReserved
    } else if str_eq(content, "Windows Recovery") || str_eq(content, "Apple_Boot") || str_eq(
        content,
        "Apple_APFS_Recovery",
    ) {
        PartitionKind::Recovery
    } else if str_eq(content, "Microsoft Basic Data") || str_eq(content, "DOS_FAT_32") || str_eq(
        content,
        "DOS_FAT_16",
    ) || str_eq(content, "DOS_FAT_12") || str_eq(content, "Windows_FAT_32") || str_eq(
        content,
        "Windows_FAT_16",
    ) || str_eq(content, "Windows_NTFS") {
        PartitionKind::BasicData
    } else if str_eq(content, "Linux Filesystem") || str_eq(content, "Linux") {
        PartitionKind::LinuxFilesystem
    } else if str_eq(content, "Linux Swap") || str_eq(content, "Linux_Swap") {
        PartitionKind::LinuxSwap
    } else {
        PartitionKind::Other
    }
}

/// The file system of a partition: macOS names file systems by their
/// bundle (`msdos`, `exfat`, …); one macOS can't read has none, so its
/// partition type decides.
pub open spec fn spec_file_system(filesystem_type: Seq<char>, content: Seq<char>) -> FileSystem {
    if filesystem_type == "msdos"@ {
        FileSystem::Fat32
    } else if filesystem_type.len() == 0 {
        if content == "Apple_APFS"@ {
            FileSystem::Apfs
        } else if content == "Apple_HFS"@ {
            FileSystem::HfsPlus
        } else if content == "Linux Swap"@ || content == "Linux_Swap"@ {
            FileSystem::LinuxSwap
        } else {
            FileSystem::Unknown
        }
    } else {
        crate::models::fs_from_lsblk(filesystem_type)
    }
}

pub fn file_system(filesystem_type: &str, content: &str) -> (r: FileSystem)
    ensures
        r == spec_file_system(filesystem_type@, content@),
{
    if str_eq(filesystem_type, "msdos") {
        FileSystem::Fat32
    } else if filesystem_type.unicode_len() == 0 {
        if str_eq(content, "Apple_APFS") {
            FileSystem::Apfs
        } else if str_eq(content, "Apple_HFS") {
            FileSystem::HfsPlus
        } else if str_eq(content, "Linux Swap") || str_eq(content, "Linux_Swap") {
            FileSystem::LinuxSwap
        } else {
            FileSystem::Unknown
        }
    } else {
        FileSystem::from_lsblk_fstype(filesystem_type)
    }
}

/// Where the running system lives.
#[derive(Debug, Default)]
pub struct SystemMedia {
    /// Whole disks, e.g. `disk0`.
    pub disks: Vec<String>,
    /// Partitions holding the system, e.g. the APFS physical store
    /// `disk0s2`.
    pub partitions: Vec<String>,
}

/// The whole disks and partitions the physical stores name, in order
/// (stores that are not partitions are left out).
pub open spec fn store_media(stores: Seq<ApfsPhysicalStore>) -> (Seq<Seq<char>>, Seq<Seq<char>>)
    decreases stores.len(),
{
    if stores.len() == 0 {
        (Seq::empty(), Seq::empty())
    } else {
        let prev = store_media(stores.drop_last());
        let id = stores.last().device_identifier@;
        match spec_split_identifier(id) {
            Some((d, Some(_))) => (prev.0.push("disk"@ + decimal(d as nat)), prev.1.push(id)),
            _ => prev,
        }
    }
}

/// What `from_root_info` finds: on APFS, `/` is a volume of a synthesized
/// container disk whose physical stores name the real partitions;
/// without APFS the parent whole disk is the real disk.
pub open spec fn spec_root_media(root: DiskutilInfo) -> (Seq<Seq<char>>, Seq<Seq<char>>) {
    let s = store_media(root.apfs_physical_stores@);
    let disks = if root.parent_whole_disk@.len() > 0 {
        s.0.push(root.parent_whole_disk@)
    } else {
        s.0
    };
    let parts = if root.device_identifier@.len() > 0 {
        s.1.push(root.device_identifier@)
    } else {
        s.1
    };
    (disks, parts)
}

impl SystemMedia {
    /// Where the system lives, from `diskutil info -plist /`.
    pub fn from_root_info(root: &DiskutilInfo) -> (r: SystemMedia)
        ensures
            (strings_view(r.disks@), strings_view(r.partitions@)) == spec_root_media(*root),
    {
        let mut media = SystemMedia { disks: Vec::new(), partitions: Vec::new() };
        let mut i: usize = 0;
        while i < root.apfs_physical_stores.len()
            invariant
                i <= root.apfs_physical_stores.len(),
                (strings_view(media.disks@), strings_view(media.partitions@)) == store_media(
                    root.apfs_physical_stores@.take(i as int),
                ),
            decreases root.apfs_physical_stores.len() - i,
        {
            let store = &root.apfs_physical_stores[i];
            assert(root.apfs_physical_stores@.take(i + 1).drop_last() =~= root.apfs_physical_stores@.take(i as int));
            match split_identifier(store.device_identifier.as_str()) {
                Some((disk, Some(_))) => {
                    let mut name = String::from_str("disk");
                    push_decimal(&mut name, disk as u64);
                    let ghost d0 = strings_view(media.disks@);
                    let ghost p0 = strings_view(media.partitions@);
                    media.disks.push(name);
                    media.partitions.push(store.device_identifier.clone());
                    proof {
                        reveal_strlit("disk");
                        assert(strings_view(media.disks@) =~= d0.push("disk"@ + decimal(disk as nat)));
                        assert(strings_view(media.partitions@) =~= p0.push(store.device_identifier@));
                    }
                },
                _ => {},
            }
            i = i + 1;
        }
        assert(root.apfs_physical_stores@.take(root.apfs_physical_stores.len() as int) =~= root.apfs_physical_stores@);
        if root.parent_whole_disk.unicode_len() > 0 {
            let ghost d0 = strings_view(media.disks@);
            media.disks.push(root.parent_whole_disk.clone());
            assert(strings_view(media.disks@) =~= d0.push(root.parent_whole_disk@));
        }
        if root.device_identifier.unicode_len() > 0 {
            let ghost p0 = strings_view(media.partitions@);
            media.partitions.push(root.device_identifier.clone());
            assert(strings_view(media.partitions@) =~= p0.push(root.device_identifier@));
        }
        media
    }
}

/// A property list value, as `ioreg -a` prints them (the kinds read).
#[derive(Debug)]
pub enum PlistValue {
    Dictionary(Vec<(String, PlistValue)>),
    Array(Vec<PlistValue>),
    String(String),
    Integer(u64),
    Other,
}

/// The value of the first `key` entry of a dictionary.
pub open spec fn dict_get(entries: Seq<(String, PlistValue)>, key: Seq<char>, i: int) -> Option<PlistValue>
    decreases entries.len() - i,
{
    if i < 0 || i >= entries.len() {
        None
    } else if entries[i].0@ == key {
        Some(entries[i].1)
    } else {
        dict_get(entries, key, i + 1)
    }
}

/// The `(BSD Name, Base)` pair a dictionary holds itself, if it has both.
pub open spec fn own_offset(entries: Seq<(String, PlistValue)>) -> Seq<(Seq<char>, u64)> {
    match (dict_get(entries, "BSD Name"@, 0), dict_get(entries, "Base"@, 0)) {
        (Some(PlistValue::String(n)), Some(PlistValue::Integer(b))) => seq![(n@, b)],
        _ => Seq::empty(),
    }
}

/// Every `(BSD Name, Base)` pair in the tree, in document order: a
/// dictionary's own before those of its values.
pub open spec fn offsets_in(v: PlistValue) -> Seq<(Seq<char>, u64)>
    decreases v,
{
    match v {
        PlistValue::Dictionary(entries) => own_offset(entries@) + entry_offsets(entries@),
        PlistValue::Array(items) => item_offsets(items@),
        _ => Seq::empty(),
    }
}

/// The pairs in the values of the entries, in order.
pub open spec fn entry_offsets(entries: Seq<(String, PlistValue)>) -> Seq<(Seq<char>, u64)>
    decreases entries,
{
    if entries.len() == 0 {
        Seq::empty()
    } else {
        entry_offsets(entries.drop_last()) + offsets_in(entries.last().1)
    }
}

/// The pairs in the items, in order.
pub open spec fn item_offsets(items: Seq<PlistValue>) -> Seq<(Seq<char>, u64)>
    decreases items,
{
    if items.len() == 0 {
        Seq::empty()
    } else {
        item_offsets(items.drop_last()) + offsets_in(items.last())
    }
}

fn dict_find<'a>(entries: &'a Vec<(String, PlistValue)>, key: &str) -> (r: Option<&'a PlistValue>)
    ensures
        match r {
            Some(v) => dict_get(entries@, key@, 0) == Some(*v),
            None => dict_get(entries@, key@, 0) is None,
        },
{
    let mut i: usize = 0;
    while i < entries.len()
        invariant
            i <= entries.len(),
            dict_get(entries@, key@, 0) == dict_get(entries@, key@, i as int),
        decreases entries.len() - i,
    {
        if str_eq(entries[i].0.as_str(), key) {
            return Some(&entries[i].1);
        }
        i = i + 1;
    }
    None
}

/// Appends the offsets in `v` to `out`.
fn collect_offsets(v: &PlistValue, out: &mut Vec<(String, u64)>)
    ensures
        offset_view(final(out)@) == offset_view(old(out)@) + offsets_in(*v),
    decreases v,
{
    match v {
        PlistValue::Dictionary(entries) => {
            proof {
                reveal_strlit("BSD Name");
                reveal_strlit("Base");
            }
            let name = dict_find(entries, "BSD Name");
            let base = dict_find(entries, "Base");
            match (name, base) {
                (Some(PlistValue::String(n)), Some(PlistValue::Integer(b))) => {
                    out.push((n.clone(), *b));
                },
                _ => {},
            }
            let ghost mid = offset_view(out@);
            assert(mid == offset_view(old(out)@) + own_offset(entries@));
            let mut i: usize = 0;
            while i < entries.len()
                invariant
                    i <= entries.len(),
                    *v is Dictionary,
                    v->Dictionary_0 == *entries,
                    offset_view(out@) == mid + entry_offsets(entries@.take(i as int)),
                decreases entries.len() - i,
            {
                assert(entries@.take(i + 1).drop_last() =~= entries@.take(i as int));
                proof {
                    assert(decreases_to!(*v => v->Dictionary_0));
                    assert(decreases_to!(*entries => entries@));
                    assert(decreases_to!(entries@ => entries@[i as int]));
                    assert(decreases_to!(entries@[i as int] => entries@[i as int].1));
                }
                collect_offsets(&entries[i].1, out);
                assert(offset_view(out@) =~= mid + entry_offsets(entries@.take(i + 1)));
                i = i + 1;
            }
            assert(entries@.take(entries.len() as int) =~= entries@);
            assert(offset_view(out@) =~= offset_view(old(out)@) + offsets_in(*v));
        },
        PlistValue::Array(items) => {
            let mut i: usize = 0;
            assert(offset_view(out@) =~= offset_view(old(out)@) + item_offsets(items@.take(0)));
            while i < items.len()
                invariant
                    i <= items.len(),
                    *v is Array,
                    v->Array_0 == *items,
                    offset_view(out@) == offset_view(old(out)@) + item_offsets(items@.take(i as int)),
                decreases items.len() - i,
            {
                assert(items@.take(i + 1).drop_last() =~= items@.take(i as int));
                proof {
                    assert(decreases_to!(*v => v->Array_0));
                    assert(decreases_to!(*items => items@));
                    assert(decreases_to!(items@ => items@[i as int]));
                }
                collect_offsets(&items[i], out);
                assert(offset_view(out@) =~= offset_view(old(out)@) + item_offsets(items@.take(i + 1)));
                i = i + 1;
            }
            assert(items@.take(items.len() as int) =~= items@);
        },
        _ => {
            assert(offset_view(out@) =~= offset_view(old(out)@) + offsets_in(*v));
        },
    }
}

/// The pairs as texts.
pub open spec fn offset_view(s: Seq<(String, u64)>) -> Seq<(Seq<char>, u64)> {
    s.map_values(|p: (String, u64)| (p.0@, p.1))
}

/// The byte offset of every IOMedia object within its disk, keyed by BSD
/// name, from `ioreg -a -l -r -c IOMedia`: IOKit keeps it as the `Base`
/// of each object, and the objects are nested, so the whole tree is
/// walked. For a name listed twice, the later pair counts.
pub fn media_offsets(root: &PlistValue) -> (r: Vec<(String, u64)>)
    ensures
        offset_view(r@) == offsets_in(*root),
{
    let mut out: Vec<(String, u64)> = Vec::new();
    assert(offset_view(out@) =~= Seq::<(Seq<char>, u64)>::empty());
    collect_offsets(root, &mut out);
    assert(offset_view(out@) =~= offsets_in(*root));
    out
}

/// The value of the last pair named `name` (later pairs override earlier
/// ones).
pub open spec fn last_value(offsets: Seq<(Seq<char>, u64)>, name: Seq<char>) -> Option<u64>
    decreases offsets.len(),
{
    if offsets.len() == 0 {
        None
    } else if offsets.last().0 == name {
        Some(offsets.last().1)
    } else {
        last_value(offsets.drop_last(), name)
    }
}

fn lookup_offset(offsets: &Vec<(String, u64)>, name: &str) -> (r: Option<u64>)
    ensures
        r == last_value(offset_view(offsets@), name@),
{
    let mut i = offsets.len();
    let ghost view = offset_view(offsets@);
    assert(view.take(i as int) =~= view);
    while i > 0
        invariant
            i <= offsets.len(),
            view == offset_view(offsets@),
            last_value(view, name@) == last_value(view.take(i as int), name@),
        decreases i,
    {
        assert(view.take(i as int).drop_last() =~= view.take(i - 1));
        assert(view.take(i as int).last() == (offsets@[i - 1].0@, offsets@[i - 1].1));
        if str_eq(offsets[i - 1].0.as_str(), name) {
            return Some(offsets[i - 1].1);
        }
        i = i - 1;
    }
    None
}

/// The info of the last entry named `name`.
pub open spec fn last_info(infos: Seq<(String, DiskutilInfo)>, name: Seq<char>) -> Option<DiskutilInfo>
    decreases infos.len(),
{
    if infos.len() == 0 {
        None
    } else if infos.last().0@ == name {
        Some(infos.last().1)
    } else {
        last_info(infos.drop_last(), name)
    }
}

fn lookup_info<'a>(infos: &'a Vec<(String, DiskutilInfo)>, name: &str) -> (r: Option<&'a DiskutilInfo>)
    ensures
        match r {
            Some(i) => last_info(infos@, name@) == Some(*i),
            None => last_info(infos@, name@) is None,
        },
{
    let mut i = infos.len();
    assert(infos@.take(i as int) =~= infos@);
    while i > 0
        invariant
            i <= infos.len(),
            last_info(infos@, name@) == last_info(infos@.take(i as int), name@),
        decreases i,
    {
        assert(infos@.take(i as int).drop_last() =~= infos@.take(i - 1));
        if str_eq(infos[i - 1].0.as_str(), name) {
            return Some(&infos[i - 1].1);
        }
        i = i - 1;
    }
    None
}

/// Whether the list holds `s`.
pub open spec fn holds(list: Seq<String>, s: Seq<char>) -> bool {
    exists|i: int| 0 <= i < list.len() && list[i]@ == s
}

fn contains_str(list: &Vec<String>, s: &str) -> (r: bool)
    ensures
        r == holds(list@, s@),
{
    let mut i: usize = 0;
    while i < list.len()
        invariant
            i <= list.len(),
            forall|j: int| 0 <= j < i ==> list@[j]@ != s@,
        decreases list.len() - i,
    {
        if str_eq(list[i].as_str(), s) {
            return true;
        }
        i = i + 1;
    }
    false
}

/// A partition of the listing: its start, its index in the listing, its
/// number and size.
pub type Entry = (u64, usize, u32, u64);

/// The partitions of the listing that `diskutil` numbers (`diskNsM`), in
/// listing order, with the start `ioreg` gives (`None`: one has none).
pub open spec fn entries_of(parts: Seq<ListedPartition>, offsets: Seq<(Seq<char>, u64)>) -> Option<Seq<Entry>>
    decreases parts.len(),
{
    if parts.len() == 0 {
        Some(Seq::empty())
    } else {
        match entries_of(parts.drop_last(), offsets) {
            None => None,
            Some(prev) => {
                let p = parts.last();
                match spec_split_identifier(p.device_identifier@) {
                    Some((_, Some(n))) => match last_value(offsets, p.device_identifier@) {
                        Some(start) => Some(prev.push((start, (parts.len() - 1) as usize, n, p.size))),
                        None => None,
                    },
                    _ => Some(prev),
                }
            },
        }
    }
}

/// The first position in `sorted` that starts after `x`.
pub open spec fn insert_at(sorted: Seq<Entry>, x: Entry, i: int) -> int
    decreases sorted.len() - i,
{
    if i < 0 || i >= sorted.len() {
        sorted.len() as int
    } else if sorted[i].0 > x.0 {
        i
    } else {
        insert_at(sorted, x, i + 1)
    }
}

/// The entries sorted by start, equal starts in listing order.
pub open spec fn sort_entries(es: Seq<Entry>) -> Seq<Entry>
    decreases es.len(),
{
    if es.len() == 0 {
        es
    } else {
        let s = sort_entries(es.drop_last());
        s.insert(insert_at(s, es.last(), 0), es.last())
    }
}

proof fn lemma_insert_at(sorted: Seq<Entry>, x: Entry, i: int)
    requires
        0 <= i <= sorted.len(),
    ensures
        i <= insert_at(sorted, x, i) <= sorted.len(),
    decreases sorted.len() - i,
{
    if i < sorted.len() && !(sorted[i].0 > x.0) {
        lemma_insert_at(sorted, x, i + 1);
    }
}

/// Sorts the entries by start, keeping the listing order of equal ones.
fn sorted_entries(es: &Vec<Entry>) -> (r: Vec<Entry>)
    ensures
        r@ == sort_entries(es@),
{
    let mut out: Vec<Entry> = Vec::new();
    let mut i: usize = 0;
    while i < es.len()
        invariant
            i <= es.len(),
            out@ == sort_entries(es@.take(i as int)),
        decreases es.len() - i,
    {
        let x = es[i];
        let mut p: usize = 0;
        proof {
            lemma_insert_at(out@, x, 0);
        }
        while p < out.len() && !(out[p].0 > x.0)
            invariant
                p <= out.len(),
                insert_at(out@, x, 0) == insert_at(out@, x, p as int),
            decreases out.len() - p,
        {
            p = p + 1;
        }
        assert(es@.take(i + 1).drop_last() =~= es@.take(i as int));
        assert(es@.take(i + 1).last() == x);
        out.insert(p, x);
        i = i + 1;
    }
    assert(es@.take(es.len() as int) =~= es@);
    out
}

/// The entries of the listing, or the error for a partition `ioreg` gave
/// no offset for.
fn listed_entries(parts: &Vec<ListedPartition>, offsets: &Vec<(String, u64)>) -> (r: Result<Vec<Entry>, InventoryError>)
    ensures
        match entries_of(parts@, offset_view(offsets@)) {
            Some(es) => r matches Ok(v) && v@ == es,
            None => r matches Err(InventoryError::ReadFailed(_)),
        },
{
    let mut out: Vec<Entry> = Vec::new();
    let mut i: usize = 0;
    while i < parts.len()
        invariant
            i <= parts.len(),
            entries_of(parts@.take(i as int), offset_view(offsets@)) == Some(out@),
        decreases parts.len() - i,
    {
        let p = &parts[i];
        assert(parts@.take(i + 1).drop_last() =~= parts@.take(i as int));
        assert(parts@.take(i + 1).last() == *p);
        match split_identifier(p.device_identifier.as_str()) {
            Some((_, Some(n))) => match lookup_offset(offsets, p.device_identifier.as_str()) {
                Some(start) => {
                    out.push((start, i, n, p.size));
                },
                None => {
                    proof {
                        lemma_entries_none_extends(parts@, offset_view(offsets@), i as int + 1);
                    }
                    let mut m = String::from_str("no offset for ");
                    m.append(p.device_identifier.as_str());
                    return Err(InventoryError::ReadFailed(m));
                },
            },
            _ => {},
        }
        i = i + 1;
    }
    assert(parts@.take(parts.len() as int) =~= parts@);
    Ok(out)
}

proof fn lemma_entries_none_extends(parts: Seq<ListedPartition>, offsets: Seq<(Seq<char>, u64)>, k: int)
    requires
        0 <= k <= parts.len(),
        entries_of(parts.take(k), offsets) is None,
    ensures
        entries_of(parts, offsets) is None,
    decreases parts.len() - k,
{
    if k < parts.len() {
        assert(parts.take(k + 1).drop_last() =~= parts.take(k));
        lemma_entries_none_extends(parts, offsets, k + 1);
    } else {
        assert(parts.take(k) =~= parts);
    }
}

proof fn lemma_sort_entries(es: Seq<Entry>)
    ensures
        sort_entries(es).len() == es.len(),
        forall|k: int| 0 <= k < es.len() ==> es.contains(#[trigger] sort_entries(es)[k]),
    decreases es.len(),
{
    if es.len() > 0 {
        let s = sort_entries(es.drop_last());
        lemma_sort_entries(es.drop_last());
        lemma_insert_at(s, es.last(), 0);
        let p = insert_at(s, es.last(), 0);
        assert forall|k: int| 0 <= k < es.len() implies es.contains(#[trigger] sort_entries(es)[k]) by {
            if k < p {
                assert(sort_entries(es)[k] == s[k]);
                assert(es.drop_last().contains(s[k]));
                let j = choose|j: int| 0 <= j < es.drop_last().len() && es.drop_last()[j] == s[k];
                assert(es[j] == s[k]);
            } else if k == p {
                assert(es[es.len() - 1] == es.last());
            } else {
                assert(sort_entries(es)[k] == s[k - 1]);
                assert(es.drop_last().contains(s[k - 1]));
                let j = choose|j: int| 0 <= j < es.drop_last().len() && es.drop_last()[j] == s[k - 1];
                assert(es[j] == s[k - 1]);
            }
        }
    }
}

/// The entry describes listed partition `e.1`: its number, size and the
/// start `ioreg` gives for it.
pub open spec fn entry_ok(e: Entry, parts: Seq<ListedPartition>, offsets: Seq<(Seq<char>, u64)>) -> bool {
    &&& e.1 < parts.len()
    &&& e.3 == parts[e.1 as int].size
    &&& spec_split_identifier(parts[e.1 as int].device_identifier@) matches Some((_, Some(n))) && n == e.2
    &&& last_value(offsets, parts[e.1 as int].device_identifier@) == Some(e.0)
}

proof fn lemma_entries_ok(parts: Seq<ListedPartition>, offsets: Seq<(Seq<char>, u64)>)
    requires
        entries_of(parts, offsets) is Some,
        parts.len() <= usize::MAX,
    ensures
        forall|k: int|
            0 <= k < entries_of(parts, offsets)->0.len() ==> entry_ok(
                #[trigger] entries_of(parts, offsets)->0[k],
                parts,
                offsets,
            ),
    decreases parts.len(),
{
    if parts.len() > 0 {
        let prev = parts.drop_last();
        lemma_entries_ok(prev, offsets);
        let es = entries_of(parts, offsets)->0;
        assert forall|k: int| 0 <= k < es.len() implies entry_ok(#[trigger] es[k], parts, offsets) by {
            if k < entries_of(prev, offsets)->0.len() {
                let e = entries_of(prev, offsets)->0[k];
                assert(es[k] == e);
                assert(entry_ok(e, prev, offsets));
                assert(parts[e.1 as int] == prev[e.1 as int]);
            } else {
                let p = parts.last();
                assert(parts[parts.len() - 1] == p);
                let sp = spec_split_identifier(p.device_identifier@)->0;
                let n = sp.1->0;
                assert(es[k] == (last_value(offsets, p.device_identifier@)->0, (parts.len() - 1) as usize, n, p.size));
            }
        }
    }
}

/// The flag bits of a macOS partition: boot for EFI; system and locked
/// where the system lives on it; mounted where it has a mount point.
pub open spec fn mac_flags(efi: bool, system: bool, mounted: bool) -> u8 {
    ((if efi { FLAG_BOOT } else { 0u8 }) | (if system { FLAG_SYSTEM | FLAG_LOCKED } else { 0u8 }) | (
    if mounted { FLAG_ACTIVE_MOUNT } else { 0u8 })) as u8
}

/// Partition `p` is listed partition `lp` as described by entry `e`,
/// with what `diskutil info` reported of it (`None`: nothing).
pub open spec fn mac_partition_matches(
    p: Partition,
    e: Entry,
    lp: ListedPartition,
    info: Option<DiskutilInfo>,
    system_partitions: Seq<String>,
    disk_path: Seq<char>,
) -> bool {
    let fs_type = match info {
        Some(i) => i.filesystem_type@,
        None => Seq::empty(),
    };
    let volume = match info {
        Some(i) => i.volume_name@,
        None => Seq::empty(),
    };
    let mount = match info {
        Some(i) => i.mount_point@,
        None => Seq::empty(),
    };
    &&& p.number == e.2
    &&& p.id.0@ == partition_id_text(disk_path, e.2 as nat)
    &&& p.start.0 == e.0
    &&& p.size.0 == e.3
    &&& p.used is None
    &&& p.fs == spec_file_system(fs_type, lp.content@)
    &&& p.kind == spec_partition_kind(lp.content@)
    &&& opt_text(p.label) == (if volume.len() > 0 { Some(volume) } else { None })
    &&& p.flags.bits == mac_flags(
        spec_partition_kind(lp.content@) is Efi,
        holds(system_partitions, lp.device_identifier@),
        mount.len() > 0,
    )
    &&& p.drive_letter is None
    &&& strings_view(p.mountpoints@) == (if mount.len() > 0 { seq![mount] } else { Seq::empty() })
}

/// Where the first `k` partitions reach: the usable start, or the
/// furthest partition end.
pub open spec fn mac_cursor(es: Seq<Entry>, start: int, k: int) -> int
    decreases k,
{
    if k <= 0 {
        start
    } else {
        let c = mac_cursor(es, start, k - 1);
        let e = es[k - 1].0 + es[k - 1].3;
        if c >= e {
            c
        } else {
            e
        }
    }
}

/// A listing whose partitions end within 64 bits.
pub open spec fn listing_ok(listed: ListedDisk, offsets: Seq<(Seq<char>, u64)>) -> bool {
    entries_of(listed.partitions@, offsets) matches Some(es) ==> forall|k: int|
        0 <= k < es.len() ==> (#[trigger] es[k]).0 + es[k].3 <= u64::MAX
}

/// The health `diskutil` names.
pub open spec fn mac_health(smart: Seq<char>) -> HealthStatus {
    if smart == "Verified"@ {
        HealthStatus::Healthy
    } else if smart == "Failing"@ {
        HealthStatus::Failing
    } else {
        HealthStatus::Unknown
    }
}

fn info_parts(info: Option<&DiskutilInfo>) -> (r: (String, String, String))
    ensures
        r.0@ == (match info {
            Some(i) => i.filesystem_type@,
            None => Seq::empty(),
        }),
        r.1@ == (match info {
            Some(i) => i.volume_name@,
            None => Seq::empty(),
        }),
        r.2@ == (match info {
            Some(i) => i.mount_point@,
            None => Seq::empty(),
        }),
{
    match info {
        Some(i) => (i.filesystem_type.clone(), i.volume_name.clone(), i.mount_point.clone()),
        None => (String::new(), String::new(), String::new()),
    }
}

/// Builds one disk from what `diskutil` and `ioreg` reported: its
/// partitions sorted by start, free space in the gaps of the range
/// partitions may occupy. `partition_infos` holds `diskutil info` of the
/// partitions by identifier (a partition without one keeps its type and
/// an unknown file system); `offsets` the `ioreg` offsets by BSD name.
pub fn build_disk(
    listed: &ListedDisk,
    info: &DiskutilInfo,
    partition_infos: &Vec<(String, DiskutilInfo)>,
    offsets: &Vec<(String, u64)>,
    system: &SystemMedia,
) -> (r: Result<Disk, InventoryError>)
    requires
        listing_ok(*listed, offset_view(offsets@)),
    ensures
        r is Err <==> !(spec_split_identifier(listed.device_identifier@) matches Some((_, None)))
            || entries_of(listed.partitions@, offset_view(offsets@)) is None,
        r is Err ==> r matches Err(InventoryError::ReadFailed(_)),
        r matches Ok(d) ==> {
            let split = spec_split_identifier(listed.device_identifier@)->0;
            let number = split.0;
            let es = sort_entries(entries_of(listed.partitions@, offset_view(offsets@))->0);
            let table = spec_partition_table(listed.content@);
            let (ustart, uend) = spec_usable_range(listed.size, table);
            &&& d.id.0@ == "/dev/"@ + listed.device_identifier@
            &&& d.display_name@ == "Disk "@ + decimal(number as nat)
            &&& d.vendor@ == Seq::<char>::empty()
            &&& d.model@ == trimmed(info.media_name@)
            &&& d.serial is None
            &&& d.bus == spec_bus_type(info.bus_protocol@)
            &&& d.media == (if info.solid_state == Some(true) { MediaType::Ssd } else { MediaType::Unknown })
            &&& d.size.0 == listed.size
            &&& d.logical_sector_size == (if info.device_block_size > 0 { info.device_block_size } else { 512 })
            &&& d.table == table
            &&& d.health == mac_health(info.smart_status@)
            &&& d.read_only == (info.writable_media == Some(false))
            &&& d.is_system_disk == holds(system.disks@, listed.device_identifier@)
            &&& partitions_of(d.layout@).len() == es.len()
            &&& forall|k: int|
                0 <= k < es.len() ==> mac_partition_matches(
                    #[trigger] partitions_of(d.layout@)[k],
                    es[k],
                    listed.partitions@[es[k].1 as int],
                    last_info(partition_infos@, listed.partitions@[es[k].1 as int].device_identifier@),
                    system.partitions@,
                    d.id.0@,
                )
            &&& ps_gaps_ok(d.layout@)
            &&& forall|j: int|
                0 <= j < d.layout@.len() ==> (#[trigger] d.layout@[j]) is Unallocated ==> d.layout@[j].spec_start()
                    >= ustart
            &&& ({
                let c = mac_cursor(es, ustart as int, es.len() as int);
                if c < uend {
                    d.layout@.len() > 0 && d.layout@.last() is Unallocated && d.layout@.last().spec_start() == c
                        && seg_end(d.layout@.last()) == uend
                } else {
                    d.layout@.len() == 0 || d.layout@.last() is Partition
                }
            })
        },
{
    let number = match split_identifier(listed.device_identifier.as_str()) {
        Some((n, None)) => n,
        _ => {
            let mut m = String::from_str("unexpected disk identifier ");
            m.append(listed.device_identifier.as_str());
            return Err(InventoryError::ReadFailed(m));
        },
    };
    let entries = match listed_entries(&listed.partitions, offsets) {
        Ok(es) => es,
        Err(e) => return Err(e),
    };
    let mut path = String::from_str("/dev/");
    path.append(listed.device_identifier.as_str());
    let ghost dpath = path@;
    let id = DiskId::from_string(path);
    let table = partition_table(listed.content.as_str());
    let sorted = sorted_entries(&entries);
    proof {
        lemma_sort_entries(entries@);
        assert(listed.partitions@.len() == listed.partitions.len());
        lemma_entries_ok(listed.partitions@, offset_view(offsets@));
        assert forall|k: int| 0 <= k < sorted.len() implies entry_ok(#[trigger] sorted@[k], listed.partitions@, offset_view(offsets@))
            && sorted@[k].0 + sorted@[k].3 <= u64::MAX by {
            assert(entries@.contains(sorted@[k]));
            let j = choose|j: int| 0 <= j < entries@.len() && entries@[j] == sorted@[k];
            assert(entry_ok(entries@[j], listed.partitions@, offset_view(offsets@)));
        }
    }
    let (usable_start, usable_end) = usable_range(listed.size, table);
    let mut layout: Vec<Segment> = Vec::new();
    let mut cursor: u64 = usable_start;
    let mut i: usize = 0;
    while i < sorted.len()
        invariant
            i <= sorted.len(),
            id.0@ == dpath,
            dpath == "/dev/"@ + listed.device_identifier@,
            (usable_start, usable_end) == spec_usable_range(listed.size, table),
            forall|k: int| 0 <= k < sorted.len() ==> entry_ok(#[trigger] sorted@[k], listed.partitions@, offset_view(offsets@))
                && sorted@[k].0 + sorted@[k].3 <= u64::MAX,
            usable_start <= cursor,
            cursor == mac_cursor(sorted@, usable_start as int, i as int),
            layout@.len() == 0 || layout@.last() is Partition,
            partitions_of(layout@).len() == i,
            forall|k: int|
                0 <= k < i ==> mac_partition_matches(
                    #[trigger] partitions_of(layout@)[k],
                    sorted@[k],
                    listed.partitions@[sorted@[k].1 as int],
                    last_info(partition_infos@, listed.partitions@[sorted@[k].1 as int].device_identifier@),
                    system.partitions@,
                    dpath,
                ),
            ps_gaps_ok(layout@),
            forall|j: int|
                0 <= j < layout@.len() ==> (#[trigger] layout@[j]) is Unallocated ==> layout@[j].spec_start()
                    >= usable_start,
        decreases sorted.len() - i,
    {
        let e = sorted[i];
        assert(entry_ok(sorted@[i as int], listed.partitions@, offset_view(offsets@)));
        let lp = &listed.partitions[e.1];
        let pinfo = lookup_info(partition_infos, lp.device_identifier.as_str());
        let (fs_type, volume, mount) = info_parts(pinfo);
        let ghost before = layout@;
        if e.0 > cursor {
            layout.push(Segment::Unallocated { start: ByteSize(cursor), size: ByteSize(e.0 - cursor) });
            proof {
                lemma_partitions_push(before, layout@.last());
            }
        }
        let ghost mid = layout@;
        let kind = partition_kind(lp.content.as_str());
        let efi = match kind {
            PartitionKind::Efi => true,
            _ => false,
        };
        let sys = contains_str(&system.partitions, lp.device_identifier.as_str());
        let mounted = mount.unicode_len() > 0;
        let bits: u8 = (if efi { FLAG_BOOT } else { 0u8 }) | (if sys {
            FLAG_SYSTEM | FLAG_LOCKED
        } else {
            0u8
        }) | (if mounted { FLAG_ACTIVE_MOUNT } else { 0u8 });
        let label = if volume.unicode_len() > 0 {
            Some(volume)
        } else {
            None
        };
        let mut mountpoints: Vec<String> = Vec::new();
        if mounted {
            mountpoints.push(mount);
        }
        let ghost mview = strings_view(mountpoints@);
        let part = Partition {
            id: PartitionId::new(&id, e.2),
            number: e.2,
            start: ByteSize(e.0),
            size: ByteSize(e.3),
            used: None,
            fs: file_system(fs_type.as_str(), lp.content.as_str()),
            kind,
            label,
            flags: PartitionFlags::from_bits_truncate(bits),
            drive_letter: None,
            mountpoints,
        };
        assert(part.flags.bits == bits) by {
            assert((bits & 15u8) == bits) by (bit_vector)
                requires
                    bits == ((if efi { 1u8 } else { 0u8 }) | (if sys { 2u8 | 8u8 } else { 0u8 })
                        | (if mounted { 4u8 } else { 0u8 })),
            ;
        }
        assert(strings_view(part.mountpoints@) =~= (if mounted { seq![mount@] } else { Seq::<Seq<char>>::empty() }));
        assert(mac_partition_matches(
            part,
            sorted@[i as int],
            listed.partitions@[sorted@[i as int].1 as int],
            last_info(partition_infos@, listed.partitions@[sorted@[i as int].1 as int].device_identifier@),
            system.partitions@,
            dpath,
        ));
        layout.push(Segment::Partition(part));
        proof {
            lemma_partitions_push(mid, Segment::Partition(part));
            assert forall|k: int|
                0 <= k < i + 1 implies mac_partition_matches(
                    #[trigger] partitions_of(layout@)[k],
                    sorted@[k],
                    listed.partitions@[sorted@[k].1 as int],
                    last_info(partition_infos@, listed.partitions@[sorted@[k].1 as int].device_identifier@),
                    system.partitions@,
                    dpath,
                ) by {
                if k < i {
                    assert(partitions_of(layout@)[k] == partitions_of(before)[k]);
                }
            }
            assert forall|j: int| 0 <= j < layout@.len() implies ((#[trigger] layout@[j]) is Unallocated
                ==> layout@[j].spec_size() > 0 && (j + 1 < layout@.len() ==> seg_end(layout@[j])
                == layout@[j + 1].spec_start())) by {
                if j < before.len() {
                    assert(layout@[j] == before[j]);
                    if j + 1 < before.len() {
                        assert(layout@[j + 1] == before[j + 1]);
                    }
                }
            }
            assert forall|j: int|
                0 <= j < layout@.len() implies (#[trigger] layout@[j]) is Unallocated ==> layout@[j].spec_start()
                    >= usable_start by {
                if j < before.len() {
                    assert(layout@[j] == before[j]);
                }
            }
        }
        let end = e.0 + e.3;
        if end > cursor {
            cursor = end;
        }
        i = i + 1;
    }
    if cursor < usable_end {
        let ghost before = layout@;
        layout.push(Segment::Unallocated { start: ByteSize(cursor), size: ByteSize(usable_end - cursor) });
        proof {
            lemma_partitions_push(before, layout@.last());
            assert forall|j: int| 0 <= j < layout@.len() implies ((#[trigger] layout@[j]) is Unallocated
                ==> layout@[j].spec_size() > 0 && (j + 1 < layout@.len() ==> seg_end(layout@[j])
                == layout@[j + 1].spec_start())) by {
                if j < before.len() {
                    assert(layout@[j] == before[j]);
                    if j + 1 < before.len() {
                        assert(layout@[j + 1] == before[j + 1]);
                    }
                }
            }
            assert forall|j: int|
                0 <= j < layout@.len() implies (#[trigger] layout@[j]) is Unallocated ==> layout@[j].spec_start()
                    >= usable_start by {
                if j < before.len() {
                    assert(layout@[j] == before[j]);
                }
            }
        }
    }
    let mut display_name = String::from_str("Disk ");
    push_decimal(&mut display_name, number as u64);
    let health = if str_eq(info.smart_status.as_str(), "Verified") {
        HealthStatus::Healthy
    } else if str_eq(info.smart_status.as_str(), "Failing") {
        HealthStatus::Failing
    } else {
        HealthStatus::Unknown
    };
    Ok(
        Disk {
            id,
            display_name,
            vendor: String::new(),
            model: trim_str(info.media_name.as_str()),
            serial: None,
            bus: bus_type(info.bus_protocol.as_str()),
            media: match info.solid_state {
                Some(true) => MediaType::Ssd,
                _ => MediaType::Unknown,
            },
            size: ByteSize(listed.size),
            logical_sector_size: if info.device_block_size > 0 {
                info.device_block_size
            } else {
                512
            },
            table,
            health,
            read_only: info.writable_media == Some(false),
            is_system_disk: contains_str(&system.disks, listed.device_identifier.as_str()),
            layout,
        },
    )
}

/// The partition table a `diskutil` scheme names: MBR exactly for
/// `FDisk_partition_scheme`, GPT exactly for `GUID_partition_scheme`, no
/// table for any other scheme.
pub proof fn lemma_partition_table(scheme: Seq<char>)
    ensures
        (spec_partition_table(scheme) == PartitionTable::Mbr) <==> scheme == "FDisk_partition_scheme"@,
        (spec_partition_table(scheme) == PartitionTable::Gpt) <==> scheme == "GUID_partition_scheme"@,
        (spec_partition_table(scheme) == PartitionTable::NoTable) <==> !(scheme == "FDisk_partition_scheme"@
            || scheme == "GUID_partition_scheme"@),
{
    reveal_strlit("FDisk_partition_scheme");
    reveal_strlit("GUID_partition_scheme");
    assert("FDisk_partition_scheme"@[0] != "GUID_partition_scheme"@[0]);
}

/// The bus `diskutil` names: USB, SATA, NVMe for PCI(-Express), NVMe and
/// Apple Fabric, virtual for disk images; any other protocol is unknown.
pub proof fn lemma_bus_type(p: Seq<char>)
    ensures
        p == "USB"@ ==> spec_bus_type(p) == BusType::Usb,
        p == "SATA"@ ==> spec_bus_type(p) == BusType::Sata,
        p == "PCI-Express"@ || p == "PCI"@ || p == "NVMe"@ || p == "Apple Fabric"@ ==> spec_bus_type(p) == BusType::Nvme,
        p == "Disk Image"@ || p == "Virtual Interface"@ ==> spec_bus_type(p) == BusType::Virtual,
        !((p == "USB"@) || (p == "SATA"@) || (p == "PCI-Express"@ || p == "PCI"@ || p == "NVMe"@ || p == "Apple Fabric"@) || (p == "Disk Image"@ || p == "Virtual Interface"@)) ==> spec_bus_type(p) == BusType::Unknown,
{
    reveal_strlit("Apple Fabric");
    reveal_strlit("Disk Image");
    reveal_strlit("NVMe");
    reveal_strlit("PCI");
    reveal_strlit("PCI-Express");
    reveal_strlit("SATA");
    reveal_strlit("USB");
    reveal_strlit("Virtual Interface");
    assert("Apple Fabric"@.len() != "Disk Image"@.len());
    assert("Apple Fabric"@.len() != "NVMe"@.len());
    assert("Apple Fabric"@.len() != "PCI"@.len());
    assert("Apple Fabric"@.len() != "PCI-Express"@.len());
    assert("Apple Fabric"@.len() != "SATA"@.len());
    assert("Apple Fabric"@.len() != "USB"@.len());
    assert("Apple Fabric"@.len() != "Virtual Interface"@.len());
    assert("Disk Image"@.len() != "NVMe"@.len());
    assert("Disk Image"@.len() != "PCI"@.len());
    assert("Disk Image"@.len() != "PCI-Express"@.len());
    assert("Disk Image"@.len() != "SATA"@.len());
    assert("Disk Image"@.len() != "USB"@.len());
    assert("Disk Image"@.len() != "Virtual Interface"@.len());
    assert("NVMe"@.len() != "PCI"@.len());
    assert("NVMe"@.len() != "PCI-Express"@.len());
    assert("NVMe"@[0] != "SATA"@[0]);
    assert("NVMe"@.len() != "USB"@.len());
    assert("NVMe"@.len() != "Virtual Interface"@.len());
    assert("PCI"@.len() != "PCI-Express"@.len());
    assert("PCI"@.len() != "SATA"@.len());
    assert("PCI"@[0] != "USB"@[0]);
    assert("PCI"@.len() != "Virtual Interface"@.len());
    assert("PCI-Express"@.len() != "SATA"@.len());
    assert("PCI-Express"@.len() != "USB"@.len());
    assert("PCI-Express"@.len() != "Virtual Interface"@.len());
    assert("SATA"@.len() != "USB"@.len());
    assert("SATA"@.len() != "Virtual Interface"@.len());
    assert("USB"@.len() != "Virtual Interface"@.len());
}

/// A partition's role from the type `diskutil` names.
pub proof fn lemma_mac_partition_kind(c: Seq<char>)
    ensures
        c == "EFI"@ ==> spec_partition_kind(c) == PartitionKind::Efi,
        c == "Microsoft Reserved"@ ==> spec_partition_kind(c) == PartitionKind::MicrosoftReserved,
        c == "Windows Recovery"@ || c == "Apple_Boot"@ || c == "Apple_APFS_Recovery"@ ==> spec_partition_kind(c) == PartitionKind::Recovery,
        c == "Microsoft Basic Data"@ || c == "DOS_FAT_32"@ || c == "DOS_FAT_16"@ || c == "DOS_FAT_12"@ || c == "Windows_FAT_32"@ || c == "Windows_FAT_16"@ || c == "Windows_NTFS"@ ==> spec_partition_kind(c) == PartitionKind::BasicData,
        c == "Linux Filesystem"@ || c == "Linux"@ ==> spec_partition_kind(c) == PartitionKind::LinuxFilesystem,
        c == "Linux Swap"@ || c == "Linux_Swap"@ ==> spec_partition_kind(c) == PartitionKind::LinuxSwap,
        !((c == "EFI"@) || (c == "Microsoft Reserved"@) || (c == "Windows Recovery"@ || c == "Apple_Boot"@ || c == "Apple_APFS_Recovery"@) || (c == "Microsoft Basic Data"@ || c == "DOS_FAT_32"@ || c == "DOS_FAT_16"@ || c == "DOS_FAT_12"@ || c == "Windows_FAT_32"@ || c == "Windows_FAT_16"@ || c == "Windows_NTFS"@) || (c == "Linux Filesystem"@ || c == "Linux"@) || (c == "Linux Swap"@ || c == "Linux_Swap"@)) ==> spec_partition_kind(c) == PartitionKind::Other,
{
    reveal_strlit("Apple_APFS_Recovery");
    reveal_strlit("Apple_Boot");
    reveal_strlit("DOS_FAT_12");
    reveal_strlit("DOS_FAT_16");
    reveal_strlit("DOS_FAT_32");
    reveal_strlit("EFI");
    reveal_strlit("Linux");
    reveal_strlit("Linux Filesystem");
    reveal_strlit("Linux Swap");
    reveal_strlit("Linux_Swap");
    reveal_strlit("Microsoft Basic Data");
    reveal_strlit("Microsoft Reserved");
    reveal_strlit("Windows Recovery");
    reveal_strlit("Windows_FAT_16");
    reveal_strlit("Windows_FAT_32");
    reveal_strlit("Windows_NTFS");
    assert("Apple_APFS_Recovery"@.len() != "Apple_Boot"@.len());
    assert("Apple_APFS_Recovery"@.len() != "DOS_FAT_12"@.len());
    assert("Apple_APFS_Recovery"@.len() != "DOS_FAT_16"@.len());
    assert("Apple_APFS_Recovery"@.len() != "DOS_FAT_32"@.len());
    assert("Apple_APFS_Recovery"@.len() != "EFI"@.len());
    assert("Apple_APFS_Recovery"@.len() != "Linux"@.len());
    assert("Apple_APFS_Recovery"@.len() != "Linux Filesystem"@.len());
    assert("Apple_APFS_Recovery"@.len() != "Linux Swap"@.len());
    assert("Apple_APFS_Recovery"@.len() != "Linux_Swap"@.len());
    assert("Apple_APFS_Recovery"@.len() != "Microsoft Basic Data"@.len());
    assert("Apple_APFS_Recovery"@.len() != "Microsoft Reserved"@.len());
    assert("Apple_APFS_Recovery"@.len() != "Windows Recovery"@.len());
    assert("Apple_APFS_Recovery"@.len() != "Windows_FAT_16"@.len());
    assert("Apple_APFS_Recovery"@.len() != "Windows_FAT_32"@.len());
    assert("Apple_APFS_Recovery"@.len() != "Windows_NTFS"@.len());
    assert("Apple_Boot"@[0] != "DOS_FAT_12"@[0]);
    assert("Apple_Boot"@[0] != "DOS_FAT_16"@[0]);
    assert("Apple_Boot"@[0] != "DOS_FAT_32"@[0]);
    assert("Apple_Boot"@.len() != "EFI"@.len());
    assert("Apple_Boot"@.len() != "Linux"@.len());
    assert("Apple_Boot"@.len() != "Linux Filesystem"@.len());
    assert("Apple_Boot"@[0] != "Linux Swap"@[0]);
    assert("Apple_Boot"@[0] != "Linux_Swap"@[0]);
    assert("Apple_Boot"@.len() != "Microsoft Basic Data"@.len());
    assert("Apple_Boot"@.len() != "Microsoft Reserved"@.len());
    assert("Apple_Boot"@.len() != "Windows Recovery"@.len());
    assert("Apple_Boot"@.len() != "Windows_FAT_16"@.len());
    assert("Apple_Boot"@.len() != "Windows_FAT_32"@.len());
    assert("Apple_Boot"@.len() != "Windows_NTFS"@.len());
    assert("DOS_FAT_12"@[9] != "DOS_FAT_16"@[9]);
    assert("DOS_FAT_12"@[8] != "DOS_FAT_32"@[8]);
    assert("DOS_FAT_12"@.len() != "EFI"@.len());
    assert("DOS_FAT_12"@.len() != "Linux"@.len());
    assert("DOS_FAT_12"@.len() != "Linux Filesystem"@.len());
    assert("DOS_FAT_12"@[0] != "Linux Swap"@[0]);
    assert("DOS_FAT_12"@[0] != "Linux_Swap"@[0]);
    assert("DOS_FAT_12"@.len() != "Microsoft Basic Data"@.len());
    assert("DOS_FAT_12"@.len() != "Microsoft Reserved"@.len());
    assert("DOS_FAT_12"@.len() != "Windows Recovery"@.len());
    assert("DOS_FAT_12"@.len() != "Windows_FAT_16"@.len());
    assert("DOS_FAT_12"@.len() != "Windows_FAT_32"@.len());
    assert("DOS_FAT_12"@.len() != "Windows_NTFS"@.len());
    assert("DOS_FAT_16"@[8] != "DOS_FAT_32"@[8]);
    assert("DOS_FAT_16"@.len() != "EFI"@.len());
    assert("DOS_FAT_16"@.len() != "Linux"@.len());
    assert("DOS_FAT_16"@.len() != "Linux Filesystem"@.len());
    assert("DOS_FAT_16"@[0] != "Linux Swap"@[0]);
    assert("DOS_FAT_16"@[0] != "Linux_Swap"@[0]);
    assert("DOS_FAT_16"@.len() != "Microsoft Basic Data"@.len());
    assert("DOS_FAT_16"@.len() != "Microsoft Reserved"@.len());
    assert("DOS_FAT_16"@.len() != "Windows Recovery"@.len());
    assert("DOS_FAT_16"@.len() != "Windows_FAT_16"@.len());
    assert("DOS_FAT_16"@.len() != "Windows_FAT_32"@.len());
    assert("DOS_FAT_16"@.len() != "Windows_NTFS"@.len());
    assert("DOS_FAT_32"@.len() != "EFI"@.len());
    assert("DOS_FAT_32"@.len() != "Linux"@.len());
    assert("DOS_FAT_32"@.len() != "Linux Filesystem"@.len());
    assert("DOS_FAT_32"@[0] != "Linux Swap"@[0]);
    assert("DOS_FAT_32"@[0] != "Linux_Swap"@[0]);
    assert("DOS_FAT_32"@.len() != "Microsoft Basic Data"@.len());
    assert("DOS_FAT_32"@.len() != "Microsoft Reserved"@.len());
    assert("DOS_FAT_32"@.len() != "Windows Recovery"@.len());
    assert("DOS_FAT_32"@.len() != "Windows_FAT_16"@.len());
    assert("DOS_FAT_32"@.len() != "Windows_FAT_32"@.len());
    assert("DOS_FAT_32"@.len() != "Windows_NTFS"@.len());
    assert("EFI"@.len() != "Linux"@.len());
    assert("EFI"@.len() != "Linux Filesystem"@.len());
    assert("EFI"@.len() != "Linux Swap"@.len());
    assert("EFI"@.len() != "Linux_Swap"@.len());
    assert("EFI"@.len() != "Microsoft Basic Data"@.len());
    assert("EFI"@.len() != "Microsoft Reserved"@.len());
    assert("EFI"@.len() != "Windows Recovery"@.len());
    assert("EFI"@.len() != "Windows_FAT_16"@.len());
    assert("EFI"@.len() != "Windows_FAT_32"@.len());
    assert("EFI"@.len() != "Windows_NTFS"@.len());
    assert("Linux"@.len() != "Linux Filesystem"@.len());
    assert("Linux"@.len() != "Linux Swap"@.len());
    assert("Linux"@.len() != "Linux_Swap"@.len());
    assert("Linux"@.len() != "Microsoft Basic Data"@.len());
    assert("Linux"@.len() != "Microsoft Reserved"@.len());
    assert("Linux"@.len() != "Windows Recovery"@.len());
    assert("Linux"@.len() != "Windows_FAT_16"@.len());
    assert("Linux"@.len() != "Windows_FAT_32"@.len());
    assert("Linux"@.len() != "Windows_NTFS"@.len());
    assert("Linux Filesystem"@.len() != "Linux Swap"@.len());
    assert("Linux Filesystem"@.len() != "Linux_Swap"@.len());
    assert("Linux Filesystem"@.len() != "Microsoft Basic Data"@.len());
    assert("Linux Filesystem"@.len() != "Microsoft Reserved"@.len());
    assert("Linux Filesystem"@[0] != "Windows Recovery"@[0]);
    assert("Linux Filesystem"@.len() != "Windows_FAT_16"@.len());
    assert("Linux Filesystem"@.len() != "Windows_FAT_32"@.len());
    assert("Linux Filesystem"@.len() != "Windows_NTFS"@.len());
    assert("Linux Swap"@[5] != "Linux_Swap"@[5]);
    assert("Linux Swap"@.len() != "Microsoft Basic Data"@.len());
    assert("Linux Swap"@.len() != "Microsoft Reserved"@.len());
    assert("Linux Swap"@.len() != "Windows Recovery"@.len());
    assert("Linux Swap"@.len() != "Windows_FAT_16"@.len());
    assert("Linux Swap"@.len() != "Windows_FAT_32"@.len());
    assert("Linux Swap"@.len() != "Windows_NTFS"@.len());
    assert("Linux_Swap"@.len() != "Microsoft Basic Data"@.len());
    assert("Linux_Swap"@.len() != "Microsoft Reserved"@.len());
    assert("Linux_Swap"@.len() != "Windows Recovery"@.len());
    assert("Linux_Swap"@.len() != "Windows_FAT_16"@.len());
    assert("Linux_Swap"@.len() != "Windows_FAT_32"@.len());
    assert("Linux_Swap"@.len() != "Windows_NTFS"@.len());
    assert("Microsoft Basic Data"@.len() != "Microsoft Reserved"@.len());
    assert("Microsoft Basic Data"@.len() != "Windows Recovery"@.len());
    assert("Microsoft Basic Data"@.len() != "Windows_FAT_16"@.len());
    assert("Microsoft Basic Data"@.len() != "Windows_FAT_32"@.len());
    assert("Microsoft Basic Data"@.len() != "Windows_NTFS"@.len());
    assert("Microsoft Reserved"@.len() != "Windows Recovery"@.len());
    assert("Microsoft Reserved"@.len() != "Windows_FAT_16"@.len());
    assert("Microsoft Reserved"@.len() != "Windows_FAT_32"@.len());
    assert("Microsoft Reserved"@.len() != "Windows_NTFS"@.len());
    assert("Windows Recovery"@.len() != "Windows_FAT_16"@.len());
    assert("Windows Recovery"@.len() != "Windows_FAT_32"@.len());
    assert("Windows Recovery"@.len() != "Windows_NTFS"@.len());
    assert("Windows_FAT_16"@[12] != "Windows_FAT_32"@[12]);
    assert("Windows_FAT_16"@.len() != "Windows_NTFS"@.len());
    assert("Windows_FAT_32"@.len() != "Windows_NTFS"@.len());
}

/// The file system of a partition on macOS: `msdos` is FAT32; without a
/// file system type, APFS and HFS+ containers and Linux swap are known by
/// their partition type; any other type is read as `lsblk` would.
pub proof fn lemma_mac_file_system(t: Seq<char>, c: Seq<char>)
    ensures
        t == "msdos"@ ==> spec_file_system(t, c) == FileSystem::Fat32,
        t.len() == 0 && c == "Apple_APFS"@ ==> spec_file_system(t, c) == FileSystem::Apfs,
        t.len() == 0 && c == "Apple_HFS"@ ==> spec_file_system(t, c) == FileSystem::HfsPlus,
        t.len() == 0 && (c == "Linux Swap"@ || c == "Linux_Swap"@) ==> spec_file_system(t, c) == FileSystem::LinuxSwap,
        t.len() == 0 && !(c == "Apple_APFS"@ || c == "Apple_HFS"@ || c == "Linux Swap"@ || c == "Linux_Swap"@) ==> spec_file_system(t, c) == FileSystem::Unknown,
        t.len() > 0 && t != "msdos"@ ==> spec_file_system(t, c) == crate::models::fs_from_lsblk(t),
{
    reveal_strlit("Apple_APFS");
    reveal_strlit("Apple_HFS");
    reveal_strlit("Linux Swap");
    reveal_strlit("Linux_Swap");
    reveal_strlit("msdos");
    assert("Apple_APFS"@.len() != "Apple_HFS"@.len());
    assert("Apple_APFS"@[0] != "Linux Swap"@[0]);
    assert("Apple_APFS"@[0] != "Linux_Swap"@[0]);
    assert("Apple_APFS"@.len() != "msdos"@.len());
    assert("Apple_HFS"@.len() != "Linux Swap"@.len());
    assert("Apple_HFS"@.len() != "Linux_Swap"@.len());
    assert("Apple_HFS"@.len() != "msdos"@.len());
    assert("Linux Swap"@[5] != "Linux_Swap"@[5]);
    assert("Linux Swap"@.len() != "msdos"@.len());
    assert("Linux_Swap"@.len() != "msdos"@.len());
}

/// The health `diskutil` names: `Verified` is healthy, `Failing` failing,
/// anything else unknown.
pub proof fn lemma_mac_health(s: Seq<char>)
    ensures
        s == "Verified"@ ==> mac_health(s) == HealthStatus::Healthy,
        s == "Failing"@ ==> mac_health(s) == HealthStatus::Failing,
        !((s == "Verified"@) || (s == "Failing"@)) ==> mac_health(s) == HealthStatus::Unknown,
{
    reveal_strlit("Failing");
    reveal_strlit("Verified");
    assert("Failing"@.len() != "Verified"@.len());
}

} // verus!
