use moondisk::models::{BusType, Disk, FileSystem, PartitionFlags, PartitionKind, PartitionTable, Segment};
use moondisk::platform::macos::{
    build_disk, file_system, media_offsets, split_identifier, ApfsPhysicalStore, DiskutilInfo,
    ListedDisk, ListedPartition, PlistValue, SystemMedia,
};

const MIB: u64 = 1024 * 1024;

fn s(v: &str) -> String {
    v.to_string()
}

fn dict(entries: Vec<(&str, PlistValue)>) -> PlistValue {
    PlistValue::Dictionary(entries.into_iter().map(|(k, v)| (s(k), v)).collect())
}

fn text(v: &str) -> PlistValue {
    PlistValue::String(s(v))
}

/// The `ioreg -a -l -r -c IOMedia` sample: a whole disk with a GUID
/// partition scheme object holding two partitions.
fn ioreg() -> PlistValue {
    PlistValue::Array(vec![dict(vec![
        ("BSD Name", text("disk4")),
        ("Base", PlistValue::Integer(0)),
        ("IOObjectClass", text("IOMedia")),
        (
            "IORegistryEntryChildren",
            PlistValue::Array(vec![dict(vec![
                ("IOObjectClass", text("IOGUIDPartitionScheme")),
                (
                    "IORegistryEntryChildren",
                    PlistValue::Array(vec![
                        dict(vec![
                            ("BSD Name", text("disk4s1")),
                            ("Base", PlistValue::Integer(20480)),
                            ("Content", text("C12A7328-F81F-11D2-BA4B-00A0C93EC93B")),
                            ("Size", PlistValue::Integer(209715200)),
                        ]),
                        dict(vec![
                            ("BSD Name", text("disk4s2")),
                            ("Base", PlistValue::Integer(210763776)),
                            ("Size", PlistValue::Integer(8589934592)),
                        ]),
                    ]),
                ),
            ])]),
        ),
        ("Size", PlistValue::Integer(30752636928)),
    ])])
}

fn listed() -> ListedDisk {
    ListedDisk {
        device_identifier: s("disk4"),
        content: s("GUID_partition_scheme"),
        size: 30752636928,
        partitions: vec![
            ListedPartition { device_identifier: s("disk4s1"), content: s("EFI"), size: 209715200 },
            ListedPartition {
                device_identifier: s("disk4s2"),
                content: s("Microsoft Basic Data"),
                size: 8589934592,
            },
        ],
    }
}

fn disk_info() -> DiskutilInfo {
    DiskutilInfo {
        device_identifier: s("disk4"),
        bus_protocol: s("USB"),
        media_name: s("SanDisk Ultra "),
        device_block_size: 512,
        smart_status: s("Not Supported"),
        writable_media: Some(true),
        ..Default::default()
    }
}

fn stick_info() -> DiskutilInfo {
    DiskutilInfo {
        device_identifier: s("disk4s2"),
        filesystem_type: s("exfat"),
        mount_point: s("/Volumes/STICK"),
        parent_whole_disk: s("disk4"),
        volume_name: s("STICK"),
        ..Default::default()
    }
}

fn stick() -> Disk {
    let offsets = media_offsets(&ioreg());
    let partition_infos = vec![(s("disk4s2"), stick_info())];
    build_disk(&listed(), &disk_info(), &partition_infos, &offsets, &SystemMedia::default()).unwrap()
}

fn offset(offsets: &[(String, u64)], name: &str) -> u64 {
    offsets.iter().rev().find(|(n, _)| n == name).unwrap().1
}

#[test]
fn splits_disk_and_partition_identifiers() {
    assert_eq!(split_identifier("disk4"), Some((4, None)));
    assert_eq!(split_identifier("disk12s3"), Some((12, Some(3))));
    assert_eq!(split_identifier("disk3s1s1"), None);
    assert_eq!(split_identifier("/dev/disk4"), None);
}

#[test]
fn finds_nested_partition_offsets_in_ioreg_output() {
    let offsets = media_offsets(&ioreg());
    assert_eq!(offset(&offsets, "disk4"), 0);
    assert_eq!(offset(&offsets, "disk4s1"), 20480);
    assert_eq!(offset(&offsets, "disk4s2"), 210763776);
}

#[test]
fn builds_a_usb_disk_with_its_partitions() {
    let disk = stick();
    assert_eq!(disk.id.0, "/dev/disk4");
    assert_eq!(disk.display_name, "Disk 4");
    assert_eq!(disk.model, "SanDisk Ultra");
    assert_eq!(disk.bus, BusType::Usb);
    assert_eq!(disk.table, PartitionTable::Gpt);
    assert!(!disk.read_only);
    assert!(!disk.is_system_disk);

    let parts = disk.partitions();
    assert_eq!(parts.len(), 2);
    assert_eq!(parts[0].kind, PartitionKind::Efi);
    assert!(parts[0].flags.contains(PartitionFlags::boot()));
    // No `diskutil info` for the EFI partition: its type is kept, the
    // file system is unknown rather than guessed.
    assert_eq!(parts[0].fs, FileSystem::Unknown);

    let data = parts[1];
    assert_eq!(data.id.0, "/dev/disk4#2");
    assert_eq!(data.number, 2);
    assert_eq!(data.start.0, 210763776);
    assert_eq!(data.fs, FileSystem::ExFat);
    assert_eq!(data.label.as_deref(), Some("STICK"));
    assert_eq!(data.mountpoints, vec!["/Volumes/STICK".to_string()]);
    assert!(data.flags.contains(PartitionFlags::active_mount()));
}

#[test]
fn fills_the_gaps_with_free_space() {
    let disk = stick();
    let Segment::Unallocated { start, size } = disk.layout.last().unwrap() else {
        panic!("expected trailing free space, got {:?}", disk.layout);
    };
    assert_eq!(start.0, 210763776 + 8589934592);
    // GPT keeps its backup table in the last MiB.
    assert_eq!(start.0 + size.0, 30752636928 - MIB);
}

#[test]
fn finds_the_system_disk_behind_the_apfs_container() {
    let root = DiskutilInfo {
        apfs_physical_stores: vec![ApfsPhysicalStore { device_identifier: s("disk0s2") }],
        device_identifier: s("disk3s1s1"),
        filesystem_type: s("apfs"),
        mount_point: s("/"),
        parent_whole_disk: s("disk3"),
        ..Default::default()
    };
    let system = SystemMedia::from_root_info(&root);
    assert!(system.disks.contains(&"disk0".to_string()));
    assert!(system.partitions.contains(&"disk0s2".to_string()));
}

#[test]
fn maps_macos_file_system_names() {
    assert_eq!(file_system("msdos", "DOS_FAT_32"), FileSystem::Fat32);
    assert_eq!(file_system("exfat", ""), FileSystem::ExFat);
    assert_eq!(file_system("ntfs", ""), FileSystem::Ntfs);
    assert_eq!(file_system("apfs", ""), FileSystem::Apfs);
    assert_eq!(file_system("hfs", ""), FileSystem::HfsPlus);
    assert_eq!(file_system("", "Apple_APFS"), FileSystem::Apfs);
    assert_eq!(file_system("", "Linux Filesystem"), FileSystem::Unknown);
}

#[test]
fn sorts_partitions_by_start_and_flags_the_system_partition() {
    let mut l = listed();
    l.partitions.reverse();
    let offsets = media_offsets(&ioreg());
    let system = SystemMedia { disks: vec![s("disk4")], partitions: vec![s("disk4s2")] };
    let disk = build_disk(&l, &disk_info(), &vec![], &offsets, &system).unwrap();
    assert!(disk.is_system_disk);
    let parts = disk.partitions();
    assert_eq!(parts[0].number, 1);
    assert_eq!(parts[1].number, 2);
    assert!(parts[1].flags.contains(PartitionFlags::system()));
    assert!(parts[1].flags.contains(PartitionFlags::locked()));
    // The EFI partition starts inside the first MiB, so no free space
    // comes before it.
    assert!(matches!(disk.layout[0], Segment::Partition(_)));
}

#[test]
fn a_partition_without_an_offset_fails_the_disk() {
    let offsets = vec![(s("disk4s1"), 20480)];
    let err = build_disk(&listed(), &disk_info(), &vec![], &offsets, &SystemMedia::default());
    assert!(err.is_err());
    let mut odd = listed();
    odd.device_identifier = s("disk4s9");
    assert!(build_disk(&odd, &disk_info(), &vec![], &media_offsets(&ioreg()), &SystemMedia::default()).is_err());
}
