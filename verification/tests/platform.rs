use moondisk::models::{ByteSize, PartitionTable, Segment};
use moondisk::platform::linux::{extract_partition_number, LsblkDevice, GPT_BACKUP_RESERVE};
use moondisk::platform::mock::MockDiskProvider;
use moondisk::platform::windows::{PsDisk, PsPartition};
use moondisk::platform::linux_executor::partition_device_path;
use moondisk::platform::windows_executor::disk_number_from_id;
use moondisk::platform::{usable_range, DiskInventory, InventorySource, PARTITION_TABLE_RESERVE};

const MIB: u64 = 1024 * 1024;

#[test]
fn parses_partition_number_from_common_naming_schemes() {
    assert_eq!(extract_partition_number("sda1", "sda"), Some(1));
    assert_eq!(extract_partition_number("nvme0n1p2", "nvme0n1"), Some(2));
    assert_eq!(extract_partition_number("vda3", "vda"), Some(3));
}

#[test]
fn linux_caps_trailing_free_space_below_the_gpt_backup_table_on_gpt_disks() {
    let dev = LsblkDevice {
        name: "sdz".into(),
        path: Some("/dev/sdz".into()),
        size: 100 * 1024 * 1024,
        dev_type: "disk".into(),
        pttype: Some("gpt".into()),
        children: Some(vec![LsblkDevice {
            name: "sdz1".into(),
            path: Some("/dev/sdz1".into()),
            size: 50 * 1024 * 1024,
            dev_type: "part".into(),
            ..Default::default()
        }]),
        ..Default::default()
    };
    let disk = moondisk::platform::linux::to_disk(&dev, 0, None);
    let trailing = disk.layout.last().expect("expected a trailing segment");
    let Segment::Unallocated { start, size } = trailing else {
        panic!("expected the last segment to be unallocated, got {trailing:?}");
    };
    let end = start.0 + size.0;
    assert!(
        end <= 100 * 1024 * 1024 - GPT_BACKUP_RESERVE,
        "trailing free space (ending at {end}) must not reach into the GPT backup table"
    );
}

#[test]
fn mock_disks_have_contiguous_gap_free_layouts() {
    let provider = MockDiskProvider;
    for disk in provider.list_disks().unwrap() {
        let mut cursor = ByteSize::zero();
        for seg in &disk.layout {
            assert_eq!(seg.start(), cursor, "gap or overlap in {:?} layout at {:?}", disk.id, seg);
            cursor = seg.start().checked_add(seg.size()).unwrap();
        }
        assert_eq!(cursor, disk.size, "{:?} layout doesn't add up to disk size", disk.id);
    }
}

#[test]
fn mock_never_marks_a_disk_as_the_system_disk() {
    let provider = MockDiskProvider;
    for disk in provider.list_disks().unwrap() {
        assert!(!disk.is_system_disk);
    }
}

#[test]
fn mock_lists_three_disks_and_finds_each_by_id() {
    let provider = MockDiskProvider;
    assert_eq!(provider.source(), InventorySource::Mock);
    let disks = provider.list_disks().unwrap();
    assert_eq!(disks.len(), 3);
    for d in &disks {
        assert_eq!(provider.disk(&d.id).unwrap().id, d.id);
    }
    assert!(provider
        .disk(&moondisk::models::DiskId::from_str("no-such-disk"))
        .is_err());
}

#[test]
fn usable_range_never_starts_at_byte_zero() {
    for table in [PartitionTable::Gpt, PartitionTable::Mbr, PartitionTable::NoTable] {
        let (start, _) = usable_range(100 * MIB, table);
        assert_eq!(start, MIB, "{table:?}");
    }
}

#[test]
fn usable_range_reserves_the_gpt_backup_table_but_not_on_mbr() {
    assert_eq!(usable_range(100 * MIB, PartitionTable::Gpt).1, 99 * MIB);
    assert_eq!(usable_range(100 * MIB, PartitionTable::NoTable).1, 99 * MIB);
    assert_eq!(usable_range(100 * MIB, PartitionTable::Mbr).1, 100 * MIB);
}

#[test]
fn usable_range_is_empty_not_inverted_on_a_tiny_disk() {
    let (start, end) = usable_range(MIB / 2, PartitionTable::Gpt);
    assert!(end >= start);
    assert_eq!((start, end), (MIB / 2, MIB / 2));
}

fn gpt_disk(size: u64, partitions: Vec<PsPartition>) -> PsDisk {
    PsDisk {
        number: 0,
        friendly_name: None,
        manufacturer: None,
        model: None,
        serial_number: None,
        bus_type: None,
        size,
        logical_sector_size: Some(512),
        partition_style: Some("GPT".into()),
        health_status: None,
        is_read_only: false,
        is_boot: false,
        is_system: false,
        partitions,
    }
}

fn ps_partition(number: u32, offset: u64, size: u64) -> PsPartition {
    PsPartition {
        partition_number: number,
        offset,
        size,
        drive_letter: None,
        gpt_type: None,
        is_boot: false,
        is_system: false,
        file_system: None,
        file_system_label: None,
    }
}

#[test]
fn empty_gpt_disk_offers_free_space_inside_the_partition_table_reserve() {
    let disk = moondisk::platform::windows::to_disk(&gpt_disk(100 * MIB, vec![]));
    let [Segment::Unallocated { start, size }] = disk.layout.as_slice() else {
        panic!("expected exactly one free segment, got {:?}", disk.layout);
    };
    assert_eq!(start.0, PARTITION_TABLE_RESERVE);
    assert_eq!(start.0 + size.0, 100 * MIB - PARTITION_TABLE_RESERVE);
}

#[test]
fn windows_caps_trailing_free_space_below_the_gpt_backup_table_on_gpt_disks() {
    let disk =
        moondisk::platform::windows::to_disk(&gpt_disk(100 * MIB, vec![ps_partition(1, MIB, 50 * MIB)]));
    let trailing = disk.layout.last().expect("expected a trailing segment");
    let Segment::Unallocated { start, size } = trailing else {
        panic!("expected the last segment to be unallocated, got {trailing:?}");
    };
    assert_eq!(start.0 + size.0, 100 * MIB - PARTITION_TABLE_RESERVE);
}

#[test]
fn windows_disks_are_named_by_their_physical_drive() {
    let mut d = gpt_disk(100 * MIB, vec![ps_partition(2, MIB, 10 * MIB)]);
    d.number = 3;
    d.bus_type = Some("USB".into());
    let disk = moondisk::platform::windows::to_disk(&d);
    assert_eq!(disk.id.0, "\\\\.\\PhysicalDrive3");
    assert_eq!(disk.display_name, "Datenträger 3");
    assert_eq!(disk.bus, moondisk::models::BusType::Usb);
    let parts = disk.partitions();
    assert_eq!(parts.len(), 1);
    assert_eq!(parts[0].id.0, "\\\\.\\PhysicalDrive3#2");
}

#[test]
fn parses_disk_number_from_physical_drive_id() {
    assert_eq!(disk_number_from_id(r"\\.\PhysicalDrive0").unwrap(), 0);
    assert_eq!(disk_number_from_id(r"\\.\PhysicalDrive12").unwrap(), 12);
    assert!(disk_number_from_id("nonsense").is_err());
}

#[test]
fn disk_numbers_take_the_last_physical_drive_and_refuse_overflow() {
    assert_eq!(disk_number_from_id("PhysicalDrivePhysicalDrive7").unwrap(), 7);
    assert_eq!(disk_number_from_id("42").unwrap(), 42);
    assert_eq!(disk_number_from_id(r"\\.\PhysicalDrive+5").unwrap(), 5);
    assert!(disk_number_from_id(r"\\.\PhysicalDrive4294967296").is_err());
    assert_eq!(disk_number_from_id(r"\\.\PhysicalDrive4294967295").unwrap(), u32::MAX);
    assert!(disk_number_from_id(r"\\.\PhysicalDrive").is_err());
}

#[test]
fn names_partition_devices_after_their_disk() {
    assert_eq!(partition_device_path("/dev/sdb", 1), "/dev/sdb1");
    assert_eq!(partition_device_path("/dev/nvme0n1", 2), "/dev/nvme0n1p2");
    assert_eq!(partition_device_path("/dev/mmcblk0/", 3), "/dev/mmcblk0p3");
}

#[test]
fn the_mock_lists_the_windows_disk_the_linux_disk_and_the_stick() {
    let disks = MockDiskProvider.list_disks().unwrap();
    let ids: Vec<&str> = disks.iter().map(|d| d.id.0.as_str()).collect();
    assert_eq!(ids, ["mock-disk-0", "mock-disk-1", "mock-disk-3"]);
    let stick = &disks[2];
    assert_eq!(stick.layout.len(), 3);
    match &stick.layout[1] {
        Segment::Partition(p) => {
            assert_eq!(p.label.as_deref(), Some("STICK"));
            assert_eq!(p.drive_letter, Some('E'));
            assert_eq!(p.mountpoints, vec!["/media/stick".to_string()]);
        }
        _ => panic!("no partition"),
    }
}
