use moondisk::models::{
    BusType, ByteSize, Disk, DiskId, FileSystem, HealthStatus, MediaType, Partition,
    PartitionFlags, PartitionId, PartitionKind, PartitionTable, Segment,
};
use moondisk::operations::{ExecutionError, OperationRequest};
use moondisk::platform::macos_executor::{diskutil_args, raw_device_path};

const MIB: u64 = 1024 * 1024;

fn partition(disk: &DiskId, number: u32, start: u64, size: u64) -> Segment {
    Segment::Partition(Partition {
        id: PartitionId::new(disk, number),
        number,
        start: ByteSize(start),
        size: ByteSize(size),
        used: None,
        fs: FileSystem::ExFat,
        kind: PartitionKind::BasicData,
        label: Some("STICK".into()),
        flags: PartitionFlags::empty(),
        drive_letter: None,
        mountpoints: vec![],
    })
}

fn disk(layout: Vec<Segment>) -> Disk {
    Disk {
        id: DiskId::from_str("/dev/disk4"),
        display_name: "Disk 4".into(),
        vendor: String::new(),
        model: "Stick".into(),
        serial: None,
        bus: BusType::Usb,
        media: MediaType::Unknown,
        size: ByteSize(1024 * MIB),
        logical_sector_size: 512,
        table: PartitionTable::Gpt,
        health: HealthStatus::Unknown,
        read_only: false,
        is_system_disk: false,
        layout,
    }
}

fn free(start: u64, size: u64) -> Segment {
    Segment::Unallocated { start: ByteSize(start), size: ByteSize(size) }
}

fn create(d: &Disk, start: u64, size: u64, fs: FileSystem, label: &str) -> OperationRequest {
    OperationRequest::CreatePartition {
        disk: DiskId(d.id.0.clone()),
        start: ByteSize(start),
        size: ByteSize(size),
        filesystem: fs,
        label: Some(label.into()),
        drive_letter: None,
    }
}

#[test]
fn adds_a_partition_after_the_one_in_front_of_the_free_space() {
    let id = DiskId::from_str("/dev/disk4");
    let d = disk(vec![partition(&id, 1, MIB, 200 * MIB), free(201 * MIB, 822 * MIB)]);
    let args = diskutil_args(&d, &create(&d, 201 * MIB, 100 * MIB, FileSystem::Apfs, "Data"));
    assert_eq!(args.unwrap(), ["addPartition", "/dev/disk4s1", "APFS", "Data", "104857600B"]);
}

#[test]
fn partitions_an_empty_disk_and_keeps_the_rest_free() {
    let d = disk(vec![free(MIB, 1022 * MIB)]);
    let args = diskutil_args(&d, &create(&d, MIB, 100 * MIB, FileSystem::Fat32, "boot"));
    assert_eq!(
        args.unwrap(),
        [
            "partitionDisk",
            "/dev/disk4",
            "GPT",
            "FAT32",
            "BOOT",
            "104857600B",
            "Free Space",
            "%noformat%",
            "R"
        ]
    );

    let all = diskutil_args(&d, &create(&d, MIB, 1022 * MIB, FileSystem::ExFat, "Data"));
    assert_eq!(all.unwrap(), ["partitionDisk", "/dev/disk4", "GPT", "ExFAT", "Data", "R"]);
}

#[test]
fn cannot_use_free_space_in_front_of_the_first_partition() {
    let id = DiskId::from_str("/dev/disk4");
    let d = disk(vec![free(MIB, 100 * MIB), partition(&id, 1, 101 * MIB, 200 * MIB)]);
    let args = diskutil_args(&d, &create(&d, MIB, 50 * MIB, FileSystem::ExFat, "X"));
    assert!(matches!(args, Err(ExecutionError::NotImplemented(_))));
}

#[test]
fn deletes_formats_and_renames_by_device_node() {
    let id = DiskId::from_str("/dev/disk4");
    let d = disk(vec![partition(&id, 2, MIB, 200 * MIB)]);
    let pid = PartitionId::new(&id, 2);

    let delete = OperationRequest::DeletePartition { partition: PartitionId(pid.0.clone()) };
    assert_eq!(diskutil_args(&d, &delete).unwrap(), ["eraseVolume", "free", "free", "/dev/disk4s2"]);

    let format = OperationRequest::FormatPartition {
        partition: PartitionId(pid.0.clone()),
        filesystem: FileSystem::HfsPlus,
        label: None,
    };
    assert_eq!(diskutil_args(&d, &format).unwrap(), ["eraseVolume", "JHFS+", "Untitled", "/dev/disk4s2"]);

    let rename = OperationRequest::SetLabel { partition: pid, label: "Backup".into() };
    assert_eq!(diskutil_args(&d, &rename).unwrap(), ["renameVolume", "/dev/disk4s2", "Backup"]);
}

#[test]
fn refuses_file_systems_macos_cannot_create() {
    let d = disk(vec![free(MIB, 1022 * MIB)]);
    let args = diskutil_args(&d, &create(&d, MIB, 100 * MIB, FileSystem::Ntfs, "X"));
    assert!(matches!(args, Err(ExecutionError::NotImplemented(_))));
}

#[test]
fn uses_the_raw_device_node() {
    assert_eq!(raw_device_path("/dev/disk4"), "/dev/rdisk4");
}

#[test]
fn names_a_missing_partition_and_refuses_drive_letters() {
    let id = DiskId::from_str("/dev/disk4");
    let d = disk(vec![partition(&id, 2, MIB, 200 * MIB)]);
    let delete = OperationRequest::DeletePartition { partition: PartitionId::new(&id, 7) };
    match diskutil_args(&d, &delete) {
        Err(ExecutionError::Failed(m)) => assert_eq!(m, "partition /dev/disk4#7 not found"),
        other => panic!("unexpected {other:?}"),
    }
    let letter = OperationRequest::SetDriveLetter { partition: PartitionId::new(&id, 2), drive_letter: 'E' };
    assert!(matches!(diskutil_args(&d, &letter), Err(ExecutionError::NotImplemented(_))));
    assert_eq!(raw_device_path("disk4"), "disk4");
    assert_eq!(raw_device_path("/dev/disk/dev/disk1"), "/dev/rdisk/dev/disk1");
}
