use moondisk::models::{
    BusType, ByteSize, Disk, DiskId, FileSystem, HealthStatus, MediaType, Partition,
    PartitionFlags, PartitionId, PartitionKind, PartitionTable, Segment,
};
use moondisk::operations::{validate, OperationRequest, ValidationError, ALIGNMENT};

fn sample_disk() -> Disk {
    let id = DiskId::from_str("test-disk");
    let locked = Partition {
        id: PartitionId::new(&id, 1),
        number: 1,
        start: ByteSize(ALIGNMENT),
        size: ByteSize(ALIGNMENT * 100),
        used: None,
        fs: FileSystem::Ext4,
        kind: PartitionKind::LinuxFilesystem,
        label: Some("root".into()),
        flags: PartitionFlags::system().union(PartitionFlags::locked()),
        drive_letter: None,
        mountpoints: vec!["/".into()],
    };
    let free_start = locked.end().unwrap();
    Disk {
        id,
        display_name: "Test".into(),
        vendor: "Test".into(),
        model: "Test".into(),
        serial: None,
        bus: BusType::Virtual,
        media: MediaType::Unknown,
        size: ByteSize(ALIGNMENT * 200),
        logical_sector_size: 512,
        table: PartitionTable::Gpt,
        health: HealthStatus::Healthy,
        read_only: false,
        is_system_disk: false,
        layout: vec![
            Segment::Unallocated {
                start: ByteSize::zero(),
                size: ByteSize(ALIGNMENT),
            },
            Segment::Partition(locked),
            Segment::Unallocated {
                start: free_start,
                size: ByteSize(ALIGNMENT * 200).checked_sub(free_start).unwrap(),
            },
        ],
    }
}

fn with_second_partition(fs: FileSystem, kind: PartitionKind) -> Disk {
    let mut disk = sample_disk();
    disk.layout.push(Segment::Partition(Partition {
        id: PartitionId::new(&disk.id, 2),
        number: 2,
        start: ByteSize(ALIGNMENT * 101),
        size: ByteSize(ALIGNMENT * 10),
        used: None,
        fs,
        kind,
        label: None,
        flags: PartitionFlags::empty(),
        drive_letter: None,
        mountpoints: vec![],
    }));
    disk
}

fn create(disk: &Disk, start: u64, size: u64, drive_letter: Option<char>) -> OperationRequest {
    OperationRequest::CreatePartition {
        disk: disk.id.clone(),
        start: ByteSize(start),
        size: ByteSize(size),
        filesystem: FileSystem::Ext4,
        label: None,
        drive_letter,
    }
}

#[test]
fn allows_deleting_a_system_flagged_partition_on_the_system_disk() {
    let mut disk = sample_disk();
    disk.is_system_disk = true;
    let req = OperationRequest::DeletePartition {
        partition: PartitionId::new(&disk.id, 1),
    };
    assert_eq!(validate(&disk, &req), Ok(()));
}

#[test]
fn accepts_a_valid_drive_letter() {
    let disk = sample_disk();
    let req = OperationRequest::SetDriveLetter {
        partition: PartitionId::new(&disk.id, 1),
        drive_letter: 'D',
    };
    assert_eq!(validate(&disk, &req), Ok(()));
}

#[test]
fn rejects_a_non_letter_drive_letter() {
    let disk = sample_disk();
    let req = OperationRequest::SetDriveLetter {
        partition: PartitionId::new(&disk.id, 1),
        drive_letter: '5',
    };
    assert_eq!(
        validate(&disk, &req),
        Err(ValidationError::InvalidDriveLetter)
    );
}

#[test]
fn accepts_create_that_fits_in_free_space() {
    let disk = sample_disk();
    let req = create(&disk, ALIGNMENT * 101, ALIGNMENT * 10, None);
    assert_eq!(validate(&disk, &req), Ok(()));
}

#[test]
fn rejects_create_that_overlaps_the_locked_partition() {
    let disk = sample_disk();
    let req = create(&disk, ALIGNMENT * 50, ALIGNMENT * 10, None);
    assert_eq!(validate(&disk, &req), Err(ValidationError::NoFreeSpace));
}

#[test]
fn rejects_misaligned_create() {
    let disk = sample_disk();
    let req = create(&disk, ALIGNMENT * 101 + 7, ALIGNMENT * 10, None);
    assert_eq!(validate(&disk, &req), Err(ValidationError::Alignment));
}

#[test]
fn rejects_create_with_a_non_letter_drive_letter() {
    let disk = sample_disk();
    let req = create(&disk, ALIGNMENT * 101, ALIGNMENT * 10, Some('5'));
    assert_eq!(
        validate(&disk, &req),
        Err(ValidationError::InvalidDriveLetter)
    );
}

#[test]
fn rejects_format_with_unsupported_filesystem() {
    let disk = with_second_partition(FileSystem::Unknown, PartitionKind::Other);
    let req = OperationRequest::FormatPartition {
        partition: PartitionId::new(&disk.id, 2),
        filesystem: FileSystem::Unknown,
        label: None,
    };
    assert_eq!(
        validate(&disk, &req),
        Err(ValidationError::FilesystemUnsupported)
    );
}

#[test]
fn rejects_empty_label() {
    let disk = with_second_partition(FileSystem::Ext4, PartitionKind::LinuxFilesystem);
    let req = OperationRequest::SetLabel {
        partition: PartitionId::new(&disk.id, 2),
        label: "".into(),
    };
    assert_eq!(validate(&disk, &req), Err(ValidationError::InvalidLabel));
}

#[test]
fn rejects_any_change_on_a_read_only_disk() {
    let mut disk = sample_disk();
    disk.read_only = true;
    let req = create(&disk, ALIGNMENT * 101, ALIGNMENT * 10, None);
    assert_eq!(validate(&disk, &req), Err(ValidationError::DiskReadOnly));
}

#[test]
fn rejects_a_partition_that_is_not_on_the_disk() {
    let disk = sample_disk();
    let req = OperationRequest::DeletePartition {
        partition: PartitionId::new(&disk.id, 7),
    };
    assert_eq!(
        validate(&disk, &req),
        Err(ValidationError::PartitionNotFound)
    );
}

#[test]
fn rejects_a_partition_below_the_minimum_size() {
    let disk = sample_disk();
    let req = create(&disk, ALIGNMENT * 101, 0, None);
    assert_eq!(validate(&disk, &req), Err(ValidationError::SizeTooSmall));
}

#[test]
fn accepts_create_that_ends_exactly_at_the_free_space_end() {
    let disk = sample_disk();
    let req = create(&disk, ALIGNMENT * 101, ALIGNMENT * 99, None);
    assert_eq!(validate(&disk, &req), Ok(()));
    let too_far = create(&disk, ALIGNMENT * 101, ALIGNMENT * 100, None);
    assert_eq!(validate(&disk, &too_far), Err(ValidationError::NoFreeSpace));
}

#[test]
fn reserves_drive_letters_a_and_b() {
    let disk = sample_disk();
    for letter in ['A', 'a', 'B', 'b'] {
        let req = OperationRequest::SetDriveLetter { partition: PartitionId::new(&disk.id, 1), drive_letter: letter };
        assert_eq!(validate(&disk, &req), Err(ValidationError::DriveLetterReserved), "{letter}");
    }
    for letter in ['C', 'c', 'Z'] {
        let req = OperationRequest::SetDriveLetter { partition: PartitionId::new(&disk.id, 1), drive_letter: letter };
        assert_eq!(validate(&disk, &req), Ok(()), "{letter}");
    }
    let create = OperationRequest::CreatePartition {
        disk: DiskId::from_str("test-disk"),
        start: ByteSize(ALIGNMENT * 101),
        size: ByteSize(ALIGNMENT * 10),
        filesystem: FileSystem::Ntfs,
        label: None,
        drive_letter: Some('B'),
    };
    assert_eq!(validate(&disk, &create), Err(ValidationError::DriveLetterReserved));
    let with_c = create_with_letter(&disk, 'C');
    assert_eq!(validate(&disk, &with_c), Ok(()));
}

fn create_with_letter(disk: &Disk, letter: char) -> OperationRequest {
    create(disk, ALIGNMENT * 101, ALIGNMENT * 10, Some(letter))
}

#[test]
fn gives_no_drive_letter_to_efi_or_swap_partitions() {
    for kind in [PartitionKind::Efi, PartitionKind::LinuxSwap] {
        let disk = with_second_partition(FileSystem::Fat32, kind);
        let req = OperationRequest::SetDriveLetter { partition: PartitionId::new(&disk.id, 2), drive_letter: 'E' };
        assert_eq!(validate(&disk, &req), Err(ValidationError::ProtectedPartition));
    }
    let disk = with_second_partition(FileSystem::Ntfs, PartitionKind::BasicData);
    let req = OperationRequest::SetDriveLetter { partition: PartitionId::new(&disk.id, 2), drive_letter: 'E' };
    assert_eq!(validate(&disk, &req), Ok(()));
}

#[test]
fn refuses_every_change_on_a_failing_disk() {
    let mut disk = sample_disk();
    disk.health = HealthStatus::Failing;
    let req = OperationRequest::DeletePartition { partition: PartitionId::new(&disk.id, 1) };
    assert_eq!(validate(&disk, &req), Err(ValidationError::DiskFailing));
}

fn format(disk: &Disk, fs: FileSystem) -> OperationRequest {
    OperationRequest::FormatPartition { partition: PartitionId::new(&disk.id, 2), filesystem: fs, label: None }
}

#[test]
fn formats_only_to_a_file_system_that_fits_the_size() {
    let disk = with_second_partition(FileSystem::Ntfs, PartitionKind::BasicData);
    assert_eq!(validate(&disk, &format(&disk, FileSystem::Xfs)), Err(ValidationError::SizeTooSmall));
    assert_eq!(validate(&disk, &format(&disk, FileSystem::Fat32)), Err(ValidationError::SizeTooSmall));
    assert_eq!(validate(&disk, &format(&disk, FileSystem::ExFat)), Ok(()));
    assert_eq!(validate(&disk, &format(&disk, FileSystem::Ntfs)), Ok(()));

    let mut big = with_second_partition(FileSystem::Ntfs, PartitionKind::BasicData);
    if let Segment::Partition(p) = &mut big.layout[3] {
        p.size = ByteSize(3 << 40);
    }
    assert_eq!(validate(&big, &format(&big, FileSystem::Fat32)), Err(ValidationError::SizeTooLarge));
    assert_eq!(validate(&big, &format(&big, FileSystem::Ntfs)), Ok(()));
    assert_eq!(ValidationError::SizeTooLarge.message(), "Größe überschreitet die Höchstgröße");
}

#[test]
fn relabels_only_a_known_file_system() {
    for fs in [FileSystem::Unknown, FileSystem::Unformatted] {
        let disk = with_second_partition(fs, PartitionKind::Other);
        let req = OperationRequest::SetLabel { partition: PartitionId::new(&disk.id, 2), label: "DATA".into() };
        assert_eq!(validate(&disk, &req), Err(ValidationError::FilesystemUnsupported));
    }
    let disk = with_second_partition(FileSystem::Ntfs, PartitionKind::BasicData);
    let req = OperationRequest::SetLabel { partition: PartitionId::new(&disk.id, 2), label: "DATA".into() };
    assert_eq!(validate(&disk, &req), Ok(()));
}

#[test]
fn refuses_a_drive_letter_another_partition_has() {
    let mut disk = with_second_partition(FileSystem::Ntfs, PartitionKind::BasicData);
    if let Segment::Partition(p) = &mut disk.layout[1] {
        p.drive_letter = Some('E');
    }
    let req = OperationRequest::SetDriveLetter { partition: PartitionId::new(&disk.id, 2), drive_letter: 'e' };
    assert_eq!(validate(&disk, &req), Err(ValidationError::DriveLetterInUse));
    let create = create(&disk, ALIGNMENT * 150, ALIGNMENT * 10, Some('E'));
    assert_eq!(validate(&disk, &create), Err(ValidationError::DriveLetterInUse));
    // A partition may be given the letter it already has.
    let again = OperationRequest::SetDriveLetter { partition: PartitionId::new(&disk.id, 1), drive_letter: 'E' };
    assert_ne!(validate(&disk, &again), Err(ValidationError::DriveLetterInUse));
}

#[test]
fn keeps_to_the_limits_of_the_partition_table() {
    let mut disk = sample_disk();
    disk.table = PartitionTable::Mbr;
    for n in 2..5u32 {
        let mut p = match &disk.layout[1] {
            Segment::Partition(p) => p.clone(),
            _ => unreachable!(),
        };
        p.id = PartitionId::new(&disk.id, n);
        p.number = n;
        disk.layout.insert(1, Segment::Partition(p));
    }
    let req = create(&disk, ALIGNMENT * 150, ALIGNMENT * 10, None);
    assert_eq!(validate(&disk, &req), Err(ValidationError::TableFull));

    let mut big = sample_disk();
    big.table = PartitionTable::Mbr;
    let tib = 1u64 << 40;
    big.size = ByteSize(4 * tib);
    big.layout.push(Segment::Unallocated { start: ByteSize(ALIGNMENT * 200), size: ByteSize(4 * tib - ALIGNMENT * 200) });
    let past = create(&big, 2 * tib - ALIGNMENT, 2 * ALIGNMENT, None);
    assert_eq!(validate(&big, &past), Err(ValidationError::MbrSizeLimit));
    let below = create(&big, 2 * tib - 2 * ALIGNMENT, 2 * ALIGNMENT, None);
    assert_eq!(validate(&big, &below), Ok(()));
    big.table = PartitionTable::Gpt;
    assert_eq!(validate(&big, &past), Ok(()));
}
