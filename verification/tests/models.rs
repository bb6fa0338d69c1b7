use moondisk::models::{ByteSize, DiskId, FileSystem, PartitionFlags, PartitionId};

#[test]
fn maps_common_lsblk_fstypes() {
    assert_eq!(FileSystem::from_lsblk_fstype("ext4"), FileSystem::Ext4);
    assert_eq!(FileSystem::from_lsblk_fstype("vfat"), FileSystem::Fat32);
    assert_eq!(FileSystem::from_lsblk_fstype(""), FileSystem::Unformatted);
    assert_eq!(
        FileSystem::from_lsblk_fstype("zfs_member"),
        FileSystem::Unknown
    );
}

#[test]
fn unknown_filesystem_blocks_every_action() {
    assert!(!FileSystem::Unknown.can_format());
    assert!(!FileSystem::Unknown.can_resize());
}

#[test]
fn exfat_and_xfs_cannot_resize() {
    assert!(!FileSystem::ExFat.can_resize());
    assert!(!FileSystem::Xfs.can_resize());
}

#[test]
fn checked_sub_none_on_underflow() {
    assert_eq!(ByteSize(5).checked_sub(ByteSize(10)), None);
}

#[test]
fn fstype_matching_ignores_case_and_surrounding_blanks() {
    assert_eq!(FileSystem::from_lsblk_fstype("  NTFS \n"), FileSystem::Ntfs);
    assert_eq!(FileSystem::from_lsblk_fstype("HFSPlus"), FileSystem::HfsPlus);
    assert_eq!(FileSystem::from_lsblk_fstype("swap"), FileSystem::LinuxSwap);
    assert_eq!(FileSystem::from_lsblk_fstype("   "), FileSystem::Unformatted);
}

#[test]
fn only_windows_file_systems_are_windows_readable() {
    assert!(FileSystem::Ntfs.windows_readable());
    assert!(FileSystem::ExFat.windows_readable());
    assert!(!FileSystem::Ext4.windows_readable());
    assert!(FileSystem::Unformatted.can_format());
    assert!(FileSystem::Unformatted.can_resize());
}

#[test]
fn byte_sizes_add_and_subtract_without_wrapping() {
    assert_eq!(ByteSize(5).checked_add(ByteSize(7)), Some(ByteSize(12)));
    assert_eq!(ByteSize(u64::MAX).checked_add(ByteSize(1)), None);
    assert_eq!(ByteSize(10).checked_sub(ByteSize(4)), Some(ByteSize(6)));
    assert_eq!(ByteSize(42).bytes(), 42);
    assert_eq!(ByteSize::zero(), ByteSize(0));
}

#[test]
fn partition_ids_name_the_disk_and_the_number() {
    let disk = DiskId::from_str("/dev/sda");
    assert_eq!(PartitionId::new(&disk, 3).0, "/dev/sda#3");
    assert_eq!(PartitionId::new(&disk, 0).0, "/dev/sda#0");
}

#[test]
fn flags_combine_and_report_their_bits() {
    let f = PartitionFlags::system().union(PartitionFlags::locked());
    assert!(f.contains(PartitionFlags::locked()));
    assert!(!f.contains(PartitionFlags::boot()));
    assert_eq!(f.bits(), 2 | 8);
    assert!(PartitionFlags::empty().is_empty());
    assert_eq!(PartitionFlags::from_bits_truncate(0xFF).bits(), 15);
}
