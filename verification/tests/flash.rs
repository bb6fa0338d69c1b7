use moondisk::flash::{
    check_target, first_difference, gib, has_boot_signature, padded_len, FlashError,
};
use moondisk::models::{
    BusType, ByteSize, Disk, DiskId, HealthStatus, MediaType, PartitionTable,
};

fn usb_disk(size: u64) -> Disk {
    Disk {
        id: DiskId::from_str("/dev/sdz"),
        display_name: "Disk 9".into(),
        vendor: String::new(),
        model: "Stick".into(),
        serial: None,
        bus: BusType::Usb,
        media: MediaType::Unknown,
        size: ByteSize(size),
        logical_sector_size: 512,
        table: PartitionTable::Mbr,
        health: HealthStatus::Unknown,
        read_only: false,
        is_system_disk: false,
        layout: vec![],
    }
}

#[test]
fn rejects_non_usb_too_small_and_read_only_targets() {
    let gb = 1024 * 1024 * 1024;
    assert!(check_target(&usb_disk(8 * gb), 4 * gb).is_ok());

    let mut internal = usb_disk(8 * gb);
    internal.bus = BusType::Nvme;
    assert!(check_target(&internal, gb).is_err());

    assert!(check_target(&usb_disk(2 * gb), 4 * gb).is_err());

    let mut locked = usb_disk(8 * gb);
    locked.read_only = true;
    assert!(check_target(&locked, gb).is_err());

    assert!(check_target(&usb_disk(8 * gb), 0).is_err());
}

fn rejection(r: Result<(), FlashError>) -> String {
    match r {
        Err(FlashError::Rejected(m)) => m,
        other => panic!("expected a rejection, got {other:?}"),
    }
}

#[test]
fn explains_each_rejection() {
    let gb = 1024 * 1024 * 1024;
    let mut internal = usb_disk(8 * gb);
    internal.bus = BusType::Sata;
    assert_eq!(
        rejection(check_target(&internal, gb)),
        "images can only be written to USB drives"
    );
    let mut locked = usb_disk(8 * gb);
    locked.read_only = true;
    assert_eq!(rejection(check_target(&locked, gb)), "the drive is read-only");
    assert_eq!(rejection(check_target(&usb_disk(gb), 0)), "the image file is empty");
    assert_eq!(
        rejection(check_target(&usb_disk(2 * gb), 4 * gb)),
        "the image (4.0 GiB) is larger than the drive (2.0 GiB)"
    );
    assert!(check_target(&usb_disk(u64::MAX), u64::MAX).is_err());
}

#[test]
fn an_image_padded_past_the_drive_end_is_refused() {
    // 4097 bytes need two sectors.
    assert!(check_target(&usb_disk(8192), 4097).is_ok());
    assert!(check_target(&usb_disk(8191), 4097).is_err());
    assert!(check_target(&usb_disk(4096), 4096).is_ok());
}

#[test]
fn sizes_round_up_to_whole_sectors() {
    assert_eq!(padded_len(0), 0);
    assert_eq!(padded_len(1), 4096);
    assert_eq!(padded_len(4096), 4096);
    assert_eq!(padded_len(10_000), 12_288);
}

#[test]
fn gib_rounds_to_one_decimal() {
    assert_eq!(gib(0), "0.0 GiB");
    assert_eq!(gib(1024 * 1024 * 1024), "1.0 GiB");
    assert_eq!(gib(3 * 1024 * 1024 * 1024 / 2), "1.5 GiB");
    assert_eq!(gib(31_914_983_424), "29.7 GiB");
    // Exactly 0.25 and 0.75 GiB: ties go to the even digit.
    assert_eq!(gib(268_435_456), "0.2 GiB");
    assert_eq!(gib(805_306_368), "0.8 GiB");
}

#[test]
fn boot_signature_sits_at_byte_510() {
    let mut hybrid = vec![0u8; 512];
    hybrid[510] = 0x55;
    hybrid[511] = 0xAA;
    assert!(has_boot_signature(&hybrid));
    assert!(!has_boot_signature(&vec![0u8; 512]));
    assert!(!has_boot_signature(&hybrid[..511].to_vec()));
}

#[test]
fn finds_the_first_differing_byte() {
    let a = vec![1u8, 2, 3, 4, 5];
    let mut b = a.clone();
    assert_eq!(first_difference(&a, &b, 5), None);
    b[3] = 9;
    b[4] = 9;
    assert_eq!(first_difference(&a, &b, 5), Some(3));
    assert_eq!(first_difference(&a, &b, 3), None);
}
