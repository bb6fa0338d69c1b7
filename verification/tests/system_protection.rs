use moondisk::security::system_protection::{resolve_to_parent_disk, system_disk_source_linux};

#[test]
fn resolve_falls_back_to_input_when_lsblk_unavailable_or_unresolvable() {
    // lsblk failed, or ran and printed nothing: the device itself is kept.
    assert_eq!(resolve_to_parent_disk("/dev/does-not-exist-xyz", None), "/dev/does-not-exist-xyz");
    assert_eq!(
        resolve_to_parent_disk("/dev/does-not-exist-xyz", Some("\n")),
        "/dev/does-not-exist-xyz"
    );
    let mounts = "proc /proc proc rw 0 0\n/dev/does-not-exist-xyz / ext4 rw 0 0\n";
    assert_eq!(
        system_disk_source_linux(mounts, |_| None),
        Some("/dev/does-not-exist-xyz".to_string())
    );
}

#[test]
fn protects_the_parent_disk_of_the_root_file_system() {
    let mounts = "/dev/nvme0n1p2 / ext4 rw 0 0\ntmpfs /tmp tmpfs rw 0 0\n";
    let asked = std::cell::RefCell::new(Vec::new());
    let disk = system_disk_source_linux(mounts, |p| {
        asked.borrow_mut().push(p);
        Some("nvme0n1\n".to_string())
    });
    assert_eq!(disk, Some("/dev/nvme0n1".to_string()));
    assert_eq!(*asked.borrow(), ["/dev/nvme0n1p2"]);
    assert_eq!(system_disk_source_linux("overlay / overlay rw 0 0\n", |_| None), None);
    assert_eq!(system_disk_source_linux("", |_| None), None);
}
