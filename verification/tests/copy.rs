use moondisk::flash::copy::{
    check_tree, copy_mode_info, gb, has_uefi_loader, is_boot_config, largest_file, mbr, plan,
    prepare, replace_label, Source, TreeRejection,
};
use moondisk::flash::fat32::FatNode;
use moondisk::flash::iso9660::{Extent, IsoDate, IsoNode, IsoTree, NameSource};
use moondisk::flash::FlashError;

#[test]
fn replaces_the_label_in_plain_and_escaped_form() {
    let text = b"search -l 'My Distro 40'\nroot=live:CDLABEL=My\\x20Distro\\x2040 quiet\n".to_vec();
    let patched = replace_label(&text, "My Distro 40", "MY DISTRO 4").unwrap();
    assert_eq!(
        patched,
        b"search -l 'MY DISTRO 4'\nroot=live:CDLABEL=MY\\x20DISTRO\\x204 quiet\n".to_vec()
    );
    assert!(replace_label(&b"nothing here".to_vec(), "My Distro 40", "X").is_none());
}

#[test]
fn an_empty_old_label_changes_nothing() {
    assert!(replace_label(&b"abc".to_vec(), "", "X").is_none());
    assert_eq!(replace_label(&b"aaa".to_vec(), "aa", "b").unwrap(), b"ba".to_vec());
}

fn date() -> IsoDate {
    IsoDate { year: 2024, month: 9, day: 1, hour: 10, minute: 0, second: 0 }
}

fn file(name: &str, size: u64, offset: u64) -> IsoNode {
    IsoNode::File {
        name: name.into(),
        date: date(),
        size,
        extents: vec![Extent { offset, len: size }],
    }
}

fn dir(name: &str, children: Vec<IsoNode>) -> IsoNode {
    IsoNode::Dir { name: name.into(), date: date(), children }
}

fn tree(label: &str, children: Vec<IsoNode>, has_udf: bool) -> IsoTree {
    IsoTree {
        volume_label: label.into(),
        children,
        names: NameSource::RockRidge,
        symlinks_skipped: 0,
        has_udf,
    }
}

fn bootable(extra: Vec<IsoNode>) -> Vec<IsoNode> {
    let mut v = vec![dir("EFI", vec![dir("BOOT", vec![file("BOOTx64.EFI", 100, 4096)])])];
    v.extend(extra);
    v
}

#[test]
fn finds_the_uefi_loader_ignoring_case() {
    assert!(has_uefi_loader(&bootable(vec![])));
    assert!(has_uefi_loader(&vec![dir("efi", vec![dir("Boot", vec![file("bootia32.efi", 1, 0)])])]));
    assert!(!has_uefi_loader(&vec![dir("EFI", vec![dir("BOOT", vec![file("grubx64.efi", 1, 0)])])]));
    assert!(!has_uefi_loader(&vec![dir("EFI", vec![dir("BOOT", vec![dir("BOOTX64.EFI", vec![])])])]));
    assert!(!has_uefi_loader(&vec![file("EFI", 1, 0)]));
}

#[test]
fn the_largest_file_wins_and_the_last_on_a_tie() {
    let nodes = vec![file("a", 5, 0), dir("d", vec![file("b", 9, 0), file("c", 9, 0)]), file("e", 3, 0)];
    assert_eq!(largest_file(&nodes), Some(("c".to_string(), 9)));
    assert_eq!(largest_file(&vec![dir("empty", vec![])]), None);
}

#[test]
fn rejects_trees_that_would_not_boot_or_fit() {
    assert_eq!(check_tree(&tree("X", bootable(vec![]), false)), Ok(()));
    assert_eq!(check_tree(&tree("X", vec![file("README.TXT", 1, 0)], true)), Err(TreeRejection::WindowsInstaller));
    assert_eq!(check_tree(&tree("X", vec![], false)), Err(TreeRejection::NoUefiLoader));
    let big = bootable(vec![file("rootfs.sfs", 5_400_000_000, 0)]);
    assert_eq!(
        check_tree(&tree("X", big, false)),
        Err(TreeRejection::FileTooLarge { name: "rootfs.sfs".into(), size: 5_400_000_000 })
    );
}

#[test]
fn explains_why_a_tree_is_not_supported() {
    let windows = copy_mode_info(Some(&tree("X", vec![file("README.TXT", 1, 0)], true)));
    assert!(!windows.supported);
    assert!(windows.reason.unwrap().contains("Windows"));
    let plain = copy_mode_info(Some(&tree("X", vec![], false)));
    assert!(plain.reason.unwrap().contains("UEFI"));
    let raw = copy_mode_info(None);
    assert!(raw.reason.unwrap().contains("only ISO images"));
    let big = copy_mode_info(Some(&tree("X", bootable(vec![file("rootfs.sfs", 5_400_000_000, 0)]), false)));
    assert_eq!(
        big.reason.unwrap(),
        "rootfs.sfs is 5.4 GB, more than the 4 GB a FAT32 file can hold — write the image as a raw image instead"
    );
    let ok = copy_mode_info(Some(&tree("arch_202409", bootable(vec![]), false)));
    assert!(ok.supported);
    assert_eq!(ok.label.as_deref(), Some("ARCH_202409"));
}

#[test]
fn gb_uses_decimal_gigabytes() {
    assert_eq!(gb(5_400_000_000), "5.4 GB");
    assert_eq!(gb(4_294_967_296), "4.3 GB");
    assert_eq!(gb(0), "0.0 GB");
}

#[test]
fn boot_configs_are_cfg_and_conf_files() {
    assert!(is_boot_config("grub.cfg"));
    assert!(is_boot_config("ARCHISO.CONF"));
    assert!(!is_boot_config("vmlinuz"));
    assert!(!is_boot_config("cfg"));
}

#[test]
fn prepares_the_tree_and_patches_configs_that_name_the_label() {
    let config = b"options archisolabel=My Distro 40 quiet".to_vec();
    let nodes = bootable(vec![
        dir("loader", vec![file("entry.conf", config.len() as u64, 8192)]),
        file("other.cfg", 4, 12288),
        file("data.bin", 7, 16384),
    ]);
    let t = tree("My Distro 40", nodes, false);
    let image_config = config.clone();
    let prepared = prepare(&t, |extents: &Vec<Extent>| {
        if extents[0].offset == 8192 {
            Ok(image_config.clone())
        } else {
            Ok(b"none".to_vec())
        }
    })
    .unwrap();
    assert_eq!(prepared.label, "MY DISTRO 4");
    assert_eq!(prepared.patched, vec!["/loader/entry.conf".to_string()]);
    assert_eq!(prepared.tree.len(), 4);
    assert_eq!(prepared.sources.len(), 4);
    let FatNode::Dir { children, .. } = &prepared.tree[1] else { panic!() };
    let FatNode::File { name, size, id, .. } = &children[0] else { panic!() };
    assert_eq!(name, "entry.conf");
    match &prepared.sources[*id] {
        Source::Patched(bytes) => {
            assert_eq!(bytes, &b"options archisolabel=MY DISTRO 4 quiet".to_vec());
            assert_eq!(*size, bytes.len() as u64);
        }
        other => panic!("expected a patched source, got {other:?}"),
    }
    let FatNode::File { id, size, .. } = &prepared.tree[3] else { panic!() };
    assert_eq!(*size, 7);
    assert!(matches!(&prepared.sources[*id], Source::Image(e) if e[0].offset == 16384));
}

#[test]
fn a_failed_read_stops_the_preparation() {
    let t = tree("My Distro 40", bootable(vec![file("grub.cfg", 10, 0)]), false);
    let r = prepare(&t, |_: &Vec<Extent>| Err("read error".to_string()));
    assert!(matches!(r, Err(FlashError::Io(m)) if m == "read error"));
    let unpatched = tree("SHORT", bootable(vec![file("grub.cfg", 10, 0)]), false);
    assert!(prepare(&unpatched, |_: &Vec<Extent>| Err("unused".to_string())).is_ok());
}

#[test]
fn writes_an_mbr_with_one_active_fat32_partition() {
    let m = mbr(512, 2048, 1_000_000, 0x1234_5678);
    assert_eq!(m.len(), 512);
    assert_eq!(&m[440..444], &[0x78, 0x56, 0x34, 0x12]);
    assert_eq!(&m[446..454], &[0x80, 0xFE, 0xFF, 0xFF, 0x0C, 0xFE, 0xFF, 0xFF]);
    assert_eq!(&m[454..458], &2048u32.to_le_bytes());
    assert_eq!(&m[458..462], &1_000_000u32.to_le_bytes());
    assert_eq!(&m[510..512], &[0x55, 0xAA]);
    assert!(m[..440].iter().all(|&b| b == 0));
}

#[test]
fn plans_the_partition_from_one_mib_on() {
    let t = tree("ARCH_202409", bootable(vec![]), false);
    let prepared = prepare(&t, |_: &Vec<Extent>| Ok(Vec::new())).unwrap();
    let p = plan(&prepared, 100 * 1024 * 1024 + 12_345, 512).unwrap();
    assert_eq!(p.geometry.total_sectors as u64, 99 * 1024 * 1024 / 512);
    assert_eq!(p.label, *b"ARCH_202409");
    assert!(matches!(plan(&prepared, 16 * 1024 * 1024, 512), Err(FlashError::Rejected(_))));
}
