use moondisk::flash::fat32::{
    short_name, unique_long_names, volume_label, volume_label_text, FatDateTime, FatNode,
    Geometry, Plan, MIN_CLUSTERS,
};

use std::io::{Cursor, Read};

const MIB: u64 = 1024 * 1024;
const GIB: u64 = 1024 * MIB;

#[test]
fn plans_large_drives_with_aligned_32k_clusters() {
    let g = Geometry::plan(114 * GIB, 512).unwrap();
    assert_eq!(g.cluster_bytes(), 32 * 1024);
    assert_eq!(g.data_offset() % MIB, 0);
    assert!(g.clusters as u64 >= MIN_CLUSTERS);
    assert!(g.fat_sectors as u64 * 512 / 4 >= g.clusters as u64 + 2);
}

#[test]
fn shrinks_clusters_to_stay_fat32_on_small_drives() {
    let g = Geometry::plan(100 * MIB, 512).unwrap();
    assert!(g.clusters as u64 >= MIN_CLUSTERS);
    assert_eq!(g.data_offset() % MIB, 0);
    assert!(Geometry::plan(16 * MIB, 512).is_err());
}

#[test]
fn generates_unique_short_names() {
    let mut taken = Vec::new();
    assert_eq!(short_name("BOOTX64.EFI", &mut taken), (*b"BOOTX64 EFI", false));
    assert_eq!(short_name("BOOTx64.EFI", &mut taken), (*b"BOOTX6~1EFI", true));
    assert_eq!(short_name("vmlinuz-linux", &mut taken), (*b"VMLINU~1   ", true));
    assert_eq!(short_name(".disk", &mut taken), (*b"DISK~1     ", true));
    assert_eq!(short_name("readme.txt", &mut taken), (*b"README  TXT", true));
    assert_eq!(short_name("a b+c.tar.gz", &mut taken), (*b"AB_CTA~1GZ ", true));
}

#[test]
fn keeps_long_names_unique_ignoring_case() {
    let input: Vec<String> = ["README", "readme", "a:b", "x.txt."]
        .iter()
        .map(|s| s.to_string())
        .collect();
    let names = unique_long_names(&input);
    assert_eq!(names, ["README", "readme (2)", "a_b", "x.txt"]);
}

#[test]
fn short_names_count_up_past_the_first_clash() {
    let mut taken = Vec::new();
    assert_eq!(short_name("longfilename1.txt", &mut taken), (*b"LONGFI~1TXT", true));
    assert_eq!(short_name("longfilename2.txt", &mut taken), (*b"LONGFI~2TXT", true));
    assert_eq!(taken.len(), 2);
}

#[test]
fn later_copies_get_higher_numbers() {
    let input: Vec<String> = ["a", "A", "a"].iter().map(|s| s.to_string()).collect();
    assert_eq!(unique_long_names(&input), ["a", "A (2)", "a (3)"]);
}

#[test]
fn volume_labels_are_eleven_upper_case_characters() {
    assert_eq!(volume_label("Arch_202409"), *b"ARCH_202409");
    assert_eq!(volume_label("x"), *b"X          ");
    assert_eq!(volume_label_text("My Distro 40"), "MY DISTRO 4");
    assert_eq!(volume_label_text("ARCH_202409"), "ARCH_202409");
}

#[test]
fn dates_pack_into_fat_fields() {
    let d = FatDateTime::new(2024, 9, 1, 10, 30, 0);
    assert_eq!(d.date, ((2024 - 1980) << 9) | (9 << 5) | 1);
    assert_eq!(d.time, (10 << 11) | (30 << 5));
}

fn content(id: usize, size: u64) -> Vec<u8> {
    (0..size.div_ceil(4) as u32)
        .flat_map(|i| ((id as u32) << 24 | i).to_le_bytes())
        .take(size as usize)
        .collect()
}

fn file(name: &str, id: usize, size: u64) -> FatNode {
    FatNode::File {
        name: name.into(),
        date: FatDateTime::new(2024, 9, 1, 10, 30, 0),
        size,
        id,
    }
}

fn dir(name: &str, children: Vec<FatNode>) -> FatNode {
    FatNode::Dir {
        name: name.into(),
        date: FatDateTime::new(2024, 9, 1, 10, 30, 0),
        children,
    }
}

fn sample_tree() -> Vec<FatNode> {
    let many: Vec<FatNode> = (0..120)
        .map(|i| {
            file(
                &format!("package-number-{i:03}-with-a-long-name.pkg.tar.zst"),
                100 + i,
                700,
            )
        })
        .collect();
    vec![
        dir(
            "EFI",
            vec![dir("BOOT", vec![file("BOOTx64.EFI", 1, 5000), file("BOOTIA32.EFI", 2, 3000)])],
        ),
        dir("loader", vec![dir("entries", vec![file("01-archiso.conf", 3, 120)])]),
        dir("arch", vec![dir("x86_64", vec![file("airootfs.sfs", 4, 3 * MIB + 17)])]),
        dir("pkgs", many),
        file("README", 5, 10),
        file("readme", 6, 11),
        file("empty.uuid", 7, 0),
    ]
}

fn build(partition: u64) -> (Plan, Vec<u8>) {
    let g = Geometry::plan(partition, 512).unwrap();
    let plan = Plan::new(g, "ARCH_202409", &sample_tree()).unwrap();
    let mut bytes = Vec::new();
    plan.write(&mut bytes, 2048, 0x1234_5678, |id, size| content(id, size)).unwrap();
    bytes.resize(partition as usize, 0);
    (plan, bytes)
}

#[test]
fn places_files_where_the_plan_says() {
    let (plan, bytes) = build(100 * MIB);
    for p in &plan.placements {
        let at = p.offset as usize;
        assert_eq!(&bytes[at..at + p.size as usize], &content(p.id, p.size)[..]);
    }
}

#[test]
fn refuses_files_of_4_gib_or_more() {
    let g = Geometry::plan(100 * MIB, 512).unwrap();
    let err = Plan::new(g, "X", &vec![file("huge.sfs", 1, 4 * GIB)]).err().unwrap();
    assert!(err.contains("4 GB"), "{err}");
}

#[test]
fn refuses_files_that_do_not_fit() {
    let g = Geometry::plan(100 * MIB, 512).unwrap();
    let err = Plan::new(g, "X", &vec![file("big.sfs", 1, 200 * MIB)]).err().unwrap();
    assert!(err.contains("fit"), "{err}");
}

#[test]
fn writes_the_boot_sector_and_the_label() {
    let (plan, bytes) = build(100 * MIB);
    assert_eq!(&bytes[510..512], &[0x55, 0xAA]);
    assert_eq!(&bytes[82..90], b"FAT32   ");
    assert_eq!(&bytes[71..82], b"ARCH_202409");
    assert_eq!(plan.label, *b"ARCH_202409");
    assert_eq!(plan.placements.len(), 126);
    assert_eq!(plan.content_bytes(), 3 * MIB + 17 + 5000 + 3000 + 120 + 21 + 120 * 700);
}

#[test]
fn a_copy_of_the_wrong_size_fails_the_write() {
    let g = Geometry::plan(100 * MIB, 512).unwrap();
    let plan = Plan::new(g, "X", &vec![file("a.txt", 1, 10)]).unwrap();
    let mut bytes = Vec::new();
    assert!(plan.write(&mut bytes, 2048, 1, |_, _| vec![0u8; 3]).is_err());
}

fn read_all(fs: &fatfs::FileSystem<Cursor<Vec<u8>>>, path: &str) -> Vec<u8> {
    let mut f = fs.root_dir().open_file(path).unwrap();
    let mut v = Vec::new();
    f.read_to_end(&mut v).unwrap();
    v
}

#[test]
fn writes_a_volume_another_fat_implementation_can_read() {
    let (plan, bytes) = build(100 * MIB);
    let fs = fatfs::FileSystem::new(Cursor::new(bytes), fatfs::FsOptions::new()).unwrap();
    assert_eq!(fs.fat_type(), fatfs::FatType::Fat32);
    assert_eq!(fs.volume_label(), "ARCH_202409");

    assert_eq!(read_all(&fs, "EFI/BOOT/BOOTx64.EFI"), content(1, 5000));
    assert_eq!(read_all(&fs, "loader/entries/01-archiso.conf"), content(3, 120));
    assert_eq!(read_all(&fs, "arch/x86_64/airootfs.sfs"), content(4, 3 * MIB + 17));
    assert_eq!(read_all(&fs, "README"), content(5, 10));
    assert_eq!(read_all(&fs, "readme (2)"), content(6, 11));
    assert!(read_all(&fs, "empty.uuid").is_empty());

    // A directory spanning several clusters, all names intact.
    let names: Vec<String> = fs
        .root_dir()
        .open_dir("pkgs")
        .unwrap()
        .iter()
        .map(|e| e.unwrap().file_name())
        .filter(|n| n != "." && n != "..")
        .collect();
    assert_eq!(names.len(), 120);
    assert_eq!(names[42], "package-number-042-with-a-long-name.pkg.tar.zst");
    assert_eq!(
        read_all(&fs, "pkgs/package-number-119-with-a-long-name.pkg.tar.zst"),
        content(219, 700)
    );

    // Firmware without long name support finds the loader by its 8.3
    // name, which is exactly what UEFI looks for.
    let boot = fs.root_dir().open_dir("EFI/BOOT").unwrap();
    let loader = boot.iter().map(|e| e.unwrap()).find(|e| e.file_name() == "BOOTx64.EFI").unwrap();
    assert_eq!(loader.short_file_name(), "BOOTX64.EFI");

    let stats = fs.stats().unwrap();
    assert_eq!(stats.free_clusters(), plan.geometry.clusters - plan.used_clusters);
}

#[test]
fn a_label_text_is_its_own_label_text() {
    for s in ["FEDORA-LIVE-40", "", "   ", "my distro 40", "a*b?c", " Arch Linux 2024.09 "] {
        let once = volume_label_text(s);
        assert_eq!(volume_label_text(&once), once);
    }
    assert_eq!(volume_label_text("FEDORA-LIVE-40"), "FEDORA-LIVE");
    assert_eq!(volume_label_text(""), "MOONDISK");
}
