use moondisk::flash::iso9660::{
    descriptor, dir_size_from, parse_record, read_tree, records, scan_descriptors, scan_susp, Descriptor, Extent,
    IsoError, IsoNode, IsoSource, MemImage, NameSource, RockRidge, strip_version,
};

const SECTOR: u64 = 2048;
const FLAG_DIR: u8 = 0x02;
const FLAG_MULTI_EXTENT: u8 = 0x80;

#[allow(non_snake_case)]
fn Image(bytes: Vec<u8>) -> MemImage {
    MemImage { bytes }
}

fn names(nodes: &[IsoNode]) -> Vec<&str> {
    nodes.iter().map(IsoNode::name).collect()
}

/// A minimal image: primary descriptor at sector 16, terminator at 17,
/// root directory at sector 20 holding `records`.
fn synthetic_image(records: &[Vec<u8>]) -> Vec<u8> {
    let mut image = vec![0u8; 40 * SECTOR as usize];
    let pvd = 16 * SECTOR as usize;
    image[pvd] = 1;
    image[pvd + 1..pvd + 6].copy_from_slice(b"CD001");
    image[pvd + 40..pvd + 44].copy_from_slice(b"TEST");
    let root = record(b"\0", 20, SECTOR as u32, FLAG_DIR);
    image[pvd + 156..pvd + 156 + root.len()].copy_from_slice(&root);
    let term = 17 * SECTOR as usize;
    image[term] = 255;
    image[term + 1..term + 6].copy_from_slice(b"CD001");

    let mut dir = record(b"\0", 20, SECTOR as u32, FLAG_DIR);
    dir.extend(record(b"\x01", 20, SECTOR as u32, FLAG_DIR));
    for r in records {
        dir.extend(r);
    }
    let at = 20 * SECTOR as usize;
    image[at..at + dir.len()].copy_from_slice(&dir);
    image
}

fn record(name: &[u8], extent: u32, size: u32, flags: u8) -> Vec<u8> {
    let len = 33 + name.len() + (1 - name.len() % 2);
    let mut r = vec![0u8; len];
    r[0] = len as u8;
    r[2..6].copy_from_slice(&extent.to_le_bytes());
    r[6..10].copy_from_slice(&extent.to_be_bytes());
    r[10..14].copy_from_slice(&size.to_le_bytes());
    r[14..18].copy_from_slice(&size.to_be_bytes());
    r[18] = 124;
    r[19] = 9;
    r[20] = 1;
    r[25] = flags;
    r[32] = name.len() as u8;
    r[33..33 + name.len()].copy_from_slice(name);
    r
}

#[test]
fn rejects_something_that_is_not_an_iso() {
    let err = read_tree(&mut Image(vec![0u8; 100_000])).unwrap_err();
    assert!(matches!(err, IsoError::Invalid(_)), "{err:?}");
}

#[test]
fn joins_the_extents_of_a_file_over_4_gib() {
    let image = synthetic_image(&[
        record(b"BIG.SFS;1", 30, 4 * SECTOR as u32, FLAG_MULTI_EXTENT),
        record(b"BIG.SFS;1", 25, 1000, 0),
        record(b"SMALL.TXT;1", 35, 10, 0),
    ]);
    let tree = read_tree(&mut Image(image)).unwrap();
    assert_eq!(names(&tree.children), ["BIG.SFS", "SMALL.TXT"]);
    let IsoNode::File { size, extents, .. } = &tree.children[0] else {
        panic!()
    };
    assert_eq!(*size, 4 * SECTOR + 1000);
    assert_eq!(
        extents,
        &[
            Extent { offset: 30 * SECTOR, len: 4 * SECTOR },
            Extent { offset: 25 * SECTOR, len: 1000 }
        ]
    );
}

#[test]
fn refuses_a_directory_loop() {
    let image = synthetic_image(&[record(b"LOOP", 20, SECTOR as u32, FLAG_DIR)]);
    let err = read_tree(&mut Image(image)).unwrap_err();
    assert!(matches!(err, IsoError::Invalid(ref m) if m == "directory loop"), "{err:?}");
}

#[test]
fn reads_plain_names_and_the_volume_label() {
    let image = synthetic_image(&[
        record(b"SUB", 22, SECTOR as u32, FLAG_DIR),
        record(b"README.;1", 36, 5, 0),
    ]);
    let mut image = image;
    // Volume identifiers are padded with spaces.
    let pvd = 16 * SECTOR as usize;
    image[pvd + 44..pvd + 72].fill(b' ');
    // The subdirectory holds only "." and "..".
    let sub = 22 * SECTOR as usize;
    let mut dir = record(b"\0", 22, SECTOR as u32, FLAG_DIR);
    dir.extend(record(b"\x01", 20, SECTOR as u32, FLAG_DIR));
    image[sub..sub + dir.len()].copy_from_slice(&dir);
    let tree = read_tree(&mut Image(image)).unwrap();
    assert_eq!(tree.volume_label, "TEST");
    assert_eq!(tree.names, NameSource::Iso9660);
    assert!(!tree.has_udf);
    assert_eq!(names(&tree.children), ["SUB", "README"]);
    let IsoNode::Dir { children, date, .. } = &tree.children[0] else { panic!() };
    assert!(children.is_empty());
    assert_eq!((date.year, date.month, date.day), (2024, 9, 1));
}

#[test]
fn parses_a_directory_record() {
    let r = record(b"A.TXT;1", 7, 300, 0);
    let rec = parse_record(&r, 0).unwrap();
    assert_eq!(rec.len, r.len());
    assert_eq!((rec.extent, rec.size, rec.flags), (7, 300, 0));
    assert_eq!(rec.name_start, 33);
    assert_eq!(rec.name_len, 7);
    assert_eq!(rec.su_start, 40);
    assert_eq!(rec.su_end, 40);
    assert!(parse_record(&vec![20u8; 40], 0).is_none());
    assert!(parse_record(&vec![0u8; 10], 0).is_none());
}

#[test]
fn records_skip_the_padding_to_the_next_sector() {
    let mut data = vec![0u8; 2 * SECTOR as usize];
    let a = record(b"A", 1, 1, 0);
    let b = record(b"B", 2, 2, 0);
    data[..a.len()].copy_from_slice(&a);
    data[SECTOR as usize..SECTOR as usize + b.len()].copy_from_slice(&b);
    let rs = records(&data);
    assert_eq!(rs.len(), 2);
    assert_eq!(rs[1].extent, 2);
    assert_eq!(rs[1].name_start, SECTOR as usize + 33);
}

#[test]
fn classifies_volume_descriptors() {
    let mut vd = vec![0u8; 2048];
    vd[0] = 1;
    vd[1..6].copy_from_slice(b"CD001");
    assert_eq!(descriptor(&vd), Descriptor::Primary);
    vd[0] = 2;
    vd[88..91].copy_from_slice(b"%/E");
    assert_eq!(descriptor(&vd), Descriptor::Joliet);
    vd[1..6].copy_from_slice(b"NSR03");
    assert_eq!(descriptor(&vd), Descriptor::Udf);
    vd[1..6].copy_from_slice(b"BEA01");
    assert_eq!(descriptor(&vd), Descriptor::Skip);
    vd[1..6].copy_from_slice(b"XXXXX");
    assert_eq!(descriptor(&vd), Descriptor::End);
    assert_eq!(descriptor(&vec![0u8; 100]), Descriptor::End);
}

fn volume_descriptor(kind: u8, tag: &[u8; 5], mark: u8) -> Vec<u8> {
    let mut vd = vec![0u8; 2048];
    vd[0] = kind;
    vd[1..6].copy_from_slice(tag);
    vd[88..91].copy_from_slice(b"%/E");
    vd[100] = mark;
    vd
}

#[test]
fn picks_the_first_primary_and_the_last_joliet_descriptor() {
    let sectors = vec![
        volume_descriptor(1, b"CD001", 1),
        volume_descriptor(1, b"CD001", 2),
        volume_descriptor(2, b"CD001", 3),
        volume_descriptor(0, b"BEA01", 0),
        volume_descriptor(2, b"CD001", 4),
        volume_descriptor(0, b"NSR02", 0),
        volume_descriptor(0, b"XXXXX", 0),
        volume_descriptor(2, b"CD001", 5),
        volume_descriptor(0, b"NSR03", 0),
    ];
    let found = scan_descriptors(&sectors);
    assert_eq!(found.primary.unwrap()[100], 1);
    assert_eq!(found.joliet.unwrap()[100], 4);
    assert!(found.has_udf);

    let none = scan_descriptors(&vec![volume_descriptor(0, b"XXXXX", 0), volume_descriptor(1, b"CD001", 1)]);
    assert!(none.primary.is_none());
    assert!(none.joliet.is_none());
    assert!(!none.has_udf);
}

#[test]
fn reads_joliet_names_when_there_is_no_rock_ridge() {
    let mut image = synthetic_image(&[record(b"EINE_D~1.TXT;1", 36, 5, 0)]);
    // Joliet descriptor at 17, terminator at 18.
    let svd = 17 * SECTOR as usize;
    image[svd..svd + SECTOR as usize].fill(0);
    image[svd] = 2;
    image[svd + 1..svd + 6].copy_from_slice(b"CD001");
    image[svd + 88..svd + 91].copy_from_slice(b"%/E");
    let root = record(b"\0", 24, SECTOR as u32, FLAG_DIR);
    image[svd + 156..svd + 156 + root.len()].copy_from_slice(&root);
    let term = 18 * SECTOR as usize;
    image[term] = 255;
    image[term + 1..term + 6].copy_from_slice(b"CD001");
    // The Joliet root: UTF-16BE names with a version.
    let name: Vec<u8> = "Eine Datei-ü.txt;1".encode_utf16().flat_map(|u| u.to_be_bytes()).collect();
    let mut dir = record(b"\0", 24, SECTOR as u32, FLAG_DIR);
    dir.extend(record(b"\x01", 24, SECTOR as u32, FLAG_DIR));
    dir.extend(record(&name, 36, 5, 0));
    let at = 24 * SECTOR as usize;
    image[at..at + dir.len()].copy_from_slice(&dir);

    let tree = read_tree(&mut Image(image)).unwrap();
    assert_eq!(tree.names, NameSource::Joliet);
    assert_eq!(names(&tree.children), ["Eine Datei-ü.txt"]);
}

#[test]
fn reads_rock_ridge_entries_of_one_area() {
    let mut area = Vec::new();
    // NM "linux", PX of a symlink, CE at block 30 offset 8 length 100, ST, then an NM never read.
    area.extend([b'N', b'M', 10, 1, 0, b'l', b'i', b'n', b'u', b'x']);
    let mut px = vec![b'P', b'X', 12, 1];
    px.extend(0o120777u32.to_le_bytes());
    px.extend([0u8; 4]);
    area.extend(px);
    let mut ce = vec![b'C', b'E', 28, 1];
    for v in [30u32, 8, 100] {
        ce.extend(v.to_le_bytes());
        ce.extend(v.to_be_bytes());
    }
    area.extend(ce);
    area.extend([b'S', b'T', 4, 1]);
    area.extend([b'N', b'M', 6, 1, 0, b'x']);
    let mut rr = RockRidge { name: Vec::new(), has_name: false, symlink: false, relocated: false, child_link: None };
    let cont = scan_susp(&area, 0, area.len(), &mut rr);
    assert_eq!(rr.name, b"linux");
    assert!(rr.has_name && rr.symlink && !rr.relocated);
    assert_eq!(rr.child_link, None);
    assert_eq!(cont, Some((30, 8, 100)));
}

#[test]
fn sizes_a_relocated_directory_from_its_dot_record() {
    let mut sector = record(b"\0", 40, 3 * SECTOR as u32, FLAG_DIR);
    sector.resize(SECTOR as usize, 0);
    assert_eq!(dir_size_from(&sector).unwrap(), 3 * SECTOR as u32);
    match dir_size_from(&vec![0u8; 10]) {
        Err(IsoError::Invalid(m)) => assert_eq!(m, "broken relocated directory"),
        other => panic!("unexpected {other:?}"),
    }
}

#[test]
fn an_image_in_memory_reads_exactly_the_bytes_asked_for() {
    let mut img = MemImage { bytes: (0u8..10).collect() };
    assert_eq!(img.read_at(3, 4).unwrap(), vec![3, 4, 5, 6]);
    assert_eq!(img.read_at(10, 0).unwrap(), Vec::<u8>::new());
    assert_eq!(img.read_at(8, 3).unwrap_err(), "unexpected end of file");
    assert!(img.read_at(u64::MAX, 2).is_err());
}

#[test]
fn drops_the_version_and_an_empty_extension() {
    assert_eq!(strip_version("SMALL.TXT;1"), "SMALL.TXT");
    assert_eq!(strip_version("README.;1"), "README");
    assert_eq!(strip_version("NOVERSION"), "NOVERSION");
}

/// A source that counts its reads.
struct Counting {
    image: MemImage,
    reads: usize,
}

impl IsoSource for Counting {
    fn read_at(&mut self, offset: u64, len: usize) -> Result<Vec<u8>, String> {
        self.reads += 1;
        self.image.read_at(offset, len)
    }
}

#[test]
fn reads_through_any_source() {
    let mut src = Counting { image: MemImage { bytes: vec![0u8; 100_000] }, reads: 0 };
    assert!(matches!(read_tree(&mut src), Err(IsoError::Invalid(_))));
    assert!(src.reads >= 1);
}
