use moondisk::flash::fat32::{FatDateTime, FatNode, Geometry, Plan};
use moondisk::flash::writer::{
    copy_verify_reads, copy_writes, raw_write_step, verify_chunk, verify_step, CopyWrite, RawWriteAction,
    RawWriteState, VerifyAction,
};
use moondisk::flash::{Chunk, FlashError, CHUNK};

const MIB: u64 = 1024 * 1024;

fn run(image_len: u64, cancel_at: Option<usize>) -> Vec<RawWriteAction> {
    let mut state = RawWriteState::Start;
    let mut out = Vec::new();
    for i in 0..1000 {
        let (next, action) = raw_write_step(image_len, state, cancel_at.map_or(false, |c| i >= c));
        state = next;
        out.push(action);
        if matches!(action, RawWriteAction::Done | RawWriteAction::Cancelled) {
            break;
        }
    }
    out
}

#[test]
fn clears_the_head_first_and_writes_it_last() {
    let len = 2 * CHUNK + 100;
    let actions = run(len, None);
    assert_eq!(
        actions,
        vec![
            RawWriteAction::ClearHead { len: CHUNK },
            RawWriteAction::WriteChunk(Chunk { offset: CHUNK, len: CHUNK, padded: CHUNK }),
            RawWriteAction::WriteChunk(Chunk { offset: 2 * CHUNK, len: 100, padded: 4096 }),
            RawWriteAction::Sync,
            RawWriteAction::WriteHead { len: CHUNK },
            RawWriteAction::Sync,
            RawWriteAction::Done,
        ]
    );
}

#[test]
fn a_small_image_is_only_a_head() {
    let actions = run(1000, None);
    assert_eq!(
        actions,
        vec![
            RawWriteAction::ClearHead { len: 4096 },
            RawWriteAction::Sync,
            RawWriteAction::WriteHead { len: 4096 },
            RawWriteAction::Sync,
            RawWriteAction::Done,
        ]
    );
}

#[test]
fn flushes_every_64_mib() {
    let actions = run(40 * CHUNK, None);
    let syncs: Vec<usize> = actions
        .iter()
        .enumerate()
        .filter(|(_, a)| matches!(a, RawWriteAction::Sync))
        .map(|(i, _)| i)
        .collect();
    // 39 body chunks: a flush after the 16th and the 32nd, one after the
    // body and one after the head.
    assert_eq!(syncs, vec![17, 34, 42, 44]);
}

#[test]
fn a_cancel_leaves_the_head_cleared() {
    let actions = run(5 * CHUNK, Some(3));
    assert_eq!(actions.len(), 4);
    assert_eq!(actions[0], RawWriteAction::ClearHead { len: CHUNK });
    assert_eq!(actions[3], RawWriteAction::Cancelled);
    assert!(!actions.iter().any(|a| matches!(a, RawWriteAction::WriteHead { .. })));
    let (state, action) = raw_write_step(5 * CHUNK, RawWriteState::Stopped, false);
    assert_eq!((state, action), (RawWriteState::Stopped, RawWriteAction::Cancelled));
}

#[test]
fn a_cancel_after_the_body_still_writes_no_head() {
    let (state, action) = raw_write_step(100, RawWriteState::Flushed, true);
    assert_eq!((state, action), (RawWriteState::Stopped, RawWriteAction::Cancelled));
}

#[test]
fn a_mismatch_names_the_drive_offset() {
    let expected = vec![1u8, 2, 3, 4, 5];
    let mut actual = expected.clone();
    actual[3] = 9;
    actual[4] = 9;
    match verify_chunk(8 * MIB, &expected, &actual, 5) {
        Err(FlashError::VerifyMismatch(at)) => assert_eq!(at, 8 * MIB + 3),
        other => panic!("unexpected {other:?}"),
    }
    assert_eq!(verify_chunk(8 * MIB, &expected, &actual, 3).unwrap(), 8 * MIB + 3);
}

#[test]
fn copy_mode_writes_the_partition_table_last() {
    let g = Geometry::plan(100 * MIB, 512).unwrap();
    let date = FatDateTime::new(2024, 9, 1, 10, 30, 0);
    let tree = vec![
        FatNode::Dir { name: "EFI".into(), date, children: vec![] },
        FatNode::File { name: "a.txt".into(), date, size: 10, id: 1 },
    ];
    let plan = Plan::new(g, "X", &tree).unwrap();
    let disk = 200 * MIB + 700;
    let writes = copy_writes(disk, &plan);
    let mut expected = vec![
        CopyWrite::Zero { start: 0, len: MIB },
        CopyWrite::Zero { start: 199 * MIB + 512, len: MIB },
        CopyWrite::Head,
    ];
    for k in 0..plan.slots.len() {
        expected.push(CopyWrite::Slot(k));
    }
    expected.extend([CopyWrite::StopIfCancelled, CopyWrite::Sync, CopyWrite::Mbr, CopyWrite::Sync]);
    assert_eq!(writes, expected);
}

#[test]
fn reads_an_image_back_chunk_by_chunk() {
    let len = CHUNK + 10;
    assert_eq!(
        verify_step(len, 0, false),
        VerifyAction::Compare(Chunk { offset: 0, len: CHUNK, padded: CHUNK })
    );
    assert_eq!(
        verify_step(len, CHUNK, false),
        VerifyAction::Compare(Chunk { offset: CHUNK, len: 10, padded: 4096 })
    );
    assert_eq!(verify_step(len, CHUNK, true), VerifyAction::Cancelled);
    assert_eq!(verify_step(len, len, true), VerifyAction::Done);
}

#[test]
fn copy_mode_reads_every_file_back_where_it_was_placed() {
    let g = Geometry::plan(100 * MIB, 512).unwrap();
    let date = FatDateTime::new(2024, 9, 1, 10, 30, 0);
    let tree = vec![
        FatNode::File { name: "big.bin".into(), date, size: CHUNK + 700, id: 1 },
        FatNode::File { name: "a.txt".into(), date, size: 10, id: 2 },
    ];
    let plan = Plan::new(g, "X", &tree).unwrap();
    let reads = copy_verify_reads(&plan);
    let mut expected = Vec::new();
    for (k, p) in plan.placements.iter().enumerate() {
        let mut from = 0;
        while from < p.size {
            let n = (p.size - from).min(CHUNK);
            expected.push((k, from, MIB + p.offset + from, n, n.div_ceil(512) * 512));
            from += n;
        }
    }
    let got: Vec<_> = reads.iter().map(|r| (r.placement, r.from, r.at, r.len, r.read_len)).collect();
    assert_eq!(got, expected);
    assert_eq!(reads.len(), 3);
    assert!(reads.iter().any(|r| r.len == 700 && r.read_len == 1024));
}
