//! The order in which a drive is written: the raw write of an image as a
//! step function from state and cancel flag to the next state and the
//! device action to take, the read-back check of one chunk, and the writes
//! of file-copy mode.
//!
//! The partition table lives in the first chunk of an image. It is cleared
//! before anything else is written and written only after everything else
//! has reached the drive, so a drive whose write stopped half-way carries
//! no partition table that points at missing data.
use vstd::prelude::*;
use super::{head_len, padded, padded_len, first_difference, Chunk, FlashError, CHUNK, SYNC_EVERY};
use super::copy::PARTITION_START;
use super::fat_plan::{Placement, Plan};

verus! {

/// Where a raw write stands.
#[derive(Debug, Clone, Copy, PartialEq, Eq, Structural)]
pub enum RawWriteState {
    /// Nothing has been written.
    Start,
    /// The head is cleared and the body is written up to `offset`;
    /// `unsynced` bytes have been written since the last flush.
    Body { offset: u64, unsynced: u64 },
    /// The body is written up to `offset` and a flush is due.
    SyncDue { offset: u64 },
    /// The whole body has reached the drive.
    Flushed,
    /// The head has been written; a last flush is due.
    HeadWritten,
    /// The image is on the drive.
    Finished,
    /// The write was cancelled.
    Stopped,
}

/// What the device is asked to do next.
#[derive(Debug, Clone, Copy, PartialEq, Eq, Structural)]
pub enum RawWriteAction {
    /// Write `len` zero bytes at the start of the drive, then read the
    /// image's head into memory.
    ClearHead { len: u64 },
    /// Write this chunk of the image body at its offset.
    WriteChunk(Chunk),
    /// Flush everything written so far to the device.
    Sync,
    /// Write the image's head, padded to `len` bytes, at the start.
    WriteHead { len: u64 },
    /// The write is complete.
    Done,
    /// The write stops: it was cancelled.
    Cancelled,
}

/// The states a raw write of `image_len` bytes can be in.
pub open spec fn raw_state_ok(image_len: u64, s: RawWriteState) -> bool {
    match s {
        RawWriteState::Body { offset, unsynced } => offset <= image_len && unsynced < SYNC_EVERY,
        RawWriteState::SyncDue { offset } => offset <= image_len,
        _ => true,
    }
}

/// The chunk of the body that starts at `offset`.
pub open spec fn chunk_at(image_len: u64, offset: u64) -> Chunk {
    let n = if image_len - offset < CHUNK { (image_len - offset) as u64 } else { CHUNK };
    Chunk { offset, len: n, padded: padded(n as nat) as u64 }
}

/// One step of a raw write of `image_len` bytes from state `s`, with
/// `cancelled` telling whether the user has asked to stop.
pub open spec fn spec_raw_write_step(image_len: u64, s: RawWriteState, cancelled: bool) -> (
    RawWriteState,
    RawWriteAction,
) {
    let head = head_len(image_len as nat) as u64;
    match s {
        RawWriteState::Start => (
            RawWriteState::Body { offset: head, unsynced: 0 },
            RawWriteAction::ClearHead { len: padded(head as nat) as u64 },
        ),
        RawWriteState::Body { offset, unsynced } => if offset < image_len {
            if cancelled {
                (RawWriteState::Stopped, RawWriteAction::Cancelled)
            } else {
                let c = chunk_at(image_len, offset);
                let next = (offset + c.len) as u64;
                if unsynced + c.padded >= SYNC_EVERY {
                    (RawWriteState::SyncDue { offset: next }, RawWriteAction::WriteChunk(c))
                } else {
                    (
                        RawWriteState::Body { offset: next, unsynced: (unsynced + c.padded) as u64 },
                        RawWriteAction::WriteChunk(c),
                    )
                }
            }
        } else {
            (RawWriteState::Flushed, RawWriteAction::Sync)
        },
        RawWriteState::SyncDue { offset } => (
            RawWriteState::Body { offset, unsynced: 0 },
            RawWriteAction::Sync,
        ),
        RawWriteState::Flushed => if cancelled {
            (RawWriteState::Stopped, RawWriteAction::Cancelled)
        } else {
            (RawWriteState::HeadWritten, RawWriteAction::WriteHead { len: padded(head as nat) as u64 })
        },
        RawWriteState::HeadWritten => (RawWriteState::Finished, RawWriteAction::Sync),
        RawWriteState::Finished => (RawWriteState::Finished, RawWriteAction::Done),
        RawWriteState::Stopped => (RawWriteState::Stopped, RawWriteAction::Cancelled),
    }
}

/// Decides the next device action of a raw write of `image_len` bytes.
pub fn raw_write_step(image_len: u64, state: RawWriteState, cancelled: bool) -> (r: (
    RawWriteState,
    RawWriteAction,
))
    requires
        raw_state_ok(image_len, state),
    ensures
        r == spec_raw_write_step(image_len, state, cancelled),
        raw_state_ok(image_len, r.0),
{
    let head: u64 = if image_len < CHUNK {
        image_len
    } else {
        CHUNK
    };
    match state {
        RawWriteState::Start => (
            RawWriteState::Body { offset: head, unsynced: 0 },
            RawWriteAction::ClearHead { len: padded_len(head) },
        ),
        RawWriteState::Body { offset, unsynced } => {
            if offset < image_len {
                if cancelled {
                    (RawWriteState::Stopped, RawWriteAction::Cancelled)
                } else {
                    let n = if image_len - offset < CHUNK {
                        image_len - offset
                    } else {
                        CHUNK
                    };
                    let c = Chunk { offset, len: n, padded: padded_len(n) };
                    let next = offset + n;
                    if unsynced + c.padded >= SYNC_EVERY {
                        (RawWriteState::SyncDue { offset: next }, RawWriteAction::WriteChunk(c))
                    } else {
                        (
                            RawWriteState::Body { offset: next, unsynced: unsynced + c.padded },
                            RawWriteAction::WriteChunk(c),
                        )
                    }
                }
            } else {
                (RawWriteState::Flushed, RawWriteAction::Sync)
            }
        },
        RawWriteState::SyncDue { offset } => (RawWriteState::Body { offset, unsynced: 0 }, RawWriteAction::Sync),
        RawWriteState::Flushed => {
            if cancelled {
                (RawWriteState::Stopped, RawWriteAction::Cancelled)
            } else {
                (RawWriteState::HeadWritten, RawWriteAction::WriteHead { len: padded_len(head) })
            }
        },
        RawWriteState::HeadWritten => (RawWriteState::Finished, RawWriteAction::Sync),
        RawWriteState::Finished => (RawWriteState::Finished, RawWriteAction::Done),
        RawWriteState::Stopped => (RawWriteState::Stopped, RawWriteAction::Cancelled),
    }
}

/// The actions of a raw write of `image_len` bytes run from state `s`,
/// where `cancels[i]` tells whether a cancel was seen before step `i`.
pub open spec fn raw_write_run(image_len: u64, s: RawWriteState, cancels: Seq<bool>) -> Seq<RawWriteAction>
    decreases cancels.len(),
{
    if cancels.len() == 0 {
        Seq::empty()
    } else {
        let (next, a) = spec_raw_write_step(image_len, s, cancels[0]);
        seq![a] + raw_write_run(image_len, next, cancels.drop_first())
    }
}

/// From `s` on, a chunk of the body may still be written.
pub open spec fn chunks_may_follow(s: RawWriteState) -> bool {
    s is Start || s is Body || s is SyncDue
}

/// From `s` on, the head may still be written.
pub open spec fn head_may_follow(s: RawWriteState) -> bool {
    chunks_may_follow(s) || s is Flushed
}

proof fn lemma_run_len(image_len: u64, s: RawWriteState, cancels: Seq<bool>)
    ensures
        raw_write_run(image_len, s, cancels).len() == cancels.len(),
    decreases cancels.len(),
{
    if cancels.len() > 0 {
        let (next, a) = spec_raw_write_step(image_len, s, cancels[0]);
        lemma_run_len(image_len, next, cancels.drop_first());
    }
}

proof fn lemma_run_phases(image_len: u64, s: RawWriteState, cancels: Seq<bool>)
    ensures
        !chunks_may_follow(s) ==> forall|j: int|
            0 <= j < cancels.len() ==> !(#[trigger] raw_write_run(image_len, s, cancels)[j] is WriteChunk),
        !head_may_follow(s) ==> forall|j: int|
            0 <= j < cancels.len() ==> !(#[trigger] raw_write_run(image_len, s, cancels)[j] is WriteHead),
        !(s is Start) ==> forall|j: int|
            0 <= j < cancels.len() ==> !(#[trigger] raw_write_run(image_len, s, cancels)[j] is ClearHead),
    decreases cancels.len(),
{
    if cancels.len() > 0 {
        let (next, a) = spec_raw_write_step(image_len, s, cancels[0]);
        let rest = cancels.drop_first();
        lemma_run_phases(image_len, next, rest);
        lemma_run_len(image_len, next, rest);
        let run = raw_write_run(image_len, s, cancels);
        assert(run == seq![a] + raw_write_run(image_len, next, rest));
        assert forall|j: int| 1 <= j < cancels.len() implies run[j] == raw_write_run(image_len, next, rest)[j - 1] by {}
    }
}

proof fn lemma_run_order(image_len: u64, s: RawWriteState, cancels: Seq<bool>)
    ensures
        forall|i: int, j: int|
            0 <= i < j < cancels.len() && (#[trigger] raw_write_run(image_len, s, cancels)[i]) is WriteHead
                ==> !(#[trigger] raw_write_run(image_len, s, cancels)[j] is WriteChunk),
        forall|i: int, j: int|
            0 <= i < j < cancels.len() && (#[trigger] raw_write_run(image_len, s, cancels)[i]) is Cancelled
                ==> !(#[trigger] raw_write_run(image_len, s, cancels)[j] is WriteHead),
    decreases cancels.len(),
{
    if cancels.len() > 0 {
        let (next, a) = spec_raw_write_step(image_len, s, cancels[0]);
        let rest = cancels.drop_first();
        lemma_run_order(image_len, next, rest);
        lemma_run_phases(image_len, next, rest);
        lemma_run_len(image_len, next, rest);
        let run = raw_write_run(image_len, s, cancels);
        let tail = raw_write_run(image_len, next, rest);
        assert(run == seq![a] + tail);
        assert(run[0] == a);
        assert forall|j: int| 1 <= j < cancels.len() implies run[j] == tail[j - 1] by {}
        assert forall|i: int, j: int|
            0 <= i < j < cancels.len() && run[i] is WriteHead implies !(run[j] is WriteChunk) by {
            assert(run[j] == tail[j - 1]);
            if i > 0 {
                assert(run[i] == tail[i - 1]);
            } else {
                assert(!chunks_may_follow(next));
            }
        }
        assert forall|i: int, j: int|
            0 <= i < j < cancels.len() && run[i] is Cancelled implies !(run[j] is WriteHead) by {
            assert(run[j] == tail[j - 1]);
            if i > 0 {
                assert(run[i] == tail[i - 1]);
            } else {
                assert(!head_may_follow(next));
            }
        }
    }
}

proof fn lemma_run_done(image_len: u64, s: RawWriteState, cancels: Seq<bool>)
    requires
        !(s is HeadWritten || s is Finished),
    ensures
        forall|j: int|
            0 <= j < cancels.len() && (#[trigger] raw_write_run(image_len, s, cancels)[j]) is Done ==> exists|i: int|
                0 <= i < j && (#[trigger] raw_write_run(image_len, s, cancels)[i]) is WriteHead,
    decreases cancels.len(),
{
    if cancels.len() > 0 {
        let (next, a) = spec_raw_write_step(image_len, s, cancels[0]);
        let rest = cancels.drop_first();
        lemma_run_len(image_len, next, rest);
        let run = raw_write_run(image_len, s, cancels);
        let tail = raw_write_run(image_len, next, rest);
        assert(run == seq![a] + tail);
        assert(run[0] == a);
        if !(next is HeadWritten || next is Finished) {
            lemma_run_done(image_len, next, rest);
        }
        assert forall|j: int| 0 <= j < cancels.len() && run[j] is Done implies exists|i: int|
            0 <= i < j && (#[trigger] run[i]) is WriteHead by {
            if j > 0 {
                assert(run[j] == tail[j - 1]);
                if next is HeadWritten || next is Finished {
                    assert(a is WriteHead);
                    assert(run[0] is WriteHead);
                } else {
                    let i = choose|i: int| 0 <= i < j - 1 && (#[trigger] tail[i]) is WriteHead;
                    assert(run[i + 1] == tail[i]);
                }
            }
        }
    }
}

/// The order of a raw write, whatever the user does: the head is cleared
/// by the first action and never again, it is written only after the
/// last chunk of the body, once the write has been cancelled the head is
/// not written, so a cancelled drive carries no partition table, and the
/// write is only done once the head has been written.
pub proof fn lemma_raw_write_order(image_len: u64, cancels: Seq<bool>)
    ensures
        ({
            let run = raw_write_run(image_len, RawWriteState::Start, cancels);
            &&& run.len() == cancels.len()
            &&& cancels.len() > 0 ==> run[0] == RawWriteAction::ClearHead {
                len: padded(head_len(image_len as nat) as nat) as u64,
            }
            &&& forall|j: int| 1 <= j < run.len() ==> !(#[trigger] run[j] is ClearHead)
            &&& forall|i: int, j: int|
                0 <= i < j < run.len() && (#[trigger] run[i]) is WriteHead ==> !(#[trigger] run[j] is WriteChunk)
            &&& forall|i: int, j: int|
                0 <= i < j < run.len() && (#[trigger] run[i]) is Cancelled ==> !(#[trigger] run[j] is WriteHead)
            &&& forall|j: int|
                0 <= j < run.len() && (#[trigger] run[j]) is Done ==> exists|i: int|
                    0 <= i < j && (#[trigger] run[i]) is WriteHead
        }),
{
    lemma_run_len(image_len, RawWriteState::Start, cancels);
    lemma_run_order(image_len, RawWriteState::Start, cancels);
    lemma_run_done(image_len, RawWriteState::Start, cancels);
    if cancels.len() > 0 {
        let (next, a) = spec_raw_write_step(image_len, RawWriteState::Start, cancels[0]);
        let rest = cancels.drop_first();
        lemma_run_phases(image_len, next, rest);
        lemma_run_len(image_len, next, rest);
        let run = raw_write_run(image_len, RawWriteState::Start, cancels);
        let tail = raw_write_run(image_len, next, rest);
        assert(run == seq![a] + tail);
        assert forall|j: int| 1 <= j < run.len() implies !(#[trigger] run[j] is ClearHead) by {
            assert(run[j] == tail[j - 1]);
        }
    }
}

/// The first position below `n` where `a` and `b` differ.
pub open spec fn first_diff(a: Seq<u8>, b: Seq<u8>, n: int) -> Option<int>
    decreases n,
{
    if n <= 0 {
        None
    } else {
        match first_diff(a, b, n - 1) {
            Some(i) => Some(i),
            None => if a[n - 1] != b[n - 1] {
                Some(n - 1)
            } else {
                None
            },
        }
    }
}

proof fn lemma_first_diff(a: Seq<u8>, b: Seq<u8>, n: int)
    requires
        0 <= n,
    ensures
        match first_diff(a, b, n) {
            Some(i) => 0 <= i < n && a[i] != b[i] && forall|j: int| 0 <= j < i ==> a[j] == b[j],
            None => forall|j: int| 0 <= j < n ==> a[j] == b[j],
        },
    decreases n,
{
    if n > 0 {
        lemma_first_diff(a, b, n - 1);
    }
}

/// What comparing `n` bytes read back at drive offset `done` gives: the
/// drive offset of the first byte that differs, or the offset just past
/// them.
pub open spec fn chunk_check(done: int, expected: Seq<u8>, actual: Seq<u8>, n: int) -> Result<u64, FlashError> {
    match first_diff(expected, actual, n) {
        Some(i) => Err(FlashError::VerifyMismatch((done + i) as u64)),
        None => Ok((done + n) as u64),
    }
}

/// Compares one chunk read back from the drive with the image: `done` is
/// the drive offset of the chunk's first byte and `n` its length. A
/// mismatch names the drive offset of the first byte that differs;
/// otherwise the result is the offset just past the chunk.
pub fn verify_chunk(done: u64, expected: &Vec<u8>, actual: &Vec<u8>, n: usize) -> (r: Result<u64, FlashError>)
    requires
        n <= expected.len(),
        n <= actual.len(),
        done + n <= u64::MAX,
    ensures
        r == chunk_check(done as int, expected@, actual@, n as int),
        match r {
            Ok(next) => next == done + n && forall|j: int| 0 <= j < n ==> expected@[j] == actual@[j],
            Err(e) => exists|i: int|
                0 <= i < n && e == FlashError::VerifyMismatch((done + i) as u64) && expected@[i] != actual@[i]
                    && forall|j: int| 0 <= j < i ==> expected@[j] == actual@[j],
        },
{
    proof {
        lemma_first_diff(expected@, actual@, n as int);
    }
    match first_difference(expected, actual, n) {
        Some(i) => {
            assert(first_diff(expected@, actual@, n as int) == Some(i as int)) by {
                match first_diff(expected@, actual@, n as int) {
                    Some(k) => {
                        assert(!(k < i) && !(i < k));
                    },
                    None => {},
                }
            }
            Err(FlashError::VerifyMismatch(done + i as u64))
        },
        None => Ok(done + n as u64),
    }
}

/// What reading an image back does next.
#[derive(Debug, Clone, Copy, PartialEq, Eq, Structural)]
pub enum VerifyAction {
    /// Read this chunk back (`padded` bytes from the drive) and compare
    /// its first `len` bytes with the image.
    Compare(Chunk),
    /// The user has cancelled.
    Cancelled,
    /// Every byte of the image has been compared.
    Done,
}

/// The next step of reading back an image of `image_len` bytes whose
/// first `done` bytes matched.
pub open spec fn spec_verify_step(image_len: u64, done: u64, cancelled: bool) -> VerifyAction {
    if done >= image_len {
        VerifyAction::Done
    } else if cancelled {
        VerifyAction::Cancelled
    } else {
        VerifyAction::Compare(chunk_at(image_len, done))
    }
}

/// Decides the next step of reading back an image of `image_len` bytes
/// whose first `done` bytes matched.
pub fn verify_step(image_len: u64, done: u64, cancelled: bool) -> (r: VerifyAction)
    requires
        done <= image_len,
    ensures
        r == spec_verify_step(image_len, done, cancelled),
        done == image_len ==> r is Done,
        done < image_len && cancelled ==> r is Cancelled,
        done < image_len && !cancelled ==> r == VerifyAction::Compare(chunk_at(image_len, done)),
{
    if done >= image_len {
        VerifyAction::Done
    } else if cancelled {
        VerifyAction::Cancelled
    } else {
        let n = if image_len - done < CHUNK {
            image_len - done
        } else {
            CHUNK
        };
        VerifyAction::Compare(Chunk { offset: done, len: n, padded: padded_len(n) })
    }
}

/// What reading back `image` from a drive holding `drive` gives, from
/// byte `done` on, when nobody cancels: each step compares the chunk
/// `verify_step` names with `verify_chunk`, until one differs or the
/// image ends. `Err` holds the drive offset the mismatch names.
pub open spec fn verify_run(image: Seq<u8>, drive: Seq<u8>, done: u64) -> Result<(), u64>
    decreases image.len() - done,
{
    match spec_verify_step(image.len() as u64, done, false) {
        VerifyAction::Compare(c) => match chunk_check(
            done as int,
            image.subrange(done as int, done + c.len),
            drive.subrange(done as int, done + c.len),
            c.len as int,
        ) {
            Err(FlashError::VerifyMismatch(at)) => Err(at),
            Ok(next) => if done < next <= image.len() {
                verify_run(image, drive, next)
            } else {
                Ok(())
            },
            Err(_) => Ok(()),
        },
        _ => Ok(()),
    }
}

proof fn lemma_verify_from(image: Seq<u8>, drive: Seq<u8>, done: u64)
    requires
        image.len() <= u64::MAX,
        drive.len() >= image.len(),
        done <= image.len(),
        forall|j: int| 0 <= j < done ==> image[j] == drive[j],
    ensures
        match verify_run(image, drive, done) {
            Ok(()) => forall|i: int| 0 <= i < image.len() ==> image[i] == drive[i],
            Err(at) => done <= at < image.len() && image[at as int] != drive[at as int] && forall|j: int|
                0 <= j < at ==> image[j] == drive[j],
        },
    decreases image.len() - done,
{
    let len = image.len() as u64;
    if done < len {
        let c = chunk_at(len, done);
        let n = c.len as int;
        let e = image.subrange(done as int, done + n);
        let a = drive.subrange(done as int, done + n);
        lemma_first_diff(e, a, n);
        match first_diff(e, a, n) {
            Some(i) => {
                assert(image[done + i] == e[i] && drive[done + i] == a[i]);
                assert forall|j: int| 0 <= j < done + i implies image[j] == drive[j] by {
                    if j >= done {
                        assert(image[j] == e[j - done] && drive[j] == a[j - done]);
                    }
                }
            },
            None => {
                let next = (done + n) as u64;
                assert forall|j: int| 0 <= j < next implies image[j] == drive[j] by {
                    if j >= done {
                        assert(image[j] == e[j - done] && drive[j] == a[j - done]);
                    }
                }
                lemma_verify_from(image, drive, next);
            },
        }
    }
}

/// Reading an image back names the first byte where the drive differs
/// from the image, over the whole image and not just within one chunk,
/// and succeeds exactly when no byte differs.
pub proof fn lemma_verify_run(image: Seq<u8>, drive: Seq<u8>)
    requires
        image.len() <= u64::MAX,
        drive.len() >= image.len(),
    ensures
        match verify_run(image, drive, 0) {
            Ok(()) => forall|i: int| 0 <= i < image.len() ==> image[i] == drive[i],
            Err(at) => at < image.len() && image[at as int] != drive[at as int] && forall|j: int|
                0 <= j < at ==> image[j] == drive[j],
        },
{
    lemma_verify_from(image, drive, 0);
}

/// One read-back of copy mode: bytes `from .. from + len` of the file of
/// placement `placement`, read as `read_len` bytes (whole sectors) from
/// drive offset `at`.
#[derive(Debug, Clone, Copy, PartialEq, Eq, Structural)]
pub struct VerifyRead {
    pub placement: usize,
    pub from: u64,
    pub at: u64,
    pub len: u64,
    pub read_len: u64,
}

/// `n` rounded up to whole sectors of `sector` bytes.
pub open spec fn round_up(n: int, sector: int) -> int {
    (n + sector - 1) / sector * sector
}

/// The read-backs of the file of placement `k`, `p`, from byte `from` on:
/// consecutive chunks of at most `CHUNK` bytes at the drive offset where
/// the partition and the placement put them.
pub open spec fn file_reads(k: usize, p: Placement, sector: int, from: int) -> Seq<VerifyRead>
    decreases p.size - from,
{
    if from < 0 || from >= p.size {
        Seq::empty()
    } else {
        let n = if p.size - from < CHUNK { p.size - from } else { CHUNK as int };
        seq![
            VerifyRead {
                placement: k,
                from: from as u64,
                at: (PARTITION_START + p.offset + from) as u64,
                len: n as u64,
                read_len: round_up(n, sector) as u64,
            },
        ] + file_reads(k, p, sector, from + n)
    }
}

/// The read-backs of the first `m` placements, placement after placement.
pub open spec fn verify_reads(ps: Seq<Placement>, sector: int, m: int) -> Seq<VerifyRead>
    decreases m,
{
    if m <= 0 {
        Seq::empty()
    } else {
        verify_reads(ps, sector, m - 1) + file_reads((m - 1) as usize, ps[m - 1], sector, 0)
    }
}

/// Where copy mode reads every file back: each placement in order, in
/// chunks from the drive offset `PARTITION_START + offset` on, covering
/// exactly its size.
pub fn copy_verify_reads(plan: &Plan) -> (r: Vec<VerifyRead>)
    requires
        plan.geometry.bytes_per_sector > 0,
        forall|i: int|
            0 <= i < plan.placements.len() ==> PARTITION_START + (#[trigger] plan.placements@[i]).offset
                + plan.placements@[i].size <= u64::MAX,
    ensures
        r@ == verify_reads(plan.placements@, plan.geometry.bytes_per_sector as int, plan.placements@.len() as int),
{
    let sector = plan.geometry.bytes_per_sector as u64;
    let ghost ps = plan.placements@;
    let mut out: Vec<VerifyRead> = Vec::new();
    let mut k: usize = 0;
    while k < plan.placements.len()
        invariant
            k <= plan.placements.len(),
            ps == plan.placements@,
            sector == plan.geometry.bytes_per_sector,
            0 < sector <= 0xFFFF_FFFF,
            forall|i: int|
                0 <= i < ps.len() ==> PARTITION_START + (#[trigger] ps[i]).offset + ps[i].size <= u64::MAX,
            out@ == verify_reads(ps, sector as int, k as int),
        decreases plan.placements.len() - k,
    {
        let p = plan.placements[k];
        assert(PARTITION_START + ps[k as int].offset + ps[k as int].size <= u64::MAX);
        let ghost base = out@;
        let mut from: u64 = 0;
        while from < p.size
            invariant
                from <= p.size,
                PARTITION_START + p.offset + p.size <= u64::MAX,
                0 < sector <= 0xFFFF_FFFF,
                out@ + file_reads(k, p, sector as int, from as int) == base + file_reads(k, p, sector as int, 0),
            decreases p.size - from,
        {
            let n = if p.size - from < CHUNK {
                p.size - from
            } else {
                CHUNK
            };
            let q = (n + sector - 1) / sector;
            assert(q * sector <= n + sector - 1) by (nonlinear_arith)
                requires
                    sector > 0,
                    q == (n + sector - 1) as int / sector as int,
            ;
            let read = VerifyRead {
                placement: k,
                from,
                at: PARTITION_START + p.offset + from,
                len: n,
                read_len: q * sector,
            };
            let ghost rest = file_reads(k, p, sector as int, from + n);
            assert(file_reads(k, p, sector as int, from as int) == seq![read] + rest);
            out.push(read);
            assert(out@ + rest =~= base + file_reads(k, p, sector as int, 0)) by {
                assert(out@ + rest =~= (out@.drop_last() + seq![read]) + rest);
                assert(out@.drop_last() + (seq![read] + rest) =~= (out@.drop_last() + seq![read]) + rest);
            }
            from = from + n;
        }
        assert(out@ =~= base + file_reads(k, p, sector as int, 0));
        k = k + 1;
    }
    out
}

/// One write of file-copy mode.
#[derive(Debug, Clone, Copy, PartialEq, Eq, Structural)]
pub enum CopyWrite {
    /// Write `len` zero bytes at `start`.
    Zero { start: u64, len: u64 },
    /// Write the volume's reserved sectors and both FATs at the partition
    /// start.
    Head,
    /// Write slot `k` of the plan's data region, after the slots before it.
    Slot(usize),
    /// Stop here if the user has cancelled.
    StopIfCancelled,
    /// Flush everything written so far to the device.
    Sync,
    /// Write the partition table at the start of the drive.
    Mbr,
}

/// The byte just past the last whole sector of a drive of `disk_size`
/// bytes.
pub open spec fn sector_end(disk_size: u64, sector: u64) -> int {
    disk_size / sector * sector
}

/// Where the zeroed tail of the drive starts: its last MiB, but never
/// before the partition.
pub open spec fn tail_start(disk_size: u64, sector: u64) -> int {
    let end = sector_end(disk_size, sector);
    let t = if end >= 1048576 { end - 1048576 } else { 0 };
    if t < PARTITION_START { PARTITION_START as int } else { t }
}

/// The writes of file-copy mode onto a drive of `disk_size` bytes with
/// sectors of `sector` bytes, for a volume of `slots` data slots: both
/// ends of the drive are cleared, the volume is written from its head
/// through every slot in order, and only once it has reached the drive
/// is the partition table written, last.
pub open spec fn copy_write_order(disk_size: u64, sector: u64, slots: nat) -> Seq<CopyWrite> {
    let end = sector_end(disk_size, sector);
    let tail = tail_start(disk_size, sector);
    seq![
        CopyWrite::Zero { start: 0, len: PARTITION_START },
        CopyWrite::Zero { start: tail as u64, len: (end - tail) as u64 },
        CopyWrite::Head,
    ] + Seq::new(slots, |k: int| CopyWrite::Slot(k as usize)) + seq![
        CopyWrite::StopIfCancelled,
        CopyWrite::Sync,
        CopyWrite::Mbr,
        CopyWrite::Sync,
    ]
}

/// The writes of file-copy mode for `plan` onto a drive of `disk_size`
/// bytes, in the order they are made.
pub fn copy_writes(disk_size: u64, plan: &Plan) -> (r: Vec<CopyWrite>)
    requires
        plan.geometry.bytes_per_sector > 0,
        sector_end(disk_size, plan.geometry.bytes_per_sector as u64) >= PARTITION_START,
    ensures
        r@ == copy_write_order(disk_size, plan.geometry.bytes_per_sector as u64, plan.slots@.len()),
{
    let sector = plan.geometry.bytes_per_sector as u64;
    let q = disk_size / sector;
    assert(q * sector <= disk_size) by (nonlinear_arith)
        requires
            sector > 0,
            q == disk_size / sector,
    ;
    let end = q * sector;
    let t = if end >= 1048576 {
        end - 1048576
    } else {
        0
    };
    let tail = if t < PARTITION_START {
        PARTITION_START
    } else {
        t
    };
    let mut out: Vec<CopyWrite> = Vec::new();
    out.push(CopyWrite::Zero { start: 0, len: PARTITION_START });
    out.push(CopyWrite::Zero { start: tail, len: end - tail });
    out.push(CopyWrite::Head);
    let n = plan.slots.len();
    let mut k: usize = 0;
    while k < n
        invariant
            k <= n,
            n == plan.slots@.len(),
            out@.len() == 3 + k,
            out@[0] == (CopyWrite::Zero { start: 0, len: PARTITION_START }),
            out@[1] == (CopyWrite::Zero { start: tail, len: (end - tail) as u64 }),
            out@[2] == CopyWrite::Head,
            forall|i: int| 3 <= i < 3 + k ==> out@[i] == CopyWrite::Slot((i - 3) as usize),
        decreases n - k,
    {
        out.push(CopyWrite::Slot(k));
        k = k + 1;
    }
    out.push(CopyWrite::StopIfCancelled);
    out.push(CopyWrite::Sync);
    out.push(CopyWrite::Mbr);
    out.push(CopyWrite::Sync);
    assert(out@ =~= copy_write_order(disk_size, sector, n as nat));
    out
}

} // verus!
