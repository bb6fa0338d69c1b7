//! Writing a disk image onto a whole USB drive, and the file-copy mode
//! that lays an ISO's files out on FAT32.
//!
//! The copy itself runs in chunks over the drive; what is decided here is
//! whether a drive may take an image, how the image is cut into writes
//! (the first chunk, which holds the partition table, is cleared first
//! and written last), and where a read-back first differs.
use vstd::prelude::*;
use crate::models::{decimal, digit, digit_char, push_char, push_decimal, BusType, ByteSize, Disk};
use crate::operations::ExecutionError;
use crate::platform::text;

pub mod fat32;
pub mod fat_names;
pub mod fat_entries;
pub mod fat_plan;
pub mod iso9660;
pub mod copy;
pub mod writer;

verus! {

/// Bytes per read/write; a multiple of every real sector size.
pub const CHUNK: u64 = 4194304;

/// Raw device I/O on Windows must be a whole number of sectors; 4 KiB
/// covers both 512-byte and 4Kn drives.
pub const SECTOR: u64 = 4096;

/// Flush to the device after this many bytes, so progress reflects what
/// reached the drive.
pub const SYNC_EVERY: u64 = 67108864;

/// Why writing an image failed.
#[derive(Debug)]
pub enum FlashError {
    Io(String),
    Cancelled,
    /// The drive differs from the image at this byte.
    VerifyMismatch(u64),
    Rejected(String),
    Platform(ExecutionError),
}

/// The message shown for a flash error.
pub open spec fn flash_text(e: FlashError) -> Seq<char> {
    match e {
        FlashError::Io(m) => m@,
        FlashError::Cancelled => "cancelled"@,
        FlashError::VerifyMismatch(at) => "verification failed: the drive differs from the image at byte "@
            + decimal(at as nat),
        FlashError::Rejected(m) => m@,
        FlashError::Platform(e) => crate::operations::execution_text(e),
    }
}

impl FlashError {
    /// The message shown to the user.
    pub fn message(&self) -> (r: String)
        ensures
            r@ == flash_text(*self),
    {
        match self {
            FlashError::Io(m) => m.clone(),
            FlashError::Cancelled => text("cancelled"),
            FlashError::VerifyMismatch(at) => {
                let mut m = text("verification failed: the drive differs from the image at byte ");
                push_decimal(&mut m, *at);
                m
            },
            FlashError::Rejected(m) => m.clone(),
            FlashError::Platform(e) => e.message(),
        }
    }
}

/// What a running write is doing.
#[derive(Debug, Clone, Copy, PartialEq, Eq, Structural)]
pub enum Phase {
    Preparing,
    Writing,
    Verifying,
    Finishing,
}

/// What the UI needs to know about a picked image file.
#[derive(Debug, Clone)]
pub struct ImageInfo {
    pub path: String,
    pub name: String,
    pub size: ByteSize,
    /// Whether the image starts with an MBR boot signature (0x55AA at byte
    /// 510): hybrid ISOs and raw disk images have one, Windows installer
    /// ISOs don't and won't boot when written raw.
    pub has_boot_sector: bool,
}

/// `len` rounded up to whole sectors.
pub open spec fn padded(len: nat) -> nat {
    ((len + 4095) / 4096 * 4096) as nat
}

pub fn padded_len(len: u64) -> (r: u64)
    requires
        len <= u64::MAX - (SECTOR - 1),
    ensures
        r == padded(len as nat),
        len <= r < len + SECTOR,
        r % SECTOR == 0,
{
    let x = len + (SECTOR - 1);
    let q = x / SECTOR;
    assert(q * SECTOR <= x && x < q * SECTOR + SECTOR) by (nonlinear_arith)
        requires
            q == x / 4096,
    ;
    assert((q * 4096int) % 4096int == 0) by (nonlinear_arith);
    q * SECTOR
}

/// `n / d` rounded to the nearest whole number, ties to the even one.
pub open spec fn round_half_even(n: nat, d: nat) -> nat
    recommends
        d > 0,
{
    let q = n / d;
    let r = n % d;
    if 2 * r < d {
        q
    } else if 2 * r > d {
        q + 1
    } else if q % 2 == 0 {
        q
    } else {
        q + 1
    }
}

/// A byte count in GiB with one decimal, e.g. `4.0 GiB`.
pub open spec fn gib_text(bytes: nat) -> Seq<char> {
    let t = round_half_even(bytes * 10, 1073741824);
    decimal(t / 10) + seq!['.', digit_char(t % 10)] + " GiB"@
}

pub fn gib(bytes: u64) -> (r: String)
    ensures
        r@ == gib_text(bytes as nat),
{
    let n: u128 = bytes as u128 * 10;
    let d: u128 = 1073741824;
    let q = n / d;
    let rem = n % d;
    let t: u128 = if 2 * rem < d {
        q
    } else if 2 * rem > d {
        q + 1
    } else if q % 2 == 0 {
        q
    } else {
        q + 1
    };
    assert(q <= n / d);
    assert(t <= 184467440738) by {
        assert(n <= 184467440737095516150);
        assert(q <= 184467440737095516150int / 1073741824int) by (nonlinear_arith)
            requires
                n <= 184467440737095516150,
                q == n / 1073741824,
        ;
    }
    let t64 = t as u64;
    let mut s = String::new();
    push_decimal(&mut s, t64 / 10);
    push_char(&mut s, '.');
    push_char(&mut s, digit(t64 % 10));
    s.append(" GiB");
    proof {
        reveal_strlit(" GiB");
        assert(s@ =~= gib_text(bytes as nat));
    }
    s
}

/// Why `disk` can't take an image of `image_len` bytes, if it can't.
pub open spec fn target_rejection(disk: Disk, image_len: u64) -> Option<Seq<char>> {
    if !(disk.bus is Usb) {
        Some("images can only be written to USB drives"@)
    } else if disk.read_only {
        Some("the drive is read-only"@)
    } else if image_len == 0 {
        Some("the image file is empty"@)
    } else if padded(image_len as nat) > disk.size.0 {
        Some(
            "the image ("@ + gib_text(image_len as nat) + ") is larger than the drive ("@ + gib_text(
                disk.size.0 as nat,
            ) + ")"@,
        )
    } else {
        None
    }
}

/// Checks that `disk` can take an image of `image_len` bytes: a writable
/// USB drive at least as large as the image padded to whole sectors.
pub fn check_target(disk: &Disk, image_len: u64) -> (r: Result<(), FlashError>)
    ensures
        match target_rejection(*disk, image_len) {
            Some(m) => r matches Err(FlashError::Rejected(s)) && s@ == m,
            None => r is Ok,
        },
{
    match disk.bus {
        BusType::Usb => {},
        _ => return Err(FlashError::Rejected(text("images can only be written to USB drives"))),
    }
    if disk.read_only {
        return Err(FlashError::Rejected(text("the drive is read-only")));
    }
    if image_len == 0 {
        return Err(FlashError::Rejected(text("the image file is empty")));
    }
    let too_large = if image_len > u64::MAX - (SECTOR - 1) {
        assert(padded(image_len as nat) >= image_len) by (nonlinear_arith)
            requires
                image_len > 0,
        ;
        assert(padded(image_len as nat) > disk.size.0) by {
            assert((image_len + 4095) / 4096 * 4096 > image_len - 1) by (nonlinear_arith)
                requires
                    image_len > 0,
            ;
            assert(image_len - 1 >= u64::MAX - 4095);
            assert((image_len + 4095) / 4096 >= (u64::MAX - 4095 + 1 + 4095) / 4096) by (nonlinear_arith)
                requires
                    image_len >= u64::MAX - 4095 + 1,
            ;
        }
        true
    } else {
        padded_len(image_len) > disk.size.0
    };
    if too_large {
        let mut m = text("the image (");
        m.append(gib(image_len).as_str());
        m.append(") is larger than the drive (");
        m.append(gib(disk.size.0).as_str());
        m.append(")");
        proof {
            reveal_strlit("the image (");
            reveal_strlit(") is larger than the drive (");
            reveal_strlit(")");
        }
        return Err(FlashError::Rejected(m));
    }
    Ok(())
}

/// Whether the first bytes of an image end in the MBR boot signature
/// 0x55 0xAA at byte 510.
pub open spec fn spec_has_boot_signature(head: Seq<u8>) -> bool {
    head.len() >= 512 && head[510] == 0x55 && head[511] == 0xAA
}

pub fn has_boot_signature(head: &Vec<u8>) -> (r: bool)
    ensures
        r == spec_has_boot_signature(head@),
{
    head.len() >= 512 && head[510] == 0x55 && head[511] == 0xAA
}

/// One write of the image body: `len` bytes from `offset` on, padded with
/// zeros to `padded` bytes.
#[derive(Debug, Clone, Copy, PartialEq, Eq, Structural)]
pub struct Chunk {
    pub offset: u64,
    pub len: u64,
    pub padded: u64,
}

/// The size of the first chunk, which holds the partition table: cleared
/// before anything else is written and written after everything else.
pub open spec fn head_len(image_len: nat) -> int {
    if image_len < CHUNK {
        image_len as int
    } else {
        CHUNK as int
    }
}

/// The first position below `n` where the two buffers differ.
pub fn first_difference(expected: &Vec<u8>, actual: &Vec<u8>, n: usize) -> (r: Option<usize>)
    requires
        n <= expected.len(),
        n <= actual.len(),
    ensures
        match r {
            Some(i) => i < n && expected@[i as int] != actual@[i as int] && forall|j: int|
                0 <= j < i ==> expected@[j] == actual@[j],
            None => forall|j: int| 0 <= j < n ==> expected@[j] == actual@[j],
        },
{
    let mut i: usize = 0;
    while i < n
        invariant
            i <= n,
            n <= expected.len(),
            n <= actual.len(),
            forall|j: int| 0 <= j < i ==> expected@[j] == actual@[j],
        decreases n - i,
    {
        if expected[i] != actual[i] {
            return Some(i);
        }
        i = i + 1;
    }
    None
}

/// Which drives may take an image: only a writable USB drive, only a
/// non-empty image, and only where the image rounded up to whole 4 KiB
/// sectors fits on the drive; every such drive takes it.
pub proof fn lemma_target_rules(disk: Disk, image_len: u64)
    ensures
        !(disk.bus is Usb) ==> target_rejection(disk, image_len) is Some,
        disk.read_only ==> target_rejection(disk, image_len) is Some,
        image_len == 0 ==> target_rejection(disk, image_len) is Some,
        (image_len + 4095) / 4096 * 4096 > disk.size.0 ==> target_rejection(disk, image_len) is Some,
        disk.bus is Usb && !disk.read_only && image_len > 0 && (image_len + 4095) / 4096 * 4096 <= disk.size.0
            ==> target_rejection(disk, image_len) is None,
{
}

} // verus!
